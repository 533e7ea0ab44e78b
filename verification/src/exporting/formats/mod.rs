//! Export file formats.

pub mod nettrace;
