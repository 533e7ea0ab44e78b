use vstd::prelude::*;

pub mod guid;
pub mod intern;
pub mod event;
pub mod text;
pub mod nettrace;
pub mod util;
pub mod exporting;
pub mod configuration;
pub mod pathbuf_ext;
pub mod etw;
pub mod callstack;
pub mod dotnet;

pub use pathbuf_ext::PathBufInteger;

pub use guid::{Guid, guid_from_provider_name_hash};

verus! {

} // verus!
