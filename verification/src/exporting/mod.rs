//! The exporting model: processes, mappings, samples, symbols, spans,
//! records and attributes collected from a trace.

pub mod attributes;
pub mod cswitch;
pub mod symfiles;
pub mod symtext;
pub mod formats;
pub mod lookup;
pub mod machine;
pub mod mappings;
pub mod modulemetadata;
pub mod os;
pub mod process;
pub mod record;
pub mod scripting;
pub mod span;
pub mod symbols;

use vstd::prelude::*;

verus! {

/// The first address of the kernel half of the address space.
pub const KERNEL_START: u64 = 0xFFFF800000000000;

/// The last address of the kernel half of the address space.
pub const KERNEL_END: u64 = 0xFFFFFFFFFFFFFFFF;

/// The device and inode that identify a mapped file.
#[derive(Clone, Copy, Debug, PartialEq, Eq, Hash, Default)]
pub struct ExportDevNode {
    dev: u64,
    ino: u64,
}

impl View for ExportDevNode {
    type V = (u64, u64);

    closed spec fn view(&self) -> (u64, u64) {
        (self.dev, self.ino)
    }
}

impl ExportDevNode {
    pub fn new(dev: u64, ino: u64) -> (n: Self)
        ensures
            n@ == (dev, ino),
    {
        Self { dev, ino }
    }

    /// The node of a file on device `maj:min` (the minor number or-ed into
    /// the major number shifted left by 8 bits in 32 bits).
    pub fn from_parts(maj: u32, min: u32, ino: u64) -> (n: Self)
        ensures
            n@ == (((maj << 8u32) as u64) | (min as u64), ino),
    {
        Self { dev: ((maj << 8u32) as u64) | (min as u64), ino }
    }

    pub fn dev(&self) -> (d: u64)
        ensures
            d == self@.0,
    {
        self.dev
    }

    pub fn ino(&self) -> (i: u64)
        ensures
            i == self@.1,
    {
        self.ino
    }

    /// Whether two nodes name the same file.
    pub fn same(&self, other: &Self) -> (b: bool)
        ensures
            b == (self@ == other@),
    {
        self.dev == other.dev && self.ino == other.ino
    }
}

} // verus!
