//! Symbols found for the addresses of a mapping.

use vstd::prelude::*;

verus! {

/// A named address range `start..=end`; the name is an interned string id.
#[derive(Clone, Copy, Debug)]
pub struct ExportSymbol {
    name_id: usize,
    start: u64,
    end: u64,
}

impl View for ExportSymbol {
    type V = (usize, u64, u64);

    closed spec fn view(&self) -> (usize, u64, u64) {
        (self.name_id, self.start, self.end)
    }
}

impl ExportSymbol {
    pub fn new(name_id: usize, start: u64, end: u64) -> (s: Self)
        ensures
            s@ == (name_id, start, end),
    {
        Self { name_id, start, end }
    }

    pub fn name_id(&self) -> (n: usize)
        ensures
            n == self@.0,
    {
        self.name_id
    }

    pub fn start(&self) -> (s: u64)
        ensures
            s == self@.1,
    {
        self.start
    }

    pub fn end(&self) -> (e: u64)
        ensures
            e == self@.2,
    {
        self.end
    }
}

/// A symbol as a symbol reader gives it: a file range and a name.
pub struct SymbolEntry {
    start: u64,
    end: u64,
    name: String,
}

impl SymbolEntry {
    pub closed spec fn spec_start(&self) -> u64 {
        self.start
    }

    pub closed spec fn spec_end(&self) -> u64 {
        self.end
    }

    pub closed spec fn spec_name(&self) -> Seq<char> {
        self.name@
    }

    pub fn new(start: u64, end: u64, name: String) -> (e: Self)
        ensures
            e.spec_start() == start,
            e.spec_end() == end,
            e.spec_name() == name@,
    {
        Self { start, end, name }
    }

    pub fn start(&self) -> (s: u64)
        ensures
            s == self.spec_start(),
    {
        self.start
    }

    pub fn end(&self) -> (e: u64)
        ensures
            e == self.spec_end(),
    {
        self.end
    }

    pub fn name(&self) -> (n: &str)
        ensures
            n@ == self.spec_name(),
    {
        self.name.as_str()
    }
}

} // verus!
