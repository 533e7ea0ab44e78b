//! Where a collection session keeps what it collects.

use vstd::prelude::*;

verus! {

/// Where a session stores its data: in a file, or in memory.
pub enum SessionStorage<'a> {
    File(FileSessionArgs<'a>),
    InMemory,
}

/// The arguments of file storage: the file's path.
pub struct FileSessionArgs<'a> {
    path: &'a str,
}

impl<'a> FileSessionArgs<'a> {
    pub closed spec fn spec_path(&self) -> Seq<char> {
        self.path@
    }

    pub fn new(path: &'a str) -> (a: Self)
        ensures
            a.spec_path() == path@,
    {
        FileSessionArgs { path }
    }

    pub fn get_path(&self) -> (p: &'a str)
        ensures
            p@ == self.spec_path(),
    {
        self.path
    }
}

/// A collection session and its storage.
pub struct OneCollectSession<'a> {
    storage: SessionStorage<'a>,
}

impl<'a> OneCollectSession<'a> {
    pub closed spec fn spec_storage(&self) -> SessionStorage<'a> {
        self.storage
    }

    pub fn new(storage: SessionStorage<'a>) -> (s: Self)
        ensures
            s.spec_storage() == storage,
    {
        OneCollectSession { storage }
    }

    pub fn get_storage(&self) -> (s: &SessionStorage<'a>)
        ensures
            *s == self.spec_storage(),
    {
        &self.storage
    }
}

} // verus!
