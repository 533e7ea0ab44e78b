//! Timed spans with nested child spans.

use vstd::prelude::*;
use crate::intern::InternedStrings;

verus! {

/// A named span of time with child spans.
pub struct ExportSpan {
    name_id: usize,
    start_time: u64,
    end_time: u64,
    children: Vec<ExportSpan>,
}

impl ExportSpan {
    pub closed spec fn spec_name_id(&self) -> usize {
        self.name_id
    }

    pub closed spec fn spec_start_time(&self) -> u64 {
        self.start_time
    }

    pub closed spec fn spec_end_time(&self) -> u64 {
        self.end_time
    }

    pub closed spec fn spec_children(&self) -> Seq<ExportSpan> {
        self.children@
    }

    /// A span starting (and, for now, ending) at `start_time`, with no
    /// children.
    pub fn start(name_id: usize, start_time: u64, capacity: usize) -> (s: Self)
        ensures
            s.spec_name_id() == name_id,
            s.spec_start_time() == start_time,
            s.spec_end_time() == start_time,
            s.spec_children().len() == 0,
    {
        Self { name_id, start_time, end_time: start_time, children: Vec::with_capacity(capacity) }
    }

    /// The span's name, or `""` when no interned string has its id.
    pub fn name<'a>(&self, strings: &'a InternedStrings) -> (n: &'a str)
        requires
            strings.wf(),
        ensures
            self.spec_name_id() < strings@.len() ==> n@ == strings@[self.spec_name_id() as int],
            self.spec_name_id() >= strings@.len() ==> n@ == Seq::<char>::empty(),
    {
        match strings.from_id(self.name_id) {
            Ok(name) => name,
            Err(_) => {
                let empty = "";
                proof { reveal_strlit(""); }
                empty
            },
        }
    }

    pub fn name_id(&self) -> (n: usize)
        ensures
            n == self.spec_name_id(),
    {
        self.name_id
    }

    pub fn start_time(&self) -> (t: u64)
        ensures
            t == self.spec_start_time(),
    {
        self.start_time
    }

    pub fn start_time_mut(&mut self) -> (t: &mut u64)
        ensures
            *t == old(self).spec_start_time(),
            final(self).spec_start_time() == *final(t),
            final(self).spec_end_time() == old(self).spec_end_time(),
            final(self).spec_name_id() == old(self).spec_name_id(),
            final(self).spec_children() == old(self).spec_children(),
    {
        &mut self.start_time
    }

    pub fn end_time(&self) -> (t: u64)
        ensures
            t == self.spec_end_time(),
    {
        self.end_time
    }

    pub fn end_time_mut(&mut self) -> (t: &mut u64)
        ensures
            *t == old(self).spec_end_time(),
            final(self).spec_end_time() == *final(t),
            final(self).spec_start_time() == old(self).spec_start_time(),
            final(self).spec_name_id() == old(self).spec_name_id(),
            final(self).spec_children() == old(self).spec_children(),
    {
        &mut self.end_time
    }

    pub fn children(&self) -> (c: &[ExportSpan])
        ensures
            c@ == self.spec_children(),
    {
        self.children.as_slice()
    }

    pub fn children_mut(&mut self) -> (c: &mut [ExportSpan])
        ensures
            c@ == old(self).spec_children(),
            final(self).spec_children() == final(c)@,
            final(self).spec_start_time() == old(self).spec_start_time(),
            final(self).spec_end_time() == old(self).spec_end_time(),
            final(self).spec_name_id() == old(self).spec_name_id(),
    {
        self.children.as_mut_slice()
    }

    /// The span's length in time.
    pub fn qpc_duration(&self) -> (d: u64)
        requires
            self.spec_start_time() <= self.spec_end_time(),
        ensures
            d == self.spec_end_time() - self.spec_start_time(),
    {
        self.end_time - self.start_time
    }

    /// Ends the last child span, if there is one, at `end_time`.
    pub fn mark_last_child_end(&mut self, end_time: u64)
        ensures
            final(self).spec_name_id() == old(self).spec_name_id(),
            final(self).spec_start_time() == old(self).spec_start_time(),
            final(self).spec_end_time() == old(self).spec_end_time(),
            final(self).spec_children().len() == old(self).spec_children().len(),
            forall|i: int| 0 <= i < old(self).spec_children().len() - 1
                ==> #[trigger] final(self).spec_children()[i] == old(self).spec_children()[i],
            old(self).spec_children().len() > 0 ==> {
                let last = final(self).spec_children().last();
                let was = old(self).spec_children().last();
                &&& last.spec_end_time() == end_time
                &&& last.spec_start_time() == was.spec_start_time()
                &&& last.spec_name_id() == was.spec_name_id()
                &&& last.spec_children() == was.spec_children()
            },
    {
        let n = self.children.len();
        if n > 0 {
            let mut last = self.children.pop().unwrap();
            last.mark_end(end_time);
            self.children.push(last);
            assert forall|i: int| 0 <= i < old(self).spec_children().len() - 1
                implies #[trigger] self.children@[i] == old(self).spec_children()[i] by {}
        }
    }

    /// Ends the span at `end_time`.
    pub fn mark_end(&mut self, end_time: u64)
        ensures
            final(self).spec_end_time() == end_time,
            final(self).spec_start_time() == old(self).spec_start_time(),
            final(self).spec_name_id() == old(self).spec_name_id(),
            final(self).spec_children() == old(self).spec_children(),
    {
        self.end_time = end_time;
        crate::util::vec_shrink_to_fit(&mut self.children);
    }

    /// Appends a child span.
    pub fn add_child(&mut self, span: ExportSpan)
        ensures
            final(self).spec_children() == old(self).spec_children().push(span),
            final(self).spec_start_time() == old(self).spec_start_time(),
            final(self).spec_end_time() == old(self).spec_end_time(),
            final(self).spec_name_id() == old(self).spec_name_id(),
    {
        self.children.push(span);
    }
}

impl Default for ExportSpan {
    fn default() -> (s: Self)
        ensures
            s.spec_name_id() == 0,
            s.spec_start_time() == 0,
            s.spec_end_time() == 0,
            s.spec_children().len() == 0,
    {
        Self { name_id: 0, start_time: 0, end_time: 0, children: Vec::new() }
    }
}

} // verus!
