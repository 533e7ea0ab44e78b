//! Attributes (name/label or name/value pairs) attached to exported
//! items, and a walker that gathers them across associated attribute sets.

use vstd::prelude::*;
use std::collections::HashSet;
use crate::intern::{InternedStrings, seq_contains_at};

verus! {

/// The value of an attribute: an interned label or a number.
#[derive(Clone, Copy, Debug, PartialEq, Eq)]
pub enum ExportAttributeValue {
    Label(usize),
    Value(u64),
}

/// An attribute: an interned name and a value.
#[derive(Clone, Copy, Debug, PartialEq, Eq)]
pub struct ExportAttributePair {
    name: usize,
    value: ExportAttributeValue,
}

impl View for ExportAttributePair {
    type V = (usize, ExportAttributeValue);

    closed spec fn view(&self) -> (usize, ExportAttributeValue) {
        (self.name, self.value)
    }
}

/// The id `to_id` hands out for `s`: its existing id, or the next one.
pub open spec fn interned_id(strings: Seq<Seq<char>>, s: Seq<char>, id: usize) -> bool {
    ||| seq_contains_at(strings, s, id as int)
    ||| ((forall|i: int| !seq_contains_at(strings, s, i)) && id == strings.len())
}

impl ExportAttributePair {
    pub fn new(name: usize, value: ExportAttributeValue) -> (p: Self)
        ensures
            p@ == (name, value),
    {
        Self { name, value }
    }

    /// An attribute `name = label`, with both strings interned.
    pub fn new_label(name: &str, label: &str, strings: &mut InternedStrings) -> (p: Self)
        requires
            old(strings).wf(),
        ensures
            final(strings).wf(),
            p@.1 is Label,
            interned_id(old(strings)@, name@, p@.0),
            interned_id(strings_after(old(strings)@, name@), label@, p@.1->Label_0),
            final(strings)@ == strings_after(strings_after(old(strings)@, name@), label@),
    {
        let name_id = strings.to_id(name);
        let label_id = strings.to_id(label);
        Self { name: name_id, value: ExportAttributeValue::Label(label_id) }
    }

    /// An attribute `name = value`, with the name interned.
    pub fn new_value(name: &str, value: u64, strings: &mut InternedStrings) -> (p: Self)
        requires
            old(strings).wf(),
        ensures
            final(strings).wf(),
            p@.1 == ExportAttributeValue::Value(value),
            interned_id(old(strings)@, name@, p@.0),
            final(strings)@ == strings_after(old(strings)@, name@),
    {
        let name_id = strings.to_id(name);
        Self { name: name_id, value: ExportAttributeValue::Value(value) }
    }

    pub fn name(&self) -> (n: usize)
        ensures
            n == self@.0,
    {
        self.name
    }

    /// The name, or `None` when no interned string has its id.
    pub fn name_str<'a>(&self, strings: &'a InternedStrings) -> (s: Option<&'a str>)
        requires
            strings.wf(),
        ensures
            self@.0 < strings@.len() ==> s is Some && s->0@ == strings@[self@.0 as int],
            self@.0 >= strings@.len() ==> s is None,
    {
        match strings.from_id(self.name) {
            Ok(name) => Some(name),
            Err(_) => None,
        }
    }

    /// The label id, for a label attribute.
    pub fn label(&self) -> (l: Option<usize>)
        ensures
            l == (match self@.1 {
                ExportAttributeValue::Label(id) => Some(id),
                _ => None::<usize>,
            }),
    {
        match self.value {
            ExportAttributeValue::Label(id) => Some(id),
            _ => None,
        }
    }

    /// The label, for a label attribute whose id is among the interned
    /// strings.
    pub fn label_str<'a>(&self, strings: &'a InternedStrings) -> (s: Option<&'a str>)
        requires
            strings.wf(),
        ensures
            s matches Some(x) ==> self@.1 matches ExportAttributeValue::Label(id)
                && id < strings@.len() && x@ == strings@[id as int],
            s is None ==> !(self@.1 matches ExportAttributeValue::Label(id) && id < strings@.len()),
    {
        match self.label() {
            Some(id) => {
                match strings.from_id(id) {
                    Ok(label) => Some(label),
                    Err(_) => None,
                }
            },
            None => None,
        }
    }

    /// The value, for a value attribute.
    pub fn value(&self) -> (v: Option<u64>)
        ensures
            v == (match self@.1 {
                ExportAttributeValue::Value(x) => Some(x),
                _ => None::<u64>,
            }),
    {
        match self.value {
            ExportAttributeValue::Value(value) => Some(value),
            _ => None,
        }
    }
}

/// The interned strings after interning `s`.
pub open spec fn strings_after(strings: Seq<Seq<char>>, s: Seq<char>) -> Seq<Seq<char>> {
    if exists|i: int| seq_contains_at(strings, s, i) {
        strings
    } else {
        strings.push(s)
    }
}

/// Attributes and the ids of other attribute sets associated with them.
pub struct ExportAttributes {
    attributes: Vec<ExportAttributePair>,
    associated_ids: Vec<usize>,
}

impl ExportAttributes {
    pub closed spec fn spec_attributes(&self) -> Seq<ExportAttributePair> {
        self.attributes@
    }

    pub closed spec fn spec_associated_ids(&self) -> Seq<usize> {
        self.associated_ids@
    }

    pub fn new() -> (a: Self)
        ensures
            a.spec_attributes().len() == 0,
            a.spec_associated_ids().len() == 0,
    {
        Self { attributes: Vec::new(), associated_ids: Vec::new() }
    }

    pub fn push_association(&mut self, attributes_id: usize)
        ensures
            final(self).spec_associated_ids() == old(self).spec_associated_ids().push(attributes_id),
            final(self).spec_attributes() == old(self).spec_attributes(),
    {
        self.associated_ids.push(attributes_id);
    }

    pub fn push(&mut self, pair: ExportAttributePair)
        ensures
            final(self).spec_attributes() == old(self).spec_attributes().push(pair),
            final(self).spec_associated_ids() == old(self).spec_associated_ids(),
    {
        self.attributes.push(pair);
    }

    /// Releases spare capacity; the contents stay.
    pub fn shrink(&mut self)
        ensures
            final(self).spec_attributes() == old(self).spec_attributes(),
            final(self).spec_associated_ids() == old(self).spec_associated_ids(),
    {
        crate::util::vec_shrink_to_fit(&mut self.attributes);
        crate::util::vec_shrink_to_fit(&mut self.associated_ids);
    }

    pub fn associated_ids(&self) -> (ids: &[usize])
        ensures
            ids@ == self.spec_associated_ids(),
    {
        self.associated_ids.as_slice()
    }

    pub fn attributes(&self) -> (a: &[ExportAttributePair])
        ensures
            a@ == self.spec_attributes(),
    {
        self.attributes.as_slice()
    }
}

impl Default for ExportAttributes {
    fn default() -> (a: Self)
        ensures
            a.spec_attributes().len() == 0,
            a.spec_associated_ids().len() == 0,
    {
        Self::new()
    }
}

/// A worklist walk over attribute sets: ids are pushed at most once per
/// walk and popped last-in first-out, and the attributes found are
/// gathered.
pub struct ExportAttributeWalker {
    ids: Vec<usize>,
    seen: HashSet<usize>,
    attributes: Vec<ExportAttributePair>,
}

impl ExportAttributeWalker {
    /// The ids waiting to be visited (the last is popped first).
    pub closed spec fn spec_ids(&self) -> Seq<usize> {
        self.ids@
    }

    /// The ids pushed since the walk started.
    pub closed spec fn spec_seen(&self) -> Set<usize> {
        self.seen@
    }

    /// The attributes gathered since the walk started.
    pub closed spec fn spec_attributes(&self) -> Seq<ExportAttributePair> {
        self.attributes@
    }

    pub fn new() -> (w: Self)
        ensures
            w.spec_ids().len() == 0,
            w.spec_seen().is_empty(),
            w.spec_attributes().len() == 0,
    {
        Self { ids: Vec::new(), seen: HashSet::new(), attributes: Vec::new() }
    }

    /// Starts a new walk: forgets all ids and attributes.
    pub fn start(&mut self)
        ensures
            final(self).spec_ids().len() == 0,
            final(self).spec_seen().is_empty(),
            final(self).spec_attributes().len() == 0,
    {
        self.ids.clear();
        self.seen.clear();
        self.attributes.clear();
    }

    /// The most recently pushed id still waiting, if any.
    pub fn pop_id(&mut self) -> (id: Option<usize>)
        ensures
            old(self).spec_ids().len() == 0 ==> id is None && final(self).spec_ids() == old(self).spec_ids(),
            old(self).spec_ids().len() > 0 ==> id == Some(old(self).spec_ids().last())
                && final(self).spec_ids() == old(self).spec_ids().drop_last(),
            final(self).spec_seen() == old(self).spec_seen(),
            final(self).spec_attributes() == old(self).spec_attributes(),
    {
        self.ids.pop()
    }

    /// Gathers `attributes`.
    pub fn push_attributes(&mut self, attributes: &[ExportAttributePair])
        ensures
            final(self).spec_attributes() == old(self).spec_attributes() + attributes@,
            final(self).spec_ids() == old(self).spec_ids(),
            final(self).spec_seen() == old(self).spec_seen(),
    {
        let mut i: usize = 0;
        while i < attributes.len()
            invariant
                i <= attributes@.len(),
                self.attributes@ == old(self).spec_attributes() + attributes@.take(i as int),
                self.ids == old(self).ids,
                self.seen == old(self).seen,
            decreases attributes@.len() - i,
        {
            self.attributes.push(attributes[i]);
            assert(self.attributes@ =~= old(self).spec_attributes() + attributes@.take(i + 1));
            i = i + 1;
        }
        assert(attributes@.take(i as int) =~= attributes@);
    }

    /// Queues `attributes_id` unless it was pushed before in this walk.
    pub fn push_id(&mut self, attributes_id: usize)
        ensures
            final(self).spec_seen() == old(self).spec_seen().insert(attributes_id),
            old(self).spec_seen().contains(attributes_id) ==> final(self).spec_ids() == old(self).spec_ids(),
            !old(self).spec_seen().contains(attributes_id) ==>
                final(self).spec_ids() == old(self).spec_ids().push(attributes_id),
            final(self).spec_attributes() == old(self).spec_attributes(),
    {
        proof {
            broadcast use vstd::std_specs::hash::group_hash_axioms;
        }
        if self.seen.insert(attributes_id) {
            self.ids.push(attributes_id);
        }
    }

    pub fn attributes(&self) -> (a: &[ExportAttributePair])
        ensures
            a@ == self.spec_attributes(),
    {
        self.attributes.as_slice()
    }
}

impl Default for ExportAttributeWalker {
    fn default() -> (w: Self)
        ensures
            w.spec_ids().len() == 0,
            w.spec_seen().is_empty(),
            w.spec_attributes().len() == 0,
    {
        Self::new()
    }
}

} // verus!
