//! Per-module metadata (build ids, debug links) keyed by device node.

use vstd::prelude::*;
use super::ExportDevNode;
use crate::intern::{InternedStrings, seq_contains_at};
use crate::exporting::attributes::{interned_id, strings_after};

verus! {

/// The integer a device node is found by: its device number in the high
/// 64 bits and its inode in the low 64 bits.
pub open spec fn node_key(k: (u64, u64)) -> u128 {
    (k.0 as u128 * 0x1_0000_0000_0000_0000 + k.1 as u128) as u128
}

/// Different device nodes have different keys.
pub proof fn lemma_node_key_injective(a: (u64, u64), b: (u64, u64))
    requires
        node_key(a) == node_key(b),
    ensures
        a == b,
{
    assert(a.0 as u128 * 0x1_0000_0000_0000_0000 + a.1 as u128 <= u128::MAX) by (nonlinear_arith)
        requires
            a.0 <= u64::MAX,
            a.1 <= u64::MAX,
    ;
    assert(b.0 as u128 * 0x1_0000_0000_0000_0000 + b.1 as u128 <= u128::MAX) by (nonlinear_arith)
        requires
            b.0 <= u64::MAX,
            b.1 <= u64::MAX,
    ;
    assert(a.0 == b.0 && a.1 == b.1) by (nonlinear_arith)
        requires
            a.0 as int * 0x1_0000_0000_0000_0000 + a.1 as int == b.0 as int * 0x1_0000_0000_0000_0000 + b.1 as int,
            0 <= a.1 < 0x1_0000_0000_0000_0000,
            0 <= b.1 < 0x1_0000_0000_0000_0000,
            0 <= a.0,
            0 <= b.0,
    ;
}

/// The key of a device node.
fn node_key_of(node: &ExportDevNode) -> (k: u128)
    ensures
        k == node_key(node@),
{
    let dev = node.dev;
    let ino = node.ino;
    assert(dev as u128 * 0x1_0000_0000_0000_0000 + ino as u128 <= u128::MAX) by (nonlinear_arith)
        requires
            dev <= u64::MAX,
            ino <= u64::MAX,
    ;
    dev as u128 * 0x1_0000_0000_0000_0000 + ino as u128
}

/// A map from device nodes to values, kept in a hash map by each node's
/// integer key.
pub struct DevNodeMap<V> {
    entries: std::collections::HashMap<u128, V>,
}

impl<V> View for DevNodeMap<V> {
    type V = Map<(u64, u64), V>;

    closed spec fn view(&self) -> Map<(u64, u64), V> {
        Map::new(|k: (u64, u64)| self.entries@.contains_key(node_key(k)), |k: (u64, u64)| self.entries@[node_key(k)])
    }
}

impl<V> DevNodeMap<V> {
    /// Always holds: every integer key is the key of one device node, so
    /// the hash map alone keeps the map.
    pub closed spec fn wf(&self) -> bool {
        true
    }

    pub fn new() -> (m: Self)
        ensures
            m.wf(),
            m@ == Map::<(u64, u64), V>::empty(),
    {
        broadcast use vstd::std_specs::hash::group_hash_axioms;
        let m = Self { entries: std::collections::HashMap::new() };
        assert(m@ =~= Map::<(u64, u64), V>::empty());
        m
    }

    pub fn contains(&self, key: &ExportDevNode) -> (b: bool)
        requires
            self.wf(),
        ensures
            b == self@.contains_key(key@),
    {
        broadcast use vstd::std_specs::hash::group_hash_axioms;
        let k = node_key_of(key);
        self.entries.contains_key(&k)
    }

    pub fn get(&self, key: &ExportDevNode) -> (r: Option<&V>)
        requires
            self.wf(),
        ensures
            r matches Some(v) ==> self@.contains_key(key@) && *v == self@[key@],
            r is None ==> !self@.contains_key(key@),
    {
        broadcast use vstd::std_specs::hash::group_hash_axioms;
        let k = node_key_of(key);
        self.entries.get(&k)
    }

    /// Sets the value under `key`, replacing any value it had.
    pub fn insert(&mut self, key: ExportDevNode, value: V)
        requires
            old(self).wf(),
        ensures
            final(self).wf(),
            final(self)@ == old(self)@.insert(key@, value),
    {
        broadcast use vstd::std_specs::hash::group_hash_axioms;
        let k = node_key_of(&key);
        self.entries.insert(k, value);
        proof {
            assert forall|n: (u64, u64)| #[trigger] self@.contains_key(n) <==> old(self)@.insert(key@, value).contains_key(n) by {
                if node_key(n) == k {
                    lemma_node_key_injective(n, key@);
                }
            }
            assert forall|n: (u64, u64)| #[trigger] self@.contains_key(n) implies self@[n] == old(self)@.insert(key@, value)[n] by {
                if node_key(n) == k {
                    lemma_node_key_injective(n, key@);
                }
            }
            assert(self@ =~= old(self)@.insert(key@, value));
        }
    }
}

/// The metadata of an ELF module: its build id and the interned id of its
/// debug link (0 when it has none).
pub struct ElfModuleMetadata {
    build_id: Option<[u8; 20]>,
    debug_link_id: usize,
}

impl ElfModuleMetadata {
    pub closed spec fn spec_build_id(&self) -> Option<[u8; 20]> {
        self.build_id
    }

    pub closed spec fn spec_debug_link_id(&self) -> usize {
        self.debug_link_id
    }

    pub fn new() -> (m: Self)
        ensures
            m.spec_build_id() is None,
            m.spec_debug_link_id() == 0,
    {
        Self { build_id: None, debug_link_id: 0 }
    }

    pub fn build_id(&self) -> (b: Option<&[u8; 20]>)
        ensures
            b matches Some(x) ==> self.spec_build_id() == Some(*x),
            b is None ==> self.spec_build_id() is None,
    {
        match &self.build_id {
            Some(b) => Some(b),
            None => None,
        }
    }

    pub fn set_build_id(&mut self, build_id: Option<&[u8; 20]>)
        ensures
            final(self).spec_build_id() == (match build_id {
                Some(x) => Some(*x),
                None => None::<[u8; 20]>,
            }),
            final(self).spec_debug_link_id() == old(self).spec_debug_link_id(),
    {
        self.build_id = match build_id {
            Some(b) => Some(*b),
            None => None,
        };
    }

    pub fn debug_link_id(&self) -> (id: usize)
        ensures
            id == self.spec_debug_link_id(),
    {
        self.debug_link_id
    }

    /// The debug link, or `None` when no interned string has its id.
    pub fn debug_link<'a>(&self, strings: &'a InternedStrings) -> (s: Option<&'a str>)
        requires
            strings.wf(),
        ensures
            self.spec_debug_link_id() < strings@.len() ==> s is Some
                && s->0@ == strings@[self.spec_debug_link_id() as int],
            self.spec_debug_link_id() >= strings@.len() ==> s is None,
    {
        match strings.from_id(self.debug_link_id) {
            Ok(link) => Some(link),
            Err(_) => None,
        }
    }

    /// Interns the debug link and keeps its id; no link sets the id to 0.
    pub fn set_debug_link(&mut self, debug_link: Option<String>, strings: &mut InternedStrings)
        requires
            old(strings).wf(),
        ensures
            final(strings).wf(),
            final(self).spec_build_id() == old(self).spec_build_id(),
            match debug_link {
                Some(link) => interned_id(old(strings)@, link@, final(self).spec_debug_link_id())
                    && final(strings)@ == strings_after(old(strings)@, link@),
                None => final(self).spec_debug_link_id() == 0 && final(strings)@ == old(strings)@,
            },
    {
        match debug_link {
            Some(link) => {
                self.debug_link_id = strings.to_id(link.as_str());
            },
            None => {
                self.debug_link_id = 0;
            },
        }
    }
}

/// Metadata of a module.
pub enum ModuleMetadata {
    Elf(ElfModuleMetadata),
}

/// Module metadata by device node.
pub struct ModuleMetadataLookup {
    metadata: DevNodeMap<ModuleMetadata>,
}

impl View for ModuleMetadataLookup {
    type V = Map<(u64, u64), ModuleMetadata>;

    closed spec fn view(&self) -> Map<(u64, u64), ModuleMetadata> {
        self.metadata@
    }
}

impl ModuleMetadataLookup {
    pub closed spec fn wf(&self) -> bool {
        self.metadata.wf()
    }

    pub fn new() -> (l: Self)
        ensures
            l.wf(),
            l@ == Map::<(u64, u64), ModuleMetadata>::empty(),
    {
        Self { metadata: DevNodeMap::new() }
    }

    pub fn contains(&self, key: &ExportDevNode) -> (b: bool)
        requires
            self.wf(),
        ensures
            b == self@.contains_key(key@),
    {
        self.metadata.contains(key)
    }

    /// Sets the metadata of `key`, replacing any it had.
    pub fn insert(&mut self, key: ExportDevNode, value: ModuleMetadata)
        requires
            old(self).wf(),
        ensures
            final(self).wf(),
            final(self)@ == old(self)@.insert(key@, value),
    {
        self.metadata.insert(key, value)
    }

    pub fn get(&self, key: &ExportDevNode) -> (r: Option<&ModuleMetadata>)
        requires
            self.wf(),
        ensures
            r matches Some(v) ==> self@.contains_key(key@) && *v == self@[key@],
            r is None ==> !self@.contains_key(key@),
    {
        self.metadata.get(key)
    }
}

} // verus!
