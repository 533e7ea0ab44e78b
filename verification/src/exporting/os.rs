//! Operating-system parts of exporting: global process ids, settings and
//! binary metadata.

use vstd::prelude::*;
use std::collections::HashMap;
use super::ExportDevNode;
use vstd::std_specs::hash::spec_hash_map_iter;
use vstd::std_specs::iter::IteratorSpec;
use super::modulemetadata::DevNodeMap;
use crate::event::{u16_from_le_seq, read_u16_le};
use crate::text::{char_codes, unit_code, push_unit_char};

verus! {

broadcast use vstd::std_specs::hash::group_hash_axioms;

/// Exporting settings of the operating system layer.
pub struct OSExportSettings {
    process_fs: bool,
}

impl OSExportSettings {
    pub closed spec fn spec_process_fs(&self) -> bool {
        self.process_fs
    }

    /// Settings that read process details from the process file system.
    pub fn new() -> (s: Self)
        ensures
            s.spec_process_fs(),
    {
        Self { process_fs: true }
    }

    pub fn process_fs(&self) -> (b: bool)
        ensures
            b == self.spec_process_fs(),
    {
        self.process_fs
    }

    /// The same settings without reading the process file system.
    pub fn without_process_fs(self) -> (s: Self)
        ensures
            !s.spec_process_fs(),
    {
        let mut clone = self;
        clone.process_fs = false;
        clone
    }
}

/// A CPU sample: the CPU and instruction pointer.
#[derive(Clone, Copy, Debug)]
pub struct CpuProfile {
    cpu: u32,
    ip: u64,
}

impl View for CpuProfile {
    type V = (u32, u64);

    closed spec fn view(&self) -> (u32, u64) {
        (self.cpu, self.ip)
    }
}

impl CpuProfile {
    pub fn new(cpu: u32, ip: u64) -> (p: Self)
        ensures
            p@ == (cpu, ip),
    {
        Self { cpu, ip }
    }
}

/// What a CPU sample is found by: its time and thread.
#[derive(Clone, Copy, Debug, PartialEq, Eq, Hash)]
pub struct CpuProfileKey {
    time: u64,
    tid: u32,
}

impl View for CpuProfileKey {
    type V = (u64, u32);

    closed spec fn view(&self) -> (u64, u32) {
        (self.time, self.tid)
    }
}

impl CpuProfileKey {
    pub fn new(time: u64, tid: u32) -> (k: Self)
        ensures
            k@ == (time, tid),
    {
        Self { time, tid }
    }
}

/// Machine-wide process ids: each local process id is given a global id,
/// drawn from a counter so that no two allocations give the same id.
pub struct OSExportMachine {
    pid_mapping: HashMap<u32, u32>,
    pid_index: u32,
}

impl OSExportMachine {
    /// The global id of each local process id.
    pub closed spec fn spec_pids(&self) -> Map<u32, u32> {
        self.pid_mapping@
    }

    /// The next global id to hand out.
    pub closed spec fn spec_next(&self) -> u32 {
        self.pid_index
    }

    /// Every global id handed out is below the next one.
    pub closed spec fn wf(&self) -> bool {
        forall|k: u32| #[trigger] self.pid_mapping@.contains_key(k) ==> self.pid_mapping@[k] < self.pid_index
    }

    pub fn new() -> (m: Self)
        ensures
            m.wf(),
            m.spec_pids() == Map::<u32, u32>::empty(),
            m.spec_next() == 0,
    {
        Self { pid_mapping: HashMap::new(), pid_index: 0 }
    }

    /// The global id of `local_pid`, allocating one when it has none.
    pub fn get_or_alloc_global_pid(&mut self, local_pid: u32) -> (pid: u32)
        requires
            old(self).wf(),
            !old(self).spec_pids().contains_key(local_pid) ==> old(self).spec_next() < u32::MAX,
        ensures
            final(self).wf(),
            old(self).spec_pids().contains_key(local_pid) ==> pid == old(self).spec_pids()[local_pid]
                && final(self).spec_pids() == old(self).spec_pids()
                && final(self).spec_next() == old(self).spec_next(),
            !old(self).spec_pids().contains_key(local_pid) ==> pid == old(self).spec_next()
                && final(self).spec_pids() == old(self).spec_pids().insert(local_pid, pid)
                && final(self).spec_next() == old(self).spec_next() + 1,
    {
        match self.get_global_pid(local_pid) {
            Some(global_pid) => global_pid,
            None => self.alloc_global_pid(local_pid),
        }
    }

    /// The global id of `local_pid`, if it has one.
    pub fn get_global_pid(&self, local_pid: u32) -> (pid: Option<u32>)
        ensures
            pid == (if self.spec_pids().contains_key(local_pid) {
                Some(self.spec_pids()[local_pid])
            } else {
                None::<u32>
            }),
    {
        match self.pid_mapping.get(&local_pid) {
            Some(pid) => Some(*pid),
            None => None,
        }
    }

    /// Gives `local_pid` a new global id, replacing any it had.
    pub fn alloc_global_pid(&mut self, local_pid: u32) -> (pid: u32)
        requires
            old(self).wf(),
            old(self).spec_next() < u32::MAX,
        ensures
            final(self).wf(),
            pid == old(self).spec_next(),
            final(self).spec_pids() == old(self).spec_pids().insert(local_pid, pid),
            final(self).spec_next() == old(self).spec_next() + 1,
            forall|k: u32| #[trigger] old(self).spec_pids().contains_key(k) ==> old(self).spec_pids()[k] != pid,
    {
        let global_pid = self.new_global_pid();
        self.pid_mapping.insert(local_pid, global_pid);
        global_pid
    }

    /// The id the next allocation gives differs from every global id that
    /// a local process id is mapped to: each is below the counter.
    pub proof fn lemma_next_pid_is_fresh(&self, local_pid: u32)
        requires
            self.wf(),
            self.spec_pids().contains_key(local_pid),
        ensures
            self.spec_pids()[local_pid] < self.spec_next(),
            self.spec_pids()[local_pid] != self.spec_next(),
    {
    }

    /// Draws the next global id from the counter.
    pub fn new_global_pid(&mut self) -> (pid: u32)
        requires
            old(self).wf(),
            old(self).spec_next() < u32::MAX,
        ensures
            final(self).wf(),
            pid == old(self).spec_next(),
            final(self).spec_next() == old(self).spec_next() + 1,
            final(self).spec_pids() == old(self).spec_pids(),
    {
        let global_pid = self.pid_index;
        self.pid_index = self.pid_index + 1;
        global_pid
    }
}

/// The key a pending CPU sample is found by: its time and thread, packed
/// into one integer.
pub open spec fn cpu_key(time: u64, tid: u32) -> u128 {
    (time as u128 * 0x1_0000_0000 + tid as u128) as u128
}

/// The packed key of a time and thread.
pub fn cpu_key_of(time: u64, tid: u32) -> (k: u128)
    ensures
        k == cpu_key(time, tid),
{
    assert(time as u128 * 0x1_0000_0000 + tid as u128 <= u128::MAX) by (nonlinear_arith)
        requires
            time <= u64::MAX,
            tid <= u32::MAX,
    ;
    time as u128 * 0x1_0000_0000 + tid as u128
}

/// Different times or threads give different keys.
pub proof fn lemma_cpu_key_injective(t1: u64, d1: u32, t2: u64, d2: u32)
    requires
        cpu_key(t1, d1) == cpu_key(t2, d2),
    ensures
        t1 == t2 && d1 == d2,
{
    assert(t1 as u128 * 0x1_0000_0000 + d1 as u128 <= u128::MAX) by (nonlinear_arith)
        requires
            t1 <= u64::MAX,
            d1 <= u32::MAX,
    ;
    assert(t2 as u128 * 0x1_0000_0000 + d2 as u128 <= u128::MAX) by (nonlinear_arith)
        requires
            t2 <= u64::MAX,
            d2 <= u32::MAX,
    ;
    assert(t1 == t2 && d1 == d2) by (nonlinear_arith)
        requires
            t1 as int * 0x1_0000_0000 + d1 as int == t2 as int * 0x1_0000_0000 + d2 as int,
            0 <= d1 < 0x1_0000_0000,
            0 <= d2 < 0x1_0000_0000,
            0 <= t1,
            0 <= t2,
    ;
}

/// Whether a CPU profile record is of the idle thread (thread 0, one
/// count), which gets no callstack and is not kept.
pub open spec fn is_idle_profile(tid: u32, count: u32) -> bool {
    tid == 0 && count == 1
}

/// A CPU sample ready to be added: time, process id, thread, CPU and its
/// frames.
pub struct PairedCpuSample {
    pub time: u64,
    pub pid: u32,
    pub tid: u32,
    pub cpu: u16,
    pub frames: Vec<u64>,
}

/// Whether every record of a map is kept under its own time and thread.
pub open spec fn keyed_by_time_and_thread(m: Map<u128, (u64, u32, u32, u64)>) -> bool {
    forall|k: u128| #[trigger] m.contains_key(k) ==> k == cpu_key(m[k].0, m[k].1)
}

/// CPU profile records waiting for their callstacks, which arrive later
/// and apart: each is found again by its time and thread. Once flushed, it
/// keeps nothing more.
pub struct CpuSamplePairing {
    pending: Option<HashMap<u128, (u64, u32, u32, u64)>>,
}

impl CpuSamplePairing {
    /// The records waiting, by packed key: time, thread, CPU and
    /// instruction pointer; `None` once flushed.
    pub closed spec fn spec_pending(&self) -> Option<Map<u128, (u64, u32, u32, u64)>> {
        match self.pending {
            Some(m) => Some(m@),
            None => None,
        }
    }

    /// Every record is kept under its own time and thread.
    pub open spec fn wf(&self) -> bool {
        self.spec_pending() matches Some(m) ==> keyed_by_time_and_thread(m)
    }

    pub fn new() -> (p: Self)
        ensures
            p.wf(),
            p.spec_pending() == Some(Map::<u128, (u64, u32, u32, u64)>::empty()),
    {
        Self { pending: Some(HashMap::new()) }
    }

    /// A CPU profile record at `time` on `cpu`: unless it is of the idle
    /// thread, it waits for its callstack under its time and thread,
    /// replacing one already there. Nothing is kept once flushed.
    pub fn on_profile(&mut self, time: u64, tid: u32, count: u32, cpu: u32, ip: u64)
        requires
            old(self).wf(),
        ensures
            final(self).wf(),
            final(self).spec_pending() == (match old(self).spec_pending() {
                Some(m) => if is_idle_profile(tid, count) {
                    Some(m)
                } else {
                    Some(m.insert(cpu_key(time, tid), (time, tid, cpu, ip)))
                },
                None => None,
            }),
    {
        broadcast use vstd::std_specs::hash::group_hash_axioms;
        if tid == 0 && count == 1 {
            return;
        }
        let key = cpu_key_of(time, tid);
        if let Some(mut m) = self.pending.take() {
            let ghost before = m@;
            assert(old(self).spec_pending() == Some(before));
            assert(keyed_by_time_and_thread(before));
            m.insert(key, (time, tid, cpu, ip));
            assert forall|k: u128| #[trigger] m@.contains_key(k) implies k == cpu_key(m@[k].0, m@[k].1) by {
                if k != key {
                    assert(before.contains_key(k));
                    assert(m@[k] == before[k]);
                }
            }
            assert(keyed_by_time_and_thread(m@));
            self.pending = Some(m);
        }
    }

    /// A callstack read for thread `tid` of process `local_pid` at `time`:
    /// when a record waits under that time and thread, it is taken and
    /// comes back as a sample of the process's global id, with the
    /// callstack's frames.
    pub fn on_callstack(
        &mut self,
        pids: &mut OSExportMachine,
        time: u64,
        tid: u32,
        local_pid: u32,
        frames: &[u64],
    ) -> (r: Option<PairedCpuSample>)
        requires
            old(self).wf(),
            old(pids).wf(),
            !old(pids).spec_pids().contains_key(local_pid) ==> old(pids).spec_next() < u32::MAX,
        ensures
            final(self).wf(),
            final(pids).wf(),
            match old(self).spec_pending() {
                Some(m) if m.contains_key(cpu_key(time, tid)) => {
                    &&& final(self).spec_pending() == Some(m.remove(cpu_key(time, tid)))
                    &&& r matches Some(s) && s.time == time && s.tid == tid
                        && s.cpu == m[cpu_key(time, tid)].2 as u16 && s.frames@ == frames@
                        && s.pid == (if old(pids).spec_pids().contains_key(local_pid) {
                        old(pids).spec_pids()[local_pid]
                    } else {
                        old(pids).spec_next()
                    })
                    &&& old(pids).spec_pids().contains_key(local_pid) ==> final(pids).spec_pids()
                        == old(pids).spec_pids() && final(pids).spec_next() == old(pids).spec_next()
                    &&& !old(pids).spec_pids().contains_key(local_pid) ==> final(pids).spec_pids()
                        == old(pids).spec_pids().insert(local_pid, old(pids).spec_next()) && final(pids).spec_next()
                        == old(pids).spec_next() + 1
                },
                _ => r is None && final(self).spec_pending() == old(self).spec_pending() && final(pids).spec_pids()
                    == old(pids).spec_pids() && final(pids).spec_next() == old(pids).spec_next(),
            },
    {
        broadcast use vstd::std_specs::hash::group_hash_axioms;
        let key = cpu_key_of(time, tid);
        let found = match self.pending.take() {
            Some(mut m) => {
                let ghost before = m@;
                assert(old(self).spec_pending() == Some(before));
                assert(keyed_by_time_and_thread(before));
                proof {
                    if before.contains_key(key) {
                        assert(key == cpu_key(before[key].0, before[key].1));
                    }
                }
                let r = m.remove(&key);
                assert forall|k: u128| #[trigger] m@.contains_key(k) implies k == cpu_key(m@[k].0, m@[k].1) by {
                    assert(before.contains_key(k));
                    assert(m@[k] == before[k]);
                }
                assert(keyed_by_time_and_thread(m@));
                self.pending = Some(m);
                r
            },
            None => None,
        };
        match found {
            Some(value) => {
                proof {
                    lemma_cpu_key_injective(value.0, value.1, time, tid);
                }
                let pid = pids.get_or_alloc_global_pid(local_pid);
                Some(PairedCpuSample {
                    time: value.0,
                    pid,
                    tid: value.1,
                    cpu: value.2 as u16,
                    frames: vstd::slice::slice_to_vec(frames),
                })
            },
            None => None,
        }
    }

    /// The end of the trace: the records still waiting never got a
    /// callstack. They all go to a new process (global id drawn from the
    /// counter, named "Unknown" by the caller), each with its instruction
    /// pointer as its one frame, in no particular order; nothing is kept
    /// afterwards. Nothing happens when already flushed.
    pub fn flush(&mut self, pids: &mut OSExportMachine) -> (r: Option<(u32, Vec<PairedCpuSample>)>)
        requires
            old(self).wf(),
            old(pids).wf(),
            old(pids).spec_next() < u32::MAX,
        ensures
            final(self).spec_pending() is None,
            final(self).wf(),
            final(pids).wf(),
            final(pids).spec_pids() == old(pids).spec_pids(),
            match old(self).spec_pending() {
                None => r is None && final(pids).spec_next() == old(pids).spec_next(),
                Some(m) => r matches Some((pid, out)) && pid == old(pids).spec_next()
                    && final(pids).spec_next() == old(pids).spec_next() + 1 && out@.len() == m.dom().len()
                    && (forall|i: int| 0 <= i < out@.len() ==> #[trigger] m.contains_key(cpu_key(out@[i].time, out@[i].tid))
                        && out@[i].pid == pid
                        && out@[i].cpu == m[cpu_key(out@[i].time, out@[i].tid)].2 as u16
                        && out@[i].frames@ == seq![m[cpu_key(out@[i].time, out@[i].tid)].3])
                    && (forall|k: u128| #[trigger] m.contains_key(k) ==> exists|i: int| 0 <= i < out@.len() && cpu_key(out@[i].time, out@[i].tid) == k),
            },
    {
        broadcast use vstd::std_specs::hash::group_hash_axioms;
        let taken = self.pending.take();
        match taken {
            None => None,
            Some(m) => {
                let pid = pids.new_global_pid();
                let mut out: Vec<PairedCpuSample> = Vec::new();
                let ghost mv = m@;
                let iter = m.iter();
                let ghost items = spec_hash_map_iter(&m).remaining();
                assert(iter == spec_hash_map_iter(&m));
                assert(items.len() == mv.dom().len());
                for entry in it: iter
                    invariant
                        mv == m@,
                        keyed_by_time_and_thread(mv),
                        items == spec_hash_map_iter(&m).remaining(),
                        it.seq() == items,
                        out@.len() == it.index(),
                        forall|i: int| 0 <= i < out@.len() ==> #[trigger] out@[i].pid == pid
                            && cpu_key(out@[i].time, out@[i].tid) == *items[i].0
                            && mv.contains_key(*items[i].0)
                            && out@[i].cpu == mv[*items[i].0].2 as u16
                            && out@[i].frames@ == seq![mv[*items[i].0].3],
                {
                    let (k, v) = entry;
                    proof {
                        let j = out@.len() as int;
                        assert(mv.contains_key(*items[j].0));
                        assert(keyed_by_time_and_thread(mv));
                    }
                    let mut frames: Vec<u64> = Vec::new();
                    frames.push(v.3);
                    out.push(PairedCpuSample { time: v.0, pid, tid: v.1, cpu: v.2 as u16, frames });
                }
                proof {
                    assert(out@.len() == items.len());
                    assert(old(self).spec_pending() == Some(mv));
                    assert forall|k: u128| #[trigger] mv.contains_key(k) implies exists|i: int|
                        0 <= i < out@.len() && cpu_key(out@[i].time, out@[i].tid) == k by {
                        assert(items.contains((&k, &mv[k])));
                        let i = choose|i: int| 0 <= i < items.len() && items[i] == (&k, &mv[k]);
                        assert(out@[i].pid == pid);
                    }
                    assert forall|i: int| 0 <= i < out@.len() implies #[trigger] mv.contains_key(
                        cpu_key(out@[i].time, out@[i].tid),
                    ) && out@[i].pid == pid && out@[i].cpu == mv[cpu_key(out@[i].time, out@[i].tid)].2 as u16
                        && out@[i].frames@ == seq![mv[cpu_key(out@[i].time, out@[i].tid)].3] by {
                        assert(out@[i].pid == pid);
                    }
                }
                Some((pid, out))
            },
        }
    }
}

/// The metadata of an ELF binary: its build id and debug link.
pub struct ElfBinaryMetadata {
    build_id: Option<[u8; 20]>,
    debug_link: Option<String>,
}

impl ElfBinaryMetadata {
    pub closed spec fn spec_build_id(&self) -> Option<[u8; 20]> {
        self.build_id
    }

    pub closed spec fn spec_debug_link(&self) -> Option<Seq<char>> {
        match self.debug_link {
            Some(s) => Some(s@),
            None => None,
        }
    }

    pub fn new() -> (m: Self)
        ensures
            m.spec_build_id() is None,
            m.spec_debug_link() is None,
    {
        Self { build_id: None, debug_link: None }
    }

    pub fn build_id(&self) -> (b: Option<&[u8; 20]>)
        ensures
            b matches Some(x) ==> self.spec_build_id() == Some(*x),
            b is None ==> self.spec_build_id() is None,
    {
        match &self.build_id {
            Some(b) => Some(b),
            None => None,
        }
    }

    pub fn set_build_id(&mut self, build_id: Option<[u8; 20]>)
        ensures
            final(self).spec_build_id() == build_id,
            final(self).spec_debug_link() == old(self).spec_debug_link(),
    {
        self.build_id = build_id;
    }

    pub fn debug_link(&self) -> (l: Option<&str>)
        ensures
            l matches Some(x) ==> self.spec_debug_link() == Some(x@),
            l is None ==> self.spec_debug_link() is None,
    {
        match &self.debug_link {
            Some(link) => Some(link.as_str()),
            None => None,
        }
    }

    pub fn set_debug_link(&mut self, debug_link: Option<String>)
        ensures
            final(self).spec_debug_link() == (match debug_link {
                Some(s) => Some(s@),
                None => None::<Seq<char>>,
            }),
            final(self).spec_build_id() == old(self).spec_build_id(),
    {
        self.debug_link = debug_link;
    }
}

/// ELF binary metadata by device node.
pub struct ElfBinaryMetadataLookup {
    metadata: DevNodeMap<ElfBinaryMetadata>,
}

impl View for ElfBinaryMetadataLookup {
    type V = Map<(u64, u64), ElfBinaryMetadata>;

    closed spec fn view(&self) -> Map<(u64, u64), ElfBinaryMetadata> {
        self.metadata@
    }
}

impl ElfBinaryMetadataLookup {
    pub closed spec fn wf(&self) -> bool {
        self.metadata.wf()
    }

    pub fn new() -> (l: Self)
        ensures
            l.wf(),
            l@ == Map::<(u64, u64), ElfBinaryMetadata>::empty(),
    {
        Self { metadata: DevNodeMap::new() }
    }

    pub fn contains(&self, key: &ExportDevNode) -> (b: bool)
        requires
            self.wf(),
        ensures
            b == self@.contains_key(key@),
    {
        self.metadata.contains(key)
    }

    /// Sets the metadata of `key`, replacing any it had.
    pub fn insert(&mut self, key: ExportDevNode, value: ElfBinaryMetadata)
        requires
            old(self).wf(),
        ensures
            final(self).wf(),
            final(self)@ == old(self)@.insert(key@, value),
    {
        self.metadata.insert(key, value)
    }

    pub fn get(&self, key: &ExportDevNode) -> (r: Option<&ElfBinaryMetadata>)
        requires
            self.wf(),
        ensures
            r matches Some(v) ==> self@.contains_key(key@) && *v == self@[key@],
            r is None ==> !self@.contains_key(key@),
    {
        self.metadata.get(key)
    }
}

/// The character codes of every whole UTF-16LE unit of `s`, each read on
/// its own (see `unit_code`).
pub open spec fn wide_codes(s: Seq<u8>) -> Seq<u32>
    decreases s.len(),
{
    if s.len() < 2 {
        Seq::empty()
    } else {
        seq![unit_code(u16_from_le_seq(s))] + wide_codes(s.skip(2))
    }
}

/// Appends every whole UTF-16LE unit of `data` to `s` as a character,
/// a surrogate unit as `'?'`.
pub fn push_wide_str(s: &mut String, data: &[u8])
    ensures
        char_codes(final(s)@) == char_codes(old(s)@) + wide_codes(data@),
{
    let n = data.len();
    let mut i: usize = 0;
    assert(data@.skip(0) =~= data@);
    while n - i >= 2
        invariant
            n == data@.len(),
            i <= n,
            char_codes(s@) + wide_codes(data@.skip(i as int)) == char_codes(old(s)@) + wide_codes(data@),
        decreases n - i,
    {
        let ghost rem = data@.skip(i as int);
        let unit = read_u16_le(vstd::slice::slice_subrange(data, i, i + 2));
        assert(unit == u16_from_le_seq(rem));
        let ghost before = s@;
        push_unit_char(s, unit);
        proof {
            assert(s@ =~= before.push(s@.last()));
            assert(char_codes(s@) =~= char_codes(before) + seq![unit_code(unit)]);
            assert(rem.skip(2) =~= data@.skip(i + 2));
        }
        i = i + 2;
    }
    assert(wide_codes(data@.skip(i as int)) =~= Seq::<u32>::empty());
    assert(char_codes(s@) + Seq::<u32>::empty() =~= char_codes(s@));
}

} // verus!
