//! The export machine: the processes of a trace with their samples and
//! mappings, the interned strings and callstacks they refer to, and the
//! names of the sample kinds.

use std::collections::HashMap;

use vstd::prelude::*;

use super::mappings::ExportMapping;
use super::modulemetadata::{ModuleMetadata, ModuleMetadataLookup};
use super::process::{samples_by_time, ExportProcess, ExportProcessSample};
use super::ExportDevNode;
use crate::event::str_eq;
use crate::intern::{InternedCallstacks, InternedStrings};

verus! {

/// What an export machine is set up with: hash bucket counts of the
/// interners, CPU profiling and its frequency, context switches, whether
/// callstacks are unwound, and the processes to target.
pub struct ExportSettings {
    string_buckets: usize,
    callstack_buckets: usize,
    cpu_profiling: bool,
    cpu_freq: u64,
    cswitches: bool,
    unwinder: bool,
    target_pids: Option<Vec<i32>>,
}

impl ExportSettings {
    pub closed spec fn spec_string_buckets(&self) -> usize {
        self.string_buckets
    }

    pub closed spec fn spec_callstack_buckets(&self) -> usize {
        self.callstack_buckets
    }

    pub closed spec fn spec_cpu_profiling(&self) -> bool {
        self.cpu_profiling
    }

    pub closed spec fn spec_cpu_freq(&self) -> u64 {
        self.cpu_freq
    }

    pub closed spec fn spec_cswitches(&self) -> bool {
        self.cswitches
    }

    pub closed spec fn spec_unwinder(&self) -> bool {
        self.unwinder
    }

    pub closed spec fn spec_target_pids(&self) -> Option<Seq<i32>> {
        match self.target_pids {
            Some(p) => Some(p@),
            None => None,
        }
    }

    /// Settings with 64 string buckets, 512 callstack buckets, no CPU
    /// profiling (at 1000 Hz when turned on), no context switches, no
    /// target processes, and callstacks unwound when `unwinder` is set.
    pub fn new(unwinder: bool) -> (s: Self)
        ensures
            s.spec_string_buckets() == 64,
            s.spec_callstack_buckets() == 512,
            !s.spec_cpu_profiling(),
            s.spec_cpu_freq() == 1000,
            !s.spec_cswitches(),
            s.spec_unwinder() == unwinder,
            s.spec_target_pids() is None,
    {
        Self {
            string_buckets: 64,
            callstack_buckets: 512,
            cpu_profiling: false,
            cpu_freq: 1000,
            cswitches: false,
            unwinder,
            target_pids: None,
        }
    }

    pub fn has_unwinder(&self) -> (b: bool)
        ensures
            b == self.spec_unwinder(),
    {
        self.unwinder
    }

    pub fn string_buckets(&self) -> (n: usize)
        ensures
            n == self.spec_string_buckets(),
    {
        self.string_buckets
    }

    pub fn callstack_buckets(&self) -> (n: usize)
        ensures
            n == self.spec_callstack_buckets(),
    {
        self.callstack_buckets
    }

    pub fn cpu_profiling(&self) -> (b: bool)
        ensures
            b == self.spec_cpu_profiling(),
    {
        self.cpu_profiling
    }

    pub fn cpu_freq(&self) -> (f: u64)
        ensures
            f == self.spec_cpu_freq(),
    {
        self.cpu_freq
    }

    pub fn cswitches(&self) -> (b: bool)
        ensures
            b == self.spec_cswitches(),
    {
        self.cswitches
    }

    pub fn target_pids(&self) -> (p: Option<&Vec<i32>>)
        ensures
            match p {
                Some(v) => self.spec_target_pids() == Some(v@),
                None => self.spec_target_pids() is None,
            },
    {
        self.target_pids.as_ref()
    }

    pub fn with_string_buckets(self, buckets: usize) -> (s: Self)
        ensures
            s.spec_string_buckets() == buckets,
            s.spec_callstack_buckets() == self.spec_callstack_buckets(),
            s.spec_cpu_profiling() == self.spec_cpu_profiling(),
            s.spec_cpu_freq() == self.spec_cpu_freq(),
            s.spec_cswitches() == self.spec_cswitches(),
            s.spec_unwinder() == self.spec_unwinder(),
            s.spec_target_pids() == self.spec_target_pids(),
    {
        let mut clone = self;
        clone.string_buckets = buckets;
        clone
    }

    pub fn with_callstack_buckets(self, buckets: usize) -> (s: Self)
        ensures
            s.spec_callstack_buckets() == buckets,
            s.spec_string_buckets() == self.spec_string_buckets(),
            s.spec_cpu_profiling() == self.spec_cpu_profiling(),
            s.spec_cpu_freq() == self.spec_cpu_freq(),
            s.spec_cswitches() == self.spec_cswitches(),
            s.spec_unwinder() == self.spec_unwinder(),
            s.spec_target_pids() == self.spec_target_pids(),
    {
        let mut clone = self;
        clone.callstack_buckets = buckets;
        clone
    }

    /// Turns CPU profiling on at `freq` samples a second.
    pub fn with_cpu_profiling(self, freq: u64) -> (s: Self)
        ensures
            s.spec_cpu_profiling(),
            s.spec_cpu_freq() == freq,
            s.spec_string_buckets() == self.spec_string_buckets(),
            s.spec_callstack_buckets() == self.spec_callstack_buckets(),
            s.spec_cswitches() == self.spec_cswitches(),
            s.spec_unwinder() == self.spec_unwinder(),
            s.spec_target_pids() == self.spec_target_pids(),
    {
        let mut clone = self;
        clone.cpu_profiling = true;
        clone.cpu_freq = freq;
        clone
    }

    pub fn with_cswitches(self) -> (s: Self)
        ensures
            s.spec_cswitches(),
            s.spec_string_buckets() == self.spec_string_buckets(),
            s.spec_callstack_buckets() == self.spec_callstack_buckets(),
            s.spec_cpu_profiling() == self.spec_cpu_profiling(),
            s.spec_cpu_freq() == self.spec_cpu_freq(),
            s.spec_unwinder() == self.spec_unwinder(),
            s.spec_target_pids() == self.spec_target_pids(),
    {
        let mut clone = self;
        clone.cswitches = true;
        clone
    }

    /// Adds a process to target, after those targeted before.
    pub fn with_target_pid(self, pid: i32) -> (s: Self)
        ensures
            s.spec_target_pids() == Some(match self.spec_target_pids() {
                Some(p) => p.push(pid),
                None => seq![pid],
            }),
            s.spec_string_buckets() == self.spec_string_buckets(),
            s.spec_callstack_buckets() == self.spec_callstack_buckets(),
            s.spec_cpu_profiling() == self.spec_cpu_profiling(),
            s.spec_cpu_freq() == self.spec_cpu_freq(),
            s.spec_cswitches() == self.spec_cswitches(),
            s.spec_unwinder() == self.spec_unwinder(),
    {
        let mut clone = self;
        match clone.target_pids.as_mut() {
            Some(pids) => {
                pids.push(pid);
            },
            None => {
                clone.target_pids = Some(vec![pid]);
            },
        }
        clone
    }
}

} // verus!

verus! {

/// The first index at or after `from` of `name` among the kinds.
pub open spec fn first_kind(kinds: Seq<Seq<char>>, name: Seq<char>, from: int) -> Option<int>
    decreases kinds.len() - from,
{
    if from < 0 || from >= kinds.len() {
        None
    } else if kinds[from] == name {
        Some(from)
    } else {
        first_kind(kinds, name, from + 1)
    }
}

/// The processes of a trace, by process id, with the interned strings and
/// callstacks their samples and mappings refer to, the names of the sample
/// kinds, the next mapping id and the start and end of the capture.
pub struct ExportMachine {
    settings: ExportSettings,
    strings: InternedStrings,
    callstacks: InternedCallstacks,
    procs: HashMap<u32, ExportProcess>,
    module_metadata: ModuleMetadataLookup,
    kinds: Vec<String>,
    map_index: usize,
    start_qpc: Option<u64>,
    end_qpc: Option<u64>,
    duration_micros: Option<u64>,
}

impl ExportMachine {
    pub closed spec fn spec_settings(&self) -> ExportSettings {
        self.settings
    }

    pub closed spec fn spec_strings(&self) -> Seq<Seq<char>> {
        self.strings@
    }

    pub closed spec fn spec_callstacks(&self) -> Seq<Seq<u64>> {
        self.callstacks@
    }

    pub closed spec fn spec_procs(&self) -> Map<u32, ExportProcess> {
        self.procs@
    }

    pub closed spec fn spec_kinds(&self) -> Seq<Seq<char>> {
        self.kinds@.map_values(|k: String| k@)
    }

    pub closed spec fn spec_map_index(&self) -> usize {
        self.map_index
    }

    pub closed spec fn spec_module_metadata(&self) -> Map<(u64, u64), ModuleMetadata> {
        self.module_metadata@
    }

    pub closed spec fn spec_start_qpc(&self) -> Option<u64> {
        self.start_qpc
    }

    pub closed spec fn spec_end_qpc(&self) -> Option<u64> {
        self.end_qpc
    }

    pub closed spec fn spec_duration_micros(&self) -> Option<u64> {
        self.duration_micros
    }

    /// The interners and metadata are well formed, and each process is
    /// well formed and filed under its own id.
    pub closed spec fn wf(&self) -> bool {
        &&& self.strings.wf()
        &&& self.callstacks.wf()
        &&& self.module_metadata.wf()
        &&& forall|pid: u32| #[trigger] self.procs@.contains_key(pid) ==> self.procs@[pid].wf()
            && self.procs@[pid].spec_pid() == pid
    }

    /// A machine with nothing recorded, its interners sized by the settings.
    pub fn new(settings: ExportSettings) -> (m: Self)
        requires
            settings.spec_string_buckets() as int <= usize::MAX / 2 + 1,
            settings.spec_callstack_buckets() as int <= usize::MAX / 2 + 1,
        ensures
            m.wf(),
            m.spec_settings() == settings,
            m.spec_strings().len() == 0,
            m.spec_callstacks().len() == 0,
            m.spec_procs() == Map::<u32, ExportProcess>::empty(),
            m.spec_kinds().len() == 0,
            m.spec_map_index() == 0,
            m.spec_module_metadata() == Map::<(u64, u64), ModuleMetadata>::empty(),
            m.spec_start_qpc() is None,
            m.spec_end_qpc() is None,
            m.spec_duration_micros() is None,
    {
        broadcast use vstd::std_specs::hash::group_hash_axioms;
        let strings = InternedStrings::new(settings.string_buckets);
        let callstacks = InternedCallstacks::new(settings.callstack_buckets);
        let m = Self {
            settings,
            strings,
            callstacks,
            procs: HashMap::new(),
            module_metadata: ModuleMetadataLookup::new(),
            kinds: Vec::new(),
            map_index: 0,
            start_qpc: None,
            end_qpc: None,
            duration_micros: None,
        };
        assert(m.spec_kinds() =~= Seq::<Seq<char>>::empty());
        m
    }

    pub fn settings(&self) -> (s: &ExportSettings)
        ensures
            *s == self.spec_settings(),
    {
        &self.settings
    }

    pub fn strings(&self) -> (s: &InternedStrings)
        ensures
            s@ == self.spec_strings(),
            self.wf() ==> s.wf(),
    {
        &self.strings
    }

    pub fn callstacks(&self) -> (c: &InternedCallstacks)
        ensures
            c@ == self.spec_callstacks(),
            self.wf() ==> c.wf(),
    {
        &self.callstacks
    }

    pub fn sample_kinds(&self) -> (k: &Vec<String>)
        ensures
            k@.map_values(|s: String| s@) == self.spec_kinds(),
    {
        &self.kinds
    }

    pub fn start_qpc(&self) -> (q: Option<u64>)
        ensures
            q == self.spec_start_qpc(),
    {
        self.start_qpc
    }

    pub fn end_qpc(&self) -> (q: Option<u64>)
        ensures
            q == self.spec_end_qpc(),
    {
        self.end_qpc
    }

    /// The length of the capture in microseconds, once it has ended.
    pub fn duration_micros(&self) -> (d: Option<u64>)
        ensures
            d == self.spec_duration_micros(),
    {
        self.duration_micros
    }

    /// The index of a sample kind, taken to 16 bits; `None` when there is
    /// no kind of that name.
    pub fn find_sample_kind(&self, target_kind: &str) -> (r: Option<u16>)
        ensures
            r == match first_kind(self.spec_kinds(), target_kind@, 0) {
                Some(i) => Some(i as u16),
                None => None::<u16>,
            },
    {
        let ghost kinds = self.spec_kinds();
        let mut i: usize = 0;
        while i < self.kinds.len()
            invariant
                kinds == self.spec_kinds(),
                kinds.len() == self.kinds@.len(),
                i <= kinds.len(),
                first_kind(kinds, target_kind@, 0) == first_kind(kinds, target_kind@, i as int),
            decreases kinds.len() - i,
        {
            assert(kinds[i as int] == self.kinds@[i as int]@);
            if str_eq(self.kinds[i].as_str(), target_kind) {
                return Some(i as u16);
            }
            i = i + 1;
        }
        None
    }

    /// The index of a sample kind (taken to 16 bits), adding the kind when
    /// there is none of that name.
    pub fn sample_kind(&mut self, name: &str) -> (r: u16)
        ensures
            match first_kind(old(self).spec_kinds(), name@, 0) {
                Some(i) => r == i as u16 && final(self).spec_kinds() == old(self).spec_kinds(),
                None => r == old(self).spec_kinds().len() as u16
                    && final(self).spec_kinds() == old(self).spec_kinds().push(name@),
            },
            final(self).spec_settings() == old(self).spec_settings(),
            final(self).spec_strings() == old(self).spec_strings(),
            final(self).spec_callstacks() == old(self).spec_callstacks(),
            final(self).spec_procs() == old(self).spec_procs(),
            final(self).spec_map_index() == old(self).spec_map_index(),
            final(self).spec_module_metadata() == old(self).spec_module_metadata(),
            final(self).spec_start_qpc() == old(self).spec_start_qpc(),
            final(self).spec_end_qpc() == old(self).spec_end_qpc(),
            final(self).spec_duration_micros() == old(self).spec_duration_micros(),
            final(self).wf() == old(self).wf(),
    {
        match self.find_sample_kind(name) {
            Some(i) => i,
            None => {
                let count = self.kinds.len() as u16;
                let mut owned = String::new();
                crate::dotnet::push_str_chars(&mut owned, name);
                self.kinds.push(owned);
                assert(self.spec_kinds() =~= old(self).spec_kinds().push(name@));
                count
            },
        }
    }

    /// The id of a string, interning it when it is new.
    pub fn intern(&mut self, value: &str) -> (id: usize)
        requires
            old(self).wf(),
        ensures
            final(self).wf(),
            (exists|i: int| crate::intern::seq_contains_at(old(self).spec_strings(), value@, i)) ==> {
                &&& final(self).spec_strings() == old(self).spec_strings()
                &&& crate::intern::seq_contains_at(old(self).spec_strings(), value@, id as int)
            },
            (forall|i: int| !crate::intern::seq_contains_at(old(self).spec_strings(), value@, i)) ==> {
                &&& final(self).spec_strings() == old(self).spec_strings().push(value@)
                &&& id == old(self).spec_strings().len()
            },
            final(self).spec_settings() == old(self).spec_settings(),
            final(self).spec_callstacks() == old(self).spec_callstacks(),
            final(self).spec_procs() == old(self).spec_procs(),
            final(self).spec_kinds() == old(self).spec_kinds(),
            final(self).spec_map_index() == old(self).spec_map_index(),
            final(self).spec_module_metadata() == old(self).spec_module_metadata(),
            final(self).spec_start_qpc() == old(self).spec_start_qpc(),
            final(self).spec_end_qpc() == old(self).spec_end_qpc(),
            final(self).spec_duration_micros() == old(self).spec_duration_micros(),
    {
        self.strings.to_id(value)
    }

    /// The process with id `pid`, if there is one.
    pub fn find_process(&self, pid: u32) -> (p: Option<&ExportProcess>)
        ensures
            match p {
                Some(q) => self.spec_procs().contains_key(pid) && *q == self.spec_procs()[pid],
                None => !self.spec_procs().contains_key(pid),
            },
    {
        broadcast use vstd::std_specs::hash::group_hash_axioms;
        self.procs.get(&pid)
    }

    /// The process with id `pid`, to change; a new one when there was none.
    pub fn process_mut(&mut self, pid: u32) -> (p: &mut ExportProcess)
        requires
            old(self).wf(),
        ensures
            old(self).spec_procs().contains_key(pid) ==> *p == old(self).spec_procs()[pid],
            !old(self).spec_procs().contains_key(pid) ==> {
                &&& p.wf()
                &&& p.spec_pid() == pid
                &&& p.spec_comm_id() is None
                &&& p.spec_ns_pid() is None
                &&& p.spec_samples().len() == 0
                &&& p.spec_mappings().len() == 0
                &&& !p.spec_anon_maps()
            },
            final(self).spec_procs() == old(self).spec_procs().insert(pid, *final(p)),
            final(p).wf() && final(p).spec_pid() == pid ==> final(self).wf(),
            final(self).spec_settings() == old(self).spec_settings(),
            final(self).spec_strings() == old(self).spec_strings(),
            final(self).spec_callstacks() == old(self).spec_callstacks(),
            final(self).spec_kinds() == old(self).spec_kinds(),
            final(self).spec_map_index() == old(self).spec_map_index(),
            final(self).spec_module_metadata() == old(self).spec_module_metadata(),
            final(self).spec_start_qpc() == old(self).spec_start_qpc(),
            final(self).spec_end_qpc() == old(self).spec_end_qpc(),
            final(self).spec_duration_micros() == old(self).spec_duration_micros(),
    {
        broadcast use vstd::std_specs::hash::group_hash_axioms;
        self.procs.entry(pid).or_insert(ExportProcess::new(pid))
    }
}

} // verus!

verus! {

/// The frames of a sample: those given, or a single zero frame when none
/// are.
pub open spec fn sample_frames(frames: Seq<u64>) -> Seq<u64> {
    if frames.len() == 0 { seq![0u64] } else { frames }
}

/// Whether interning `tail` among `stacks` gives `id`, and the interned
/// callstacks become `after`: the index it had, or the next one.
pub open spec fn interned_as(stacks: Seq<Seq<u64>>, tail: Seq<u64>, id: usize, after: Seq<Seq<u64>>) -> bool {
    &&& (exists|i: int| crate::intern::seq_contains_at(stacks, tail, i)) ==> {
        &&& after == stacks
        &&& crate::intern::seq_contains_at(stacks, tail, id as int)
    }
    &&& (forall|i: int| !crate::intern::seq_contains_at(stacks, tail, i)) ==> {
        &&& after == stacks.push(tail)
        &&& id == stacks.len()
    }
}

impl ExportMachine {
    /// The samples of process `pid`, none when there is no such process.
    pub open spec fn spec_process_samples(&self, pid: u32) -> Seq<ExportProcessSample> {
        if self.spec_procs().contains_key(pid) { self.spec_procs()[pid].spec_samples() } else { Seq::empty() }
    }

    /// The mappings of process `pid`, none when there is no such process.
    pub open spec fn spec_process_mappings(&self, pid: u32) -> Seq<ExportMapping> {
        if self.spec_procs().contains_key(pid) { self.spec_procs()[pid].spec_mappings() } else { Seq::empty() }
    }

    /// The name id of process `pid`, none when there is no such process.
    pub open spec fn spec_process_comm(&self, pid: u32) -> Option<usize> {
        if self.spec_procs().contains_key(pid) { self.spec_procs()[pid].spec_comm_id() } else { None }
    }

    /// A sample of the given values whose callstack is `frames` (a single
    /// zero frame when empty): its instruction pointer is the first frame,
    /// and the other frames are interned as its callstack.
    pub fn make_sample(&mut self, time: u64, value: u64, tid: u32, cpu: u16, kind: u16, frames: &[u64]) -> (s: ExportProcessSample)
        requires
            old(self).wf(),
        ensures
            final(self).wf(),
            s.spec_view().time == time,
            s.spec_view().value == value,
            s.spec_view().tid == tid,
            s.spec_view().cpu == cpu,
            s.spec_view().kind == kind,
            s.spec_view().ip == sample_frames(frames@)[0],
            interned_as(old(self).spec_callstacks(), sample_frames(frames@).drop_first(), s.spec_view().callstack_id, final(self).spec_callstacks()),
            final(self).spec_settings() == old(self).spec_settings(),
            final(self).spec_strings() == old(self).spec_strings(),
            final(self).spec_procs() == old(self).spec_procs(),
            final(self).spec_kinds() == old(self).spec_kinds(),
            final(self).spec_map_index() == old(self).spec_map_index(),
            final(self).spec_module_metadata() == old(self).spec_module_metadata(),
            final(self).spec_start_qpc() == old(self).spec_start_qpc(),
            final(self).spec_end_qpc() == old(self).spec_end_qpc(),
            final(self).spec_duration_micros() == old(self).spec_duration_micros(),
    {
        let no_frames: [u64; 1] = [0];
        let used: &[u64] = if frames.len() == 0 { no_frames.as_slice() } else { frames };
        assert(used@ == sample_frames(frames@)) by {
            if frames@.len() == 0 {
                assert(no_frames@ =~= seq![0u64]);
            }
        }
        let id = self.callstacks.to_id(used);
        ExportProcessSample::new(time, value, cpu, kind, tid, id.ip(), id.id())
    }

    /// Adds a sample (see `make_sample`) to process `pid`, which is made
    /// when there was none.
    pub fn add_sample(
        &mut self,
        time: u64,
        value: u64,
        pid: u32,
        tid: u32,
        cpu: u16,
        kind: u16,
        frames: &[u64],
    )
        requires
            old(self).wf(),
        ensures
            final(self).wf(),
            final(self).spec_procs().dom() == old(self).spec_procs().dom().insert(pid),
            forall|q: u32| q != pid && #[trigger] old(self).spec_procs().contains_key(q)
                ==> final(self).spec_procs()[q] == old(self).spec_procs()[q],
            final(self).spec_process_samples(pid).len() == old(self).spec_process_samples(pid).len() + 1,
            final(self).spec_process_samples(pid).drop_last() == old(self).spec_process_samples(pid),
            ({
                let s = final(self).spec_process_samples(pid).last().spec_view();
                &&& s.time == time && s.value == value && s.tid == tid && s.cpu == cpu && s.kind == kind
                &&& s.ip == sample_frames(frames@)[0]
                &&& interned_as(old(self).spec_callstacks(), sample_frames(frames@).drop_first(), s.callstack_id, final(self).spec_callstacks())
            }),
            final(self).spec_process_mappings(pid) == old(self).spec_process_mappings(pid),
            final(self).spec_process_comm(pid) == old(self).spec_process_comm(pid),
            final(self).spec_settings() == old(self).spec_settings(),
            final(self).spec_strings() == old(self).spec_strings(),
            final(self).spec_kinds() == old(self).spec_kinds(),
            final(self).spec_map_index() == old(self).spec_map_index(),
            final(self).spec_module_metadata() == old(self).spec_module_metadata(),
    {
        let sample = self.make_sample(time, value, tid, cpu, kind, frames);
        self.add_custom_sample(pid, sample);
    }

    /// Adds a sample to process `pid`, which is made when there was none.
    pub fn add_custom_sample(&mut self, pid: u32, sample: ExportProcessSample)
        requires
            old(self).wf(),
        ensures
            final(self).wf(),
            final(self).spec_procs().dom() == old(self).spec_procs().dom().insert(pid),
            forall|q: u32| q != pid && #[trigger] old(self).spec_procs().contains_key(q)
                ==> final(self).spec_procs()[q] == old(self).spec_procs()[q],
            final(self).spec_process_samples(pid) == old(self).spec_process_samples(pid).push(sample),
            final(self).spec_process_mappings(pid) == old(self).spec_process_mappings(pid),
            final(self).spec_process_comm(pid) == old(self).spec_process_comm(pid),
            final(self).spec_settings() == old(self).spec_settings(),
            final(self).spec_strings() == old(self).spec_strings(),
            final(self).spec_callstacks() == old(self).spec_callstacks(),
            final(self).spec_kinds() == old(self).spec_kinds(),
            final(self).spec_map_index() == old(self).spec_map_index(),
            final(self).spec_module_metadata() == old(self).spec_module_metadata(),
    {
        let proc = self.process_mut(pid);
        proc.add_sample(sample);
        assert(old(self).spec_process_samples(pid) == Seq::<ExportProcessSample>::empty() || old(self).spec_procs().contains_key(pid));
    }
}

} // verus!

verus! {

/// The interned strings after interning `s`: as they were when `s` is
/// among them, else with `s` added.
pub open spec fn interned_strings(strings: Seq<Seq<char>>, s: Seq<char>) -> Seq<Seq<char>> {
    if exists|i: int| crate::intern::seq_contains_at(strings, s, i) { strings } else { strings.push(s) }
}

/// Whether `s` starts with `p`.
pub open spec fn has_prefix(s: Seq<char>, p: Seq<char>) -> bool {
    s.len() >= p.len() && s.take(p.len() as int) == p
}

fn str_starts_with(s: &str, p: &str) -> (b: bool)
    ensures
        b == has_prefix(s@, p@),
{
    let n = p.unicode_len();
    if s.unicode_len() < n {
        return false;
    }
    let mut i: usize = 0;
    while i < n
        invariant
            n == p@.len(),
            n <= s@.len(),
            i <= n,
            forall|k: int| 0 <= k < i ==> s@[k] == p@[k],
        decreases n - i,
    {
        if s.get_char(i) != p.get_char(i) {
            assert(s@.take(n as int)[i as int] != p@[i as int]);
            return false;
        }
        i = i + 1;
    }
    assert(s@.take(n as int) =~= p@);
    true
}

/// Whether a mapped file name stands for memory rather than a file: empty,
/// bracketed (`[heap]`, `[stack]`, ...), a memfd or an anonymous mapping.
pub open spec fn is_anon_name(f: Seq<char>) -> bool {
    f.len() == 0 || has_prefix(f, "["@) || has_prefix(f, "/memfd:"@) || has_prefix(f, "//anon"@)
}

/// Whether the mapping was made for a memory mapping of the given values
/// with the given name id and mapping id.
pub open spec fn mmap_mapping(
    m: ExportMapping,
    time: u64,
    filename_id: usize,
    addr: u64,
    len: u64,
    pgoffset: u64,
    maj: u32,
    min: u32,
    ino: u64,
    anon: bool,
    id: usize,
) -> bool {
    &&& m.spec_time() == time
    &&& m.spec_filename_id() == filename_id
    &&& m.spec_start() == addr
    &&& m.spec_end() == addr + len - 1
    &&& m.spec_file_offset() == pgoffset
    &&& m.spec_anon() == anon
    &&& m.spec_id() == id
    &&& m.spec_node() == if anon { None } else { Some((((maj << 8u32) as u64) | (min as u64), ino)) }
    &&& m.spec_symbols().len() == 0
}

impl ExportMachine {
    /// Records that process `pid` runs the program named `comm`: the name
    /// is interned and becomes the process's name id (the process is made
    /// when there was none).
    pub fn add_comm_exec(&mut self, pid: u32, comm: &str)
        requires
            old(self).wf(),
        ensures
            final(self).wf(),
            final(self).spec_procs().dom() == old(self).spec_procs().dom().insert(pid),
            forall|q: u32| q != pid && #[trigger] old(self).spec_procs().contains_key(q)
                ==> final(self).spec_procs()[q] == old(self).spec_procs()[q],
            final(self).spec_process_comm(pid) matches Some(id) && id < final(self).spec_strings().len()
                && final(self).spec_strings()[id as int] == comm@,
            final(self).spec_process_samples(pid) == old(self).spec_process_samples(pid),
            final(self).spec_process_mappings(pid) == old(self).spec_process_mappings(pid),
            final(self).spec_strings() == interned_strings(old(self).spec_strings(), comm@),
            final(self).spec_settings() == old(self).spec_settings(),
            final(self).spec_callstacks() == old(self).spec_callstacks(),
            final(self).spec_kinds() == old(self).spec_kinds(),
            final(self).spec_map_index() == old(self).spec_map_index(),
            final(self).spec_module_metadata() == old(self).spec_module_metadata(),
    {
        let comm_id = self.intern(comm);
        let proc = self.process_mut(pid);
        proc.set_comm_id(comm_id);
    }

    /// Records that process `pid` was forked from `ppid`: the child gets
    /// the parent's name id and a copy of its mappings, and no samples (the
    /// parent is made when there was none).
    pub fn fork_exec(&mut self, pid: u32, ppid: u32)
        requires
            old(self).wf(),
        ensures
            final(self).wf(),
            final(self).spec_procs().dom() == old(self).spec_procs().dom().insert(ppid).insert(pid),
            forall|q: u32| q != pid && q != ppid && #[trigger] old(self).spec_procs().contains_key(q)
                ==> final(self).spec_procs()[q] == old(self).spec_procs()[q],
            pid != ppid ==> final(self).spec_process_samples(ppid) == old(self).spec_process_samples(ppid)
                && final(self).spec_process_mappings(ppid) == old(self).spec_process_mappings(ppid)
                && final(self).spec_process_comm(ppid) == old(self).spec_process_comm(ppid),
            final(self).spec_process_samples(pid).len() == 0,
            final(self).spec_process_comm(pid) == old(self).spec_process_comm(ppid),
            final(self).spec_process_mappings(pid).len() == old(self).spec_process_mappings(ppid).len(),
            forall|i: int| 0 <= i < final(self).spec_process_mappings(pid).len()
                ==> #[trigger] final(self).spec_process_mappings(pid)[i].same_as(&old(self).spec_process_mappings(ppid)[i]),
            final(self).spec_settings() == old(self).spec_settings(),
            final(self).spec_strings() == old(self).spec_strings(),
            final(self).spec_callstacks() == old(self).spec_callstacks(),
            final(self).spec_kinds() == old(self).spec_kinds(),
            final(self).spec_map_index() == old(self).spec_map_index(),
            final(self).spec_module_metadata() == old(self).spec_module_metadata(),
    {
        broadcast use vstd::std_specs::hash::group_hash_axioms;
        let parent = self.process_mut(ppid);
        let fork = parent.fork(pid);
        self.procs.insert(pid, fork);
    }

    /// Records a memory mapping of process `pid` (made when there was
    /// none): the file name is interned; the mapping covers
    /// `addr..=addr + len - 1` from file offset `pgoffset`; it is anonymous
    /// when the name says so (see `is_anon_name`), else it is tied to the
    /// file's device node; it gets the next mapping id.
    pub fn add_mmap_exec(
        &mut self,
        time: u64,
        pid: u32,
        addr: u64,
        len: u64,
        pgoffset: u64,
        maj: u32,
        min: u32,
        ino: u64,
        filename: &str,
    )
        requires
            old(self).wf(),
            1 <= addr + len <= u64::MAX,
            old(self).spec_map_index() < usize::MAX,
        ensures
            final(self).wf(),
            final(self).spec_map_index() == old(self).spec_map_index() + 1,
            final(self).spec_procs().dom() == old(self).spec_procs().dom().insert(pid),
            forall|q: u32| q != pid && #[trigger] old(self).spec_procs().contains_key(q)
                ==> final(self).spec_procs()[q] == old(self).spec_procs()[q],
            final(self).spec_process_mappings(pid).len() == old(self).spec_process_mappings(pid).len() + 1,
            final(self).spec_process_mappings(pid).drop_last() == old(self).spec_process_mappings(pid),
            ({
                let m = final(self).spec_process_mappings(pid).last();
                &&& m.spec_filename_id() < final(self).spec_strings().len()
                &&& final(self).spec_strings()[m.spec_filename_id() as int] == filename@
                &&& mmap_mapping(m, time, m.spec_filename_id(), addr, len, pgoffset, maj, min, ino,
                    is_anon_name(filename@), old(self).spec_map_index())
            }),
            final(self).spec_process_samples(pid) == old(self).spec_process_samples(pid),
            final(self).spec_process_comm(pid) == old(self).spec_process_comm(pid),
            final(self).spec_strings() == interned_strings(old(self).spec_strings(), filename@),
            final(self).spec_settings() == old(self).spec_settings(),
            final(self).spec_callstacks() == old(self).spec_callstacks(),
            final(self).spec_kinds() == old(self).spec_kinds(),
            final(self).spec_module_metadata() == old(self).spec_module_metadata(),
    {
        let anon = filename.unicode_len() == 0 || str_starts_with(filename, "[") || str_starts_with(filename, "/memfd:")
            || str_starts_with(filename, "//anon");
        let filename_id = self.intern(filename);
        let mut mapping = ExportMapping::new(time, filename_id, addr, addr + len - 1, pgoffset, anon, self.map_index);
        if !anon {
            let node = ExportDevNode::from_parts(maj, min, ino);
            mapping.set_node(node);
        }
        self.map_index = self.map_index + 1;
        let ghost m = mapping;
        let proc = self.process_mut(pid);
        proc.add_mapping(mapping);
        assert(self.spec_process_mappings(pid).last() == m);
    }
}

} // verus!

verus! {

/// Whether two optional name ids are equal.
fn same_comm(a: Option<usize>, b: Option<usize>) -> (r: bool)
    ensures
        r == (a == b),
{
    match (a, b) {
        (Some(x), Some(y)) => x == y,
        (None, None) => true,
        _ => false,
    }
}

/// The index of the group of name id `comm`, if there is one.
fn find_group(groups: &Vec<(Option<usize>, Vec<u32>)>, comm: Option<usize>) -> (r: Option<usize>)
    ensures
        r matches Some(g) ==> g < groups@.len() && groups@[g as int].0 == comm,
        r is None ==> forall|h: int| 0 <= h < groups@.len() ==> (#[trigger] groups@[h]).0 != comm,
{
    let mut g: usize = 0;
    while g < groups.len()
        invariant
            g <= groups@.len(),
            forall|h: int| 0 <= h < g ==> (#[trigger] groups@[h]).0 != comm,
        decreases groups@.len() - g,
    {
        if same_comm(groups[g].0, comm) {
            return Some(g);
        }
        g = g + 1;
    }
    None
}

impl ExportMachine {
    /// The ids of the processes, each once, in the order the map gives them.
    pub fn process_ids(&self) -> (ids: Vec<u32>)
        ensures
            ids@.to_set() == self.spec_procs().dom(),
            ids@.no_duplicates(),
    {
        broadcast use vstd::std_specs::hash::group_hash_axioms;
        let mut ids: Vec<u32> = Vec::new();
        let ghost keys = vstd::std_specs::iter::IteratorSpec::remaining(&vstd::std_specs::hash::spec_keys_iter(&self.procs));
        for k in it: self.procs.keys()
            invariant
                ids@.len() == it.index(),
                it.seq() == keys,
                forall|i: int| 0 <= i < it.index() ==> ids@[i] == *keys[i],
        {
            ids.push(*k);
        }
        proof {
            assert(ids@ =~= keys.unref());
        }
        ids
    }

    /// The process ids grouped by process name id: one group for each
    /// name id (or none) that a process has, holding each process with it
    /// once.
    pub fn split_processes_by_comm(&self) -> (groups: Vec<(Option<usize>, Vec<u32>)>)
        ensures
            forall|a: int, b: int| 0 <= a < b < groups@.len() ==> (#[trigger] groups@[a]).0 != (#[trigger] groups@[b]).0,
            forall|g: int| 0 <= g < groups@.len() ==> (#[trigger] groups@[g]).1@.len() > 0 && groups@[g].1@.no_duplicates(),
            forall|g: int, k: int| 0 <= g < groups@.len() && 0 <= k < groups@[g].1@.len() ==> {
                let pid = (#[trigger] groups@[g].1@[k]);
                self.spec_procs().contains_key(pid) && self.spec_procs()[pid].spec_comm_id() == groups@[g].0
            },
            forall|pid: u32| #[trigger] self.spec_procs().contains_key(pid) ==> exists|g: int|
                0 <= g < groups@.len() && groups@[g].0 == self.spec_procs()[pid].spec_comm_id()
                    && #[trigger] groups@[g].1@.contains(pid),
    {
        broadcast use vstd::std_specs::hash::group_hash_axioms;
        let ids = self.process_ids();
        let mut groups: Vec<(Option<usize>, Vec<u32>)> = Vec::new();
        let mut i: usize = 0;
        while i < ids.len()
            invariant
                ids@.to_set() == self.spec_procs().dom(),
                ids@.no_duplicates(),
                i <= ids@.len(),
                forall|a: int, b: int| 0 <= a < b < groups@.len() ==> (#[trigger] groups@[a]).0 != (#[trigger] groups@[b]).0,
                forall|g: int| 0 <= g < groups@.len() ==> (#[trigger] groups@[g]).1@.len() > 0 && groups@[g].1@.no_duplicates(),
                forall|g: int, k: int| 0 <= g < groups@.len() && 0 <= k < groups@[g].1@.len() ==> {
                    let pid = (#[trigger] groups@[g].1@[k]);
                    self.spec_procs().contains_key(pid) && self.spec_procs()[pid].spec_comm_id() == groups@[g].0
                        && exists|j: int| 0 <= j < i && ids@[j] == pid
                },
                forall|j: int| 0 <= j < i ==> exists|g: int|
                    0 <= g < groups@.len() && groups@[g].0 == self.spec_procs()[#[trigger] ids@[j]].spec_comm_id()
                        && groups@[g].1@.contains(ids@[j]),
            decreases ids@.len() - i,
        {
            let pid = ids[i];
            assert(ids@.to_set().contains(pid));
            let comm = match self.procs.get(&pid) {
                Some(p) => p.comm_id(),
                None => None,
            };
            assert(comm == self.spec_procs()[pid].spec_comm_id());
            proof {
                assert forall|g: int| 0 <= g < groups@.len() implies !(#[trigger] groups@[g]).1@.contains(pid) by {
                    if groups@[g].1@.contains(pid) {
                        let k = choose|k: int| 0 <= k < groups@[g].1@.len() && groups@[g].1@[k] == pid;
                        assert(groups@[g].1@[k] == pid);
                        let j = choose|j: int| 0 <= j < i && ids@[j] == pid;
                        assert(ids@[j] == ids@[i as int]);
                    }
                }
            }
            let ghost before = groups@;
            let found_at = find_group(&groups, comm);
            if let Some(g) = found_at {
                let ghost old_group = groups@[g as int].1@;
                groups[g].1.push(pid);
                proof {
                    assert(groups@[g as int].1@ == old_group.push(pid));
                    assert forall|h: int| 0 <= h < groups@.len() && h != g implies groups@[h] == before[h] by {}
                    assert(groups@[g as int].1@[old_group.len() as int] == pid);
                    assert forall|h: int, k: int| 0 <= h < groups@.len() && 0 <= k < groups@[h].1@.len() implies {
                        let p = (#[trigger] groups@[h].1@[k]);
                        self.spec_procs().contains_key(p) && self.spec_procs()[p].spec_comm_id() == groups@[h].0
                            && exists|j: int| 0 <= j < i + 1 && ids@[j] == p
                    } by {
                        if h == g && k == old_group.len() {
                            assert(ids@[i as int] == pid);
                        } else {
                            assert(groups@[h].1@[k] == before[h].1@[k]);
                        }
                    }
                    assert forall|j: int| 0 <= j < i + 1 implies exists|h: int|
                        0 <= h < groups@.len() && groups@[h].0 == self.spec_procs()[#[trigger] ids@[j]].spec_comm_id()
                            && groups@[h].1@.contains(ids@[j]) by {
                        if j == i {
                            assert(groups@[g as int].1@.contains(pid));
                        } else {
                            let h = choose|h: int| 0 <= h < before.len() && before[h].0 == self.spec_procs()[ids@[j]].spec_comm_id()
                                && before[h].1@.contains(ids@[j]);
                            let k = choose|k: int| 0 <= k < before[h].1@.len() && before[h].1@[k] == ids@[j];
                            if h == g {
                                assert(groups@[h].1@[k] == ids@[j]);
                            }
                            assert(groups@[h].1@.contains(ids@[j]));
                        }
                    }
                }
            } else {
                groups.push((comm, vec![pid]));
                proof {
                    let n = before.len() as int;
                    assert(groups@[n].1@ =~= seq![pid]);
                    assert forall|h: int, k: int| 0 <= h < groups@.len() && 0 <= k < groups@[h].1@.len() implies {
                        let p = (#[trigger] groups@[h].1@[k]);
                        self.spec_procs().contains_key(p) && self.spec_procs()[p].spec_comm_id() == groups@[h].0
                            && exists|j: int| 0 <= j < i + 1 && ids@[j] == p
                    } by {
                        if h == n {
                            assert(ids@[i as int] == pid);
                        } else {
                            assert(groups@[h] == before[h]);
                        }
                    }
                    assert forall|j: int| 0 <= j < i + 1 implies exists|h: int|
                        0 <= h < groups@.len() && groups@[h].0 == self.spec_procs()[#[trigger] ids@[j]].spec_comm_id()
                            && groups@[h].1@.contains(ids@[j]) by {
                        if j == i {
                            assert(groups@[n].1@[0] == pid);
                        } else {
                            let h = choose|h: int| 0 <= h < before.len() && before[h].0 == self.spec_procs()[ids@[j]].spec_comm_id()
                                && before[h].1@.contains(ids@[j]);
                            assert(groups@[h] == before[h]);
                        }
                    }
                }
            }
            i = i + 1;
        }
        proof {
            assert forall|pid: u32| #[trigger] self.spec_procs().contains_key(pid) implies exists|g: int|
                0 <= g < groups@.len() && groups@[g].0 == self.spec_procs()[pid].spec_comm_id()
                    && #[trigger] groups@[g].1@.contains(pid) by {
                assert(ids@.to_set().contains(pid));
                let j = choose|j: int| 0 <= j < ids@.len() && ids@[j] == pid;
                assert(ids@[j] == pid);
            }
        }
        groups
    }
}

} // verus!

verus! {

impl ExportMachine {
    /// The metadata of the module a mapping maps, when it maps a file whose
    /// metadata is known.
    pub fn get_mapping_metadata(&self, mapping: &ExportMapping) -> (r: Option<&ModuleMetadata>)
        requires
            self.wf(),
        ensures
            match mapping.spec_node() {
                Some(key) => match r {
                    Some(m) => self.spec_module_metadata().contains_key(key) && *m == self.spec_module_metadata()[key],
                    None => !self.spec_module_metadata().contains_key(key),
                },
                None => r is None,
            },
    {
        match mapping.node() {
            Some(node) => self.module_metadata.get(&node),
            None => None,
        }
    }

    /// Sets the metadata of a module, replacing any it had.
    pub fn add_module_metadata(&mut self, key: ExportDevNode, metadata: ModuleMetadata)
        requires
            old(self).wf(),
        ensures
            final(self).wf(),
            final(self).spec_module_metadata() == old(self).spec_module_metadata().insert(key@, metadata),
            final(self).spec_procs() == old(self).spec_procs(),
            final(self).spec_strings() == old(self).spec_strings(),
            final(self).spec_callstacks() == old(self).spec_callstacks(),
    {
        self.module_metadata.insert(key, metadata);
    }

    /// Whether the metadata of a module is known.
    pub fn has_module_metadata(&self, key: &ExportDevNode) -> (b: bool)
        requires
            self.wf(),
        ensures
            b == self.spec_module_metadata().contains_key(key@),
    {
        self.module_metadata.contains(key)
    }

    /// Marks the start of the capture at QPC time `start_qpc`.
    pub fn mark_start_direct(&mut self, start_qpc: u64)
        ensures
            final(self).spec_start_qpc() == Some(start_qpc),
            final(self).spec_end_qpc() == old(self).spec_end_qpc(),
            final(self).spec_duration_micros() == old(self).spec_duration_micros(),
            final(self).spec_procs() == old(self).spec_procs(),
            final(self).spec_strings() == old(self).spec_strings(),
            final(self).spec_callstacks() == old(self).spec_callstacks(),
            final(self).wf() == old(self).wf(),
    {
        self.start_qpc = Some(start_qpc);
    }

    /// Marks the end of a started capture at QPC time `end_qpc`, on a clock
    /// of `qpc_freq` ticks a second: the duration is the elapsed ticks in
    /// microseconds, rounded down. Nothing changes when the capture was not
    /// started.
    pub fn mark_end(&mut self, end_qpc: u64, qpc_freq: u64)
        requires
            old(self).spec_start_qpc() matches Some(start) ==> {
                &&& start <= end_qpc
                &&& (end_qpc - start) * 1000000 <= u64::MAX
                &&& qpc_freq > 0
            },
        ensures
            match old(self).spec_start_qpc() {
                Some(start) => {
                    &&& final(self).spec_end_qpc() == Some(end_qpc)
                    &&& final(self).spec_duration_micros() == Some((((end_qpc - start) * 1000000) / (qpc_freq as int)) as u64)
                },
                None => {
                    &&& final(self).spec_end_qpc() == old(self).spec_end_qpc()
                    &&& final(self).spec_duration_micros() == old(self).spec_duration_micros()
                },
            },
            final(self).spec_start_qpc() == old(self).spec_start_qpc(),
            final(self).spec_procs() == old(self).spec_procs(),
            final(self).spec_strings() == old(self).spec_strings(),
            final(self).spec_callstacks() == old(self).spec_callstacks(),
            final(self).wf() == old(self).wf(),
    {
        if let Some(start_qpc) = self.start_qpc {
            let qpc_duration = end_qpc - start_qpc;
            let micros = (qpc_duration * 1000000u64) / qpc_freq;
            self.end_qpc = Some(end_qpc);
            self.duration_micros = Some(micros);
        }
    }
}

} // verus!

verus! {

impl ExportMachine {
    /// Sorts the samples of each listed process by time.
    pub fn sort_processes_by_time(&mut self, pids: &[u32])
        requires
            old(self).wf(),
            pids@.no_duplicates(),
        ensures
            final(self).wf(),
            final(self).spec_procs().dom() == old(self).spec_procs().dom(),
            forall|pid: u32| #[trigger] old(self).spec_procs().contains_key(pid) && !pids@.contains(pid)
                ==> final(self).spec_procs()[pid] == old(self).spec_procs()[pid],
            forall|pid: u32| #[trigger] old(self).spec_procs().contains_key(pid) && pids@.contains(pid) ==> {
                let p0 = old(self).spec_procs()[pid];
                let p1 = final(self).spec_procs()[pid];
                &&& samples_by_time(p1.spec_samples())
                &&& p1.spec_samples().to_multiset() == p0.spec_samples().to_multiset()
                &&& p1.spec_samples().len() == p0.spec_samples().len()
                &&& p1.spec_mappings() == p0.spec_mappings()
                &&& p1.spec_comm_id() == p0.spec_comm_id()
                &&& p1.spec_ns_pid() == p0.spec_ns_pid()
            },
            final(self).spec_settings() == old(self).spec_settings(),
            final(self).spec_strings() == old(self).spec_strings(),
            final(self).spec_callstacks() == old(self).spec_callstacks(),
            final(self).spec_kinds() == old(self).spec_kinds(),
            final(self).spec_map_index() == old(self).spec_map_index(),
            final(self).spec_module_metadata() == old(self).spec_module_metadata(),
    {
        broadcast use vstd::std_specs::hash::group_hash_axioms;
        let mut j: usize = 0;
        while j < pids.len()
            invariant
                self.wf(),
                pids@.no_duplicates(),
                j <= pids@.len(),
                self.spec_procs().dom() == old(self).spec_procs().dom(),
                forall|pid: u32| #[trigger] old(self).spec_procs().contains_key(pid) && !pids@.take(j as int).contains(pid)
                    ==> self.spec_procs()[pid] == old(self).spec_procs()[pid],
                forall|pid: u32| #[trigger] old(self).spec_procs().contains_key(pid) && pids@.take(j as int).contains(pid) ==> {
                    let p0 = old(self).spec_procs()[pid];
                    let p1 = self.spec_procs()[pid];
                    &&& samples_by_time(p1.spec_samples())
                    &&& p1.spec_samples().to_multiset() == p0.spec_samples().to_multiset()
                    &&& p1.spec_samples().len() == p0.spec_samples().len()
                    &&& p1.spec_mappings() == p0.spec_mappings()
                    &&& p1.spec_comm_id() == p0.spec_comm_id()
                    &&& p1.spec_ns_pid() == p0.spec_ns_pid()
                },
                self.spec_settings() == old(self).spec_settings(),
                self.spec_strings() == old(self).spec_strings(),
                self.spec_callstacks() == old(self).spec_callstacks(),
                self.spec_kinds() == old(self).spec_kinds(),
                self.spec_map_index() == old(self).spec_map_index(),
                self.spec_module_metadata() == old(self).spec_module_metadata(),
            decreases pids@.len() - j,
        {
            let pid = pids[j];
            proof {
                assert(pids@.take(j + 1) =~= pids@.take(j as int).push(pid));
                assert(!pids@.take(j as int).contains(pid)) by {
                    if pids@.take(j as int).contains(pid) {
                        let k = choose|k: int| 0 <= k < j && #[trigger] pids@.take(j as int)[k] == pid;
                        assert(pids@[k] == pids@[j as int]);
                    }
                }
            }
            let ghost before = self.spec_procs();
            if self.procs.contains_key(&pid) {
                let p = self.process_mut(pid);
                p.sort_samples_by_time();
            }
            proof {
                assert forall|q: u32| #[trigger] old(self).spec_procs().contains_key(q) && !pids@.take(j + 1).contains(q)
                    implies self.spec_procs()[q] == old(self).spec_procs()[q] by {
                    assert(!pids@.take(j as int).contains(q)) by {
                        if pids@.take(j as int).contains(q) {
                            let k = choose|k: int| 0 <= k < j && #[trigger] pids@.take(j as int)[k] == q;
                            assert(pids@.take(j + 1)[k] == q);
                        }
                    }
                    assert(q != pid) by {
                        if q == pid {
                            assert(pids@.take(j + 1)[j as int] == pid);
                        }
                    }
                    assert(self.spec_procs()[q] == before[q]);
                }
                assert forall|q: u32| #[trigger] old(self).spec_procs().contains_key(q) && pids@.take(j + 1).contains(q)
                    implies {
                    let p0 = old(self).spec_procs()[q];
                    let p1 = self.spec_procs()[q];
                    &&& samples_by_time(p1.spec_samples())
                    &&& p1.spec_samples().to_multiset() == p0.spec_samples().to_multiset()
                    &&& p1.spec_samples().len() == p0.spec_samples().len()
                    &&& p1.spec_mappings() == p0.spec_mappings()
                    &&& p1.spec_comm_id() == p0.spec_comm_id()
                    &&& p1.spec_ns_pid() == p0.spec_ns_pid()
                } by {
                    if q != pid {
                        let k = choose|k: int| 0 <= k < j + 1 && #[trigger] pids@.take(j + 1)[k] == q;
                        assert(k != j);
                        assert(pids@.take(j as int)[k] == q);
                        assert(self.spec_procs()[q] == before[q]);
                    }
                }
            }
            j = j + 1;
        }
        assert(pids@.take(pids@.len() as int) =~= pids@);
    }
}

} // verus!

verus! {

/// The samples of process `pid` among replayed entries, in order.
pub open spec fn replayed_of(out: Seq<(u32, ExportProcessSample)>, pid: u32) -> Seq<ExportProcessSample>
    decreases out.len(),
{
    if out.len() == 0 {
        Seq::empty()
    } else {
        let rest = replayed_of(out.drop_last(), pid);
        if out.last().0 == pid { rest.push(out.last().1) } else { rest }
    }
}

/// Whether replayed entries are in order of time.
pub open spec fn entries_by_time(out: Seq<(u32, ExportProcessSample)>) -> bool {
    forall|a: int, b: int| 0 <= a <= b < out.len()
        ==> (#[trigger] out[a]).1.spec_view().time <= (#[trigger] out[b]).1.spec_view().time
}

/// The sum of the first `m` cursors.
pub open spec fn sum_upto(cur: Seq<usize>, m: int) -> int
    decreases m,
{
    if m <= 0 { 0 } else { sum_upto(cur, m - 1) + cur[m - 1] }
}

proof fn lemma_sum_update(cur: Seq<usize>, m: int, j: int, v: usize)
    requires
        0 <= j < cur.len(),
        m <= cur.len(),
    ensures
        sum_upto(cur.update(j, v), m) == sum_upto(cur, m) + (if j < m { v - cur[j] } else { 0 }),
    decreases m,
{
    if m > 0 {
        lemma_sum_update(cur, m - 1, j, v);
    }
}

impl ExportMachine {
    /// The samples of the listed process at position `k`.
    pub open spec fn samples_at(&self, pids: Seq<u32>, k: int) -> Seq<ExportProcessSample> {
        self.spec_process_samples(pids[k])
    }

    /// The number of samples of the first `m` listed processes.
    pub open spec fn total_upto(&self, pids: Seq<u32>, m: int) -> int
        decreases m,
    {
        if m <= 0 { 0 } else { self.total_upto(pids, m - 1) + self.samples_at(pids, m - 1).len() }
    }

    proof fn lemma_sum_le_total(&self, pids: Seq<u32>, cur: Seq<usize>, m: int)
        requires
            m <= cur.len(),
            m <= pids.len(),
            forall|k: int| 0 <= k < m ==> cur[k] <= #[trigger] self.samples_at(pids, k).len(),
        ensures
            sum_upto(cur, m) <= self.total_upto(pids, m),
        decreases m,
    {
        if m > 0 {
            self.lemma_sum_le_total(pids, cur, m - 1);
            assert(cur[m - 1] <= self.samples_at(pids, m - 1).len());
        }
    }

    /// The samples of process `pid`; none when there is no such process.
    fn samples_of(&self, pid: u32) -> (s: &[ExportProcessSample])
        ensures
            s@ == self.spec_process_samples(pid),
    {
        broadcast use vstd::std_specs::hash::group_hash_axioms;
        match self.procs.get(&pid) {
            Some(p) => p.samples().as_slice(),
            None => {
                let empty: &[ExportProcessSample] = &[];
                assert(empty@ =~= Seq::<ExportProcessSample>::empty());
                empty
            },
        }
    }
}

} // verus!

verus! {

impl ExportMachine {
    /// Replays the samples of the listed processes, whose samples are each
    /// in order of time, in order of time: each round replays, in list
    /// order, the next sample of every process whose next sample has the
    /// earliest time left, so that samples of equal time come by their rank
    /// among the samples of that time of their process, then in list order.
    /// Samples at the largest time are not replayed.
    #[verifier::spinoff_prover]
    #[verifier::rlimit(100)]
    pub fn replay_order(&self, pids: &[u32]) -> (out: Vec<(u32, ExportProcessSample)>)
        requires
            pids@.no_duplicates(),
            forall|k: int| 0 <= k < pids@.len() ==> samples_by_time(#[trigger] self.samples_at(pids@, k)),
        ensures
            forall|k: int| 0 <= k < out@.len() ==> pids@.contains((#[trigger] out@[k]).0),
            entries_by_time(out@),
            forall|k: int| 0 <= k < pids@.len() ==> {
                let f = #[trigger] self.samples_at(pids@, k);
                let n = replayed_of(out@, pids@[k]).len();
                &&& n <= f.len()
                &&& replayed_of(out@, pids@[k]) == f.take(n as int)
                &&& forall|i: int| 0 <= i < n ==> f[i].spec_view().time < u64::MAX
                &&& forall|i: int| n <= i < f.len() ==> f[i].spec_view().time == u64::MAX
            },
            exists|posg: Seq<int>, idxg: Seq<int>| self.replay_ranked(pids@, out@, posg, idxg),
    {
        let n = pids.len();
        let mut cur: Vec<usize> = Vec::new();
        while cur.len() < n
            invariant
                cur@.len() <= n,
                forall|k: int| 0 <= k < cur@.len() ==> cur@[k] == 0,
            decreases n - cur@.len(),
        {
            cur.push(0);
        }
        let mut out: Vec<(u32, ExportProcessSample)> = Vec::new();
        let ghost mut posg: Seq<int> = Seq::empty();
        let ghost mut idxg: Seq<int> = Seq::empty();
        let ghost total = self.total_upto(pids@, n as int);
        proof {
            assert forall|k: int| 0 <= k < n implies replayed_of(out@, pids@[k]) == (#[trigger] self.samples_at(pids@, k)).take(cur@[k] as int) by {
                assert(self.samples_at(pids@, k).take(0) =~= Seq::<ExportProcessSample>::empty());
            }
            assert(sum_upto(cur@, n as int) == 0) by {
                lemma_sum_zero(cur@, n as int);
            }
        }
        let mut done = false;
        while !done
            invariant
                n == pids@.len(),
                cur@.len() == n,
                pids@.no_duplicates(),
                forall|k: int| 0 <= k < n ==> samples_by_time(#[trigger] self.samples_at(pids@, k)),
                forall|k: int| 0 <= k < n ==> cur@[k] <= (#[trigger] self.samples_at(pids@, k)).len(),
                forall|k: int| 0 <= k < n ==> replayed_of(out@, pids@[k]) == (#[trigger] self.samples_at(pids@, k)).take(cur@[k] as int),
                forall|k: int| 0 <= k < out@.len() ==> pids@.contains((#[trigger] out@[k]).0),
                entries_by_time(out@),
                self.replay_ranked(pids@, out@, posg, idxg),
                out@.len() == 0 ==> forall|k: int| 0 <= k < n ==> #[trigger] cur@[k] == 0,
                out@.len() > 0 ==> forall|k: int| 0 <= k < n && cur@[k] < (#[trigger] self.samples_at(pids@, k)).len()
                    ==> key_before(
                        out@.last().1.spec_view().time,
                        time_rank(self.samples_at(pids@, posg.last()), idxg.last()),
                        posg.last(),
                        self.samples_at(pids@, k)[cur@[k] as int].spec_view().time,
                        time_rank(self.samples_at(pids@, k), cur@[k] as int),
                        k,
                    ),
                out@.len() > 0 ==> forall|k: int| 0 <= k < n && cur@[k] < (#[trigger] self.samples_at(pids@, k)).len()
                    && self.samples_at(pids@, k)[cur@[k] as int].spec_view().time == out@.last().1.spec_view().time
                    ==> time_rank(self.samples_at(pids@, k), cur@[k] as int) == time_rank(self.samples_at(pids@, posg.last()), idxg.last()) + 1,
                out@.len() > 0 ==> forall|k: int| 0 <= k < n && 0 < cur@[k]
                    ==> (#[trigger] self.samples_at(pids@, k))[cur@[k] - 1].spec_view().time <= out@.last().1.spec_view().time,
                forall|k: int, i: int| 0 <= k < n && 0 <= i < cur@[k] ==> (#[trigger] self.samples_at(pids@, k)[i]).spec_view().time < u64::MAX,
                out@.len() == sum_upto(cur@, n as int),
                total == self.total_upto(pids@, n as int),
                done ==> forall|k: int| 0 <= k < n && cur@[k] < (#[trigger] self.samples_at(pids@, k)).len()
                    ==> self.samples_at(pids@, k)[cur@[k] as int].spec_view().time == u64::MAX,
            decreases total - out@.len(), if done { 0int } else { 1int },
        {
            proof {
                self.lemma_sum_le_total(pids@, cur@, n as int);
            }
            let mut earliest = u64::MAX;
            let mut best: usize = 0;
            let mut j: usize = 0;
            while j < n
                invariant
                    n == pids@.len(),
                    cur@.len() == n,
                    forall|k: int| 0 <= k < n ==> cur@[k] <= (#[trigger] self.samples_at(pids@, k)).len(),
                    j <= n,
                    forall|k: int| 0 <= k < j && cur@[k] < (#[trigger] self.samples_at(pids@, k)).len()
                        ==> self.samples_at(pids@, k)[cur@[k] as int].spec_view().time >= earliest,
                    earliest < u64::MAX ==> best < j && cur@[best as int] < self.samples_at(pids@, best as int).len()
                        && self.samples_at(pids@, best as int)[cur@[best as int] as int].spec_view().time == earliest,
                decreases n - j,
            {
                let samples = self.samples_of(pids[j]);
                assert(samples@ == self.samples_at(pids@, j as int));
                if cur[j] < samples.len() {
                    let t = samples[cur[j]].time();
                    if t < earliest {
                        earliest = t;
                        best = j;
                    }
                }
                j = j + 1;
            }
            if earliest == u64::MAX {
                done = true;
            } else {
                let ghost cur0 = cur@;
                let ghost out0 = out@;
                let ghost posg0 = posg;
                let ghost idxg0 = idxg;
                let ghost rank0: int = if out0.len() > 0 && out0.last().1.spec_view().time == earliest {
                    time_rank(self.samples_at(pids@, posg0.last()), idxg0.last()) + 1
                } else {
                    0
                };
                proof {
                    assert forall|k: int| 0 <= k < n && cur0[k] < (#[trigger] self.samples_at(pids@, k)).len()
                        && self.samples_at(pids@, k)[cur0[k] as int].spec_view().time == earliest
                        implies time_rank(self.samples_at(pids@, k), cur0[k] as int) == rank0 by {
                        let f = self.samples_at(pids@, k);
                        if out0.len() > 0 && out0.last().1.spec_view().time != earliest && cur0[k] > 0 {
                            assert(f[cur0[k] - 1].spec_view().time <= out0.last().1.spec_view().time);
                            assert(key_before(
                                out0.last().1.spec_view().time,
                                time_rank(self.samples_at(pids@, posg0.last()), idxg0.last()),
                                posg0.last(),
                                f[cur0[k] as int].spec_view().time,
                                time_rank(f, cur0[k] as int),
                                k,
                            ));
                        }
                    }
                }
                let mut j: usize = 0;
                while j < n
                    invariant
                        n == pids@.len(),
                        cur@.len() == n,
                        pids@.no_duplicates(),
                        earliest < u64::MAX,
                        best < n,
                        cur0.len() == n,
                        cur0[best as int] < self.samples_at(pids@, best as int).len(),
                        self.samples_at(pids@, best as int)[cur0[best as int] as int].spec_view().time == earliest,
                        forall|k: int| 0 <= k < n ==> samples_by_time(#[trigger] self.samples_at(pids@, k)),
                        forall|k: int| 0 <= k < n && cur0[k] < (#[trigger] self.samples_at(pids@, k)).len()
                            ==> self.samples_at(pids@, k)[cur0[k] as int].spec_view().time >= earliest,
                        forall|k: int| 0 <= k < n && cur0[k] < (#[trigger] self.samples_at(pids@, k)).len()
                            && self.samples_at(pids@, k)[cur0[k] as int].spec_view().time == earliest
                            ==> time_rank(self.samples_at(pids@, k), cur0[k] as int) == rank0,
                        j <= n,
                        forall|k: int| j <= k < n ==> #[trigger] cur@[k] == cur0[k],
                        forall|k: int| 0 <= k < n ==> cur@[k] <= (#[trigger] self.samples_at(pids@, k)).len(),
                        forall|k: int| 0 <= k < n && cur@[k] < (#[trigger] self.samples_at(pids@, k)).len() && k < j
                            ==> self.samples_at(pids@, k)[cur@[k] as int].spec_view().time > earliest || (
                            self.samples_at(pids@, k)[cur@[k] as int].spec_view().time == earliest
                                && time_rank(self.samples_at(pids@, k), cur@[k] as int) == rank0 + 1),
                        forall|k: int| 0 <= k < n ==> replayed_of(out@, pids@[k]) == (#[trigger] self.samples_at(pids@, k)).take(cur@[k] as int),
                        forall|k: int| 0 <= k < out@.len() ==> pids@.contains((#[trigger] out@[k]).0),
                        entries_by_time(out@),
                        self.replay_ranked(pids@, out@, posg, idxg),
                        out@.len() > 0 ==> out@.last().1.spec_view().time <= earliest,
                        forall|k: int, i: int| 0 <= k < n && 0 <= i < cur@[k] ==> (#[trigger] self.samples_at(pids@, k)[i]).spec_view().time < u64::MAX,
                        out@.len() == sum_upto(cur@, n as int),
                        j > best ==> out@.len() > out0.len(),
                        out@.len() >= out0.len(),
                        out@.len() == out0.len() ==> cur@ == cur0 && out@ == out0 && posg == posg0 && idxg == idxg0,
                        out@.len() == out0.len() && out0.len() > 0 ==> forall|k: int| 0 <= k < n && cur0[k] < (#[trigger] self.samples_at(pids@, k)).len()
                            ==> key_before(
                                out0.last().1.spec_view().time,
                                time_rank(self.samples_at(pids@, posg0.last()), idxg0.last()),
                                posg0.last(),
                                self.samples_at(pids@, k)[cur0[k] as int].spec_view().time,
                                time_rank(self.samples_at(pids@, k), cur0[k] as int),
                                k,
                            ),
                        out@.len() > out0.len() ==> {
                            &&& out@.last().1.spec_view().time == earliest
                            &&& time_rank(self.samples_at(pids@, posg.last()), idxg.last()) == rank0
                            &&& posg.last() < j
                        },
                        out@.len() > out0.len() ==> forall|k: int| 0 <= k < n && 0 < cur@[k]
                            ==> (#[trigger] self.samples_at(pids@, k))[cur@[k] - 1].spec_view().time <= earliest,
                        out0.len() > 0 ==> forall|k: int| 0 <= k < n && 0 < cur0[k]
                            ==> (#[trigger] self.samples_at(pids@, k))[cur0[k] - 1].spec_view().time <= out0.last().1.spec_view().time,
                        out0.len() > 0 ==> out0.last().1.spec_view().time <= earliest,
                    decreases n - j,
                {
                    let pid = pids[j];
                    let samples = self.samples_of(pid);
                    let ghost f = self.samples_at(pids@, j as int);
                    assert(samples@ == f);
                    let c = cur[j];
                    if c < samples.len() && samples[c].time() == earliest {
                        let s = samples[c];
                        let ghost before = out@;
                        proof {
                            assert(time_rank(f, c as int) == rank0);
                            if before.len() > 0 {
                                if before.len() == out0.len() {
                                    assert(key_before(
                                        out0.last().1.spec_view().time,
                                        time_rank(self.samples_at(pids@, posg0.last()), idxg0.last()),
                                        posg0.last(),
                                        f[cur0[j as int] as int].spec_view().time,
                                        time_rank(f, cur0[j as int] as int),
                                        j as int,
                                    ));
                                }
                            }
                            self.lemma_ranked_push(pids@, out@, posg, idxg, (pid, s), j as int, c as int);
                            posg = posg.push(j as int);
                            idxg = idxg.push(c as int);
                        }
                        out.push((pid, s));
                        proof {
                            assert(out@.drop_last() =~= before);
                            assert forall|k: int| 0 <= k < n implies replayed_of(out@, pids@[k]) == (#[trigger] self.samples_at(pids@, k)).take(
                                (if k == j { c + 1 } else { cur@[k] as int }),
                            ) by {
                                if k == j {
                                    assert(f.take(c + 1) =~= f.take(c as int).push(s));
                                } else {
                                    assert(pids@[k] != pid);
                                }
                            }
                            assert forall|a: int, b: int| 0 <= a <= b < out@.len() implies (#[trigger] out@[a]).1.spec_view().time
                                <= (#[trigger] out@[b]).1.spec_view().time by {
                                if b == before.len() && a < b {
                                    assert(before[a].1.spec_view().time <= before.last().1.spec_view().time);
                                }
                            }
                            lemma_sum_update(cur@, n as int, j as int, (c + 1) as usize);
                        }
                        cur.set(j, c + 1);
                        proof {
                            if c + 1 < f.len() {
                                assert(f[c as int].spec_view().time <= f[c + 1].spec_view().time);
                                if f[c + 1].spec_view().time == earliest {
                                    assert(time_rank(f, c + 1) == time_rank(f, c as int) + 1);
                                }
                            }
                            assert forall|k: int| 0 <= k < n && 0 < cur@[k]
                                implies (#[trigger] self.samples_at(pids@, k))[cur@[k] - 1].spec_view().time <= earliest by {
                                if k != j && before.len() > 0 {
                                    if before.len() == out0.len() {
                                        assert(cur@[k] == cur0[k]);
                                    }
                                }
                            }
                        }
                    } else {
                        proof {
                            if c < f.len() {
                                assert(f[c as int].spec_view().time > earliest);
                            }
                        }
                    }
                    j = j + 1;
                }
                proof {
                    assert(out@.len() > 0);
                    assert forall|k: int| 0 <= k < n && cur@[k] < (#[trigger] self.samples_at(pids@, k)).len()
                        implies key_before(
                            out@.last().1.spec_view().time,
                            time_rank(self.samples_at(pids@, posg.last()), idxg.last()),
                            posg.last(),
                            self.samples_at(pids@, k)[cur@[k] as int].spec_view().time,
                            time_rank(self.samples_at(pids@, k), cur@[k] as int),
                            k,
                        ) by {}
                }
            }
            proof {
                self.lemma_sum_le_total(pids@, cur@, n as int);
            }
        }
        proof {
            assert forall|k: int| 0 <= k < n implies {
                let f = #[trigger] self.samples_at(pids@, k);
                let m = replayed_of(out@, pids@[k]).len();
                &&& m <= f.len()
                &&& replayed_of(out@, pids@[k]) == f.take(m as int)
                &&& forall|i: int| 0 <= i < m ==> f[i].spec_view().time < u64::MAX
                &&& forall|i: int| m <= i < f.len() ==> f[i].spec_view().time == u64::MAX
            } by {
                let f = self.samples_at(pids@, k);
                assert(replayed_of(out@, pids@[k]).len() == cur@[k]);
                assert forall|i: int| cur@[k] <= i < f.len() implies f[i].spec_view().time == u64::MAX by {
                    assert(f[cur@[k] as int].spec_view().time <= f[i].spec_view().time);
                }
            }
        }
        out
    }
}

proof fn lemma_sum_zero(cur: Seq<usize>, m: int)
    requires
        m <= cur.len(),
        forall|k: int| 0 <= k < cur.len() ==> cur[k] == 0,
    ensures
        sum_upto(cur, m) == 0,
    decreases m,
{
    if m > 0 {
        lemma_sum_zero(cur, m - 1);
    }
}

} // verus!

verus! {

impl ExportMachine {
    /// Sorts the samples of the listed processes by time and replays them
    /// in order of time (see `replay_order`): samples of equal time come by
    /// their rank among the samples of that time of their process, then in
    /// list order. Samples at the largest time are not replayed.
    pub fn replay_by_time(&mut self, pids: &[u32]) -> (out: Vec<(u32, ExportProcessSample)>)
        requires
            old(self).wf(),
            pids@.no_duplicates(),
        ensures
            final(self).wf(),
            final(self).spec_procs().dom() == old(self).spec_procs().dom(),
            forall|pid: u32| #[trigger] old(self).spec_procs().contains_key(pid) && !pids@.contains(pid)
                ==> final(self).spec_procs()[pid] == old(self).spec_procs()[pid],
            forall|pid: u32| #[trigger] old(self).spec_procs().contains_key(pid) && pids@.contains(pid) ==> {
                let p0 = old(self).spec_procs()[pid];
                let p1 = final(self).spec_procs()[pid];
                &&& samples_by_time(p1.spec_samples())
                &&& p1.spec_samples().to_multiset() == p0.spec_samples().to_multiset()
                &&& p1.spec_mappings() == p0.spec_mappings()
                &&& p1.spec_comm_id() == p0.spec_comm_id()
            },
            forall|k: int| 0 <= k < out@.len() ==> pids@.contains((#[trigger] out@[k]).0),
            entries_by_time(out@),
            forall|k: int| 0 <= k < pids@.len() ==> {
                let f = #[trigger] final(self).samples_at(pids@, k);
                let n = replayed_of(out@, pids@[k]).len();
                &&& n <= f.len()
                &&& replayed_of(out@, pids@[k]) == f.take(n as int)
                &&& forall|i: int| 0 <= i < n ==> f[i].spec_view().time < u64::MAX
                &&& forall|i: int| n <= i < f.len() ==> f[i].spec_view().time == u64::MAX
            },
            exists|posg: Seq<int>, idxg: Seq<int>| final(self).replay_ranked(pids@, out@, posg, idxg),
    {
        self.sort_processes_by_time(pids);
        proof {
            assert forall|k: int| 0 <= k < pids@.len() implies samples_by_time(#[trigger] self.samples_at(pids@, k)) by {
                let pid = pids@[k];
                assert(pids@.contains(pid));
                if !self.spec_procs().contains_key(pid) {
                    assert(self.samples_at(pids@, k) =~= Seq::<ExportProcessSample>::empty());
                }
            }
        }
        self.replay_order(pids)
    }
}

} // verus!

verus! {

/// The rank of sample `i` among the samples of equal time right before it:
/// 0 for the first of its time.
pub open spec fn time_rank(f: Seq<ExportProcessSample>, i: int) -> int
    decreases i,
{
    if i <= 0 {
        0
    } else if f[i - 1].spec_view().time == f[i].spec_view().time {
        time_rank(f, i - 1) + 1
    } else {
        0
    }
}

/// Whether the key (time, rank, position) `(t1, r1, p1)` comes before
/// `(t2, r2, p2)`: by time, then rank, then position.
pub open spec fn key_before(t1: u64, r1: int, p1: int, t2: u64, r2: int, p2: int) -> bool {
    t1 < t2 || (t1 == t2 && (r1 < r2 || (r1 == r2 && p1 < p2)))
}

impl ExportMachine {
    /// The key of replayed entry `a`, given the position of its process
    /// and the index of its sample.
    pub open spec fn entry_key_before(
        &self,
        pids: Seq<u32>,
        out: Seq<(u32, ExportProcessSample)>,
        posg: Seq<int>,
        idxg: Seq<int>,
        a: int,
        b: int,
    ) -> bool {
        key_before(
            out[a].1.spec_view().time,
            time_rank(self.samples_at(pids, posg[a]), idxg[a]),
            posg[a],
            out[b].1.spec_view().time,
            time_rank(self.samples_at(pids, posg[b]), idxg[b]),
            posg[b],
        )
    }

    /// Whether `posg` and `idxg` give, for each replayed entry, the position
    /// of its process in the list and the index of its sample among the
    /// process's samples, and the entries come in order of time, then of
    /// rank among the samples of equal time of their process, then of
    /// position.
    pub open spec fn replay_ranked(
        &self,
        pids: Seq<u32>,
        out: Seq<(u32, ExportProcessSample)>,
        posg: Seq<int>,
        idxg: Seq<int>,
    ) -> bool {
        &&& posg.len() == out.len()
        &&& idxg.len() == out.len()
        &&& forall|a: int| #![trigger out[a]] 0 <= a < out.len() ==> {
            &&& 0 <= posg[a] < pids.len()
            &&& pids[posg[a]] == out[a].0
            &&& idxg[a] == replayed_of(out.take(a), out[a].0).len()
            &&& 0 <= idxg[a] < self.samples_at(pids, posg[a]).len()
            &&& self.samples_at(pids, posg[a])[idxg[a]] == out[a].1
        }
        &&& forall|a: int, b: int| 0 <= a < b < out.len() ==> #[trigger] self.entry_key_before(pids, out, posg, idxg, a, b)
    }

    #[verifier::spinoff_prover]
    #[verifier::rlimit(40)]
    proof fn lemma_ranked_push(
        &self,
        pids: Seq<u32>,
        out: Seq<(u32, ExportProcessSample)>,
        posg: Seq<int>,
        idxg: Seq<int>,
        e: (u32, ExportProcessSample),
        j: int,
        c: int,
    )
        requires
            self.replay_ranked(pids, out, posg, idxg),
            0 <= j < pids.len(),
            pids[j] == e.0,
            replayed_of(out, e.0) == self.samples_at(pids, j).take(c),
            0 <= c < self.samples_at(pids, j).len(),
            self.samples_at(pids, j)[c] == e.1,
            out.len() > 0 ==> key_before(
                out.last().1.spec_view().time,
                time_rank(self.samples_at(pids, posg.last()), idxg.last()),
                posg.last(),
                e.1.spec_view().time,
                time_rank(self.samples_at(pids, j), c),
                j,
            ),
        ensures
            self.replay_ranked(pids, out.push(e), posg.push(j), idxg.push(c)),
    {
        let out2 = out.push(e);
        let posg2 = posg.push(j);
        let idxg2 = idxg.push(c);
        assert(out2.take(out.len() as int) =~= out);
        assert forall|a: int| #![trigger out2[a]] 0 <= a < out2.len() implies {
            &&& 0 <= posg2[a] < pids.len()
            &&& pids[posg2[a]] == out2[a].0
            &&& idxg2[a] == replayed_of(out2.take(a), out2[a].0).len()
            &&& 0 <= idxg2[a] < self.samples_at(pids, posg2[a]).len()
            &&& self.samples_at(pids, posg2[a])[idxg2[a]] == out2[a].1
        } by {
            if a < out.len() {
                assert(out2.take(a) =~= out.take(a));
                assert(out2[a] == out[a]);
            }
        }
        assert forall|a: int, b: int| 0 <= a < b < out2.len() implies #[trigger] self.entry_key_before(pids, out2, posg2, idxg2, a, b) by {
            if b < out.len() {
                assert(self.entry_key_before(pids, out, posg, idxg, a, b));
            } else if a < out.len() - 1 {
                assert(self.entry_key_before(pids, out, posg, idxg, a, out.len() - 1));
            }
        }
    }
}

} // verus!

verus! {

impl ExportMachine {
    /// The interned callstacks of a well-formed machine are distinct.
    pub proof fn lemma_callstacks_distinct(&self)
        requires
            self.wf(),
        ensures
            self.spec_callstacks().no_duplicates(),
    {
        self.callstacks.lemma_distinct();
    }
}

/// Law: samples made from the same frames share their callstack. Among
/// distinct interned callstacks, interning a tail and then the same tail
/// again gives the same id twice, and the second time nothing is added.
pub proof fn lemma_same_frames_same_callstack(
    s0: Seq<Seq<u64>>,
    s1: Seq<Seq<u64>>,
    s2: Seq<Seq<u64>>,
    tail: Seq<u64>,
    id1: usize,
    id2: usize,
)
    requires
        s0.no_duplicates(),
        interned_as(s0, tail, id1, s1),
        interned_as(s1, tail, id2, s2),
    ensures
        id1 == id2,
        s2 == s1,
{
    if exists|i: int| crate::intern::seq_contains_at(s0, tail, i) {
        assert(crate::intern::seq_contains_at(s1, tail, id1 as int));
        assert(s1[id2 as int] == tail);
    } else {
        assert(s1 == s0.push(tail));
        assert(crate::intern::seq_contains_at(s1, tail, id1 as int));
        assert(s1[id2 as int] == tail);
        if id2 != id1 {
            assert(s0[id2 as int] == tail);
            assert(crate::intern::seq_contains_at(s0, tail, id2 as int));
        }
    }
}

} // verus!
