//! A process: its samples and its memory mappings.

use std::collections::HashSet;

use vstd::prelude::*;

use super::mappings::{ExportMapping, ExportMappingLookup, added_symbols, best_candidate, is_candidate, time_bound};
use super::symbols::SymbolEntry;
use super::KERNEL_START;
use crate::intern::{CallstackId, InternedCallstacks, InternedStrings};

verus! {

/// One sample: when, its value, where (CPU, thread, instruction pointer),
/// its kind and the id of its callstack.
#[derive(Clone, Copy, Debug)]
pub struct ExportProcessSample {
    time: u64,
    value: u64,
    cpu: u16,
    kind: u16,
    tid: u32,
    ip: u64,
    callstack_id: usize,
}

/// The fields of a sample: time, value, cpu, kind, tid, ip, callstack id.
pub struct SampleView {
    pub time: u64,
    pub value: u64,
    pub cpu: u16,
    pub kind: u16,
    pub tid: u32,
    pub ip: u64,
    pub callstack_id: usize,
}

impl ExportProcessSample {
    pub closed spec fn spec_view(&self) -> SampleView {
        SampleView {
            time: self.time,
            value: self.value,
            cpu: self.cpu,
            kind: self.kind,
            tid: self.tid,
            ip: self.ip,
            callstack_id: self.callstack_id,
        }
    }

    pub fn new(time: u64, value: u64, cpu: u16, kind: u16, tid: u32, ip: u64, callstack_id: usize) -> (s: Self)
        ensures
            s.spec_view() == (SampleView { time, value, cpu, kind, tid, ip, callstack_id }),
    {
        Self { time, value, cpu, kind, tid, ip, callstack_id }
    }

    pub fn time_mut(&mut self) -> (t: &mut u64)
        ensures
            *t == old(self).spec_view().time,
            final(self).spec_view() == (SampleView { time: *final(t), ..old(self).spec_view() }),
    {
        &mut self.time
    }

    pub fn value_mut(&mut self) -> (v: &mut u64)
        ensures
            *v == old(self).spec_view().value,
            final(self).spec_view() == (SampleView { value: *final(v), ..old(self).spec_view() }),
    {
        &mut self.value
    }

    pub fn time(&self) -> (t: u64)
        ensures
            t == self.spec_view().time,
    {
        self.time
    }

    pub fn value(&self) -> (v: u64)
        ensures
            v == self.spec_view().value,
    {
        self.value
    }

    pub fn cpu(&self) -> (c: u16)
        ensures
            c == self.spec_view().cpu,
    {
        self.cpu
    }

    pub fn kind(&self) -> (k: u16)
        ensures
            k == self.spec_view().kind,
    {
        self.kind
    }

    pub fn tid(&self) -> (t: u32)
        ensures
            t == self.spec_view().tid,
    {
        self.tid
    }

    pub fn ip(&self) -> (i: u64)
        ensures
            i == self.spec_view().ip,
    {
        self.ip
    }

    pub fn callstack_id(&self) -> (i: usize)
        ensures
            i == self.spec_view().callstack_id,
    {
        self.callstack_id
    }
}


/// The addresses at the start of a callstack that lie in the kernel: up to
/// the first user-space frame.
pub open spec fn kernel_prefix(frames: Seq<u64>) -> Set<u64>
    decreases frames.len(),
{
    if frames.len() == 0 || frames[0] < KERNEL_START {
        Set::empty()
    } else {
        kernel_prefix(frames.drop_first()).insert(frames[0])
    }
}

/// The frames of a sample's callstack: its instruction pointer, then the
/// interned frames of its callstack id, when the id is known.
pub open spec fn sample_frames(s: SampleView, stacks: Seq<Seq<u64>>) -> Option<Seq<u64>> {
    if s.callstack_id < stacks.len() {
        Some(seq![s.ip] + stacks[s.callstack_id as int])
    } else {
        None
    }
}

/// The kernel addresses of a sample: its instruction pointer when it is in
/// the kernel, with the kernel frames its callstack starts with.
pub open spec fn sample_kernel_addrs(s: SampleView, stacks: Seq<Seq<u64>>) -> Set<u64> {
    if s.ip < KERNEL_START {
        Set::empty()
    } else {
        match sample_frames(s, stacks) {
            Some(f) => kernel_prefix(f).insert(s.ip),
            None => Set::empty().insert(s.ip),
        }
    }
}

/// The kernel addresses of the first `n` samples.
pub open spec fn kernel_addrs(samples: Seq<ExportProcessSample>, stacks: Seq<Seq<u64>>, n: int) -> Set<u64>
    decreases n,
{
    if n <= 0 {
        Set::empty()
    } else {
        kernel_addrs(samples, stacks, n - 1).union(sample_kernel_addrs(samples[n - 1].spec_view(), stacks))
    }
}

/// Whether a user-space address is kept: it lies in the mapping, when one
/// is given.
pub open spec fn user_kept(a: u64, range: Option<(u64, u64)>) -> bool {
    a < KERNEL_START && match range {
        Some(r) => r.0 <= a <= r.1,
        None => true,
    }
}

/// The user-space addresses of a sample kept for a mapping range: its
/// instruction pointer and the frames of its callstack.
pub open spec fn sample_user_addrs(s: SampleView, stacks: Seq<Seq<u64>>, range: Option<(u64, u64)>) -> Set<u64> {
    Set::new(
        |a: u64|
            user_kept(a, range) && (a == s.ip || (sample_frames(s, stacks) matches Some(f) && f.contains(a))),
    )
}

/// The user-space addresses of the first `n` samples.
pub open spec fn user_addrs(
    samples: Seq<ExportProcessSample>,
    stacks: Seq<Seq<u64>>,
    range: Option<(u64, u64)>,
    n: int,
) -> Set<u64>
    decreases n,
{
    if n <= 0 {
        Set::empty()
    } else {
        user_addrs(samples, stacks, range, n - 1).union(sample_user_addrs(samples[n - 1].spec_view(), stacks, range))
    }
}

/// Whether samples are in order of time.
pub open spec fn samples_by_time(s: Seq<ExportProcessSample>) -> bool {
    forall|i: int, j: int| 0 <= i <= j < s.len() ==> (#[trigger] s[i]).spec_view().time <= (#[trigger] s[j]).spec_view().time
}

/// A process: its id, name id, namespace id, samples and mappings.
pub struct ExportProcess {
    pid: u32,
    comm_id: Option<usize>,
    ns_pid: Option<u32>,
    samples: Vec<ExportProcessSample>,
    mappings: ExportMappingLookup,
    anon_maps: bool,
}

impl ExportProcess {
    pub closed spec fn spec_pid(&self) -> u32 {
        self.pid
    }

    pub closed spec fn spec_comm_id(&self) -> Option<usize> {
        self.comm_id
    }

    pub closed spec fn spec_ns_pid(&self) -> Option<u32> {
        self.ns_pid
    }

    pub closed spec fn spec_samples(&self) -> Seq<ExportProcessSample> {
        self.samples@
    }

    pub closed spec fn spec_mappings(&self) -> Seq<ExportMapping> {
        self.mappings.spec_mappings()
    }

    pub closed spec fn spec_min_lookup(&self) -> usize {
        self.mappings.spec_min_lookup()
    }

    pub closed spec fn spec_anon_maps(&self) -> bool {
        self.anon_maps
    }

    pub closed spec fn wf(&self) -> bool {
        self.mappings.wf()
    }

    pub fn new(pid: u32) -> (p: Self)
        ensures
            p.wf(),
            p.spec_pid() == pid,
            p.spec_comm_id() is None,
            p.spec_ns_pid() is None,
            p.spec_samples() == Seq::<ExportProcessSample>::empty(),
            p.spec_mappings() == Seq::<ExportMapping>::empty(),
            p.spec_min_lookup() == 16,
            !p.spec_anon_maps(),
    {
        Self {
            pid,
            comm_id: None,
            ns_pid: None,
            samples: Vec::new(),
            mappings: ExportMappingLookup::default(),
            anon_maps: false,
        }
    }

    /// The latest mapping holding `ip` (see `find_mapping`).
    pub fn find_section(&mut self, ip: u64) -> (r: Option<&ExportMapping>)
        requires
            old(self).wf(),
            old(self).spec_mappings().len() <= u32::MAX,
        ensures
            final(self).wf(),
            final(self).spec_mappings() == old(self).spec_mappings(),
            ({
                let ms = old(self).spec_mappings();
                if ms.len() < old(self).spec_min_lookup() {
                    match best_candidate(ms, ms.len() as int, ip, u64::MAX) {
                        Some(i) => r == Some(&ms[i]),
                        None => r is None,
                    }
                } else {
                    &&& r matches Some(m) ==> exists|i: int| is_candidate(ms, i, ip, u64::MAX) && *m == ms[i]
                    &&& r is None ==> forall|j: int| #[trigger] is_candidate(ms, j, ip, u64::MAX)
                        ==> ms[j].spec_end() == ip
                }
            }),
    {
        self.find_mapping(ip, None)
    }

    /// The latest mapping made at or before `time` (when given) that holds
    /// `ip`; see `ExportMappingLookup::find`.
    pub fn find_mapping(&mut self, ip: u64, time: Option<u64>) -> (r: Option<&ExportMapping>)
        requires
            old(self).wf(),
            old(self).spec_mappings().len() <= u32::MAX,
        ensures
            final(self).wf(),
            final(self).spec_mappings() == old(self).spec_mappings(),
            final(self).spec_samples() == old(self).spec_samples(),
            ({
                let ms = old(self).spec_mappings();
                let t = time_bound(time);
                if ms.len() < old(self).spec_min_lookup() {
                    match best_candidate(ms, ms.len() as int, ip, t) {
                        Some(i) => r == Some(&ms[i]),
                        None => r is None,
                    }
                } else {
                    &&& r matches Some(m) ==> exists|i: int| is_candidate(ms, i, ip, t) && *m == ms[i]
                        && (forall|j: int| #[trigger] is_candidate(ms, j, ip, t) && ms[j].spec_end() != ip
                            ==> ms[j].spec_time() <= ms[i].spec_time())
                    &&& r is None ==> forall|j: int| #[trigger] is_candidate(ms, j, ip, t)
                        ==> ms[j].spec_end() == ip
                }
            }),
    {
        self.mappings.find(ip, time)
    }

    /// Adds a mapping, noting when it is anonymous.
    pub fn add_mapping(&mut self, mapping: ExportMapping)
        requires
            old(self).wf(),
        ensures
            final(self).wf(),
            final(self).spec_mappings() == old(self).spec_mappings().push(mapping),
            final(self).spec_anon_maps() == (old(self).spec_anon_maps() || mapping.spec_anon()),
            final(self).spec_samples() == old(self).spec_samples(),
            final(self).spec_pid() == old(self).spec_pid(),
            final(self).spec_comm_id() == old(self).spec_comm_id(),
            final(self).spec_ns_pid() == old(self).spec_ns_pid(),
            final(self).spec_min_lookup() == old(self).spec_min_lookup(),
    {
        if mapping.anon() {
            self.anon_maps = true;
        }
        self.mappings.mappings_mut().push(mapping);
    }

    pub fn add_sample(&mut self, sample: ExportProcessSample)
        ensures
            final(self).spec_samples() == old(self).spec_samples().push(sample),
            final(self).spec_mappings() == old(self).spec_mappings(),
            final(self).spec_pid() == old(self).spec_pid(),
            final(self).spec_comm_id() == old(self).spec_comm_id(),
            final(self).spec_ns_pid() == old(self).spec_ns_pid(),
            final(self).spec_anon_maps() == old(self).spec_anon_maps(),
            final(self).wf() == old(self).wf(),
    {
        self.samples.push(sample);
    }

    pub fn set_comm_id(&mut self, comm_id: usize)
        ensures
            final(self).spec_comm_id() == Some(comm_id),
            final(self).spec_pid() == old(self).spec_pid(),
            final(self).spec_ns_pid() == old(self).spec_ns_pid(),
            final(self).spec_anon_maps() == old(self).spec_anon_maps(),
            final(self).spec_samples() == old(self).spec_samples(),
            final(self).spec_mappings() == old(self).spec_mappings(),
            final(self).wf() == old(self).wf(),
    {
        self.comm_id = Some(comm_id);
    }

    pub fn pid(&self) -> (p: u32)
        ensures
            p == self.spec_pid(),
    {
        self.pid
    }

    pub fn ns_pid(&self) -> (p: Option<u32>)
        ensures
            p == self.spec_ns_pid(),
    {
        self.ns_pid
    }

    pub fn ns_pid_mut(&mut self) -> (p: &mut Option<u32>)
        ensures
            *p == old(self).spec_ns_pid(),
            final(self).spec_ns_pid() == *final(p),
            final(self).spec_pid() == old(self).spec_pid(),
            final(self).spec_samples() == old(self).spec_samples(),
            final(self).spec_mappings() == old(self).spec_mappings(),
            final(self).wf() == old(self).wf(),
    {
        &mut self.ns_pid
    }

    pub fn comm_id(&self) -> (c: Option<usize>)
        ensures
            c == self.spec_comm_id(),
    {
        self.comm_id
    }

    pub fn samples(&self) -> (s: &Vec<ExportProcessSample>)
        ensures
            s@ == self.spec_samples(),
    {
        &self.samples
    }

    pub fn mappings(&self) -> (m: &Vec<ExportMapping>)
        ensures
            m@ == self.spec_mappings(),
    {
        self.mappings.mappings()
    }

    /// The mappings, to change.
    pub fn mappings_mut(&mut self) -> (m: &mut Vec<ExportMapping>)
        requires
            old(self).wf(),
        ensures
            m@ == old(self).spec_mappings(),
            final(self).spec_mappings() == final(m)@,
            final(self).wf(),
            final(self).spec_samples() == old(self).spec_samples(),
            final(self).spec_pid() == old(self).spec_pid(),
            final(self).spec_comm_id() == old(self).spec_comm_id(),
            final(self).spec_ns_pid() == old(self).spec_ns_pid(),
            final(self).spec_anon_maps() == old(self).spec_anon_maps(),
            final(self).spec_min_lookup() == old(self).spec_min_lookup(),
    {
        self.mappings.mappings_mut()
    }

    /// Sorts the samples by time.
    pub fn sort_samples_by_time(&mut self)
        ensures
            samples_by_time(final(self).spec_samples()),
            final(self).spec_samples().to_multiset() == old(self).spec_samples().to_multiset(),
            final(self).spec_samples().len() == old(self).spec_samples().len(),
            final(self).spec_pid() == old(self).spec_pid(),
            final(self).spec_comm_id() == old(self).spec_comm_id(),
            final(self).spec_ns_pid() == old(self).spec_ns_pid(),
            final(self).spec_mappings() == old(self).spec_mappings(),
            final(self).spec_anon_maps() == old(self).spec_anon_maps(),
            final(self).spec_min_lookup() == old(self).spec_min_lookup(),
            final(self).wf() == old(self).wf(),
    {
        broadcast use vstd::seq_lib::group_to_multiset_ensures;
        let mut sorted: Vec<ExportProcessSample> = Vec::new();
        let mut k: usize = 0;
        assert(self.samples@.take(0) =~= Seq::<ExportProcessSample>::empty());
        while k < self.samples.len()
            invariant
                k <= self.samples@.len(),
                samples_by_time(sorted@),
                sorted@.to_multiset() == self.samples@.take(k as int).to_multiset(),
                sorted@.len() == k,
            decreases self.samples@.len() - k,
        {
            let x = self.samples[k];
            let mut pos: usize = sorted.len();
            while pos > 0 && sorted[pos - 1].time > x.time
                invariant
                    pos <= sorted@.len(),
                    forall|j: int| pos <= j < sorted@.len() ==> sorted@[j].time > x.time,
                decreases pos,
            {
                pos = pos - 1;
            }
            let ghost old_sorted = sorted@;
            sorted.insert(pos, x);
            proof {
                assert(self.samples@.take(k + 1) =~= self.samples@.take(k as int).push(x));
                vstd::seq_lib::to_multiset_insert(old_sorted, pos as int, x);
                vstd::seq_lib::to_multiset_build(self.samples@.take(k as int), x);
                assert forall|i: int, j: int| 0 <= i <= j < sorted@.len() implies (#[trigger] sorted@[i]).time
                    <= (#[trigger] sorted@[j]).time by {
                    if i < pos && j > pos {
                        assert(old_sorted[i].time <= old_sorted[j - 1].time);
                    } else if i < pos && j == pos {
                        if pos > 0 {
                            assert(old_sorted[i].time <= old_sorted[pos - 1].time);
                        }
                    } else if i == pos && j > pos {
                    } else if i > pos {
                        assert(old_sorted[i - 1].time <= old_sorted[j - 1].time);
                    } else if j < pos {
                        assert(old_sorted[i].time <= old_sorted[j].time);
                    }
                }
            }
            k = k + 1;
        }
        assert(self.samples@.take(self.samples@.len() as int) =~= self.samples@);
        self.samples = sorted;
    }

    pub fn has_anon_mappings(&self) -> (b: bool)
        ensures
            b == self.spec_anon_maps(),
    {
        self.anon_maps
    }

    /// Gathers into `addrs` the kernel addresses of the samples: each kernel
    /// instruction pointer, with the kernel frames its callstack starts
    /// with. `frames` is working space.
    pub fn get_unique_kernel_ips(&self, addrs: &mut HashSet<u64>, frames: &mut Vec<u64>, callstacks: &InternedCallstacks)
        requires
            callstacks.wf(),
        ensures
            final(addrs)@ == kernel_addrs(self.spec_samples(), callstacks@, self.spec_samples().len() as int),
    {
        proof {
            broadcast use vstd::std_specs::hash::group_hash_axioms;
        }
        addrs.clear();
        frames.clear();
        let ghost stacks = callstacks@;
        let mut i: usize = 0;
        while i < self.samples.len()
            invariant
                callstacks.wf(),
                stacks == callstacks@,
                i <= self.samples@.len(),
                addrs@ == kernel_addrs(self.samples@, stacks, i as int),
            decreases self.samples@.len() - i,
        {
            let sample = self.samples[i];
            let ghost before = addrs@;
            if sample.ip() >= KERNEL_START {
                addrs.insert(sample.ip());
                let id = CallstackId::new(sample.ip(), sample.callstack_id());
                if callstacks.from_id(id, frames).is_ok() {
                    let mut j: usize = 0;
                    while j < frames.len() && frames[j] >= KERNEL_START
                        invariant
                            j <= frames@.len(),
                            frames@ == seq![sample.spec_view().ip] + stacks[sample.spec_view().callstack_id as int],
                            forall|k: int| 0 <= k < j ==> frames@[k] >= KERNEL_START,
                            addrs@ == before.insert(sample.spec_view().ip).union(
                                frames@.take(j as int).to_set(),
                            ),
                        decreases frames@.len() - j,
                    {
                        addrs.insert(frames[j]);
                        proof {
                            lemma_take_contains(frames@, j as int);
                        }
                        assert(frames@.take(j + 1).to_set() =~= frames@.take(j as int).to_set().insert(frames@[j as int]));
                        j = j + 1;
                    }
                    proof {
                        lemma_kernel_prefix(frames@, j as int);
                        assert(kernel_addrs(self.samples@, stacks, i + 1) =~= addrs@);
                    }
                } else {
                    assert(kernel_addrs(self.samples@, stacks, i + 1) =~= addrs@);
                }
            } else {
                assert(kernel_addrs(self.samples@, stacks, i + 1) =~= addrs@);
            }
            i = i + 1;
        }
    }

    /// The user addresses of the samples that lie in mapping `m`.
    pub open spec fn spec_mapping_addrs(&self, stacks: Seq<Seq<u64>>, m: ExportMapping) -> Set<u64> {
        user_addrs(self.spec_samples(), stacks, Some((m.spec_start(), m.spec_end())), self.spec_samples().len() as int)
    }

    /// Whether each anonymous mapping that holds a user address of the
    /// samples has an end at or after its start and a file range that fits
    /// in 64 bits.
    pub open spec fn anon_mappings_fit(&self, stacks: Seq<Seq<u64>>) -> bool {
        forall|i: int| 0 <= i < self.spec_mappings().len() ==> {
            let m = #[trigger] self.spec_mappings()[i];
            m.spec_anon() && !self.spec_mapping_addrs(stacks, m).is_empty() ==> {
                &&& m.spec_start() <= m.spec_end()
                &&& m.spec_file_offset() + (m.spec_end() - m.spec_start()) <= u64::MAX
            }
        }
    }

    /// Adds to each anonymous mapping, in order, the symbols of `symbols`
    /// whose range holds a user address of the samples inside the mapping.
    /// Other mappings are left as they are. `addrs` and `frames` are
    /// working space.
    pub fn add_matching_anon_symbols(
        &mut self,
        addrs: &mut HashSet<u64>,
        frames: &mut Vec<u64>,
        symbols: &[SymbolEntry],
        callstacks: &InternedCallstacks,
        strings: &mut InternedStrings,
    )
        requires
            old(self).wf(),
            callstacks.wf(),
            old(self).anon_mappings_fit(callstacks@),
            old(strings).wf(),
        ensures
            final(self).wf(),
            final(strings).wf(),
            final(self).spec_pid() == old(self).spec_pid(),
            final(self).spec_samples() == old(self).spec_samples(),
            final(self).spec_comm_id() == old(self).spec_comm_id(),
            final(self).spec_ns_pid() == old(self).spec_ns_pid(),
            final(self).spec_anon_maps() == old(self).spec_anon_maps(),
            final(strings)@.len() >= old(strings)@.len(),
            forall|k: int| 0 <= k < old(strings)@.len() ==> #[trigger] final(strings)@[k] == old(strings)@[k],
            final(self).spec_mappings().len() == old(self).spec_mappings().len(),
            forall|i: int| 0 <= i < old(self).spec_mappings().len() ==> {
                let m0 = old(self).spec_mappings()[i];
                extended_by(
                    m0,
                    #[trigger] final(self).spec_mappings()[i],
                    final(strings)@,
                    if m0.spec_anon() {
                        m0.matching_symbols(old(self).spec_mapping_addrs(callstacks@, m0), symbols@, symbols@.len() as int)
                    } else {
                        Seq::empty()
                    },
                )
            },
    {
        let ghost maps0 = self.spec_mappings();
        let ghost stacks = callstacks@;
        let ghost strings0 = strings@;
        let mut i: usize = 0;
        while i < self.mappings.mappings().len()
            invariant
                self.wf(),
                callstacks.wf(),
                stacks == callstacks@,
                strings.wf(),
                self.spec_pid() == old(self).spec_pid(),
                self.spec_samples() == old(self).spec_samples(),
                self.spec_comm_id() == old(self).spec_comm_id(),
                self.spec_ns_pid() == old(self).spec_ns_pid(),
                self.spec_anon_maps() == old(self).spec_anon_maps(),
                maps0 == old(self).spec_mappings(),
                old(self).anon_mappings_fit(stacks),
                self.spec_mappings().len() == maps0.len(),
                i <= maps0.len(),
                strings0 == old(strings)@,
                strings@.len() >= strings0.len(),
                forall|k: int| 0 <= k < strings0.len() ==> #[trigger] strings@[k] == strings0[k],
                forall|q: int| i <= q < maps0.len() ==> #[trigger] self.spec_mappings()[q] == maps0[q],
                forall|q: int| 0 <= q < i ==> {
                    let m0 = maps0[q];
                    extended_by(
                        m0,
                        #[trigger] self.spec_mappings()[q],
                        strings@,
                        if m0.spec_anon() {
                            m0.matching_symbols(old(self).spec_mapping_addrs(stacks, m0), symbols@, symbols@.len() as int)
                        } else {
                            Seq::empty()
                        },
                    )
                },
            decreases maps0.len() - i,
        {
            let ghost m0 = maps0[i as int];
            let ghost gain: Seq<(Seq<char>, u64, u64)> = if m0.spec_anon() {
                m0.matching_symbols(old(self).spec_mapping_addrs(stacks, m0), symbols@, symbols@.len() as int)
            } else {
                Seq::empty()
            };
            assert(self.spec_mappings()[i as int] == m0);
            if self.mappings.mappings()[i].anon() {
                Self::get_unique_user_ips(&self.samples, addrs, frames, callstacks, Some(&self.mappings.mappings()[i]));
                if !addrs.is_empty() {
                    set_addresses(addrs, frames);
                    assert(m0.spec_start() <= m0.spec_end());
                    let ghost before = strings@;
                    let maps = self.mappings.mappings_mut();
                    maps[i].add_matching_symbols(frames, symbols, strings);
                    proof {
                        assert forall|q: int| 0 <= q < i implies {
                            let mq = maps0[q];
                            extended_by(
                                mq,
                                #[trigger] self.spec_mappings()[q],
                                strings@,
                                if mq.spec_anon() {
                                    mq.matching_symbols(old(self).spec_mapping_addrs(stacks, mq), symbols@, symbols@.len() as int)
                                } else {
                                    Seq::empty()
                                },
                            )
                        } by {
                            let mq = maps0[q];
                            lemma_extended_by_grows(
                                mq,
                                self.spec_mappings()[q],
                                before,
                                strings@,
                                if mq.spec_anon() {
                                    mq.matching_symbols(old(self).spec_mapping_addrs(stacks, mq), symbols@, symbols@.len() as int)
                                } else {
                                    Seq::empty()
                                },
                            );
                        }
                        assert(extended_by(m0, self.spec_mappings()[i as int], strings@, gain));
                    }
                } else {
                    proof {
                        lemma_no_match_without_addresses(m0, old(self).spec_mapping_addrs(stacks, m0), symbols@, symbols@.len() as int);
                        assert(added_symbols(m0.spec_symbols(), strings@, m0.spec_symbols().len() as int) =~= gain);
                        assert(m0.spec_symbols().subrange(0, m0.spec_symbols().len() as int) =~= m0.spec_symbols());
                    }
                }
            } else {
                proof {
                    assert(added_symbols(m0.spec_symbols(), strings@, m0.spec_symbols().len() as int) =~= gain);
                    assert(m0.spec_symbols().subrange(0, m0.spec_symbols().len() as int) =~= m0.spec_symbols());
                }
            }
            i = i + 1;
        }
    }

    /// Gathers into `addrs` the user-space addresses of the samples (their
    /// instruction pointers and callstack frames) that lie in `mapping`,
    /// or all of them when no mapping is given. `frames` is working space.
    pub fn get_unique_user_ips(
        samples: &[ExportProcessSample],
        addrs: &mut HashSet<u64>,
        frames: &mut Vec<u64>,
        callstacks: &InternedCallstacks,
        mapping: Option<&ExportMapping>,
    )
        requires
            callstacks.wf(),
        ensures
            final(addrs)@ == user_addrs(samples@, callstacks@, match mapping {
                Some(m) => Some((m.spec_start(), m.spec_end())),
                None => None,
            }, samples@.len() as int),
    {
        proof {
            broadcast use vstd::std_specs::hash::group_hash_axioms;
        }
        let ghost range = match mapping {
            Some(m) => Some((m.spec_start(), m.spec_end())),
            None => None::<(u64, u64)>,
        };
        addrs.clear();
        frames.clear();
        let ghost stacks = callstacks@;
        assert(addrs@ =~= user_addrs(samples@, stacks, range, 0));
        let mut i: usize = 0;
        while i < samples.len()
            invariant
                callstacks.wf(),
                stacks == callstacks@,
                range == (match mapping {
                    Some(m) => Some((m.spec_start(), m.spec_end())),
                    None => None::<(u64, u64)>,
                }),
                i <= samples@.len(),
                addrs@ == user_addrs(samples@, stacks, range, i as int),
            decreases samples@.len() - i,
        {
            let sample = samples[i];
            let ghost before = addrs@;
            let ip = sample.ip();
            if ip < KERNEL_START {
                let keep = match mapping {
                    Some(m) => m.contains_ip(ip),
                    None => true,
                };
                if keep {
                    addrs.insert(ip);
                }
            }
            let ghost with_ip = addrs@;
            let id = CallstackId::new(ip, sample.callstack_id());
            if callstacks.from_id(id, frames).is_ok() {
                let mut j: usize = 0;
                while j < frames.len()
                    invariant
                        j <= frames@.len(),
                        frames@ == seq![sample.spec_view().ip] + stacks[sample.spec_view().callstack_id as int],
                        range == (match mapping {
                            Some(m) => Some((m.spec_start(), m.spec_end())),
                            None => None::<(u64, u64)>,
                        }),
                        addrs@ == with_ip.union(Set::new(|a: u64| user_kept(a, range) && frames@.take(j as int).contains(a))),
                    decreases frames@.len() - j,
                {
                    let frame = frames[j];
                    if frame < KERNEL_START {
                        let keep = match mapping {
                            Some(m) => m.contains_ip(frame),
                            None => true,
                        };
                        if keep {
                            addrs.insert(frame);
                        }
                    }
                    proof {
                        lemma_take_contains(frames@, j as int);
                    }
                    j = j + 1;
                    assert(addrs@ =~= with_ip.union(Set::new(|a: u64| user_kept(a, range) && frames@.take(j as int).contains(a))));
                }
                assert(frames@.take(j as int) =~= frames@);
            }
            assert(user_addrs(samples@, stacks, range, i + 1) =~= addrs@);
            i = i + 1;
        }
    }

    /// A new process `pid` with this one's name id and mappings.
    pub fn fork(&self, pid: u32) -> (p: Self)
        ensures
            p.wf(),
            p.spec_pid() == pid,
            p.spec_comm_id() == self.spec_comm_id(),
            p.spec_samples() == Seq::<ExportProcessSample>::empty(),
            p.spec_mappings().len() == self.spec_mappings().len(),
            forall|i: int| 0 <= i < p.spec_mappings().len()
                ==> #[trigger] p.spec_mappings()[i].same_as(&self.spec_mappings()[i]),
    {
        let mut fork = Self::new(pid);
        fork.comm_id = self.comm_id;
        fork.mappings = self.mappings.clone();
        fork
    }
}

/// The kernel prefix of a callstack is what a scan up to its first user
/// frame finds.
proof fn lemma_kernel_prefix(frames: Seq<u64>, j: int)
    requires
        0 <= j <= frames.len(),
        forall|k: int| 0 <= k < j ==> frames[k] >= KERNEL_START,
        j == frames.len() || frames[j] < KERNEL_START,
    ensures
        kernel_prefix(frames) == frames.take(j).to_set(),
    decreases frames.len(),
{
    if frames.len() == 0 || frames[0] < KERNEL_START {
        assert(frames.take(j).to_set() =~= Set::empty());
    } else {
        lemma_kernel_prefix(frames.drop_first(), j - 1);
        assert(frames.take(j).to_set() =~= frames.drop_first().take(j - 1).to_set().insert(frames[0])) by {
            assert forall|a: u64| #[trigger] frames.take(j).to_set().contains(a) <==> frames.drop_first().take(j - 1).to_set().insert(frames[0]).contains(a) by {
                let pre = frames.take(j);
                if pre.contains(a) {
                    let k = choose|k: int| 0 <= k < j && #[trigger] pre[k] == a;
                    if k > 0 {
                        assert(frames.drop_first().take(j - 1)[k - 1] == a);
                    }
                }
                let rest = frames.drop_first().take(j - 1);
                if rest.contains(a) {
                    let k = choose|k: int| 0 <= k < j - 1 && #[trigger] rest[k] == a;
                    assert(frames.take(j)[k + 1] == a);
                }
                if a == frames[0] {
                    assert(frames.take(j)[0] == a);
                }
            }
        }
    }
}

/// What a prefix one longer holds.
proof fn lemma_take_contains(s: Seq<u64>, j: int)
    requires
        0 <= j < s.len(),
    ensures
        forall|a: u64| #[trigger] s.take(j + 1).contains(a) <==> (s.take(j).contains(a) || a == s[j]),
{
    assert forall|a: u64| #[trigger] s.take(j + 1).contains(a) <==> (s.take(j).contains(a) || a == s[j]) by {
        let longer = s.take(j + 1);
        let shorter = s.take(j);
        if longer.contains(a) {
            let k = choose|k: int| 0 <= k < j + 1 && #[trigger] longer[k] == a;
            if k < j {
                assert(shorter[k] == a);
            }
        }
        if shorter.contains(a) {
            let k = choose|k: int| 0 <= k < j && #[trigger] shorter[k] == a;
            assert(longer[k] == a);
        }
        if a == s[j] {
            assert(s.take(j + 1)[j] == a);
        }
    }
}

} // verus!

verus! {

/// The addresses of a set, each once, in the order the set gives them.
pub(crate) fn set_addresses(addrs: &HashSet<u64>, out: &mut Vec<u64>)
    ensures
        final(out)@.to_set() == addrs@,
        final(out)@.no_duplicates(),
{
    broadcast use vstd::std_specs::hash::group_hash_axioms;
    out.clear();
    let ghost keys = vstd::std_specs::iter::IteratorSpec::remaining(&vstd::std_specs::hash::spec_hash_keys_iter(addrs));
    for x in it: addrs.iter()
        invariant
            out@.len() == it.index(),
            it.seq() == keys,
            forall|i: int| 0 <= i < it.index() ==> out@[i] == *keys[i],
    {
        out.push(*x);
    }
    proof {
        assert(out@ =~= keys.unref());
    }
}

} // verus!

verus! {

/// Whether `m1` is `m0` with the symbols `gain` added after its own: the
/// other fields kept, the names read from `strings`.
pub open spec fn extended_by(
    m0: ExportMapping,
    m1: ExportMapping,
    strings: Seq<Seq<char>>,
    gain: Seq<(Seq<char>, u64, u64)>,
) -> bool {
    &&& m1.spec_start() == m0.spec_start()
    &&& m1.spec_end() == m0.spec_end()
    &&& m1.spec_time() == m0.spec_time()
    &&& m1.spec_id() == m0.spec_id()
    &&& m1.spec_anon() == m0.spec_anon()
    &&& m1.spec_file_offset() == m0.spec_file_offset()
    &&& m1.spec_node() == m0.spec_node()
    &&& m1.spec_filename_id() == m0.spec_filename_id()
    &&& m1.spec_symbols().len() >= m0.spec_symbols().len()
    &&& m1.spec_symbols().subrange(0, m0.spec_symbols().len() as int) == m0.spec_symbols()
    &&& forall|j: int| m0.spec_symbols().len() <= j < m1.spec_symbols().len()
        ==> (#[trigger] m1.spec_symbols()[j])@.0 < strings.len()
    &&& added_symbols(m1.spec_symbols(), strings, m0.spec_symbols().len() as int) == gain
}

proof fn lemma_extended_by_grows(
    m0: ExportMapping,
    m1: ExportMapping,
    s1: Seq<Seq<char>>,
    s2: Seq<Seq<char>>,
    gain: Seq<(Seq<char>, u64, u64)>,
)
    requires
        extended_by(m0, m1, s1, gain),
        s2.len() >= s1.len(),
        forall|k: int| 0 <= k < s1.len() ==> #[trigger] s2[k] == s1[k],
    ensures
        extended_by(m0, m1, s2, gain),
{
    let base = m0.spec_symbols().len() as int;
    assert(added_symbols(m1.spec_symbols(), s2, base) =~= added_symbols(m1.spec_symbols(), s1, base)) by {
        assert forall|j: int| 0 <= j < added_symbols(m1.spec_symbols(), s1, base).len() implies
            #[trigger] added_symbols(m1.spec_symbols(), s2, base)[j] == added_symbols(m1.spec_symbols(), s1, base)[j] by {
            assert(m1.spec_symbols()[base + j]@.0 < s1.len());
        }
    }
}

proof fn lemma_no_match_without_addresses(m: ExportMapping, ips: Set<u64>, entries: Seq<SymbolEntry>, n: int)
    requires
        ips.is_empty(),
    ensures
        m.matching_symbols(ips, entries, n) == Seq::<(Seq<char>, u64, u64)>::empty(),
    decreases n,
{
    if n > 0 {
        lemma_no_match_without_addresses(m, ips, entries, n - 1);
        assert(!ips.contains(entries[n - 1].spec_start()));
    }
}

} // verus!
