//! Context switches: the decisions made on the scheduler records of a
//! trace. A switch-out stamps the thread's wait start; the profile record
//! that follows stashes the thread's sample; the switch-in that ends the
//! wait gives that sample back, timed at the wait's start and valued at
//! its length.

use std::collections::HashMap;

use vstd::prelude::*;

use super::process::{ExportProcessSample, SampleView};

verus! {

broadcast use vstd::std_specs::hash::group_hash_axioms;

/// The bit of a switch record's `misc` field that marks a switch out.
pub const PERF_RECORD_MISC_SWITCH_OUT: u16 = 0x2000;

/// The mapping protection bit of executable memory.
pub const PROT_EXEC: u32 = 4;

/// Whether a switch record is of the scheduler itself (process or thread
/// id 0); such records are ignored.
pub fn is_scheduler_switch(pid: u32, tid: u32) -> (b: bool)
    ensures
        b == (pid == 0 || tid == 0),
{
    pid == 0 || tid == 0
}

/// Whether a memory mapping is executable; only those are recorded.
pub fn is_exec_mapping(prot: u32) -> (b: bool)
    ensures
        b == (prot & PROT_EXEC == PROT_EXEC),
{
    prot & PROT_EXEC == PROT_EXEC
}

/// Whether a name record is of a process (its main thread), the only
/// ones recorded.
pub fn is_process_comm(pid: u32, tid: u32) -> (b: bool)
    ensures
        b == (pid == tid),
{
    pid == tid
}

/// The view of an optional sample.
pub open spec fn sample_view_of(s: Option<ExportProcessSample>) -> Option<SampleView> {
    match s {
        Some(x) => Some(x.spec_view()),
        None => None,
    }
}

/// Whether a switch record is a switch in.
pub open spec fn is_switch_in(misc: u16) -> bool {
    misc & PERF_RECORD_MISC_SWITCH_OUT == 0
}

/// A thread's switch state, `(start, sample)`, after a switch record, and
/// the sample it gives back. A switch out records the time as the start.
/// A switch in with no start recorded drops the stashed sample; otherwise
/// it clears the state and gives back the stashed sample, if any, timed at
/// the start and valued at the time waited.
pub open spec fn swap_spec(
    start: u64,
    sample: Option<SampleView>,
    misc: u16,
    time: u64,
) -> (u64, Option<SampleView>, Option<SampleView>) {
    if !is_switch_in(misc) {
        (time, sample, None)
    } else if start == 0 {
        (0, None, None)
    } else {
        (
            0,
            None,
            match sample {
                Some(s) => Some(SampleView { time: start, value: (time - start) as u64, ..s }),
                None => None,
            },
        )
    }
}

/// Whether a switch record would end a wait that started after it (the
/// time waited would be negative).
pub open spec fn swap_underflows(start: u64, misc: u16, time: u64) -> bool {
    is_switch_in(misc) && start != 0 && time < start
}

/// The switch state of one thread: when its current wait started (0 for
/// none) and the sample stashed for it.
#[derive(Clone, Copy, Debug)]
pub struct ExportCSwitch {
    start_time: u64,
    sample: Option<ExportProcessSample>,
}

impl ExportCSwitch {
    pub closed spec fn spec_start(&self) -> u64 {
        self.start_time
    }

    pub closed spec fn spec_sample(&self) -> Option<SampleView> {
        sample_view_of(self.sample)
    }

    /// No wait started and no sample stashed.
    pub fn new() -> (c: Self)
        ensures
            c.spec_start() == 0,
            c.spec_sample() is None,
    {
        Self { start_time: 0, sample: None }
    }

    pub fn start_time(&self) -> (t: u64)
        ensures
            t == self.spec_start(),
    {
        self.start_time
    }

    /// Stashes the sample taken at the thread's switch.
    pub fn stash(&mut self, sample: ExportProcessSample)
        ensures
            final(self).spec_start() == old(self).spec_start(),
            final(self).spec_sample() == Some(sample.spec_view()),
    {
        self.sample = Some(sample);
    }

    /// Applies a switch record (see `swap_spec`).
    pub fn swap(&mut self, misc: u16, time: u64) -> (r: Option<ExportProcessSample>)
        requires
            !swap_underflows(old(self).spec_start(), misc, time),
        ensures
            ({
                let s = swap_spec(old(self).spec_start(), old(self).spec_sample(), misc, time);
                &&& final(self).spec_start() == s.0
                &&& final(self).spec_sample() == s.1
                &&& sample_view_of(r) == s.2
            }),
    {
        if misc & PERF_RECORD_MISC_SWITCH_OUT == 0 {
            if self.start_time == 0 {
                self.sample = None;
                return None;
            }
            let start_time = self.start_time;
            let duration = time - start_time;
            self.start_time = 0;
            match self.sample {
                Some(mut sample) => {
                    self.sample = None;
                    *sample.time_mut() = start_time;
                    *sample.value_mut() = duration;
                    Some(sample)
                },
                None => None,
            }
        } else {
            self.start_time = time;
            None
        }
    }
}

impl Default for ExportCSwitch {
    fn default() -> (c: Self)
        ensures
            c.spec_start() == 0,
            c.spec_sample() is None,
    {
        Self::new()
    }
}

/// The switch state of each thread seen switching.
pub struct CSwitchTable {
    entries: HashMap<u32, ExportCSwitch>,
}

impl CSwitchTable {
    /// The switch state of each thread.
    pub closed spec fn spec_entries(&self) -> Map<u32, ExportCSwitch> {
        self.entries@
    }

    pub fn new() -> (t: Self)
        ensures
            t.spec_entries() == Map::<u32, ExportCSwitch>::empty(),
    {
        Self { entries: HashMap::new() }
    }

    /// When the current wait of thread `tid` started, if it has a state.
    pub fn start_time(&self, tid: u32) -> (t: Option<u64>)
        ensures
            t == (if self.spec_entries().contains_key(tid) {
                Some(self.spec_entries()[tid].spec_start())
            } else {
                None::<u64>
            }),
    {
        match self.entries.get(&tid) {
            Some(e) => Some(e.start_time()),
            None => None,
        }
    }

    /// A profile record of thread `tid`: its sample is stashed until the
    /// thread switches back in, the thread's state made when it has none.
    pub fn on_profile(&mut self, tid: u32, sample: ExportProcessSample)
        ensures
            final(self).spec_entries().dom() == old(self).spec_entries().dom().insert(tid),
            forall|t: u32| t != tid && #[trigger] old(self).spec_entries().contains_key(t)
                ==> final(self).spec_entries()[t] == old(self).spec_entries()[t],
            final(self).spec_entries()[tid].spec_sample() == Some(sample.spec_view()),
            final(self).spec_entries()[tid].spec_start() == (if old(self).spec_entries().contains_key(tid) {
                old(self).spec_entries()[tid].spec_start()
            } else {
                0
            }),
    {
        let mut entry = match self.entries.get(&tid) {
            Some(e) => *e,
            None => ExportCSwitch::new(),
        };
        entry.stash(sample);
        self.entries.insert(tid, entry);
    }

    /// A switch record of thread `tid`: for a thread with a state, the
    /// state changes as `swap_spec` says and the sample to record, if any,
    /// is given back; a thread with no state is left alone.
    pub fn on_swap(&mut self, tid: u32, misc: u16, time: u64) -> (r: Option<ExportProcessSample>)
        requires
            old(self).spec_entries().contains_key(tid) ==> !swap_underflows(
                old(self).spec_entries()[tid].spec_start(),
                misc,
                time,
            ),
        ensures
            !old(self).spec_entries().contains_key(tid) ==> r is None && final(self).spec_entries()
                == old(self).spec_entries(),
            old(self).spec_entries().contains_key(tid) ==> ({
                let e = old(self).spec_entries()[tid];
                let s = swap_spec(e.spec_start(), e.spec_sample(), misc, time);
                &&& final(self).spec_entries().dom() == old(self).spec_entries().dom()
                &&& final(self).spec_entries()[tid].spec_start() == s.0
                &&& final(self).spec_entries()[tid].spec_sample() == s.1
                &&& sample_view_of(r) == s.2
            }),
            forall|t: u32| t != tid && #[trigger] old(self).spec_entries().contains_key(t)
                ==> final(self).spec_entries()[t] == old(self).spec_entries()[t],
    {
        let mut entry = match self.entries.get(&tid) {
            Some(e) => *e,
            None => {
                return None;
            },
        };
        let r = entry.swap(misc, time);
        self.entries.insert(tid, entry);
        proof {
            assert(self.entries@.dom() =~= old(self).entries@.dom());
        }
        r
    }
}

} // verus!
