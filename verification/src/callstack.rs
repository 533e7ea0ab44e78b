use vstd::prelude::*;

use crate::event::u64_from_le_seq;
use crate::exporting::KERNEL_START;
use vstd::std_specs::hash::spec_hash_map_iter;
use vstd::std_specs::iter::IteratorSpec;

verus! {

/// Whether a frame sequence is non-empty and its last frame lies below the
/// kernel address range.
pub open spec fn spec_frames_end_in_userspace(frames: Seq<u64>) -> bool {
    frames.len() > 0 && frames.last() < KERNEL_START
}

/// Appends `frames` to `v`.
fn extend_frames(v: &mut Vec<u64>, frames: &[u64])
    ensures
        final(v)@ == old(v)@ + frames@,
{
    let ghost before = v@;
    v.extend_from_slice(frames);
    assert forall|i: int| 0 <= i < v@.len() implies #[trigger] v@[i] == (before + frames@)[i] by {
        if i >= before.len() {
            assert(cloned::<u64>(frames@[i - before.len()], v@[i]));
        }
    }
    assert(v@ =~= before + frames@);
}

/// The frames of a callstack collected so far, before its user part arrives.
pub struct PartialCallstack {
    frames: Vec<u64>,
}

impl View for PartialCallstack {
    type V = Seq<u64>;

    closed spec fn view(&self) -> Seq<u64> {
        self.frames@
    }
}

impl Default for PartialCallstack {
    fn default() -> (p: Self)
        ensures
            p@ == Seq::<u64>::empty(),
    {
        Self { frames: Vec::new() }
    }
}

impl PartialCallstack {
    pub fn frames(&self) -> (f: &[u64])
        ensures
            f@ == self@,
    {
        self.frames.as_slice()
    }

    pub fn is_empty(&self) -> (b: bool)
        ensures
            b == (self@.len() == 0),
    {
        self.frames.len() == 0
    }

    /// Whether the last of `frames` is a user-space address.
    pub fn frames_end_in_userspace(frames: &[u64]) -> (b: bool)
        ensures
            b == spec_frames_end_in_userspace(frames@),
    {
        let len = frames.len();
        len > 0 && frames[len - 1] < KERNEL_START
    }

    pub fn ends_in_userspace(&self) -> (b: bool)
        ensures
            b == spec_frames_end_in_userspace(self@),
    {
        Self::frames_end_in_userspace(self.frames())
    }

    pub fn add_frames(&mut self, frames: &[u64])
        ensures
            final(self)@ == old(self)@ + frames@,
    {
        extend_frames(&mut self.frames, frames);
    }

    pub fn clear(&mut self)
        ensures
            final(self)@ == Seq::<u64>::empty(),
    {
        self.frames.clear();
    }
}

/// A callstack whose kernel and user parts have both arrived (or that was
/// flushed without its user part).
pub struct CompletedCallstack {
    time: u64,
    pid: u32,
    tid: u32,
    frames: Vec<u64>,
}

impl View for CompletedCallstack {
    type V = (u64, u32, u32, Seq<u64>);

    closed spec fn view(&self) -> (u64, u32, u32, Seq<u64>) {
        (self.time, self.pid, self.tid, self.frames@)
    }
}

impl CompletedCallstack {
    pub fn time(&self) -> (t: u64)
        ensures
            t == self@.0,
    {
        self.time
    }

    pub fn pid(&self) -> (p: u32)
        ensures
            p == self@.1,
    {
        self.pid
    }

    pub fn tid(&self) -> (t: u32)
        ensures
            t == self@.2,
    {
        self.tid
    }

    pub fn frames(&self) -> (f: &[u64])
        ensures
            f@ == self@.3,
    {
        self.frames.as_slice()
    }
}

/// The key of a thread: its process id in the upper and its thread id in
/// the lower 32 bits.
pub open spec fn spec_thread_key(pid: u32, tid: u32) -> u64 {
    ((pid as u64) << 32u64) | (tid as u64)
}

/// The process id that a flush reports for a thread key (16 bits of it).
pub open spec fn spec_key_pid(key: u64) -> u32 {
    ((key >> 32u64) & 0xFFFFu64) as u32
}

/// The thread id that a flush reports for a thread key (16 bits of it).
pub open spec fn spec_key_tid(key: u64) -> u32 {
    (key & 0xFFFFu64) as u32
}

fn thread_key(pid: u32, tid: u32) -> (k: u64)
    ensures
        k == spec_thread_key(pid, tid),
{
    ((pid as u64) << 32u64) | (tid as u64)
}

/// A kernel callstack waiting for its user part: thread key, time, frames.
struct PendingCallstack {
    key: u64,
    time: u64,
    frames: PartialCallstack,
}

/// The integer a pending callstack is found by: its thread key in the
/// high 64 bits and its time in the low 64 bits.
pub open spec fn pending_key(key: u64, time: u64) -> u128 {
    (key as u128 * 0x1_0000_0000_0000_0000 + time as u128) as u128
}

/// Different thread keys or times give different integers.
pub proof fn lemma_pending_key_injective(k1: u64, t1: u64, k2: u64, t2: u64)
    requires
        pending_key(k1, t1) == pending_key(k2, t2),
    ensures
        k1 == k2 && t1 == t2,
{
    assert(k1 as u128 * 0x1_0000_0000_0000_0000 + t1 as u128 <= u128::MAX) by (nonlinear_arith)
        requires
            k1 <= u64::MAX,
            t1 <= u64::MAX,
    ;
    assert(k2 as u128 * 0x1_0000_0000_0000_0000 + t2 as u128 <= u128::MAX) by (nonlinear_arith)
        requires
            k2 <= u64::MAX,
            t2 <= u64::MAX,
    ;
    assert(k1 == k2 && t1 == t2) by (nonlinear_arith)
        requires
            k1 as int * 0x1_0000_0000_0000_0000 + t1 as int == k2 as int * 0x1_0000_0000_0000_0000 + t2 as int,
            0 <= t1 < 0x1_0000_0000_0000_0000,
            0 <= t2 < 0x1_0000_0000_0000_0000,
            0 <= k1,
            0 <= k2,
    ;
}

fn pending_key_of(key: u64, time: u64) -> (k: u128)
    ensures
        k == pending_key(key, time),
{
    assert(key as u128 * 0x1_0000_0000_0000_0000 + time as u128 <= u128::MAX) by (nonlinear_arith)
        requires
            key <= u64::MAX,
            time <= u64::MAX,
    ;
    key as u128 * 0x1_0000_0000_0000_0000 + time as u128
}

/// Kernel callstacks waiting for the user callstack of the same thread and
/// time, found by thread key and time. The view maps each (thread key,
/// time) to the frames kept for it.
pub struct PartialCallstackLookup {
    pending: std::collections::HashMap<u128, PendingCallstack>,
}

/// What a flush reports of a pending callstack.
pub open spec fn flushed_view(p: (u64, u64, Seq<u64>)) -> (u64, u32, u32, Seq<u64>) {
    (p.1, spec_key_pid(p.0), spec_key_tid(p.0), p.2)
}

/// Whether a flushed callstack reports one of the pending ones.
pub open spec fn flushed_from(m: Map<(u64, u64), Seq<u64>>, c: (u64, u32, u32, Seq<u64>)) -> bool {
    exists|k: (u64, u64)| m.contains_key(k) && c == flushed_view((k.0, k.1, m[k]))
}

/// Whether the pending callstack of `k` is among the flushed ones.
pub open spec fn flushed_in(done: Seq<(u64, u32, u32, Seq<u64>)>, k: (u64, u64), frames: Seq<u64>) -> bool {
    exists|i: int| 0 <= i < done.len() && done[i] == flushed_view((k.0, k.1, frames))
}

impl View for PartialCallstackLookup {
    type V = Map<(u64, u64), Seq<u64>>;

    closed spec fn view(&self) -> Map<(u64, u64), Seq<u64>> {
        Map::new(
            |k: (u64, u64)| self.pending@.contains_key(pending_key(k.0, k.1)),
            |k: (u64, u64)| self.pending@[pending_key(k.0, k.1)].frames@,
        )
    }
}

impl Default for PartialCallstackLookup {
    fn default() -> (l: Self)
        ensures
            l.wf(),
            l@ == Map::<(u64, u64), Seq<u64>>::empty(),
            l.spec_count() == 0,
    {
        Self::new()
    }
}

impl PartialCallstackLookup {
    /// How many callstacks wait.
    pub closed spec fn spec_count(&self) -> nat {
        self.pending@.len()
    }

    /// Each waiting callstack is kept under its own thread key and time.
    pub closed spec fn wf(&self) -> bool {
        &&& self.pending@.dom().finite()
        &&& forall|h: u128| #[trigger] self.pending@.contains_key(h) ==> h == pending_key(
            self.pending@[h].key,
            self.pending@[h].time,
        )
    }

    pub fn new() -> (l: Self)
        ensures
            l.wf(),
            l@ == Map::<(u64, u64), Seq<u64>>::empty(),
            l.spec_count() == 0,
    {
        broadcast use vstd::std_specs::hash::group_hash_axioms;
        let l = Self { pending: std::collections::HashMap::new() };
        assert(l@ =~= Map::<(u64, u64), Seq<u64>>::empty());
        l
    }

    /// Adds the frames of the callstack of thread `pid`/`tid` at `time`.
    /// Frames that end in user space complete the callstack: it is returned
    /// with any kernel frames kept for it in front. Frames that end in the
    /// kernel are kept (appended to those already kept) until the user part
    /// arrives. No frames: nothing happens.
    pub fn add_frames(&mut self, time: u64, pid: u32, tid: u32, frames: &[u64])
        -> (r: Option<CompletedCallstack>)
        requires
            old(self).wf(),
        ensures
            final(self).wf(),
            ({
                let key = (spec_thread_key(pid, tid), time);
                let user = spec_frames_end_in_userspace(frames@);
                let before = old(self)@;
                if frames@.len() == 0 {
                    r is None && final(self)@ == before && final(self).spec_count() == old(self).spec_count()
                } else if !before.contains_key(key) {
                    if user {
                        &&& r matches Some(c) && c@ == (time, pid, tid, frames@)
                        &&& final(self)@ == before
                        &&& final(self).spec_count() == old(self).spec_count()
                    } else {
                        &&& r is None
                        &&& final(self)@ == before.insert(key, frames@)
                        &&& final(self).spec_count() == old(self).spec_count() + 1
                    }
                } else {
                    if user {
                        &&& r matches Some(c) && c@ == (time, pid, tid, before[key] + frames@)
                        &&& final(self)@ == before.remove(key)
                        &&& final(self).spec_count() == old(self).spec_count() - 1
                    } else {
                        &&& r is None
                        &&& final(self)@ == before.insert(key, before[key] + frames@)
                        &&& final(self).spec_count() == old(self).spec_count()
                    }
                }
            }),
    {
        broadcast use vstd::std_specs::hash::group_hash_axioms;
        if frames.len() == 0 {
            return None;
        }
        let key = thread_key(pid, tid);
        let user = PartialCallstack::frames_end_in_userspace(frames);
        let h = pending_key_of(key, time);
        let ghost before = self.pending@;
        let ghost view_before = self@;
        let found = self.pending.remove(&h);
        proof {
            assert forall|g: u128| #[trigger] self.pending@.contains_key(g) implies g == pending_key(
                self.pending@[g].key,
                self.pending@[g].time,
            ) by {
                assert(before.contains_key(g));
            }
        }
        match found {
            None => {
                assert(!view_before.contains_key((key, time)));
                if user {
                    let mut copy: Vec<u64> = Vec::new();
                    extend_frames(&mut copy, frames);
                    assert(self@ =~= view_before);
                    return Some(CompletedCallstack { time, pid, tid, frames: copy });
                }
                let mut partial = PartialCallstack::default();
                partial.add_frames(frames);
                self.pending.insert(h, PendingCallstack { key, time, frames: partial });
                proof {
                    assert forall|g: u128| #[trigger] self.pending@.contains_key(g) implies g == pending_key(
                        self.pending@[g].key,
                        self.pending@[g].time,
                    ) by {
                        if g != h {
                            assert(before.contains_key(g));
                        }
                    }
                    assert forall|k: (u64, u64)| #[trigger] self@.contains_key(k) <==> view_before.insert((key, time), frames@).contains_key(k) by {
                        if pending_key(k.0, k.1) == h {
                            lemma_pending_key_injective(k.0, k.1, key, time);
                        }
                    }
                    assert forall|k: (u64, u64)| #[trigger] self@.contains_key(k) implies self@[k] == view_before.insert((key, time), frames@)[k] by {
                        if pending_key(k.0, k.1) == h {
                            lemma_pending_key_injective(k.0, k.1, key, time);
                        }
                    }
                    assert(self@ =~= view_before.insert((key, time), frames@));
                }
                None
            },
            Some(mut entry) => {
                proof {
                    assert(h == pending_key(entry.key, entry.time));
                    lemma_pending_key_injective(entry.key, entry.time, key, time);
                    assert(view_before.contains_key((key, time)));
                    assert(view_before[(key, time)] == entry.frames@);
                }
                if user {
                    let mut all: Vec<u64> = Vec::new();
                    extend_frames(&mut all, entry.frames.frames());
                    extend_frames(&mut all, frames);
                    proof {
                        assert forall|k: (u64, u64)| #[trigger] self@.contains_key(k) <==> view_before.remove((key, time)).contains_key(k) by {
                            if pending_key(k.0, k.1) == h {
                                lemma_pending_key_injective(k.0, k.1, key, time);
                            }
                        }
                        assert(self@ =~= view_before.remove((key, time)));
                    }
                    Some(CompletedCallstack { time, pid, tid, frames: all })
                } else {
                    entry.frames.add_frames(frames);
                    self.pending.insert(h, entry);
                    proof {
                        assert forall|g: u128| #[trigger] self.pending@.contains_key(g) implies g == pending_key(
                            self.pending@[g].key,
                            self.pending@[g].time,
                        ) by {
                            if g != h {
                                assert(before.contains_key(g));
                            }
                        }
                        assert forall|k: (u64, u64)| #[trigger] self@.contains_key(k) <==> view_before.insert(
                            (key, time),
                            view_before[(key, time)] + frames@,
                        ).contains_key(k) by {
                            if pending_key(k.0, k.1) == h {
                                lemma_pending_key_injective(k.0, k.1, key, time);
                            }
                        }
                        assert forall|k: (u64, u64)| #[trigger] self@.contains_key(k) implies self@[k] == view_before.insert(
                            (key, time),
                            view_before[(key, time)] + frames@,
                        )[k] by {
                            if pending_key(k.0, k.1) == h {
                                lemma_pending_key_injective(k.0, k.1, key, time);
                            }
                        }
                        assert(self@ =~= view_before.insert((key, time), view_before[(key, time)] + frames@));
                    }
                    None
                }
            },
        }
    }

    /// Completes every pending callstack as it stands, in no particular
    /// order, and empties the lookup: one completed callstack for each.
    pub fn flush(&mut self) -> (done: Vec<CompletedCallstack>)
        requires
            old(self).wf(),
        ensures
            final(self).wf(),
            final(self)@ == Map::<(u64, u64), Seq<u64>>::empty(),
            final(self).spec_count() == 0,
            done@.len() == old(self).spec_count(),
            forall|i: int| 0 <= i < done@.len() ==> #[trigger] flushed_from(old(self)@, done@[i]@),
            forall|k: (u64, u64)| #[trigger] old(self)@.contains_key(k) ==> flushed_in(
                done@.map_values(|c: CompletedCallstack| c@),
                k,
                old(self)@[k],
            ),
    {
        broadcast use vstd::std_specs::hash::group_hash_axioms;
        let ghost mv = self.pending@;
        let ghost view_before = self@;
        let mut done: Vec<CompletedCallstack> = Vec::new();
        let iter = self.pending.iter();
        let ghost items = spec_hash_map_iter(&self.pending).remaining();
        for entry in it: iter
            invariant
                mv == self.pending@,
                view_before == self@,
                forall|h: u128| #[trigger] mv.contains_key(h) ==> h == pending_key(mv[h].key, mv[h].time),
                items == spec_hash_map_iter(&self.pending).remaining(),
                it.seq() == items,
                done@.len() == it.index(),
                forall|i: int| 0 <= i < done@.len() ==> #[trigger] mv.contains_key(*items[i].0)
                    && done@[i]@ == flushed_view((mv[*items[i].0].key, mv[*items[i].0].time, mv[*items[i].0].frames@)),
        {
            let (_h, p) = entry;
            let pid = ((p.key >> 32u64) & 0xFFFFu64) as u32;
            let tid = (p.key & 0xFFFFu64) as u32;
            let mut copy: Vec<u64> = Vec::new();
            extend_frames(&mut copy, p.frames.frames());
            done.push(CompletedCallstack { time: p.time, pid, tid, frames: copy });
        }
        proof {
            assert(done@.len() == items.len());
            assert forall|i: int| 0 <= i < done@.len() implies #[trigger] flushed_from(view_before, done@[i]@) by {
                let h = *items[i].0;
                assert(mv.contains_key(h));
                let k = (mv[h].key, mv[h].time);
                assert(h == pending_key(k.0, k.1));
                assert(view_before.contains_key(k));
            }
            assert forall|k: (u64, u64)| #[trigger] view_before.contains_key(k) implies flushed_in(
                done@.map_values(|c: CompletedCallstack| c@),
                k,
                view_before[k],
            ) by {
                let h = pending_key(k.0, k.1);
                assert(mv.contains_key(h));
                assert(items.contains((&h, &mv[h])));
                let i = choose|i: int| 0 <= i < items.len() && items[i] == (&h, &mv[h]);
                assert(*items[i].0 == h);
                assert(mv.contains_key(*items[i].0));
                assert(h == pending_key(mv[h].key, mv[h].time));
                lemma_pending_key_injective(mv[h].key, mv[h].time, k.0, k.1);
                assert(done@.map_values(|c: CompletedCallstack| c@)[i] == flushed_view((k.0, k.1, view_before[k])));
            }
        }
        self.pending.clear();
        assert(self@ =~= Map::<(u64, u64), Seq<u64>>::empty());
        done
    }

    /// The number of pending callstacks.
    pub fn len(&self) -> (n: usize)
        ensures
            n == self.spec_count(),
    {
        broadcast use vstd::std_specs::hash::group_hash_axioms;
        self.pending.len()
    }
}

} // verus!

verus! {

/// Words at or above this mark a context in a perf callchain, not a frame.
pub const PERF_CONTEXT_MAX: u64 = 0xFFFF_FFFF_FFFF_F001;

/// The little-endian 8-byte words of `data`; a trailing partial word is
/// left out.
pub open spec fn callchain_words(data: Seq<u8>) -> Seq<u64> {
    Seq::new(data.len() / 8, |i: int| u64_from_le_seq(data.subrange(8 * i, 8 * i + 8)))
}

/// Whether a callchain word is a frame rather than a context marker.
pub open spec fn is_callchain_frame(w: u64) -> bool {
    w < PERF_CONTEXT_MAX
}

/// `is_callchain_frame` as a predicate.
pub open spec fn callchain_frame_pred() -> spec_fn(u64) -> bool {
    |w: u64| is_callchain_frame(w)
}

/// The little-endian `u64` at `off` in `data`.
fn read_u64_le_at(data: &[u8], off: usize) -> (v: u64)
    requires
        off + 8 <= data@.len(),
    ensures
        v == u64_from_le_seq(data@.subrange(off as int, off + 8)),
{
    let ghost s = data@.subrange(off as int, off + 8);
    assert(s[0] == data@[off as int] && s[1] == data@[off + 1] && s[2] == data@[off + 2] && s[3] == data@[off + 3]);
    assert(s[4] == data@[off + 4] && s[5] == data@[off + 5] && s[6] == data@[off + 6] && s[7] == data@[off + 7]);
    (data[off] as u64) | ((data[off + 1] as u64) << 8) | ((data[off + 2] as u64) << 16) | ((data[off + 3] as u64) << 24)
        | ((data[off + 4] as u64) << 32) | ((data[off + 5] as u64) << 40) | ((data[off + 6] as u64) << 48)
        | ((data[off + 7] as u64) << 56)
}

/// Appends to `frames` the frames of a perf callchain: its words, in
/// order, but for context markers.
pub fn read_callchain_frames(data: &[u8], frames: &mut Vec<u64>)
    ensures
        final(frames)@ == old(frames)@ + callchain_words(data@).filter(callchain_frame_pred()),
{
    let ghost words = callchain_words(data@);
    let n = data.len();
    let count = n / 8;
    let mut k: usize = 0;
    assert(words.take(0) =~= Seq::<u64>::empty());
    while k < count
        invariant
            n == data@.len(),
            count == data@.len() / 8,
            words == callchain_words(data@),
            k <= count,
            frames@ == old(frames)@ + words.take(k as int).filter(callchain_frame_pred()),
        decreases count - k,
    {
        assert(8 * k + 8 <= data@.len()) by (nonlinear_arith)
            requires
                k < count,
                count == data@.len() / 8,
        ;
        let frame = read_u64_le_at(data, 8 * k);
        assert(words[k as int] == frame);
        assert(words.take(k + 1) =~= words.take(k as int).push(frame));
        proof {
            words.take(k as int).lemma_filter_push(frame, callchain_frame_pred());
        }
        if frame < PERF_CONTEXT_MAX {
            frames.push(frame);
        }
        assert(frames@ =~= old(frames)@ + words.take(k + 1).filter(callchain_frame_pred()));
        k = k + 1;
    }
    assert(words.take(count as int) =~= words);
}

/// The user registers of a sample (bp, sp, ip), when the data holds
/// exactly those three, little-endian.
pub fn read_user_regs(data: &[u8]) -> (r: Option<(u64, u64, u64)>)
    ensures
        r is Some <==> data@.len() == 24,
        r matches Some(regs) ==> regs == (
            u64_from_le_seq(data@.subrange(0, 8)),
            u64_from_le_seq(data@.subrange(8, 16)),
            u64_from_le_seq(data@.subrange(16, 24)),
        ),
{
    if data.len() != 24 {
        return None;
    }
    Some((read_u64_le_at(data, 0), read_u64_le_at(data, 8), read_u64_le_at(data, 16)))
}

} // verus!
