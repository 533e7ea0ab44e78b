//! Interning of slices, strings and callstacks: each distinct value is
//! stored once and named by a dense id, handed out in order of first sight.

use vstd::prelude::*;
use std::hash::{Hash, Hasher};
use twox_hash::XxHash64;
use vstd::string::StringSliceAdditionalSpecFns;

verus! {

/// The XxHash64 (seed 0) of a byte slice, fed through `Hash::hash_slice`.
pub uninterp spec fn xxhash64_of_bytes(items: Seq<u8>) -> u64;

/// The eight little-endian bytes of `x`.
pub open spec fn u64_le_bytes(x: u64) -> Seq<u8> {
    seq![
        (x & 0xff) as u8,
        ((x >> 8) & 0xff) as u8,
        ((x >> 16) & 0xff) as u8,
        ((x >> 24) & 0xff) as u8,
        ((x >> 32) & 0xff) as u8,
        ((x >> 40) & 0xff) as u8,
        ((x >> 48) & 0xff) as u8,
        ((x >> 56) & 0xff) as u8,
    ]
}

/// The little-endian bytes of each item, one item after the other.
pub open spec fn u64s_le_bytes(items: Seq<u64>) -> Seq<u8>
    decreases items.len(),
{
    if items.len() == 0 {
        Seq::empty()
    } else {
        u64s_le_bytes(items.drop_last()) + u64_le_bytes(items.last())
    }
}

/// The little-endian bytes of each item, one item after the other.
pub fn u64s_to_le_bytes(items: &[u64]) -> (bytes: Vec<u8>)
    ensures
        bytes@ == u64s_le_bytes(items@),
{
    let mut bytes: Vec<u8> = Vec::new();
    let mut i: usize = 0;
    while i < items.len()
        invariant
            i <= items@.len(),
            bytes@ == u64s_le_bytes(items@.take(i as int)),
        decreases items@.len() - i,
    {
        let x = items[i];
        bytes.push((x & 0xff) as u8);
        bytes.push(((x >> 8) & 0xff) as u8);
        bytes.push(((x >> 16) & 0xff) as u8);
        bytes.push(((x >> 24) & 0xff) as u8);
        bytes.push(((x >> 32) & 0xff) as u8);
        bytes.push(((x >> 40) & 0xff) as u8);
        bytes.push(((x >> 48) & 0xff) as u8);
        bytes.push(((x >> 56) & 0xff) as u8);
        proof {
            assert(items@.take(i + 1).drop_last() =~= items@.take(i as int));
            assert(items@.take(i + 1).last() == x);
        }
        i = i + 1;
        assert(bytes@ =~= u64s_le_bytes(items@.take(i as int)));
    }
    assert(items@.take(i as int) =~= items@);
    bytes
}

/// Calls `twox_hash::XxHash64::default()`, `Hash::hash_slice` and `finish`.
/// Trusted: the hash is a function of the bytes alone, named
/// `xxhash64_of_bytes`; nothing more is stated of its value.
#[verifier::external_body]
fn xxhash64_bytes(items: &[u8]) -> (h: u64)
    ensures
        h == xxhash64_of_bytes(items@),
{
    let mut hasher = XxHash64::default();
    Hash::hash_slice(items, &mut hasher);
    hasher.finish()
}

/// An item that can be interned: copyable, comparable and hashable as a
/// slice.
pub trait InternItem: Copy + Sized {
    /// The hash of a slice of items.
    spec fn spec_hash(items: Seq<Self>) -> u64;

    fn hash_items(items: &[Self]) -> (h: u64)
        ensures
            h == Self::spec_hash(items@),
    ;

    fn same(&self, other: &Self) -> (b: bool)
        ensures
            b == (*self == *other),
    ;
}

impl InternItem for u64 {
    /// The XxHash64 of the items' little-endian bytes.
    open spec fn spec_hash(items: Seq<u64>) -> u64 {
        xxhash64_of_bytes(u64s_le_bytes(items))
    }

    fn hash_items(items: &[u64]) -> (h: u64) {
        let bytes = u64s_to_le_bytes(items);
        xxhash64_bytes(bytes.as_slice())
    }

    fn same(&self, other: &u64) -> (b: bool) {
        *self == *other
    }
}

impl InternItem for u8 {
    open spec fn spec_hash(items: Seq<u8>) -> u64 {
        xxhash64_of_bytes(items)
    }

    fn hash_items(items: &[u8]) -> (h: u64) {
        xxhash64_bytes(items)
    }

    fn same(&self, other: &u8) -> (b: bool) {
        *self == *other
    }
}

/// Whether `f` was handed id `k` with a slice holding `items`.
pub open spec fn slice_handed<T, F: FnMut(usize, &[T])>(f: F, k: int, items: Seq<T>) -> bool {
    exists|s: &[T]| s@ == items && #[trigger] call_ensures(f, (k as usize, s), ())
}

/// The range `start..end` of the item arena that holds one interned slice.
#[derive(Clone, Copy, Debug, Default, PartialEq, Eq, Structural)]
pub struct InternedSpan {
    start: usize,
    end: usize,
}

impl InternedSpan {
    pub closed spec fn spec_start(&self) -> usize {
        self.start
    }

    pub closed spec fn spec_end(&self) -> usize {
        self.end
    }

    pub fn len(&self) -> (n: usize)
        requires
            self.spec_start() <= self.spec_end(),
        ensures
            n == self.spec_end() - self.spec_start(),
    {
        self.end - self.start
    }
}

#[derive(Clone, Copy)]
struct InternedBucket {
    hash: u64,
    len: usize,
    index: usize,
}

/// Interned slices of `T`. Its view is the sequence of distinct slices
/// interned so far, indexed by id.
pub struct InternedSlices<T> {
    buckets: Vec<Vec<InternedBucket>>,
    mask: u64,
    slices: Vec<T>,
    spans: Vec<InternedSpan>,
}

/// Whether `s` occurs in `ss`.
pub open spec fn seq_contains_at<T>(ss: Seq<Seq<T>>, s: Seq<T>, i: int) -> bool {
    0 <= i < ss.len() && ss[i] == s
}

impl<T: InternItem> View for InternedSlices<T> {
    type V = Seq<Seq<T>>;

    closed spec fn view(&self) -> Seq<Seq<T>> {
        Seq::new(self.spans@.len(), |i: int| self.content(i))
    }
}

impl<T: InternItem> InternedSlices<T> {
    spec fn content(&self, i: int) -> Seq<T> {
        self.slices@.subrange(self.spans@[i].start as int, self.spans@[i].end as int)
    }

    spec fn bucket_of(&self, h: u64) -> int {
        (h & self.mask) as int
    }

    /// Slice `i` has an entry in its hash chain.
    spec fn has_chain_entry(&self, i: int) -> bool {
        exists|k: int| #[trigger] self.in_chain(i, k)
    }

    /// Entry `k` of the hash chain of slice `i` names slice `i`.
    spec fn in_chain(&self, i: int, k: int) -> bool {
        let b = self.bucket_of(T::spec_hash(self.content(i)));
        &&& 0 <= k < self.buckets@[b]@.len()
        &&& self.buckets@[b]@[k].index == i
    }

    /// The interner's invariant.
    pub closed spec fn wf(&self) -> bool {
        &&& self.mask as int + 1 == self.buckets@.len()
        &&& forall|i: int| 0 <= i < self.spans@.len() ==>
            #[trigger] self.spans@[i].start <= self.spans@[i].end <= self.slices@.len()
        &&& forall|b: int, k: int| 0 <= b < self.buckets@.len() && 0 <= k < self.buckets@[b]@.len() ==> {
            let e = #[trigger] self.buckets@[b]@[k];
            &&& e.index < self.spans@.len()
            &&& e.hash == T::spec_hash(self.content(e.index as int))
            &&& e.len == self.content(e.index as int).len()
        }
        &&& forall|i: int| 0 <= i < self.spans@.len() ==> #[trigger] self.has_chain_entry(i)
        &&& forall|i: int, j: int| 0 <= i < j < self.spans@.len() ==>
            #[trigger] self.content(i) != #[trigger] self.content(j)
    }

    /// Creates an empty interner with `bucket_count` hash chains, rounded up
    /// to a power of two.
    pub fn new(bucket_count: usize) -> (s: Self)
        requires
            bucket_count as int <= usize::MAX / 2 + 1,
        ensures
            s.wf(),
            s@ == Seq::<Seq<T>>::empty(),
    {
        let mut count: usize = 1;
        while count < bucket_count
            invariant
                1 <= count,
                count as int <= usize::MAX / 2 + 1 || count >= bucket_count,
                bucket_count as int <= usize::MAX / 2 + 1,
            decreases usize::MAX - count,
        {
            count = count * 2;
        }
        let mut buckets: Vec<Vec<InternedBucket>> = Vec::new();
        let mut i: usize = 0;
        while i < count
            invariant
                i <= count,
                buckets@.len() == i,
                forall|b: int| 0 <= b < i ==> (#[trigger] buckets@[b])@.len() == 0,
            decreases count - i,
        {
            buckets.push(Vec::new());
            i = i + 1;
        }
        let s = InternedSlices { buckets, mask: (count - 1) as u64, slices: Vec::new(), spans: Vec::new() };
        assert(s@ =~= Seq::<Seq<T>>::empty());
        s
    }

    fn items_equal(a: &[T], b: &[T]) -> (eq: bool)
        ensures
            eq == (a@ == b@),
    {
        if a.len() != b.len() {
            return false;
        }
        let mut i: usize = 0;
        while i < a.len()
            invariant
                a@.len() == b@.len(),
                i <= a@.len(),
                forall|k: int| 0 <= k < i ==> a@[k] == b@[k],
            decreases a@.len() - i,
        {
            if !a[i].same(&b[i]) {
                return false;
            }
            i = i + 1;
        }
        assert(a@ =~= b@);
        true
    }

    proof fn lemma_and_mask(h: u64, mask: u64)
        ensures
            h & mask <= mask,
    {
        assert(h & mask <= mask) by (bit_vector);
    }

    /// The id of `slice`: the id it was first given if it was interned
    /// before, else the next id, and the slice is added.
    pub fn to_id(&mut self, slice: &[T]) -> (id: usize)
        requires
            old(self).wf(),
        ensures
            final(self).wf(),
            (exists|i: int| seq_contains_at(old(self)@, slice@, i)) ==> {
                &&& final(self)@ == old(self)@
                &&& seq_contains_at(old(self)@, slice@, id as int)
            },
            (forall|i: int| !seq_contains_at(old(self)@, slice@, i)) ==> {
                &&& final(self)@ == old(self)@.push(slice@)
                &&& id == old(self)@.len()
            },
    {
        let hash = T::hash_items(slice);
        let _n_buckets = self.buckets.len();
        proof { Self::lemma_and_mask(hash, self.mask); }
        let bucket_index = (hash & self.mask) as usize;
        let len = slice.len();
        let n_chain = self.buckets[bucket_index].len();
        let mut k: usize = 0;
        while k < n_chain
            invariant
                self.wf(),
                self == old(self),
                bucket_index == self.bucket_of(hash),
                0 <= bucket_index < self.buckets@.len(),
                hash == T::spec_hash(slice@),
                len == slice@.len(),
                n_chain == self.buckets@[bucket_index as int]@.len(),
                k <= n_chain,
                forall|q: int| 0 <= q < k ==>
                    self.content((#[trigger] self.buckets@[bucket_index as int]@[q]).index as int) != slice@,
            decreases n_chain - k,
        {
            let e = self.buckets[bucket_index][k];
            if e.hash == hash && e.len == len {
                let span = self.spans[e.index];
                let items = vstd::slice::slice_subrange(self.slices.as_slice(), span.start, span.end);
                if Self::items_equal(items, slice) {
                    proof {
                        assert(self@[e.index as int] == slice@);
                        assert(seq_contains_at(old(self)@, slice@, e.index as int));
                    }
                    return e.index;
                }
            }
            k = k + 1;
        }
        proof {
            assert forall|i: int| !seq_contains_at(old(self)@, slice@, i) by {
                if seq_contains_at(old(self)@, slice@, i) {
                    assert(self.content(i) == slice@);
                    assert(self.has_chain_entry(i));
                    let q = choose|q: int| #[trigger] self.in_chain(i, q);
                    assert(self.buckets@[bucket_index as int]@[q].index == i);
                }
            }
        }
        let ghost old_self = *self;
        let start = self.slices.len();
        let span_index = self.spans.len();
        let mut j: usize = 0;
        while j < len
            invariant
                j <= len,
                len == slice@.len(),
                self.slices@.len() == old_self.slices@.len() + j,
                self.slices@.subrange(0, old_self.slices@.len() as int) == old_self.slices@,
                self.slices@.subrange(old_self.slices@.len() as int, self.slices@.len() as int)
                    == slice@.take(j as int),
                self.spans == old_self.spans,
                self.buckets == old_self.buckets,
                self.mask == old_self.mask,
                start == old_self.slices@.len(),
            decreases len - j,
        {
            let ghost prev = self.slices@;
            self.slices.push(slice[j]);
            proof {
                assert(self.slices@.subrange(0, old_self.slices@.len() as int)
                    =~= prev.subrange(0, old_self.slices@.len() as int));
                assert(self.slices@.subrange(old_self.slices@.len() as int, self.slices@.len() as int)
                    =~= slice@.take(j + 1));
            }
            j = j + 1;
        }
        let end = self.slices.len();
        self.spans.push(InternedSpan { start, end });
        let _n_spans = self.spans.len();
        self.buckets[bucket_index].push(InternedBucket { hash, len, index: span_index });
        proof {
            assert(slice@.take(len as int) =~= slice@);
            assert forall|i: int| 0 <= i < old_self.spans@.len() implies
                self.content(i) == old_self.content(i) by {
                let a = old_self.spans@[i].start as int;
                let b = old_self.spans@[i].end as int;
                assert(self.slices@.subrange(a, b) =~= old_self.slices@.subrange(a, b)) by {
                    assert forall|x: int| a <= x < b implies self.slices@[x] == old_self.slices@[x] by {
                        assert(self.slices@.subrange(0, old_self.slices@.len() as int)[x] == self.slices@[x]);
                    }
                }
            }
            assert(self.content(span_index as int) =~= slice@);
            assert forall|i: int| 0 <= i < old_self.spans@.len() implies
                self.content(old_self.spans@.len() as int) != old_self.content(i) by {
                assert(old_self@[i] == old_self.content(i));
                assert(!seq_contains_at(old_self@, slice@, i));
            }
            assert(self@ =~= old_self@.push(slice@));
            self.lemma_wf_after_insert(old_self, bucket_index as int, hash);
        }
        span_index
    }

    proof fn lemma_wf_after_insert(&self, old_self: Self, bi: int, hash: u64)
        requires
            old_self.wf(),
            self.mask == old_self.mask,
            self.spans@.len() == old_self.spans@.len() + 1,
            self.slices@.len() >= old_self.slices@.len(),
            forall|i: int| 0 <= i < old_self.spans@.len() ==> self.spans@[i] == old_self.spans@[i],
            forall|i: int| 0 <= i < old_self.spans@.len() ==> self.content(i) == old_self.content(i),
            self.spans@.last().start <= self.spans@.last().end <= self.slices@.len(),
            bi == old_self.bucket_of(hash),
            0 <= bi < old_self.buckets@.len(),
            hash == T::spec_hash(self.content(old_self.spans@.len() as int)),
            forall|i: int| 0 <= i < old_self.spans@.len() ==>
                self.content(old_self.spans@.len() as int) != old_self.content(i),
            self.buckets@.len() == old_self.buckets@.len(),
            forall|b: int| 0 <= b < self.buckets@.len() && b != bi ==> self.buckets@[b] == old_self.buckets@[b],
            self.buckets@[bi]@ == old_self.buckets@[bi]@.push(InternedBucket {
                hash,
                len: self.content(old_self.spans@.len() as int).len() as usize,
                index: old_self.spans@.len() as usize,
            }),
            self.content(old_self.spans@.len() as int).len() <= usize::MAX,
            self.spans@.len() <= usize::MAX,
        ensures
            self.wf(),
    {
        let n = old_self.spans@.len() as int;
        assert forall|i: int| 0 <= i < self.spans@.len() implies
            #[trigger] self.spans@[i].start <= self.spans@[i].end <= self.slices@.len() by {
            if i < n {
                assert(old_self.spans@[i].start <= old_self.spans@[i].end <= old_self.slices@.len());
            }
        }
        assert forall|b: int, k: int| 0 <= b < self.buckets@.len() && 0 <= k < self.buckets@[b]@.len() implies {
            let e = #[trigger] self.buckets@[b]@[k];
            &&& e.index < self.spans@.len()
            &&& e.hash == T::spec_hash(self.content(e.index as int))
            &&& e.len == self.content(e.index as int).len()
        } by {
            if b != bi || k < old_self.buckets@[bi]@.len() {
                let e = old_self.buckets@[b]@[k];
                assert(self.buckets@[b]@[k] == e);
                assert(e.index < old_self.spans@.len());
                assert(self.content(e.index as int) == old_self.content(e.index as int));
            }
        }
        assert forall|i: int| 0 <= i < self.spans@.len() implies #[trigger] self.has_chain_entry(i) by {
            if i < n {
                let b = old_self.bucket_of(T::spec_hash(old_self.content(i)));
                assert(old_self.has_chain_entry(i));
                let k = choose|k: int| #[trigger] old_self.in_chain(i, k);
                Self::lemma_and_mask(T::spec_hash(old_self.content(i)), old_self.mask);
                assert(self.buckets@[b]@[k].index == i);
                assert(self.in_chain(i, k));
            } else {
                let k = old_self.buckets@[bi]@.len() as int;
                assert(self.buckets@[bi]@[k].index == i);
                assert(self.in_chain(i, k));
            }
        }
        assert forall|i: int, j: int| 0 <= i < j < self.spans@.len() implies
            #[trigger] self.content(i) != #[trigger] self.content(j) by {
            if j < n {
                assert(old_self.content(i) != old_self.content(j));
            }
        }
    }

    /// The slice interned under `id`, or `None` when no slice has it.
    pub fn from_id(&self, id: usize) -> (found: Option<&[T]>)
        requires
            self.wf(),
        ensures
            id < self@.len() ==> found is Some && found->0@ == self@[id as int],
            id >= self@.len() ==> found is None,
    {
        if id < self.spans.len() {
            let span = self.spans[id];
            return Some(vstd::slice::slice_subrange(self.slices.as_slice(), span.start, span.end));
        }
        None
    }

    /// Calls `f` with each id and its slice, in id order.
    pub fn for_each<F: FnMut(usize, &[T])>(&self, mut f: F)
        requires
            self.wf(),
            forall|i: usize, s: &[T]| #[trigger] call_requires(f, (i, s)),
        ensures
            forall|k: int| 0 <= k < self@.len() ==> #[trigger] slice_handed(f, k, self@[k]),
    {
        broadcast use vstd::function::group_function_axioms;
        let ghost f0 = f;
        let mut i: usize = 0;
        while i < self.spans.len()
            invariant
                self.wf(),
                f == f0,
                i <= self.spans@.len(),
                forall|i: usize, s: &[T]| #[trigger] call_requires(f0, (i, s)),
                forall|k: int| 0 <= k < i ==> #[trigger] slice_handed(f0, k, self@[k]),
            decreases self.spans@.len() - i,
        {
            let span = self.spans[i];
            let items = vstd::slice::slice_subrange(self.slices.as_slice(), span.start, span.end);
            f(i, items);
            proof {
                assert(items@ == self@[i as int]);
                assert(call_ensures(f0, (i, items), ()));
                assert((i as int) as usize == i);
                assert(call_ensures(f0, ((i as int) as usize, items), ()));
                assert(slice_handed(f0, i as int, self@[i as int]));
            }
            i = i + 1;
        }
    }

    /// The number of distinct slices interned.
    pub fn len(&self) -> (n: usize)
        ensures
            n == self@.len(),
    {
        self.spans.len()
    }
}

/// Why an interned value could not be produced.
#[derive(Debug, Clone, Copy, PartialEq, Eq)]
pub enum InternError {
    /// No value was ever interned under the id.
    IdNotFound,
}

/// The id of an interned callstack: its first frame (the instruction
/// pointer) and the id of the remaining frames.
#[derive(Clone, Copy, Debug, Default, PartialEq, Eq, Structural)]
pub struct CallstackId {
    ip: u64,
    id: usize,
}

impl View for CallstackId {
    type V = (u64, usize);

    closed spec fn view(&self) -> (u64, usize) {
        (self.ip, self.id)
    }
}

impl CallstackId {
    /// The id of a callstack with first frame `ip` and tail id `id`.
    pub fn new(ip: u64, id: usize) -> (c: Self)
        ensures
            c@ == (ip, id),
    {
        Self { ip, id }
    }

    pub fn ip(&self) -> (ip: u64)
        ensures
            ip == self@.0,
    {
        self.ip
    }

    pub fn id(&self) -> (id: usize)
        ensures
            id == self@.1,
    {
        self.id
    }
}

/// Interned callstacks: the first frame is kept in the id, the remaining
/// frames are interned as a slice. The view is the interned frame tails.
pub struct InternedCallstacks {
    interned_frames: InternedSlices<u64>,
}

impl View for InternedCallstacks {
    type V = Seq<Seq<u64>>;

    closed spec fn view(&self) -> Seq<Seq<u64>> {
        self.interned_frames@
    }
}

impl InternedCallstacks {
    pub closed spec fn wf(&self) -> bool {
        self.interned_frames.wf()
    }

    /// Interned callstack tails are distinct.
    pub proof fn lemma_distinct(&self)
        requires
            self.wf(),
        ensures
            self@.no_duplicates(),
    {
        assert forall|i: int, j: int| 0 <= i < self@.len() && 0 <= j < self@.len() && i != j implies self@[i] != self@[j] by {
            lemma_interned_distinct(self.interned_frames, i, j);
        }
    }

    pub fn new(bucket_count: usize) -> (s: Self)
        requires
            bucket_count as int <= usize::MAX / 2 + 1,
        ensures
            s.wf(),
            s@ == Seq::<Seq<u64>>::empty(),
    {
        Self { interned_frames: InternedSlices::new(bucket_count) }
    }

    /// The id of a non-empty callstack: its first frame, and the id of the
    /// other frames in the interned tails.
    pub fn to_id(&mut self, frames: &[u64]) -> (id: CallstackId)
        requires
            old(self).wf(),
            frames@.len() >= 1,
        ensures
            final(self).wf(),
            id@.0 == frames@[0],
            (exists|i: int| seq_contains_at(old(self)@, frames@.drop_first(), i)) ==> {
                &&& final(self)@ == old(self)@
                &&& seq_contains_at(old(self)@, frames@.drop_first(), id@.1 as int)
            },
            (forall|i: int| !seq_contains_at(old(self)@, frames@.drop_first(), i)) ==> {
                &&& final(self)@ == old(self)@.push(frames@.drop_first())
                &&& id@.1 == old(self)@.len()
            },
    {
        let rest = vstd::slice::slice_subrange(frames, 1, frames.len());
        assert(rest@ =~= frames@.drop_first());
        let ip = frames[0];
        let id = self.interned_frames.to_id(rest);
        CallstackId { ip, id }
    }

    /// Writes the frames of callstack `id` into `frames`: its first frame,
    /// then the interned tail. When the tail id is unknown, `frames` holds
    /// only the first frame and the result is an error.
    pub fn from_id(&self, id: CallstackId, frames: &mut Vec<u64>) -> (r: Result<(), InternError>)
        requires
            self.wf(),
        ensures
            id@.1 < self@.len() ==> r is Ok && final(frames)@ == seq![id@.0] + self@[id@.1 as int],
            id@.1 >= self@.len() ==> r == Err::<(), InternError>(InternError::IdNotFound)
                && final(frames)@ == seq![id@.0],
    {
        frames.clear();
        frames.push(id.ip());
        match self.interned_frames.from_id(id.id()) {
            Some(found) => {
                let mut i: usize = 0;
                while i < found.len()
                    invariant
                        i <= found@.len(),
                        frames@ == seq![id@.0] + found@.take(i as int),
                    decreases found@.len() - i,
                {
                    frames.push(found[i]);
                    assert(frames@ =~= seq![id@.0] + found@.take(i + 1));
                    i = i + 1;
                }
                assert(found@.take(i as int) =~= found@);
                Ok(())
            },
            None => Err(InternError::IdNotFound),
        }
    }
}

/// A callstack read back from its id is the callstack that was interned.
pub proof fn lemma_callstack_roundtrip(cs: InternedCallstacks, frames: Seq<u64>, id: CallstackId)
    requires
        cs.wf(),
        frames.len() >= 1,
        id@.0 == frames[0],
        seq_contains_at(cs@, frames.drop_first(), id@.1 as int),
    ensures
        seq![id@.0] + cs@[id@.1 as int] == frames,
{
    assert(seq![id@.0] + cs@[id@.1 as int] =~= frames);
}

/// Calls `std::str::from_utf8`. Trusted: it succeeds exactly on valid
/// UTF-8, and the string it gives back has exactly those bytes.
#[verifier::external_body]
pub(crate) fn str_from_utf8(bytes: &[u8]) -> (s: Option<&str>)
    ensures
        s is Some <==> vstd::utf8::valid_utf8(bytes@),
        s matches Some(x) ==> x.spec_bytes() == bytes@,
{
    std::str::from_utf8(bytes).ok()
}

/// Interned strings, stored as their UTF-8 bytes. The view is the
/// interned strings by id.
pub struct InternedStrings {
    strings: InternedSlices<u8>,
}

impl View for InternedStrings {
    type V = Seq<Seq<char>>;

    closed spec fn view(&self) -> Seq<Seq<char>> {
        Seq::new(self.strings@.len(), |i: int| vstd::utf8::decode_utf8(self.strings@[i]))
    }
}

impl InternedStrings {
    pub closed spec fn wf(&self) -> bool {
        &&& self.strings.wf()
        &&& forall|i: int| 0 <= i < self.strings@.len() ==> vstd::utf8::valid_utf8(#[trigger] self.strings@[i])
    }

    pub fn new(bucket_count: usize) -> (s: Self)
        requires
            bucket_count as int <= usize::MAX / 2 + 1,
        ensures
            s.wf(),
            s@ == Seq::<Seq<char>>::empty(),
    {
        let s = Self { strings: InternedSlices::new(bucket_count) };
        assert(s@ =~= Seq::<Seq<char>>::empty());
        s
    }

    /// The id of `string`: the id it was first given if it was interned
    /// before, else the next id, and the string is added.
    pub fn to_id(&mut self, string: &str) -> (id: usize)
        requires
            old(self).wf(),
        ensures
            final(self).wf(),
            (exists|i: int| seq_contains_at(old(self)@, string@, i)) ==> {
                &&& final(self)@ == old(self)@
                &&& seq_contains_at(old(self)@, string@, id as int)
            },
            (forall|i: int| !seq_contains_at(old(self)@, string@, i)) ==> {
                &&& final(self)@ == old(self)@.push(string@)
                &&& id == old(self)@.len()
            },
    {
        let bytes = string.as_bytes();
        let ghost old_self = *self;
        proof {
            vstd::utf8::encode_utf8_valid_utf8(string@);
            vstd::utf8::encode_utf8_decode_utf8(string@);
            assert forall|i: int| #![trigger old_self.strings@[i]]
                0 <= i < old_self.strings@.len() implies
                (old_self.strings@[i] == bytes@ <==> old_self@[i] == string@) by {
                vstd::utf8::decode_utf8_encode_utf8(old_self.strings@[i]);
            }
        }
        let id = self.strings.to_id(bytes);
        proof {
            if exists|i: int| seq_contains_at(old_self@, string@, i) {
                let i = choose|i: int| seq_contains_at(old_self@, string@, i);
                assert(old_self.strings@[i] == bytes@);
                assert(seq_contains_at(old_self.strings@, bytes@, i));
                assert(self@ =~= old_self@);
            } else {
                assert forall|i: int| !seq_contains_at(old_self.strings@, bytes@, i) by {
                    if seq_contains_at(old_self.strings@, bytes@, i) {
                        assert(old_self.strings@[i] == bytes@);
                        assert(seq_contains_at(old_self@, string@, i));
                    }
                }
                assert(self@ =~= old_self@.push(string@));
            }
        }
        id
    }

    /// The string interned under `id`, or an error when no string has it.
    pub fn from_id(&self, id: usize) -> (r: Result<&str, InternError>)
        requires
            self.wf(),
        ensures
            id < self@.len() ==> r is Ok && r->Ok_0@ == self@[id as int],
            id >= self@.len() ==> r == Err::<&str, InternError>(InternError::IdNotFound),
    {
        match self.strings.from_id(id) {
            Some(bytes) => {
                assert(vstd::utf8::valid_utf8(self.strings@[id as int]));
                match str_from_utf8(bytes) {
                    Some(s) => {
                        proof {
                            vstd::utf8::encode_utf8_decode_utf8(s@);
                        }
                        Ok(s)
                    },
                    None => Err(InternError::IdNotFound),
                }
            },
            None => Err(InternError::IdNotFound),
        }
    }

    /// The number of distinct strings interned.
    pub fn len(&self) -> (n: usize)
        ensures
            n == self@.len(),
    {
        self.strings.len()
    }
}

/// Interning gives equal ids exactly to equal slices: an id names one
/// slice, and a slice is never stored twice.
pub proof fn lemma_interned_distinct<T: InternItem>(s: InternedSlices<T>, i: int, j: int)
    requires
        s.wf(),
        0 <= i < s@.len(),
        0 <= j < s@.len(),
    ensures
        (s@[i] == s@[j]) <==> (i == j),
{
    if i < j {
        assert(s.content(i) != s.content(j));
    } else if j < i {
        assert(s.content(j) != s.content(i));
    }
}

} // verus!
