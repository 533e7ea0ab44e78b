//! An address lookup: for each address where the set of open ranges
//! changes, the ranges open there, sorted by address.

use vstd::prelude::*;

verus! {

/// A range boundary: the range `index` opens (`valid`) or closes at
/// `address`. In the built lookup, each entry names a range that is open
/// at its address.
pub struct AddressLookupItem {
    address: u64,
    index: u32,
    valid: bool,
}

impl View for AddressLookupItem {
    type V = (u64, u32, bool);

    closed spec fn view(&self) -> (u64, u32, bool) {
        (self.address, self.index, self.valid)
    }
}

impl AddressLookupItem {
    pub fn new(address: u64, index: u32, valid: bool) -> (i: Self)
        ensures
            i@ == (address, index, valid),
    {
        Self { address, index, valid }
    }
}

/// The views of a sequence of items.
pub open spec fn item_views(v: Seq<AddressLookupItem>) -> Seq<(u64, u32, bool)> {
    v.map_values(|it: AddressLookupItem| it@)
}

/// Whether the items are in ascending order of address.
pub open spec fn sorted_by_address(s: Seq<(u64, u32, bool)>) -> bool {
    forall|i: int, j: int| 0 <= i <= j < s.len() ==> #[trigger] s[i].0 <= #[trigger] s[j].0
}

/// Whether, after the first `n` of the items, range `x` is open: the last
/// of them that names `x` opens it.
pub open spec fn open_after(s: Seq<(u64, u32, bool)>, n: int, x: u32) -> bool
    decreases n,
{
    if n <= 0 {
        false
    } else if s[n - 1].1 == x {
        s[n - 1].2
    } else {
        open_after(s, n - 1, x)
    }
}

/// Whether the entries that a search for `a` collects name range `x`: the
/// last entry at or below `a`, and the entries before it at the same
/// address.
pub open spec fn collects(e: Seq<(u64, u32, bool)>, a: u64, x: u32) -> bool {
    exists|q: int, l: int|
        #![trigger e[q], e[l]]
        0 <= q <= l < e.len() && e[l].0 <= a && (l + 1 == e.len() || e[l + 1].0 > a) && e[q].0
            == e[l].0 && e[q].1 == x
}

/// Whether one of the first `n` items names range `x`.
pub open spec fn named_in(s: Seq<(u64, u32, bool)>, n: int, x: u32) -> bool {
    exists|i: int| 0 <= i < n && i < s.len() && #[trigger] s[i].1 == x
}

/// Whether range `x` of the items opens at `s` and closes at `e`, and no
/// other item names it.
pub open spec fn range_of(items: Seq<(u64, u32, bool)>, x: u32, s: u64, e: u64) -> bool {
    &&& items.contains((s, x, true))
    &&& items.contains((e, x, false))
    &&& forall|i: int| 0 <= i < items.len() && (#[trigger] items[i]).1 == x ==> items[i] == (s, x, true)
        || items[i] == (e, x, false)
}

/// A lookup of sorted address entries.
pub struct AddressLookup {
    lookup: Vec<AddressLookupItem>,
    index: Vec<u32>,
}

impl AddressLookup {
    pub closed spec fn entries(&self) -> Seq<(u64, u32, bool)> {
        item_views(self.lookup@)
    }

    pub closed spec fn wf(&self) -> bool {
        sorted_by_address(self.entries())
    }

    pub closed spec fn spec_is_empty(&self) -> bool {
        self.lookup@.len() == 0
    }

    /// The lookup was built from `items` (with no item twice): its entries
    /// name only ranges of the items, it has an entry when an item opens a
    /// range, and a search for an address collects every range that opens
    /// at or below it and closes above it.
    pub open spec fn built_from(&self, items: Seq<(u64, u32, bool)>) -> bool {
        &&& self.wf()
        &&& items.no_duplicates()
        &&& forall|q: int| 0 <= q < self.entries().len() ==> named_in(items, items.len() as int, (#[trigger] self.entries()[q]).1)
        &&& (exists|i: int| 0 <= i < items.len() && #[trigger] items[i].2) ==> self.entries().len() > 0
        &&& forall|a: u64, x: u32, s: u64, e: u64|
            #![trigger collects(self.entries(), a, x), range_of(items, x, s, e)]
            range_of(items, x, s, e) && s <= a < e ==> collects(self.entries(), a, x)
    }

    pub fn new() -> (l: Self)
        ensures
            l.wf(),
            l.spec_is_empty(),
    {
        let l = Self { lookup: Vec::new(), index: Vec::new() };
        assert(l.entries() =~= Seq::<(u64, u32, bool)>::empty());
        l
    }

    pub fn is_empty(&self) -> (b: bool)
        ensures
            b == self.spec_is_empty(),
    {
        self.lookup.len() == 0
    }

    pub fn clear(&mut self)
        ensures
            final(self).wf(),
            final(self).spec_is_empty(),
    {
        self.lookup.clear();
        assert(self.entries() =~= Seq::<(u64, u32, bool)>::empty());
    }

    /// A built lookup of items of which one opens a range has an entry.
    pub proof fn lemma_built_nonempty(&self, items: Seq<(u64, u32, bool)>, i: int)
        requires
            self.built_from(items),
            0 <= i < items.len(),
            items[i].2,
        ensures
            !self.spec_is_empty(),
    {
        assert(items[i].2);
        assert(self.entries().len() == self.lookup@.len());
    }

    /// A search of a built lookup collects each range open at the address.
    pub proof fn lemma_find_complete(&self, items: Seq<(u64, u32, bool)>, a: u64, x: u32, s: u64, e: u64)
        requires
            self.built_from(items),
            range_of(items, x, s, e),
            s <= a < e,
        ensures
            collects(self.entries(), a, x),
    {
    }

    /// Each entry of a built lookup names a range of the items.
    pub proof fn lemma_entry_from_items(&self, items: Seq<(u64, u32, bool)>, q: int)
        requires
            self.built_from(items),
            0 <= q < self.entries().len(),
        ensures
            named_in(items, items.len() as int, self.entries()[q].1),
    {
        assert(self.entries()[q] == self.entries()[q]);
    }

    /// The number of entries at or below `address`.
    fn partition_point(&self, address: u64) -> (p: usize)
        requires
            self.wf(),
        ensures
            p <= self.entries().len(),
            forall|q: int| 0 <= q < p ==> #[trigger] self.entries()[q].0 <= address,
            forall|q: int| p <= q < self.entries().len() ==> #[trigger] self.entries()[q].0 > address,
    {
        let mut lo: usize = 0;
        let mut hi: usize = self.lookup.len();
        while lo < hi
            invariant
                self.wf(),
                lo <= hi <= self.entries().len(),
                self.entries().len() == self.lookup@.len(),
                forall|q: int| 0 <= q < lo ==> #[trigger] self.entries()[q].0 <= address,
                forall|q: int| hi <= q < self.entries().len() ==> #[trigger] self.entries()[q].0 > address,
            decreases hi - lo,
        {
            let mid = lo + (hi - lo) / 2;
            assert(self.entries()[mid as int] == self.lookup@[mid as int]@);
            if self.lookup[mid].address <= address {
                assert forall|q: int| 0 <= q < mid + 1 implies #[trigger] self.entries()[q].0 <= address by {
                    assert(self.entries()[q].0 <= self.entries()[mid as int].0);
                }
                lo = mid + 1;
            } else {
                assert forall|q: int| mid <= q < self.entries().len() implies #[trigger] self.entries()[q].0
                    > address by {
                    assert(self.entries()[mid as int].0 <= self.entries()[q].0);
                }
                hi = mid;
            }
        }
        lo
    }

    /// The ranges of the last entry at or below `address` (the first entry
    /// when there is none) and of the entries before it at its address.
    pub fn find(&mut self, address: u64) -> (found: &[u32])
        requires
            old(self).wf(),
            !old(self).spec_is_empty(),
        ensures
            final(self).entries() == old(self).entries(),
            final(self).wf(),
            found@.len() > 0,
            forall|x: u32| collects(old(self).entries(), address, x) ==> found@.contains(x),
            forall|k: int| 0 <= k < found@.len() ==> named_in(old(self).entries(), old(self).entries().len() as int, #[trigger] found@[k]),
    {
        let ghost e = self.entries();
        let p = self.partition_point(address);
        let top: usize = if p > 0 { p - 1 } else { 0 };
        assert(e[top as int] == self.lookup@[top as int]@);
        self.index.clear();
        self.index.push(self.lookup[top].index);
        let addr = self.lookup[top].address;
        let mut i: usize = top;
        while i > 0 && self.lookup[i - 1].address == addr
            invariant
                e == self.entries(),
                self.wf(),
                e.len() == self.lookup@.len(),
                top < e.len(),
                i <= top,
                addr == e[top as int].0,
                self.index@.len() == top - i + 1,
                forall|r: int| i <= r <= top ==> #[trigger] e[r].0 == addr,
                forall|r: int| i <= r <= top ==> self.index@[top - r] == #[trigger] e[r].1,
            decreases i,
        {
            i = i - 1;
            assert(e[i as int] == self.lookup@[i as int]@);
            self.index.push(self.lookup[i].index);
        }
        proof {
            assert forall|x: u32| collects(e, address, x) implies self.index@.contains(x) by {
                let (q, l) = choose|q: int, l: int|
                    #![trigger e[q], e[l]]
                    0 <= q <= l < e.len() && e[l].0 <= address && (l + 1 == e.len() || e[l + 1].0 > address)
                        && e[q].0 == e[l].0 && e[q].1 == x;
                assert(l == top) by {
                    if l < p as int - 1 {
                        assert(e[l + 1].0 <= address);
                    }
                    if l >= p {
                        assert(e[l].0 > address);
                    }
                }
                if q < i {
                    assert(e[q].0 <= e[i - 1].0);
                    assert(e[i - 1].0 <= e[l].0);
                }
                assert(self.index@[top - q] == x);
            }
            assert forall|k: int| 0 <= k < self.index@.len() implies named_in(e, e.len() as int, #[trigger] self.index@[k]) by {
                assert(self.index@[top - (top - k)] == e[top - k].1);
            }
        }
        self.index.as_slice()
    }

    /// Sorts `items` by address and builds the lookup from them: for each
    /// item, in address order, an entry for every range open after it.
    pub fn update(&mut self, items: &mut Vec<AddressLookupItem>)
        requires
            item_views(old(items)@).no_duplicates(),
        ensures
            final(self).built_from(item_views(old(items)@)),
            sorted_by_address(item_views(final(items)@)),
    {
        let ghost given = item_views(items@);
        let sorted = sort_by_address(items);
        *items = sorted;
        let ghost s = item_views(items@);
        self.lookup.clear();
        let mut active: Vec<u32> = Vec::new();
        let mut k: usize = 0;
        proof {
            assert(self.entries() =~= Seq::<(u64, u32, bool)>::empty());
            assert forall|a: u64, x: u32, st: u64, en: u64|
                range_of(s, x, st, en) && st <= a < en && (0 == s.len() || s[0].0 > a) implies #[trigger] collects(
                    self.entries(),
                    a,
                    x,
                ) && #[trigger] range_of(s, x, st, en) by {
                let ps = choose|i: int| 0 <= i < s.len() && s[i] == (st, x, true);
                assert(s[0].0 <= s[ps].0);
            }
        }
        while k < items.len()
            invariant
                s == item_views(items@),
                sorted_by_address(s),
                s.no_duplicates(),
                k <= s.len(),
                sorted_by_address(self.entries()),
                k > 0 ==> forall|q: int| 0 <= q < self.entries().len() ==> #[trigger] self.entries()[q].0 <= s[k
                    - 1].0,
                k == 0 ==> self.entries().len() == 0,
                active@.no_duplicates(),
                forall|x: u32| active@.contains(x) <==> open_after(s, k as int, x),
                forall|q: int| 0 <= q < self.entries().len() ==> named_in(s, k as int, (#[trigger] self.entries()[q]).1),
                (exists|i: int| 0 <= i < k && #[trigger] s[i].2) ==> self.entries().len() > 0,
                forall|a: u64, x: u32, st: u64, en: u64|
                    #![trigger collects(self.entries(), a, x), range_of(s, x, st, en)]
                    range_of(s, x, st, en) && st <= a < en && (k == s.len() || s[k as int].0 > a) ==> collects(
                        self.entries(),
                        a,
                        x,
                    ),
            decreases s.len() - k,
        {
            assert(s[k as int] == items@[k as int]@);
            let item_address = items[k].address;
            let item_index = items[k].index;
            let item_valid = items[k].valid;
            let ghost before = self.entries();
            let ghost active_before = active@;
            if item_valid {
                if !vec_contains(&active, item_index) {
                    active.push(item_index);
                    proof {
                        assert forall|y: u32| #[trigger] active@.contains(y) <==> (y == item_index
                            || active_before.contains(y)) by {
                            if active_before.contains(y) {
                                let j = choose|j: int| 0 <= j < active_before.len() && active_before[j] == y;
                                assert(active@[j] == y);
                            }
                            if y == item_index {
                                assert(active@[active@.len() - 1] == y);
                            }
                        }
                    }
                }
            } else {
                match vec_position(&active, item_index) {
                    Some(pos) => {
                        active.remove(pos);
                        proof {
                            assert forall|y: u32| #[trigger] active@.contains(y) <==> (y != item_index
                                && active_before.contains(y)) by {
                                if active@.contains(y) {
                                    let j = choose|j: int| 0 <= j < active@.len() && active@[j] == y;
                                    if j < pos {
                                        assert(active_before[j] == y);
                                    } else {
                                        assert(active_before[j + 1] == y);
                                    }
                                }
                                if y != item_index && active_before.contains(y) {
                                    let j = choose|j: int| 0 <= j < active_before.len() && active_before[j] == y;
                                    if j < pos {
                                        assert(active@[j] == y);
                                    } else {
                                        assert(j != pos);
                                        assert(active@[j - 1] == y);
                                    }
                                }
                            }
                        }
                    },
                    None => {},
                }
            }
            proof {
                assert forall|y: u32| active@.contains(y) <==> open_after(s, k as int + 1, y) by {}
            }
            let mut r: usize = 0;
            while r < active.len()
                invariant
                    s == item_views(items@),
                    k < s.len(),
                    item_address == s[k as int].0,
                    sorted_by_address(before),
                    k > 0 ==> forall|q: int| 0 <= q < before.len() ==> #[trigger] before[q].0 <= s[k - 1].0,
                    k > 0 ==> s[k - 1].0 <= s[k as int].0,
                    r <= active@.len(),
                    self.entries().len() == before.len() + r,
                    forall|q: int| 0 <= q < before.len() ==> #[trigger] self.entries()[q] == before[q],
                    forall|q: int| 0 <= q < r ==> #[trigger] self.entries()[before.len() + q] == (
                        item_address,
                        active@[q],
                        true,
                    ),
                decreases active@.len() - r,
            {
                let ghost prev = self.lookup@;
                let ghost prev_entries = self.entries();
                self.lookup.push(AddressLookupItem::new(item_address, active[r], true));
                r = r + 1;
                proof {
                    assert forall|q: int| 0 <= q < prev.len() implies #[trigger] self.entries()[q] == prev_entries[q] by {
                        assert(self.lookup@[q] == prev[q]);
                    }
                    assert(self.entries()[before.len() + r - 1] == self.lookup@[before.len() + r - 1]@);
                }
            }
            proof {
                lemma_sweep_step(s, k as int, before, active@, self.entries());
            }
            k = k + 1;
        }
        proof {
            lemma_sorted_same_items(given, s, self.entries());
        }
    }
}

/// Whether `v` holds `x`.
fn vec_contains(v: &Vec<u32>, x: u32) -> (b: bool)
    ensures
        b == v@.contains(x),
{
    match vec_position(v, x) {
        Some(p) => {
            assert(v@[p as int] == x);
            true
        },
        None => false,
    }
}

/// The position of `x` in `v`, if it is there.
fn vec_position(v: &Vec<u32>, x: u32) -> (r: Option<usize>)
    ensures
        match r {
            Some(p) => p < v@.len() && v@[p as int] == x,
            None => !v@.contains(x),
        },
{
    let mut i: usize = 0;
    while i < v.len()
        invariant
            i <= v@.len(),
            forall|j: int| 0 <= j < i ==> v@[j] != x,
        decreases v@.len() - i,
    {
        if v[i] == x {
            return Some(i);
        }
        i = i + 1;
    }
    None
}

/// Sorts items by address; items at one address keep their order.
fn sort_by_address(items: &Vec<AddressLookupItem>) -> (sorted: Vec<AddressLookupItem>)
    ensures
        sorted@.len() == items@.len(),
        sorted_by_address(item_views(sorted@)),
        forall|t: (u64, u32, bool)| item_views(sorted@).contains(t) <==> item_views(items@).contains(t),
        item_views(items@).no_duplicates() ==> item_views(sorted@).no_duplicates(),
{
    let mut sorted: Vec<AddressLookupItem> = Vec::new();
    let mut k: usize = 0;
    while k < items.len()
        invariant
            k <= items@.len(),
            sorted@.len() == k,
            sorted_by_address(item_views(sorted@)),
            forall|t: (u64, u32, bool)| item_views(sorted@).contains(t) <==> item_views(items@.take(k as int)).contains(t),
            item_views(items@).no_duplicates() ==> item_views(sorted@).no_duplicates(),
        decreases items@.len() - k,
    {
        let ghost old_sorted = item_views(sorted@);
        let address = items[k].address;
        let mut pos: usize = 0;
        while pos < sorted.len() && sorted[pos].address <= address
            invariant
                pos <= sorted@.len(),
                old_sorted == item_views(sorted@),
                forall|j: int| 0 <= j < pos ==> #[trigger] old_sorted[j].0 <= address,
            decreases sorted@.len() - pos,
        {
            assert(old_sorted[pos as int] == sorted@[pos as int]@);
            pos = pos + 1;
        }
        proof {
            if pos < sorted@.len() {
                assert(old_sorted[pos as int] == sorted@[pos as int]@);
            }
        }
        let item = AddressLookupItem::new(items[k].address, items[k].index, items[k].valid);
        assert(item@ == items@[k as int]@);
        sorted.insert(pos, item);
        proof {
            let nv = item_views(sorted@);
            let t = item@;
            assert(nv =~= old_sorted.insert(pos as int, t));
            let taken = item_views(items@.take(k as int));
            let taken1 = item_views(items@.take(k as int + 1));
            assert(taken1 =~= taken.push(t));
            lemma_insert_contains(old_sorted, pos as int, t);
            lemma_push_contains(taken, t);
            assert forall|u: (u64, u32, bool)| nv.contains(u) <==> taken1.contains(u) by {
                if nv.contains(u) && u != t {
                    assert(old_sorted.contains(u));
                }
            }
            assert forall|i: int, j: int| 0 <= i <= j < nv.len() implies #[trigger] nv[i].0 <= #[trigger] nv[j].0 by {
                if i < pos && j > pos {
                    assert(old_sorted[i].0 <= old_sorted[j - 1].0);
                } else if i < pos && j == pos {
                } else if i == pos && j > pos {
                    assert(old_sorted[j - 1].0 >= old_sorted[pos as int].0);
                } else if i > pos {
                    assert(old_sorted[i - 1].0 <= old_sorted[j - 1].0);
                } else if j < pos {
                    assert(old_sorted[i].0 <= old_sorted[j].0);
                }
            }
            if item_views(items@).no_duplicates() {
                assert(!old_sorted.contains(t)) by {
                    if old_sorted.contains(t) {
                        assert(taken.contains(t));
                        let j = choose|j: int| 0 <= j < taken.len() && taken[j] == t;
                        assert(item_views(items@)[j] == item_views(items@)[k as int]);
                    }
                }
                assert forall|i: int, j: int| 0 <= i < nv.len() && 0 <= j < nv.len() && i != j implies nv[i]
                    != nv[j] by {
                    if i == pos {
                        assert(old_sorted.contains(nv[j]));
                    } else if j == pos {
                        assert(old_sorted.contains(nv[i]));
                    } else {
                        let i0 = if i < pos { i } else { i - 1 };
                        let j0 = if j < pos { j } else { j - 1 };
                        assert(nv[i] == old_sorted[i0] && nv[j] == old_sorted[j0]);
                    }
                }
            }
        }
        k = k + 1;
    }
    assert(items@.take(items@.len() as int) =~= items@);
    sorted
}

/// What a sequence holds after an insertion.
proof fn lemma_insert_contains<T>(v: Seq<T>, pos: int, t: T)
    requires
        0 <= pos <= v.len(),
    ensures
        forall|u: T| #[trigger] v.insert(pos, t).contains(u) <==> (u == t || v.contains(u)),
{
    let w = v.insert(pos, t);
    assert forall|u: T| #[trigger] w.contains(u) <==> (u == t || v.contains(u)) by {
        if w.contains(u) {
            let j = choose|j: int| 0 <= j < w.len() && w[j] == u;
            if j < pos {
                assert(v[j] == u);
            } else if j > pos {
                assert(v[j - 1] == u);
            }
        }
        if u == t {
            assert(w[pos] == u);
        } else if v.contains(u) {
            let m = choose|m: int| 0 <= m < v.len() && v[m] == u;
            if m < pos {
                assert(w[m] == u);
            } else {
                assert(w[m + 1] == u);
            }
        }
    }
}

/// What a sequence holds after a push.
proof fn lemma_push_contains<T>(v: Seq<T>, t: T)
    ensures
        forall|u: T| #[trigger] v.push(t).contains(u) <==> (u == t || v.contains(u)),
{
    let w = v.push(t);
    assert forall|u: T| #[trigger] w.contains(u) <==> (u == t || v.contains(u)) by {
        if w.contains(u) {
            let j = choose|j: int| 0 <= j < w.len() && w[j] == u;
            if j < v.len() {
                assert(v[j] == u);
            }
        }
        if u == t {
            assert(w[v.len() as int] == u);
        } else if v.contains(u) {
            let m = choose|m: int| 0 <= m < v.len() && v[m] == u;
            assert(w[m] == u);
        }
    }
}

/// Opening state after a prefix, when only position `p` in `[p, n)` names
/// the range: what the item at `p` says.
proof fn lemma_open_after_last(s: Seq<(u64, u32, bool)>, n: int, x: u32, p: int)
    requires
        0 <= p < n <= s.len(),
        s[p].1 == x,
        forall|r: int| p < r < n ==> s[r].1 != x,
    ensures
        open_after(s, n, x) == s[p].2,
    decreases n,
{
    if n - 1 > p {
        lemma_open_after_last(s, n - 1, x, p);
    }
}

/// A range open after a prefix was named by an item of the prefix.
proof fn lemma_open_after_named(s: Seq<(u64, u32, bool)>, n: int, x: u32)
    requires
        open_after(s, n, x),
        n <= s.len(),
    ensures
        named_in(s, n, x),
    decreases n,
{
    if n > 0 {
        if s[n - 1].1 != x {
            lemma_open_after_named(s, n - 1, x);
            let i = choose|i: int| 0 <= i < n - 1 && i < s.len() && #[trigger] s[i].1 == x;
            assert(s[i].1 == x);
        } else {
            assert(s[n - 1].1 == x);
        }
    }
}

/// One step of the sweep keeps the invariant of `update`.
proof fn lemma_sweep_step(
    s: Seq<(u64, u32, bool)>,
    k: int,
    before: Seq<(u64, u32, bool)>,
    active: Seq<u32>,
    after: Seq<(u64, u32, bool)>,
)
    requires
        sorted_by_address(s),
        s.no_duplicates(),
        0 <= k < s.len(),
        sorted_by_address(before),
        k > 0 ==> forall|q: int| 0 <= q < before.len() ==> #[trigger] before[q].0 <= s[k - 1].0,
        k == 0 ==> before.len() == 0,
        forall|x: u32| active.contains(x) <==> open_after(s, k + 1, x),
        forall|q: int| 0 <= q < before.len() ==> named_in(s, k, (#[trigger] before[q]).1),
        (exists|i: int| 0 <= i < k && #[trigger] s[i].2) ==> before.len() > 0,
        forall|a: u64, x: u32, st: u64, en: u64|
            #![trigger collects(before, a, x), range_of(s, x, st, en)]
            range_of(s, x, st, en) && st <= a < en && s[k].0 > a ==> collects(before, a, x),
        after.len() == before.len() + active.len(),
        forall|q: int| 0 <= q < before.len() ==> #[trigger] after[q] == before[q],
        forall|q: int| 0 <= q < active.len() ==> #[trigger] after[before.len() + q] == (s[k].0, active[q], true),
    ensures
        sorted_by_address(after),
        forall|q: int| 0 <= q < after.len() ==> #[trigger] after[q].0 <= s[k].0,
        forall|q: int| 0 <= q < after.len() ==> named_in(s, k + 1, (#[trigger] after[q]).1),
        (exists|i: int| 0 <= i < k + 1 && #[trigger] s[i].2) ==> after.len() > 0,
        forall|a: u64, x: u32, st: u64, en: u64|
            #![trigger collects(after, a, x), range_of(s, x, st, en)]
            range_of(s, x, st, en) && st <= a < en && (k + 1 == s.len() || s[k + 1].0 > a) ==> collects(
                after,
                a,
                x,
            ),
{
    let c = s[k].0;
    let b = before.len() as int;
    assert forall|q: int| 0 <= q < after.len() implies #[trigger] after[q].0 <= c by {
        if q < b {
            assert(after[q] == before[q]);
            assert(s[k - 1].0 <= s[k].0);
        } else {
            assert(after[b + (q - b)] == (c, active[q - b], true));
        }
    }
    assert forall|i: int, j: int| 0 <= i <= j < after.len() implies #[trigger] after[i].0 <= #[trigger] after[j].0 by {
        if j < b {
            assert(after[i] == before[i] && after[j] == before[j]);
        } else {
            assert(after[b + (j - b)] == (c, active[j - b], true));
        }
    }
    assert forall|q: int| 0 <= q < after.len() implies named_in(s, k + 1, (#[trigger] after[q]).1) by {
        if q < b {
            assert(after[q] == before[q]);
            assert(named_in(s, k, before[q].1));
            let i = choose|i: int| 0 <= i < k && i < s.len() && #[trigger] s[i].1 == before[q].1;
            assert(s[i].1 == after[q].1);
        } else {
            assert(after[b + (q - b)] == (c, active[q - b], true));
            assert(active.contains(active[q - b]));
            lemma_open_after_named(s, k + 1, active[q - b]);
        }
    }
    if exists|i: int| 0 <= i < k + 1 && #[trigger] s[i].2 {
        if !(exists|i: int| 0 <= i < k && #[trigger] s[i].2) {
            assert(s[k].2);
            assert(open_after(s, k + 1, s[k].1));
            assert(active.contains(s[k].1));
        }
    }
    assert forall|a: u64, x: u32, st: u64, en: u64|
        range_of(s, x, st, en) && st <= a < en && (k + 1 == s.len() || s[k + 1].0 > a) implies #[trigger] collects(
            after,
            a,
            x,
        ) && #[trigger] range_of(s, x, st, en) by {
        if a < c {
            assert(collects(before, a, x));
            let (q, l) = choose|q: int, l: int|
                #![trigger before[q], before[l]]
                0 <= q <= l < before.len() && before[l].0 <= a && (l + 1 == before.len() || before[l + 1].0 > a)
                    && before[q].0 == before[l].0 && before[q].1 == x;
            assert(after[q] == before[q] && after[l] == before[l]);
            if l + 1 < before.len() {
                assert(after[l + 1] == before[l + 1]);
            } else if active.len() > 0 {
                assert(after[b + 0] == (c, active[0], true));
            }
            assert(collects(after, a, x));
        } else {
            let ps = choose|i: int| 0 <= i < s.len() && s[i] == (st, x, true);
            let pe = choose|i: int| 0 <= i < s.len() && s[i] == (en, x, false);
            assert(ps <= k) by {
                if ps > k {
                    assert(s[k + 1].0 <= s[ps].0);
                }
            }
            assert(pe > k) by {
                if pe <= k {
                    assert(s[pe].0 <= s[k].0);
                }
            }
            assert forall|r: int| ps < r < k + 1 implies s[r].1 != x by {
                if s[r].1 == x {
                    assert(s[r] == (st, x, true) || s[r] == (en, x, false));
                    if s[r] == (st, x, true) {
                        assert(s[r] == s[ps]);
                    } else {
                        assert(s[r] == s[pe]);
                    }
                }
            }
            lemma_open_after_last(s, k + 1, x, ps);
            assert(active.contains(x));
            let r = choose|r: int| 0 <= r < active.len() && active[r] == x;
            let q = b + r;
            let l = after.len() - 1;
            assert(after[q] == (c, x, true));
            assert(after[b + (active.len() - 1)] == (c, active[active.len() - 1], true));
            assert(collects(after, a, x));
        }
    }
}

/// What `update` states of the sorted items holds of the items themselves.
proof fn lemma_sorted_same_items(
    given: Seq<(u64, u32, bool)>,
    s: Seq<(u64, u32, bool)>,
    entries: Seq<(u64, u32, bool)>,
)
    requires
        given.no_duplicates(),
        s.no_duplicates(),
        forall|t: (u64, u32, bool)| s.contains(t) <==> given.contains(t),
        forall|q: int| 0 <= q < entries.len() ==> named_in(s, s.len() as int, (#[trigger] entries[q]).1),
        (exists|i: int| 0 <= i < s.len() && #[trigger] s[i].2) ==> entries.len() > 0,
        forall|a: u64, x: u32, st: u64, en: u64|
            #![trigger collects(entries, a, x), range_of(s, x, st, en)]
            range_of(s, x, st, en) && st <= a < en ==> collects(entries, a, x),
    ensures
        forall|q: int| 0 <= q < entries.len() ==> named_in(given, given.len() as int, (#[trigger] entries[q]).1),
        (exists|i: int| 0 <= i < given.len() && #[trigger] given[i].2) ==> entries.len() > 0,
        forall|a: u64, x: u32, st: u64, en: u64|
            #![trigger collects(entries, a, x), range_of(given, x, st, en)]
            range_of(given, x, st, en) && st <= a < en ==> collects(entries, a, x),
{
    assert forall|q: int| 0 <= q < entries.len() implies named_in(given, given.len() as int, (#[trigger] entries[q]).1) by {
        assert(named_in(s, s.len() as int, entries[q].1));
        let i = choose|i: int| 0 <= i < s.len() && i < s.len() && #[trigger] s[i].1 == entries[q].1;
        assert(s.contains(s[i]));
        let j = choose|j: int| 0 <= j < given.len() && given[j] == s[i];
        assert(given[j].1 == entries[q].1);
    }
    if exists|i: int| 0 <= i < given.len() && #[trigger] given[i].2 {
        let i = choose|i: int| 0 <= i < given.len() && #[trigger] given[i].2;
        assert(given.contains(given[i]));
        let j = choose|j: int| 0 <= j < s.len() && s[j] == given[i];
        assert(s[j].2);
    }
    assert forall|a: u64, x: u32, st: u64, en: u64|
        range_of(given, x, st, en) && st <= a < en implies #[trigger] collects(entries, a, x) && #[trigger] range_of(
            given,
            x,
            st,
            en,
        ) by {
        assert(s.contains((st, x, true)));
        assert(s.contains((en, x, false)));
        assert forall|i: int| 0 <= i < s.len() && (#[trigger] s[i]).1 == x implies s[i] == (st, x, true)
            || s[i] == (en, x, false) by {
            assert(s.contains(s[i]));
            let j = choose|j: int| 0 <= j < given.len() && given[j] == s[i];
            assert(given[j].1 == x);
        }
        assert(range_of(s, x, st, en));
    }
}

} // verus!
