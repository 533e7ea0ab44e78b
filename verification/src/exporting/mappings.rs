//! Memory mappings of a process and the lookup of the mapping that holds an
//! address at a time.

use vstd::prelude::*;

use super::lookup::{AddressLookup, AddressLookupItem, collects, item_views, named_in, range_of};
use super::symbols::{ExportSymbol, SymbolEntry};
use crate::intern::InternedStrings;
use super::{ExportDevNode, KERNEL_START};

verus! {

/// A mapping of `start..=end` (virtual addresses) of a file at
/// `file_offset`, made at `time`.
pub struct ExportMapping {
    time: u64,
    filename_id: usize,
    start: u64,
    end: u64,
    file_offset: u64,
    anon: bool,
    id: usize,
    node: Option<ExportDevNode>,
    symbols: Vec<ExportSymbol>,
}

/// The file range `file_start..file_end` of a mapping as a virtual address
/// range, the file range clamped to the part the mapping holds; for an
/// anonymous or kernel mapping, the range itself.
pub open spec fn spec_file_to_va(
    start: u64,
    len: u64,
    file_offset: u64,
    anon_or_kernel: bool,
    file_start: u64,
    file_end: u64,
) -> Option<(u64, u64)> {
    let map_file_start = file_offset as int;
    let map_file_end = file_offset + len;
    if anon_or_kernel {
        Some((file_start, file_end))
    } else if file_end < map_file_start || file_start > map_file_end {
        None
    } else {
        let s = if file_start < map_file_start { map_file_start } else { file_start as int };
        let e = if file_end > map_file_end { map_file_end } else { file_end as int };
        Some(((s - map_file_start + start) as u64, (s - map_file_start + start + (e - s)) as u64))
    }
}

impl ExportMapping {
    pub closed spec fn spec_time(&self) -> u64 {
        self.time
    }

    pub closed spec fn spec_filename_id(&self) -> usize {
        self.filename_id
    }

    pub closed spec fn spec_start(&self) -> u64 {
        self.start
    }

    pub closed spec fn spec_end(&self) -> u64 {
        self.end
    }

    pub closed spec fn spec_file_offset(&self) -> u64 {
        self.file_offset
    }

    pub closed spec fn spec_anon(&self) -> bool {
        self.anon
    }

    pub closed spec fn spec_id(&self) -> usize {
        self.id
    }

    pub closed spec fn spec_node(&self) -> Option<(u64, u64)> {
        match self.node {
            Some(n) => Some(n@),
            None => None,
        }
    }

    pub closed spec fn spec_symbols(&self) -> Seq<ExportSymbol> {
        self.symbols@
    }

    /// Whether `ip` lies in `start..=end`.
    pub open spec fn spec_contains_ip(&self, ip: u64) -> bool {
        self.spec_start() <= ip <= self.spec_end()
    }

    pub fn new(
        time: u64,
        filename_id: usize,
        start: u64,
        end: u64,
        file_offset: u64,
        anon: bool,
        id: usize,
    ) -> (m: Self)
        ensures
            m.spec_time() == time,
            m.spec_filename_id() == filename_id,
            m.spec_start() == start,
            m.spec_end() == end,
            m.spec_file_offset() == file_offset,
            m.spec_anon() == anon,
            m.spec_id() == id,
            m.spec_node() is None,
            m.spec_symbols() == Seq::<ExportSymbol>::empty(),
    {
        Self { time, filename_id, start, end, file_offset, anon, id, node: None, symbols: Vec::new() }
    }

    /// A copy of the mapping with its symbols.
    pub fn copy(&self) -> (m: Self)
        ensures
            m.same_as(self),
    {
        let mut symbols: Vec<ExportSymbol> = Vec::new();
        let mut i: usize = 0;
        while i < self.symbols.len()
            invariant
                i <= self.symbols@.len(),
                symbols@ == self.symbols@.take(i as int),
            decreases self.symbols@.len() - i,
        {
            symbols.push(self.symbols[i]);
            i = i + 1;
            assert(symbols@ =~= self.symbols@.take(i as int));
        }
        assert(symbols@ =~= self.symbols@);
        let node = match &self.node {
            Some(n) => Some(*n),
            None => None,
        };
        Self {
            time: self.time,
            filename_id: self.filename_id,
            start: self.start,
            end: self.end,
            file_offset: self.file_offset,
            anon: self.anon,
            id: self.id,
            node,
            symbols,
        }
    }

    /// Whether two mappings hold the same values.
    pub open spec fn same_as(&self, other: &Self) -> bool {
        &&& self.spec_time() == other.spec_time()
        &&& self.spec_filename_id() == other.spec_filename_id()
        &&& self.spec_start() == other.spec_start()
        &&& self.spec_end() == other.spec_end()
        &&& self.spec_file_offset() == other.spec_file_offset()
        &&& self.spec_anon() == other.spec_anon()
        &&& self.spec_id() == other.spec_id()
        &&& self.spec_node() == other.spec_node()
        &&& self.spec_symbols() == other.spec_symbols()
    }

    pub fn set_node(&mut self, node: ExportDevNode)
        ensures
            final(self).spec_node() == Some(node@),
            final(self).spec_time() == old(self).spec_time(),
            final(self).spec_filename_id() == old(self).spec_filename_id(),
            final(self).spec_start() == old(self).spec_start(),
            final(self).spec_end() == old(self).spec_end(),
            final(self).spec_file_offset() == old(self).spec_file_offset(),
            final(self).spec_anon() == old(self).spec_anon(),
            final(self).spec_id() == old(self).spec_id(),
            final(self).spec_symbols() == old(self).spec_symbols(),
    {
        self.node = Some(node);
    }

    pub fn time(&self) -> (t: u64)
        ensures
            t == self.spec_time(),
    {
        self.time
    }

    pub fn filename_id(&self) -> (f: usize)
        ensures
            f == self.spec_filename_id(),
    {
        self.filename_id
    }

    pub fn start(&self) -> (s: u64)
        ensures
            s == self.spec_start(),
    {
        self.start
    }

    pub fn end(&self) -> (e: u64)
        ensures
            e == self.spec_end(),
    {
        self.end
    }

    /// The number of addresses after `start` up to `end`.
    pub fn len(&self) -> (n: u64)
        requires
            self.spec_start() <= self.spec_end(),
        ensures
            n == self.spec_end() - self.spec_start(),
    {
        self.end - self.start
    }

    pub fn file_offset(&self) -> (o: u64)
        ensures
            o == self.spec_file_offset(),
    {
        self.file_offset
    }

    pub fn anon(&self) -> (a: bool)
        ensures
            a == self.spec_anon(),
    {
        self.anon
    }

    pub fn node(&self) -> (n: Option<ExportDevNode>)
        ensures
            match n {
                Some(d) => self.spec_node() == Some(d@),
                None => self.spec_node() is None,
            },
    {
        match &self.node {
            Some(n) => Some(*n),
            None => None,
        }
    }

    pub fn id(&self) -> (i: usize)
        ensures
            i == self.spec_id(),
    {
        self.id
    }

    pub fn symbols(&self) -> (s: &Vec<ExportSymbol>)
        ensures
            s@ == self.spec_symbols(),
    {
        &self.symbols
    }

    pub fn symbols_mut(&mut self) -> (s: &mut Vec<ExportSymbol>)
        ensures
            s@ == old(self).spec_symbols(),
            final(self).spec_symbols() == final(s)@,
            final(self).spec_time() == old(self).spec_time(),
            final(self).spec_filename_id() == old(self).spec_filename_id(),
            final(self).spec_start() == old(self).spec_start(),
            final(self).spec_end() == old(self).spec_end(),
            final(self).spec_file_offset() == old(self).spec_file_offset(),
            final(self).spec_anon() == old(self).spec_anon(),
            final(self).spec_id() == old(self).spec_id(),
            final(self).spec_node() == old(self).spec_node(),
    {
        &mut self.symbols
    }

    pub fn add_symbol(&mut self, symbol: ExportSymbol)
        ensures
            final(self).spec_symbols() == old(self).spec_symbols().push(symbol),
            final(self).spec_time() == old(self).spec_time(),
            final(self).spec_filename_id() == old(self).spec_filename_id(),
            final(self).spec_start() == old(self).spec_start(),
            final(self).spec_end() == old(self).spec_end(),
            final(self).spec_file_offset() == old(self).spec_file_offset(),
            final(self).spec_anon() == old(self).spec_anon(),
            final(self).spec_id() == old(self).spec_id(),
            final(self).spec_node() == old(self).spec_node(),
    {
        self.symbols.push(symbol);
    }

    /// Whether `ip` lies in `start..=end`.
    pub fn contains_ip(&self, ip: u64) -> (b: bool)
        ensures
            b == self.spec_contains_ip(ip),
    {
        ip >= self.start && ip <= self.end
    }

    /// The file offset of `ip`: its distance from `start` plus the
    /// mapping's file offset.
    pub fn rva(&self, ip: u64) -> (r: u64)
        requires
            self.spec_start() <= ip,
            ip - self.spec_start() + self.spec_file_offset() <= u64::MAX,
        ensures
            r == ip - self.spec_start() + self.spec_file_offset(),
    {
        (ip - self.start) + self.file_offset
    }

    /// The device node of the mapped file; `0:0` when it has none.
    pub fn key(&self) -> (k: ExportDevNode)
        ensures
            k@ == match self.spec_node() {
                Some(n) => n,
                None => (0u64, 0u64),
            },
    {
        match &self.node {
            Some(node) => ExportDevNode::new(node.dev(), node.ino()),
            None => ExportDevNode::new(0, 0),
        }
    }

    /// Whether the clamped file range of `file_to_va_range` is ordered, so
    /// that its length can be taken.
    pub open spec fn file_range_ok(&self, file_start: u64, file_end: u64) -> bool {
        let map_file_start = self.spec_file_offset() as int;
        let map_file_end = self.spec_file_offset() + (self.spec_end() - self.spec_start());
        let s = if file_start < map_file_start { map_file_start } else { file_start as int };
        let e = if file_end > map_file_end { map_file_end } else { file_end as int };
        (self.spec_anon() || self.spec_start() >= KERNEL_START
            || file_end < map_file_start || file_start > map_file_end) || s <= e
    }

    /// The virtual address range of the file range `file_start..file_end`,
    /// clamped to what the mapping holds; `None` when the mapping holds
    /// none of it. An anonymous or kernel mapping gives the range back.
    pub fn file_to_va_range(&self, file_start: u64, file_end: u64) -> (r: Option<(u64, u64)>)
        requires
            self.spec_start() <= self.spec_end(),
            self.spec_file_offset() + (self.spec_end() - self.spec_start()) <= u64::MAX,
            self.file_range_ok(file_start, file_end),
        ensures
            r == spec_file_to_va(
                self.spec_start(),
                (self.spec_end() - self.spec_start()) as u64,
                self.spec_file_offset(),
                self.spec_anon() || self.spec_start() >= KERNEL_START,
                file_start,
                file_end,
            ),
    {
        let mut file_start = file_start;
        let mut file_end = file_end;
        let map_file_start = self.file_offset();
        let map_file_end = map_file_start + self.len();

        if self.anon() || self.start() >= KERNEL_START {
            return Some((file_start, file_end));
        }
        if file_end < map_file_start || file_start > map_file_end {
            return None;
        }
        if file_start < map_file_start {
            file_start = map_file_start;
        }
        if file_end > map_file_end {
            file_end = map_file_end;
        }
        let file_len = file_end - file_start;
        let file_offset = file_start - map_file_start;
        let va_offset_start = file_offset + self.start();
        let va_offset_end = va_offset_start + file_len;
        Some((va_offset_start, va_offset_end))
    }

    /// Whether the file range of every symbol can be taken to addresses.
    pub open spec fn symbols_fit(&self, symbols: Seq<SymbolEntry>) -> bool {
        forall|k: int| 0 <= k < symbols.len() ==> self.file_range_ok(
            (#[trigger] symbols[k]).spec_start(),
            symbols[k].spec_end(),
        )
    }

    /// The address range of a symbol entry when it holds one of `ips`.
    pub open spec fn symbol_match(&self, ips: Set<u64>, e: SymbolEntry) -> Option<(u64, u64)> {
        match spec_file_to_va(
            self.spec_start(),
            (self.spec_end() - self.spec_start()) as u64,
            self.spec_file_offset(),
            self.spec_anon() || self.spec_start() >= KERNEL_START,
            e.spec_start(),
            e.spec_end(),
        ) {
            Some((s, t)) => if range_has_address(ips, s, t) { Some((s, t)) } else { None },
            None => None,
        }
    }

    /// Name and address range of each of the first `n` entries that match,
    /// in order.
    pub open spec fn matching_symbols(&self, ips: Set<u64>, entries: Seq<SymbolEntry>, n: int) -> Seq<(Seq<char>, u64, u64)>
        decreases n,
    {
        if n <= 0 {
            Seq::empty()
        } else {
            let prev = self.matching_symbols(ips, entries, n - 1);
            match self.symbol_match(ips, entries[n - 1]) {
                Some((s, t)) => prev.push((entries[n - 1].spec_name(), s, t)),
                None => prev,
            }
        }
    }

    /// Adds, in order, each symbol whose file range maps to an address
    /// range holding one of `unique_ips` (its start, or an address after the
    /// start and before its end), named by the interned symbol name.
    /// `unique_ips` is left sorted.
    pub fn add_matching_symbols(
        &mut self,
        unique_ips: &mut Vec<u64>,
        symbols: &[SymbolEntry],
        strings: &mut InternedStrings,
    )
        requires
            old(self).spec_start() <= old(self).spec_end(),
            old(self).spec_file_offset() + (old(self).spec_end() - old(self).spec_start()) <= u64::MAX,
            old(self).symbols_fit(symbols@),
            old(strings).wf(),
        ensures
            final(strings).wf(),
            sorted_u64(final(unique_ips)@),
            final(unique_ips)@.to_multiset() == old(unique_ips)@.to_multiset(),
            final(self).spec_start() == old(self).spec_start(),
            final(self).spec_end() == old(self).spec_end(),
            final(self).spec_time() == old(self).spec_time(),
            final(self).spec_id() == old(self).spec_id(),
            final(self).spec_anon() == old(self).spec_anon(),
            final(self).spec_file_offset() == old(self).spec_file_offset(),
            final(self).spec_node() == old(self).spec_node(),
            final(self).spec_filename_id() == old(self).spec_filename_id(),
            final(strings)@.len() >= old(strings)@.len(),
            forall|i: int| 0 <= i < old(strings)@.len() ==> #[trigger] final(strings)@[i] == old(strings)@[i],
            final(self).spec_symbols().len() >= old(self).spec_symbols().len(),
            final(self).spec_symbols().subrange(0, old(self).spec_symbols().len() as int) == old(self).spec_symbols(),
            forall|j: int| old(self).spec_symbols().len() <= j < final(self).spec_symbols().len()
                ==> (#[trigger] final(self).spec_symbols()[j])@.0 < final(strings)@.len(),
            added_symbols(final(self).spec_symbols(), final(strings)@, old(self).spec_symbols().len() as int)
                == old(self).matching_symbols(old(unique_ips)@.to_set(), symbols@, symbols@.len() as int),
    {
        let ghost given = unique_ips@;
        sort_addresses(unique_ips);
        let ghost ips = unique_ips@;
        proof {
            broadcast use vstd::seq_lib::to_multiset_contains;
            assert(ips.to_set() =~= given.to_set()) by {
                assert forall|a: u64| ips.contains(a) <==> given.contains(a) by {
                    assert(ips.to_multiset().count(a) == given.to_multiset().count(a));
                }
            }
        }
        let ghost base = self.symbols@.len();
        let mut k: usize = 0;
        while k < symbols.len()
            invariant
                ips == unique_ips@,
                sorted_u64(ips),
                ips.to_set() == old(unique_ips)@.to_set(),
                k <= symbols@.len(),
                strings.wf(),
                self.spec_start() == old(self).spec_start(),
                self.spec_end() == old(self).spec_end(),
                self.spec_time() == old(self).spec_time(),
                self.spec_id() == old(self).spec_id(),
                self.spec_anon() == old(self).spec_anon(),
                self.spec_file_offset() == old(self).spec_file_offset(),
                self.spec_node() == old(self).spec_node(),
                self.spec_filename_id() == old(self).spec_filename_id(),
                self.spec_start() <= self.spec_end(),
                self.spec_file_offset() + (self.spec_end() - self.spec_start()) <= u64::MAX,
                self.symbols_fit(symbols@),
                base == old(self).spec_symbols().len(),
                self.spec_symbols().len() >= base,
                self.spec_symbols().subrange(0, base as int) == old(self).spec_symbols(),
                strings@.len() >= old(strings)@.len(),
                forall|i: int| 0 <= i < old(strings)@.len() ==> #[trigger] strings@[i] == old(strings)@[i],
                forall|j: int| base <= j < self.spec_symbols().len() ==> (#[trigger] self.spec_symbols()[j])@.0 < strings@.len(),
                added_symbols(self.spec_symbols(), strings@, base as int) == old(self).matching_symbols(ips.to_set(), symbols@, k as int),
            decreases symbols@.len() - k,
        {
            let entry = &symbols[k];
            assert(self.file_range_ok(symbols@[k as int].spec_start(), symbols@[k as int].spec_end()));
            let ghost added_before = added_symbols(self.spec_symbols(), strings@, base as int);
            match self.file_to_va_range(entry.start(), entry.end()) {
                Some((start_ip, end_ip)) => {
                    let p = lower_bound(unique_ips, start_ip);
                    let mut add_sym = false;
                    if p < unique_ips.len() {
                        let addr = unique_ips[p];
                        if addr == start_ip {
                            add_sym = true;
                        } else if addr < end_ip {
                            add_sym = true;
                        }
                    }
                    proof {
                        if add_sym {
                            assert(ips.to_set().contains(ips[p as int]));
                            assert(range_has_address(ips.to_set(), start_ip, end_ip));
                        } else {
                            assert forall|a: u64| #[trigger] ips.to_set().contains(a) implies !(start_ip <= a < end_ip) by {
                                let i = choose|i: int| 0 <= i < ips.len() && ips[i] == a;
                                if start_ip <= a {
                                    assert(i >= p);
                                    assert(ips[p as int] <= ips[i]);
                                }
                            }
                            assert(!range_has_address(ips.to_set(), start_ip, end_ip));
                        }
                    }
                    if add_sym {
                        let ghost prev_strings = strings@;
                        let name_id = strings.to_id(entry.name());
                        let symbol = ExportSymbol::new(name_id, start_ip, end_ip);
                        let ghost before = self.symbols@;
                        self.add_symbol(symbol);
                        proof {
                            assert(name_id < strings@.len() && strings@[name_id as int] == symbols@[k as int].spec_name());
                            assert forall|i: int| 0 <= i < prev_strings.len() implies #[trigger] strings@[i] == prev_strings[i] by {}
                            assert forall|j: int| base <= j < self.spec_symbols().len() implies (#[trigger] self.spec_symbols()[j])@.0 < strings@.len() by {
                                if j < before.len() {
                                    assert(self.spec_symbols()[j] == before[j]);
                                }
                            }
                            assert(added_symbols(self.spec_symbols(), strings@, base as int)
                                =~= added_before.push((symbols@[k as int].spec_name(), start_ip, end_ip))) by {
                                assert forall|j: int| 0 <= j < added_before.len() implies
                                    #[trigger] added_symbols(self.spec_symbols(), strings@, base as int)[j] == added_before[j] by {
                                    assert(self.spec_symbols()[base + j] == before[base + j]);
                                    assert(before[base + j]@.0 < prev_strings.len());
                                }
                            }
                            assert(self.spec_symbols().subrange(0, base as int) =~= old(self).spec_symbols());
                        }
                    }
                },
                None => {},
            }
            k = k + 1;
        }
    }
}

/// Name, start and end of each symbol from index `from` on, the name read
/// from the interned strings.
pub open spec fn added_symbols(syms: Seq<ExportSymbol>, strings: Seq<Seq<char>>, from: int) -> Seq<(Seq<char>, u64, u64)> {
    Seq::new(
        (syms.len() - from) as nat,
        |j: int| (strings[syms[from + j]@.0 as int], syms[from + j]@.1, syms[from + j]@.2),
    )
}

/// Whether a sequence of addresses is in ascending order.
pub open spec fn sorted_u64(s: Seq<u64>) -> bool {
    forall|i: int, j: int| 0 <= i <= j < s.len() ==> #[trigger] s[i] <= #[trigger] s[j]
}

/// Sorts addresses in ascending order.
pub fn sort_addresses(v: &mut Vec<u64>)
    ensures
        sorted_u64(final(v)@),
        final(v)@.to_multiset() == old(v)@.to_multiset(),
{
    broadcast use vstd::seq_lib::group_to_multiset_ensures;
    let mut sorted: Vec<u64> = Vec::new();
    let mut k: usize = 0;
    assert(v@.take(0) =~= Seq::<u64>::empty());
    while k < v.len()
        invariant
            k <= v@.len(),
            sorted_u64(sorted@),
            sorted@.to_multiset() == v@.take(k as int).to_multiset(),
        decreases v@.len() - k,
    {
        let x = v[k];
        let mut pos: usize = 0;
        while pos < sorted.len() && sorted[pos] <= x
            invariant
                pos <= sorted@.len(),
                forall|j: int| 0 <= j < pos ==> sorted@[j] <= x,
            decreases sorted@.len() - pos,
        {
            pos = pos + 1;
        }
        let ghost old_sorted = sorted@;
        sorted.insert(pos, x);
        proof {
            assert(v@.take(k + 1) =~= v@.take(k as int).push(x));
            vstd::seq_lib::to_multiset_insert(old_sorted, pos as int, x);
            vstd::seq_lib::to_multiset_build(v@.take(k as int), x);
            assert forall|i: int, j: int| 0 <= i <= j < sorted@.len() implies #[trigger] sorted@[i] <= #[trigger] sorted@[j] by {
                if i < pos && j > pos {
                    assert(old_sorted[i] <= old_sorted[j - 1]);
                } else if i == pos && j > pos {
                    assert(old_sorted[j - 1] >= old_sorted[pos as int]);
                } else if i > pos {
                    assert(old_sorted[i - 1] <= old_sorted[j - 1]);
                } else if j < pos {
                    assert(old_sorted[i] <= old_sorted[j]);
                }
            }
        }
        k = k + 1;
    }
    assert(v@.take(v@.len() as int) =~= v@);
    *v = sorted;
}

/// The number of sorted addresses below `value`.
fn lower_bound(v: &Vec<u64>, value: u64) -> (p: usize)
    requires
        sorted_u64(v@),
    ensures
        p <= v@.len(),
        forall|q: int| 0 <= q < p ==> v@[q] < value,
        forall|q: int| p <= q < v@.len() ==> v@[q] >= value,
{
    let mut lo: usize = 0;
    let mut hi: usize = v.len();
    while lo < hi
        invariant
            sorted_u64(v@),
            lo <= hi <= v@.len(),
            forall|q: int| 0 <= q < lo ==> v@[q] < value,
            forall|q: int| hi <= q < v@.len() ==> v@[q] >= value,
        decreases hi - lo,
    {
        let mid = lo + (hi - lo) / 2;
        if v[mid] < value {
            assert forall|q: int| 0 <= q < mid + 1 implies v@[q] < value by {
                assert(v@[q] <= v@[mid as int]);
            }
            lo = mid + 1;
        } else {
            assert forall|q: int| mid <= q < v@.len() implies v@[q] >= value by {
                assert(v@[mid as int] <= v@[q]);
            }
            hi = mid;
        }
    }
    lo
}

/// Whether a symbol range `start..end` holds a sampled address: `start`
/// itself, or an address after it and before `end`.
pub open spec fn range_has_address(ips: Set<u64>, start: u64, end: u64) -> bool {
    ips.contains(start) || exists|a: u64| #[trigger] ips.contains(a) && start < a < end
}

/// Whether mapping `i` is a candidate for `address` at `time`: it holds the
/// address and was made at or before the time.
pub open spec fn is_candidate(ms: Seq<ExportMapping>, i: int, address: u64, time: u64) -> bool {
    0 <= i < ms.len() && ms[i].spec_contains_ip(address) && ms[i].spec_time() <= time
}

/// The index of the latest candidate among the first `n` mappings (the
/// first of equally late ones), as a scan in order finds it.
pub open spec fn best_candidate(ms: Seq<ExportMapping>, n: int, address: u64, time: u64) -> Option<int>
    decreases n,
{
    if n <= 0 {
        None
    } else {
        let b = best_candidate(ms, n - 1, address, time);
        if is_candidate(ms, n - 1, address, time) {
            match b {
                Some(j) => if ms[n - 1].spec_time() > ms[j].spec_time() { Some(n - 1) } else { b },
                None => Some(n - 1),
            }
        } else {
            b
        }
    }
}

/// The scan finds a candidate exactly when there is one, and it is as late
/// as any candidate.
pub proof fn lemma_best_candidate(ms: Seq<ExportMapping>, n: int, address: u64, time: u64)
    requires
        0 <= n <= ms.len(),
    ensures
        best_candidate(ms, n, address, time) is None <==> forall|j: int| 0 <= j < n ==> !is_candidate(
            ms,
            j,
            address,
            time,
        ),
        best_candidate(ms, n, address, time) matches Some(b) ==> 0 <= b < n && is_candidate(ms, b, address, time)
            && forall|j: int| 0 <= j < n && #[trigger] is_candidate(ms, j, address, time) ==> ms[j].spec_time()
                <= ms[b].spec_time(),
    decreases n,
{
    if n > 0 {
        lemma_best_candidate(ms, n - 1, address, time);
    }
}

/// With many mappings `find` uses the lookup, with few it scans them. When
/// no candidate ends at the address, they agree on how late the mapping
/// found is: a mapping the lookup may give (a candidate as late as any
/// other) is as late as the one the scan gives.
pub proof fn lemma_lookup_agrees_with_scan(ms: Seq<ExportMapping>, address: u64, time: u64, i: int)
    requires
        forall|j: int| #[trigger] is_candidate(ms, j, address, time) ==> ms[j].spec_end() != address,
        is_candidate(ms, i, address, time),
        forall|j: int| #[trigger] is_candidate(ms, j, address, time) && ms[j].spec_end() != address
            ==> ms[j].spec_time() <= ms[i].spec_time(),
    ensures
        best_candidate(ms, ms.len() as int, address, time) matches Some(b) && ms[b].spec_time()
            == ms[i].spec_time(),
{
    lemma_best_candidate(ms, ms.len() as int, address, time);
    let b = best_candidate(ms, ms.len() as int, address, time)->0;
    assert(is_candidate(ms, b, address, time));
}

/// The boundary items of the mappings, in order: for mapping `j`, its
/// start opening range `j`, then its end closing it.
pub open spec fn lookup_items(ms: Seq<ExportMapping>) -> Seq<(u64, u32, bool)>
    decreases ms.len(),
{
    if ms.len() == 0 {
        Seq::empty()
    } else {
        let n = ms.len() - 1;
        lookup_items(ms.take(n)).push((ms[n].spec_start(), n as u32, true)).push(
            (ms[n].spec_end(), n as u32, false),
        )
    }
}

/// The items of a prefix one mapping longer.
proof fn lemma_lookup_items_push(ms: Seq<ExportMapping>, i: int)
    requires
        0 <= i < ms.len(),
    ensures
        lookup_items(ms.take(i + 1)) == lookup_items(ms.take(i)).push((ms[i].spec_start(), i as u32, true)).push(
            (ms[i].spec_end(), i as u32, false),
        ),
{
    assert(ms.take(i + 1).take(i) =~= ms.take(i));
}

/// Item `p` is the start (even `p`) or end (odd `p`) of mapping `p / 2`.
proof fn lemma_lookup_items_at(ms: Seq<ExportMapping>)
    ensures
        lookup_items(ms).len() == 2 * ms.len(),
        forall|p: int| 0 <= p < 2 * ms.len() ==> #[trigger] lookup_items(ms)[p] == (if p % 2 == 0 {
            (ms[p / 2].spec_start(), (p / 2) as u32, true)
        } else {
            (ms[p / 2].spec_end(), (p / 2) as u32, false)
        }),
    decreases ms.len(),
{
    if ms.len() > 0 {
        let n = ms.len() - 1;
        lemma_lookup_items_at(ms.take(n));
        assert forall|p: int| 0 <= p < 2 * ms.len() implies #[trigger] lookup_items(ms)[p] == (if p % 2 == 0 {
            (ms[p / 2].spec_start(), (p / 2) as u32, true)
        } else {
            (ms[p / 2].spec_end(), (p / 2) as u32, false)
        }) by {
            if p < 2 * n {
                assert(lookup_items(ms)[p] == lookup_items(ms.take(n))[p]);
                assert(ms.take(n)[p / 2] == ms[p / 2]);
            }
        }
    }
}

/// The items of at most 2^32 mappings hold each value once, and give each
/// mapping its range.
proof fn lemma_lookup_items_mapping(ms: Seq<ExportMapping>, j: int)
    requires
        ms.len() <= u32::MAX + 1,
        0 <= j < ms.len(),
    ensures
        lookup_items(ms).no_duplicates(),
        range_of(lookup_items(ms), j as u32, ms[j].spec_start(), ms[j].spec_end()),
{
    lemma_lookup_items_no_duplicates(ms);
    lemma_lookup_items_at(ms);
    let items = lookup_items(ms);
    assert(items[2 * j] == (ms[j].spec_start(), j as u32, true));
    assert(items[2 * j + 1] == (ms[j].spec_end(), j as u32, false));
    assert forall|i: int| 0 <= i < items.len() && (#[trigger] items[i]).1 == j as u32 implies items[i] == (
        ms[j].spec_start(),
        j as u32,
        true,
    ) || items[i] == (ms[j].spec_end(), j as u32, false) by {
        assert(i / 2 < ms.len());
        assert((i / 2) as u32 == j as u32);
        assert(i / 2 == j);
    }
}

proof fn lemma_lookup_items_no_duplicates(ms: Seq<ExportMapping>)
    requires
        ms.len() <= u32::MAX + 1,
    ensures
        lookup_items(ms).no_duplicates(),
        forall|p: int| 0 <= p < lookup_items(ms).len() ==> (#[trigger] lookup_items(ms)[p]).1 < ms.len(),
{
    lemma_lookup_items_at(ms);
    let items = lookup_items(ms);
    assert forall|p: int, q: int| 0 <= p < items.len() && 0 <= q < items.len() && p != q implies items[p]
        != items[q] by {
        if p % 2 == q % 2 {
            assert(p / 2 != q / 2);
        }
    }
}

/// The time bound a `find` uses: the given time, else no bound.
pub open spec fn time_bound(time: Option<u64>) -> u64 {
    match time {
        Some(t) => t,
        None => u64::MAX,
    }
}

/// The mappings of a process, with an address lookup that is built on
/// demand when there are many of them.
pub struct ExportMappingLookup {
    lookup: AddressLookup,
    mappings: Vec<ExportMapping>,
    min_lookup: usize,
}

impl Default for ExportMappingLookup {
    fn default() -> (l: Self)
        ensures
            l.wf(),
            l.spec_mappings() == Seq::<ExportMapping>::empty(),
            l.spec_min_lookup() == 16,
    {
        Self { lookup: AddressLookup::new(), mappings: Vec::new(), min_lookup: 16 }
    }
}

impl Clone for ExportMappingLookup {
    /// A copy of the mappings and the lookup size, with no lookup built.
    fn clone(&self) -> (c: Self)
        ensures
            c.wf(),
            c.spec_mappings().len() == self.spec_mappings().len(),
            forall|i: int| 0 <= i < c.spec_mappings().len()
                ==> #[trigger] c.spec_mappings()[i].same_as(&self.spec_mappings()[i]),
            c.spec_min_lookup() == self.spec_min_lookup(),
    {
        let mut mappings: Vec<ExportMapping> = Vec::new();
        let mut i: usize = 0;
        while i < self.mappings.len()
            invariant
                i <= self.mappings@.len(),
                mappings@.len() == i,
                forall|j: int| 0 <= j < i ==> #[trigger] mappings@[j].same_as(&self.mappings@[j]),
            decreases self.mappings@.len() - i,
        {
            mappings.push(self.mappings[i].copy());
            i = i + 1;
        }
        Self { lookup: AddressLookup::new(), mappings, min_lookup: self.min_lookup }
    }
}

impl ExportMappingLookup {
    pub closed spec fn spec_mappings(&self) -> Seq<ExportMapping> {
        self.mappings@
    }

    pub closed spec fn spec_min_lookup(&self) -> usize {
        self.min_lookup
    }

    /// The lookup, when built, describes the current mappings.
    pub closed spec fn wf(&self) -> bool {
        self.lookup.wf()
            && (!self.lookup.spec_is_empty() ==> self.lookup.built_from(lookup_items(self.mappings@)))
    }

    pub fn set_lookup_min_size(&mut self, min_lookup: usize)
        requires
            old(self).wf(),
        ensures
            final(self).wf(),
            final(self).spec_min_lookup() == min_lookup,
            final(self).spec_mappings() == old(self).spec_mappings(),
    {
        self.min_lookup = min_lookup;
    }

    /// The mappings, to change; the lookup is dropped, to be built again.
    pub fn mappings_mut(&mut self) -> (m: &mut Vec<ExportMapping>)
        requires
            old(self).wf(),
        ensures
            m@ == old(self).spec_mappings(),
            final(self).spec_mappings() == final(m)@,
            final(self).spec_min_lookup() == old(self).spec_min_lookup(),
            final(self).wf(),
    {
        self.lookup.clear();
        &mut self.mappings
    }

    pub fn mappings(&self) -> (m: &Vec<ExportMapping>)
        ensures
            m@ == self.spec_mappings(),
    {
        &self.mappings
    }

    fn build_lookup(&mut self)
        requires
            old(self).wf(),
            old(self).spec_mappings().len() <= u32::MAX,
        ensures
            final(self).wf(),
            final(self).spec_mappings() == old(self).spec_mappings(),
            final(self).spec_min_lookup() == old(self).spec_min_lookup(),
            final(self).lookup.built_from(lookup_items(final(self).spec_mappings())),
    {
        let mut items: Vec<AddressLookupItem> = Vec::new();
        let mut i: usize = 0;
        while i < self.mappings.len()
            invariant
                i <= self.mappings@.len(),
                self.mappings@.len() <= u32::MAX,
                item_views(items@) == lookup_items(self.mappings@.take(i as int)),
            decreases self.mappings@.len() - i,
        {
            let index = i as u32;
            let m = &self.mappings[i];
            let ghost before = item_views(items@);
            let first = AddressLookupItem::new(m.start(), index, true);
            let second = AddressLookupItem::new(m.end(), index, false);
            items.push(first);
            items.push(second);
            proof {
                lemma_lookup_items_push(self.mappings@, i as int);
                assert(item_views(items@) =~= before.push(first@).push(second@));
            }
            i = i + 1;
        }
        assert(self.mappings@.take(self.mappings@.len() as int) =~= self.mappings@);
        proof {
            lemma_lookup_items_no_duplicates(self.mappings@);
        }
        self.lookup.update(&mut items);
    }

    /// The latest mapping (made at or before `time`, when given) that holds
    /// `address`. With fewer than the lookup size of mappings they are
    /// scanned in order, and the first of equally late ones is found. With
    /// more, the lookup is used (and built first when it is not): it finds
    /// a candidate as late as any candidate that does not end at `address`.
    pub fn find(&mut self, address: u64, time: Option<u64>) -> (r: Option<&ExportMapping>)
        requires
            old(self).wf(),
            old(self).spec_mappings().len() <= u32::MAX,
        ensures
            final(self).wf(),
            final(self).spec_mappings() == old(self).spec_mappings(),
            final(self).spec_min_lookup() == old(self).spec_min_lookup(),
            ({
                let ms = old(self).spec_mappings();
                let t = time_bound(time);
                if ms.len() < old(self).spec_min_lookup() {
                    match best_candidate(ms, ms.len() as int, address, t) {
                        Some(i) => r == Some(&ms[i]),
                        None => r is None,
                    }
                } else {
                    &&& r matches Some(m) ==> exists|i: int| is_candidate(ms, i, address, t) && *m == ms[i]
                        && (forall|j: int| #[trigger] is_candidate(ms, j, address, t) && ms[j].spec_end() != address
                            ==> ms[j].spec_time() <= ms[i].spec_time())
                    &&& r is None ==> forall|j: int| #[trigger] is_candidate(ms, j, address, t)
                        ==> ms[j].spec_end() == address
                }
            }),
    {
        let t = match time {
            Some(t) => t,
            None => u64::MAX,
        };
        if self.mappings.len() >= self.min_lookup {
            if self.lookup.is_empty() {
                self.build_lookup();
            }
            self.find_by_lookup(address, t)
        } else {
            self.find_by_scan(address, t)
        }
    }

    fn find_by_scan(&self, address: u64, t: u64) -> (r: Option<&ExportMapping>)
        ensures
            match best_candidate(self.mappings@, self.mappings@.len() as int, address, t) {
                Some(i) => r == Some(&self.mappings@[i]),
                None => r is None,
            },
    {
        let mut best: Option<usize> = None;
        let mut i: usize = 0;
        while i < self.mappings.len()
            invariant
                i <= self.mappings@.len(),
                best == (match best_candidate(self.mappings@, i as int, address, t) {
                    Some(j) => Some(j as usize),
                    None => None::<usize>,
                }),
                forall|j: int| best_candidate(self.mappings@, i as int, address, t) == Some(j) ==> 0 <= j < i,
            decreases self.mappings@.len() - i,
        {
            let map = &self.mappings[i];
            if map.contains_ip(address) && map.time() <= t {
                match best {
                    Some(b) => {
                        if map.time() > self.mappings[b].time() {
                            best = Some(i);
                        }
                    },
                    None => {
                        best = Some(i);
                    },
                }
            }
            i = i + 1;
        }
        match best {
            Some(b) => Some(&self.mappings[b]),
            None => None,
        }
    }

    fn find_by_lookup(&mut self, address: u64, t: u64) -> (r: Option<&ExportMapping>)
        requires
            old(self).wf(),
            old(self).spec_mappings().len() <= u32::MAX,
            old(self).lookup.built_from(lookup_items(old(self).spec_mappings())),
        ensures
            final(self).wf(),
            final(self).spec_mappings() == old(self).spec_mappings(),
            final(self).spec_min_lookup() == old(self).spec_min_lookup(),
            ({
                let ms = old(self).spec_mappings();
                &&& r matches Some(m) ==> exists|i: int| is_candidate(ms, i, address, t) && *m == ms[i]
                    && (forall|j: int| #[trigger] is_candidate(ms, j, address, t) && ms[j].spec_end() != address
                        ==> ms[j].spec_time() <= ms[i].spec_time())
                &&& r is None ==> forall|j: int| #[trigger] is_candidate(ms, j, address, t)
                    ==> ms[j].spec_end() == address
            }),
    {
        if self.mappings.len() == 0 {
            return None;
        }
        let ghost ms = self.mappings@;
        let ghost items = lookup_items(ms);
        let ghost old_lookup = self.lookup;
        proof {
            lemma_lookup_items_at(ms);
            assert(items[0].2);
            self.lookup.lemma_built_nonempty(items, 0);
            assert forall|j: int| #[trigger] is_candidate(ms, j, address, t) && ms[j].spec_end() != address
                implies collects(old_lookup.entries(), address, j as u32) by {
                lemma_lookup_items_mapping(ms, j);
                old_lookup.lemma_find_complete(items, address, j as u32, ms[j].spec_start(), ms[j].spec_end());
            }
        }
        let found = self.lookup.find(address);
        proof {
            assert forall|q: int| 0 <= q < found@.len() implies (found@[q] as int) < ms.len() by {
                let ent = old_lookup.entries();
                assert(named_in(ent, ent.len() as int, found@[q]));
                let e = choose|e: int| 0 <= e < ent.len() && e < ent.len() && #[trigger] ent[e].1 == found@[q];
                old_lookup.lemma_entry_from_items(items, e);
                lemma_lookup_items_no_duplicates(ms);
                let i = choose|i: int| 0 <= i < items.len() && i < items.len() && #[trigger] items[i].1 == ent[e].1;
                assert(items[i].1 < ms.len());
            }
            assert forall|j: int| #[trigger] is_candidate(ms, j, address, t) && ms[j].spec_end() != address
                implies found@.contains(j as u32) by {
                assert(collects(old_lookup.entries(), address, j as u32));
            }
        }
        let mut best: Option<usize> = None;
        let mut k: usize = 0;
        while k < found.len()
            invariant
                k <= found@.len(),
                ms == self.mappings@,
                forall|q: int| 0 <= q < found@.len() ==> (found@[q] as int) < ms.len(),
                best matches Some(b) ==> is_candidate(ms, b as int, address, t),
                best matches Some(b) ==> forall|q: int| 0 <= q < k && is_candidate(ms, found@[q] as int, address, t)
                    ==> ms[found@[q] as int].spec_time() <= ms[b as int].spec_time(),
                best is None ==> forall|q: int| 0 <= q < k ==> !is_candidate(ms, found@[q] as int, address, t),
            decreases found@.len() - k,
        {
            let index = found[k] as usize;
            let map = &self.mappings[index];
            if map.contains_ip(address) && map.time() <= t {
                match best {
                    Some(b) => {
                        if map.time() > self.mappings[b].time() {
                            best = Some(index);
                        }
                    },
                    None => {
                        best = Some(index);
                    },
                }
            }
            k = k + 1;
        }
        match best {
            Some(b) => Some(&self.mappings[b]),
            None => None,
        }
    }
}

} // verus!
