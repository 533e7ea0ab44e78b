//! The provider list that TDH gives: a header holding the provider count,
//! then one 24-byte entry per provider (GUID, schema source, offset of the
//! provider's UTF-16 name in the buffer).

use std::ops::ControlFlow;

use vstd::prelude::*;

use super::{read_utf16z, utf16_decode_lossy, utf16z_units, RegisteredProvider};
use crate::event::{read_u16_le, read_u32_le, u16_from_le_seq, u32_from_le_seq};
use crate::guid::Guid;

verus! {

/// The size of the list header with its first entry.
pub const PROVIDER_ENUMERATION_INFO_SIZE: usize = 32;

/// The size of one provider entry.
pub const TRACE_PROVIDER_INFO_SIZE: usize = 24;

/// The offset of the first provider entry.
pub const PROVIDER_ARRAY_OFFSET: usize = 8;

/// The lower-case form of a string, as `str::to_lowercase` gives it.
pub uninterp spec fn lowercase_of(s: Seq<char>) -> Seq<char>;

/// Calls `str::to_lowercase`. Trusted: the result is the lower-case form
/// of `s`, named `lowercase_of`; nothing more is stated of it.
#[verifier::external_body]
fn str_to_lowercase(s: &str) -> (r: String)
    ensures
        r@ == lowercase_of(s@),
{
    s.to_lowercase()
}

/// Whether `g` is the GUID laid out little-endian in the 16 bytes `s`.
pub open spec fn is_guid_of_bytes(g: Guid, s: Seq<u8>) -> bool {
    &&& g.data1 == u32_from_le_seq(s.subrange(0, 4))
    &&& g.data2 == u16_from_le_seq(s.subrange(4, 6))
    &&& g.data3 == u16_from_le_seq(s.subrange(6, 8))
    &&& g.data4@ == s.subrange(8, 16)
}

/// The GUID laid out little-endian in the first 16 bytes of `s`.
pub fn guid_from_le_bytes(s: &[u8]) -> (g: Guid)
    requires
        s@.len() >= 16,
    ensures
        is_guid_of_bytes(g, s@.subrange(0, 16)),
{
    let d1 = read_u32_le(vstd::slice::slice_subrange(s, 0, 4));
    let d2 = read_u16_le(vstd::slice::slice_subrange(s, 4, 6));
    let d3 = read_u16_le(vstd::slice::slice_subrange(s, 6, 8));
    let data4 = [s[8], s[9], s[10], s[11], s[12], s[13], s[14], s[15]];
    let g = Guid { data1: d1, data2: d2, data3: d3, data4 };
    assert(g.data4@ =~= s@.subrange(0, 16).subrange(8, 16));
    assert(s@.subrange(0, 16).subrange(0, 4) =~= s@.subrange(0, 4));
    assert(s@.subrange(0, 16).subrange(4, 6) =~= s@.subrange(4, 6));
    assert(s@.subrange(0, 16).subrange(6, 8) =~= s@.subrange(6, 8));
    g
}

/// The number of entries the list holds: its count, bounded by the entries
/// that fit in the buffer; none when the buffer is smaller than a header.
pub open spec fn entry_count(b: Seq<u8>) -> int {
    if b.len() < PROVIDER_ENUMERATION_INFO_SIZE {
        0
    } else {
        let n = u32_from_le_seq(b.subrange(0, 4)) as int;
        let fit = (b.len() - PROVIDER_ARRAY_OFFSET) / TRACE_PROVIDER_INFO_SIZE as int;
        if n < fit { n } else { fit }
    }
}

/// The offset of entry `i`.
pub open spec fn entry_offset(i: int) -> int {
    PROVIDER_ARRAY_OFFSET + i * TRACE_PROVIDER_INFO_SIZE
}

/// The schema source of entry `i`.
pub open spec fn entry_schema_source(b: Seq<u8>, i: int) -> u32 {
    u32_from_le_seq(b.subrange(entry_offset(i) + 16, entry_offset(i) + 20))
}

/// The name of entry `i`: the UTF-16 string at its name offset, when the
/// offset is inside the buffer (not 0) and the string is not empty.
pub open spec fn entry_name(b: Seq<u8>, i: int) -> Option<Seq<char>> {
    let off = u32_from_le_seq(b.subrange(entry_offset(i) + 20, entry_offset(i) + 24)) as int;
    if off == 0 || off + 1 >= b.len() {
        None
    } else {
        let name = utf16_decode_lossy(utf16z_units(b.skip(off)));
        if name.len() == 0 { None } else { Some(name) }
    }
}

/// The indices of the first `k` entries that have a name.
pub open spec fn named_entries(b: Seq<u8>, k: int) -> Seq<int>
    decreases k,
{
    if k <= 0 {
        Seq::empty()
    } else if entry_name(b, k - 1) is Some {
        named_entries(b, k - 1).push(k - 1)
    } else {
        named_entries(b, k - 1)
    }
}

/// Whether a listed provider is entry `i` of the buffer: its lower-case
/// name, GUID and schema source.
pub open spec fn is_entry(b: Seq<u8>, i: int, p: (Seq<char>, RegisteredProvider)) -> bool {
    &&& p.0 == lowercase_of(entry_name(b, i)->0)
    &&& is_guid_of_bytes(p.1.guid, b.subrange(entry_offset(i), entry_offset(i) + 16))
    &&& p.1.schema_source == entry_schema_source(b, i)
}

/// The providers of a TDH provider list that have a name, in order, each
/// with its lower-cased name.
pub fn providers_in_buffer(bytes: &[u8]) -> (list: Vec<(String, RegisteredProvider)>)
    ensures
        list@.len() == named_entries(bytes@, entry_count(bytes@)).len(),
        forall|k: int| 0 <= k < list@.len() ==> #[trigger] is_entry(
            bytes@,
            named_entries(bytes@, entry_count(bytes@))[k],
            (list@[k].0@, list@[k].1),
        ),
{
    let mut list: Vec<(String, RegisteredProvider)> = Vec::new();
    if bytes.len() < PROVIDER_ENUMERATION_INFO_SIZE {
        return list;
    }
    let max_entries = (bytes.len() - PROVIDER_ARRAY_OFFSET) / TRACE_PROVIDER_INFO_SIZE;
    let number = read_u32_le(vstd::slice::slice_subrange(bytes, 0, 4)) as usize;
    let count = if number < max_entries { number } else { max_entries };
    assert(count == entry_count(bytes@));
    let mut i: usize = 0;
    while i < count
        invariant
            count == entry_count(bytes@),
            count <= max_entries,
            max_entries == (bytes@.len() - PROVIDER_ARRAY_OFFSET) / TRACE_PROVIDER_INFO_SIZE as int,
            bytes@.len() >= PROVIDER_ENUMERATION_INFO_SIZE,
            i <= count,
            list@.len() == named_entries(bytes@, i as int).len(),
            forall|k: int| 0 <= k < list@.len() ==> #[trigger] is_entry(
                bytes@,
                named_entries(bytes@, i as int)[k],
                (list@[k].0@, list@[k].1),
            ),
        decreases count - i,
    {
        let len = bytes.len();
        assert(8 + i * 24 + 24 <= len) by (nonlinear_arith)
            requires
                i < count,
                count <= max_entries,
                max_entries == (len - 8) / 24,
                len >= 32,
        ;
        let entry_offset = PROVIDER_ARRAY_OFFSET + i * TRACE_PROVIDER_INFO_SIZE;
        let entry = vstd::slice::slice_subrange(bytes, entry_offset, entry_offset + TRACE_PROVIDER_INFO_SIZE);
        let name_offset = read_u32_le(vstd::slice::slice_subrange(entry, 20, 24)) as usize;
        let schema_source = read_u32_le(vstd::slice::slice_subrange(entry, 16, 20));
        proof {
            assert(entry@.subrange(20, 24) =~= bytes@.subrange(entry_offset + 20, entry_offset + 24));
            assert(entry@.subrange(16, 20) =~= bytes@.subrange(entry_offset + 16, entry_offset + 20));
            assert(entry@.subrange(0, 16) =~= bytes@.subrange(entry_offset as int, entry_offset + 16));
        }
        let ghost before = list@;
        if name_offset != 0 && name_offset < bytes.len() {
            match read_utf16z(bytes, name_offset) {
                Some(name) => {
                    if name.unicode_len() > 0 {
                        let provider = RegisteredProvider {
                            guid: guid_from_le_bytes(entry),
                            schema_source,
                        };
                        let lower = str_to_lowercase(name.as_str());
                        list.push((lower, provider));
                        proof {
                            assert(named_entries(bytes@, i + 1) == named_entries(bytes@, i as int).push(i as int));
                            assert forall|k: int| 0 <= k < list@.len() implies #[trigger] is_entry(
                                bytes@,
                                named_entries(bytes@, i + 1)[k],
                                (list@[k].0@, list@[k].1),
                            ) by {
                                if k < before.len() {
                                    assert(list@[k] == before[k]);
                                }
                            }
                        }
                    }
                },
                None => {},
            }
        }
        i = i + 1;
    }
    list
}

/// Whether `f` may answer with `Break` (or, when `brk` is false, with
/// `Continue`) when handed named entry `k` of the provider list `b`: its
/// lower-cased name and its provider.
pub open spec fn entry_answer<F: FnMut(&str, RegisteredProvider) -> ControlFlow<()>>(
    f: F,
    b: Seq<u8>,
    k: int,
    brk: bool,
) -> bool {
    exists|s: &str, p: RegisteredProvider, a: ControlFlow<()>|
        is_entry(b, named_entries(b, entry_count(b))[k], (s@, p)) && #[trigger] call_ensures(f, (s, p), a)
            && (a is Break) == brk
}

/// Whether `f`, handed the named entries of `b` in order, answered the
/// first `m` with `Continue` and, unless that is all of them, the next one
/// with `Break`.
pub open spec fn answered_until<F: FnMut(&str, RegisteredProvider) -> ControlFlow<()>>(
    f: F,
    b: Seq<u8>,
    m: int,
) -> bool {
    &&& 0 <= m <= named_entries(b, entry_count(b)).len()
    &&& forall|k: int| 0 <= k < m ==> entry_answer(f, b, k, false)
    &&& m < named_entries(b, entry_count(b)).len() ==> entry_answer(f, b, m, true)
}

/// Calls `f` with the lower-cased name and the provider of each entry of
/// a TDH provider list that has a name, in order, until `f` breaks.
pub fn for_each_provider_in_buffer<F: FnMut(&str, RegisteredProvider) -> ControlFlow<()>>(bytes: &[u8], f: &mut F)
    requires
        forall|s: &str, p: RegisteredProvider| #[trigger] call_requires(*old(f), (s, p)),
    ensures
        exists|m: int| #[trigger] answered_until(*old(f), bytes@, m),
{
    broadcast use vstd::function::group_function_axioms;
    let ghost f0 = *f;
    let list = providers_in_buffer(bytes);
    let ghost named = named_entries(bytes@, entry_count(bytes@));
    let mut i: usize = 0;
    if list.len() == 0 {
        assert(answered_until(f0, bytes@, 0));
    }
    while i < list.len()
        invariant
            *f == f0,
            forall|s: &str, p: RegisteredProvider| #[trigger] call_requires(f0, (s, p)),
            list@.len() == named.len(),
            named == named_entries(bytes@, entry_count(bytes@)),
            forall|k: int| 0 <= k < list@.len() ==> #[trigger] is_entry(bytes@, named[k], (list@[k].0@, list@[k].1)),
            i <= list@.len(),
            forall|k: int| 0 <= k < i ==> entry_answer(f0, bytes@, k, false),
            i == list@.len() ==> answered_until(f0, bytes@, i as int),
        ensures
            exists|m: int| #[trigger] answered_until(f0, bytes@, m),
        decreases list@.len() - i,
    {
        let s = list[i].0.as_str();
        let p = list[i].1;
        let flow = f(s, p);
        proof {
            assert(is_entry(bytes@, named[i as int], (s@, p)));
            assert(call_ensures(f0, (s, p), flow));
        }
        if let ControlFlow::Break(_) = flow {
            assert(entry_answer(f0, bytes@, i as int, true));
            assert(answered_until(f0, bytes@, i as int));
            break;
        }
        assert(entry_answer(f0, bytes@, i as int, false));
        i = i + 1;
        if i == list.len() {
            assert(answered_until(f0, bytes@, i as int));
        }
    }
}

} // verus!
