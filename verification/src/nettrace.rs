//! Parsing of the NetTrace V1 event extension and of V5 event metadata.

use vstd::prelude::*;
use crate::event::{u16_from_le_seq, u32_from_le_seq, u64_from_le_seq, read_u16_le, read_u32_le, read_u64_le};
use crate::text::{char_codes, unit_code, push_unit_char, string_clear};

verus! {

pub const LABEL_META: u8 = 1;
pub const LABEL_ACTIVITY: u8 = 2;
pub const LABEL_RELATED_ACTIVITY: u8 = 3;

/// The labelled items of a V1 event extension, after `count` items were
/// already read: a metadata item (label 1, a little-endian `u32` length and
/// that many bytes), an activity id or a related activity id (labels 2
/// and 3, 16 bytes). Reading stops at an unknown label, at an item that
/// does not fit, when at most one byte is left, or after three items.
pub open spec fn ext_items(data: Seq<u8>, count: nat) -> Seq<(u8, Seq<u8>)>
    decreases data.len(),
{
    if data.len() <= 1 || count >= 3 {
        Seq::empty()
    } else {
        let label = data[0];
        let rest = data.skip(1);
        if label == LABEL_META {
            if rest.len() < 4 {
                Seq::empty()
            } else {
                let len = u32_from_le_seq(rest) as int;
                let body = rest.skip(4);
                if body.len() < len {
                    Seq::empty()
                } else {
                    seq![(LABEL_META, body.take(len))] + ext_items(body.skip(len), count + 1)
                }
            }
        } else if label == LABEL_ACTIVITY || label == LABEL_RELATED_ACTIVITY {
            if rest.len() < 16 {
                Seq::empty()
            } else {
                seq![(label, rest.take(16))] + ext_items(rest.skip(16), count + 1)
            }
        } else {
            Seq::empty()
        }
    }
}

/// The labelled items as plain byte strings.
pub open spec fn items_view(items: Seq<(u8, &[u8])>) -> Seq<(u8, Seq<u8>)> {
    items.map_values(|p: (u8, &[u8])| (p.0, p.1@))
}

/// The labelled items of a V1 event extension, in order.
pub fn parse_event_extension_v1_items<'a>(data: &'a [u8]) -> (items: Vec<(u8, &'a [u8])>)
    ensures
        items_view(items@) == ext_items(data@, 0),
{
    let mut items: Vec<(u8, &'a [u8])> = Vec::new();
    let mut pos: usize = 0;
    let mut count: usize = 0;
    let n = data.len();
    assert(data@.skip(0) =~= data@);
    while n - pos > 1 && count < 3
        invariant
            n == data@.len(),
            pos <= n,
            count <= 3,
            items_view(items@) + ext_items(data@.skip(pos as int), count as nat) == ext_items(data@, 0),
        ensures
            items_view(items@) == ext_items(data@, 0),
        decreases n - pos,
    {
        let ghost rem = data@.skip(pos as int);
        let label = data[pos];
        let after = pos + 1;
        let ghost rest = data@.skip(after as int);
        assert(rem.skip(1) =~= rest);
        if label == LABEL_META {
            if n - after < 4 {
                assert(ext_items(rem, count as nat) =~= Seq::empty());
                assert(items_view(items@) + Seq::empty() =~= items_view(items@));
                break;
            }
            let field = vstd::slice::slice_subrange(data, after, after + 4);
            let len = read_u32_le(field) as usize;
            assert(u32_from_le_seq(field@) == u32_from_le_seq(rest)) by {
                assert(field@[0] == rest[0] && field@[1] == rest[1] && field@[2] == rest[2] && field@[3] == rest[3]);
            }
            let body_start = after + 4;
            assert(rest.skip(4) =~= data@.skip(body_start as int));
            if n - body_start < len {
                assert(ext_items(rem, count as nat) =~= Seq::empty());
                assert(items_view(items@) + Seq::empty() =~= items_view(items@));
                break;
            }
            let body = vstd::slice::slice_subrange(data, body_start, body_start + len);
            let ghost prev = items@;
            items.push((LABEL_META, body));
            proof {
                assert(data@.skip(body_start as int).take(len as int) =~= body@);
                assert(data@.skip(body_start as int).skip(len as int) =~= data@.skip(body_start + len));
                assert(items_view(items@) =~= items_view(prev) + seq![(LABEL_META, body@)]);
                assert(items_view(items@) + ext_items(data@.skip(body_start + len), (count + 1) as nat)
                    =~= items_view(prev) + ext_items(rem, count as nat));
            }
            pos = body_start + len;
        } else if label == LABEL_ACTIVITY || label == LABEL_RELATED_ACTIVITY {
            if n - after < 16 {
                assert(ext_items(rem, count as nat) =~= Seq::empty());
                assert(items_view(items@) + Seq::empty() =~= items_view(items@));
                break;
            }
            let body = vstd::slice::slice_subrange(data, after, after + 16);
            let ghost prev = items@;
            items.push((label, body));
            proof {
                assert(rest.take(16) =~= body@);
                assert(rest.skip(16) =~= data@.skip(after + 16));
                assert(items_view(items@) =~= items_view(prev) + seq![(label, body@)]);
                assert(items_view(items@) + ext_items(data@.skip(after + 16), (count + 1) as nat)
                    =~= items_view(prev) + ext_items(rem, count as nat));
            }
            pos = after + 16;
        } else {
            assert(ext_items(rem, count as nat) =~= Seq::empty());
            assert(items_view(items@) + Seq::empty() =~= items_view(items@));
            break;
        }
        count = count + 1;
        proof {
            let rem2 = data@.skip(pos as int);
            if !(rem2.len() > 1 && count < 3) {
                assert(ext_items(rem2, count as nat) =~= Seq::empty());
                assert(items_view(items@) + Seq::empty() =~= items_view(items@));
            }
        }
    }
    items
}

/// Whether `f` was handed a labelled item: its label and a slice with its
/// bytes.
pub open spec fn item_handed<F: FnMut(u8, &[u8])>(f: F, item: (u8, Seq<u8>)) -> bool {
    exists|s: &[u8]| s@ == item.1 && #[trigger] call_ensures(f, (item.0, s), ())
}

/// Calls `output` with each labelled item of a V1 event extension, in
/// order (see `parse_event_extension_v1_items`).
pub fn parse_event_extension_v1<F: FnMut(u8, &[u8])>(data: &[u8], mut output: F)
    requires
        forall|l: u8, s: &[u8]| #[trigger] call_requires(output, (l, s)),
    ensures
        forall|k: int|
            0 <= k < ext_items(data@, 0).len() ==> #[trigger] item_handed(output, ext_items(data@, 0)[k]),
{
    broadcast use vstd::function::group_function_axioms;
    let ghost f0 = output;
    let items = parse_event_extension_v1_items(data);
    let mut i: usize = 0;
    while i < items.len()
        invariant
            output == f0,
            forall|l: u8, s: &[u8]| #[trigger] call_requires(f0, (l, s)),
            items_view(items@) == ext_items(data@, 0),
            i <= items@.len(),
            forall|k: int| 0 <= k < i ==> #[trigger] item_handed(f0, ext_items(data@, 0)[k]),
        decreases items@.len() - i,
    {
        let (label, body) = items[i];
        output(label, body);
        proof {
            assert(items_view(items@)[i as int] == (label, body@));
            assert(call_ensures(f0, (label, body), ()));
            assert(ext_items(data@, 0)[i as int].0 == label);
            assert(ext_items(data@, 0)[i as int].1 == body@);
            assert(call_ensures(f0, (ext_items(data@, 0)[i as int].0, body), ()));
            assert(item_handed(f0, ext_items(data@, 0)[i as int]));
        }
        i = i + 1;
    }
}

/// The number of bytes a NUL-terminated UTF-16 string takes at the start
/// of `s`: whole two-byte units up to and including the first zero unit,
/// or all whole units when there is none.
pub open spec fn zunits_consumed(s: Seq<u8>) -> int
    decreases s.len(),
{
    if s.len() < 2 {
        0
    } else if s[0] == 0 && s[1] == 0 {
        2
    } else {
        2 + zunits_consumed(s.skip(2))
    }
}

/// `data` split after `len` bytes, or two empty strings when it is shorter.
pub open spec fn advance_spec(data: Seq<u8>, len: int) -> (Seq<u8>, Seq<u8>) {
    if data.len() < len {
        (Seq::empty(), Seq::empty())
    } else {
        (data.take(len), data.skip(len))
    }
}

/// The seven parts of V5 event metadata, as byte strings: provider name,
/// event id, event name, keywords, version, level and fields.
pub open spec fn meta_parse(data: Seq<u8>) -> (Seq<u8>, Seq<u8>, Seq<u8>, Seq<u8>, Seq<u8>, Seq<u8>, Seq<u8>) {
    let (provider_name, b1) = advance_spec(data, zunits_consumed(data));
    let (event_id, b2) = advance_spec(b1, 4);
    let (event_name, b3) = advance_spec(b2, zunits_consumed(b2));
    let (keywords, b4) = advance_spec(b3, 8);
    let (version, b5) = advance_spec(b4, 4);
    let (level, fields) = advance_spec(b5, 4);
    (provider_name, event_id, event_name, keywords, version, level, fields)
}

/// A little-endian `u32` at the start of `s`, when it has four bytes.
pub open spec fn read_int_spec(s: Seq<u8>) -> Option<u32> {
    if s.len() < 4 {
        None
    } else {
        Some(u32_from_le_seq(s))
    }
}

/// A little-endian `u64` at the start of `s`, when it has eight bytes.
pub open spec fn read_long_spec(s: Seq<u8>) -> Option<u64> {
    if s.len() < 8 {
        None
    } else {
        Some(u64_from_le_seq(s))
    }
}

/// The character codes of the NUL-terminated UTF-16LE string at the start
/// of `s`, each unit read on its own (see `unit_code`).
pub open spec fn units_codes(s: Seq<u8>) -> Seq<u32>
    decreases s.len(),
{
    if s.len() < 2 {
        Seq::empty()
    } else {
        let u = u16_from_le_seq(s);
        if u == 0 {
            Seq::empty()
        } else {
            seq![unit_code(u)] + units_codes(s.skip(2))
        }
    }
}

/// Parsed V5 event metadata; each part is a view into the parsed bytes.
pub struct MetaParserV5<'a> {
    provider_name: &'a [u8],
    event_id: &'a [u8],
    event_name: &'a [u8],
    keywords: &'a [u8],
    version: &'a [u8],
    level: &'a [u8],
    fields: &'a [u8],
}

impl<'a> View for MetaParserV5<'a> {
    type V = (Seq<u8>, Seq<u8>, Seq<u8>, Seq<u8>, Seq<u8>, Seq<u8>, Seq<u8>);

    closed spec fn view(&self) -> Self::V {
        (self.provider_name@, self.event_id@, self.event_name@, self.keywords@, self.version@,
            self.level@, self.fields@)
    }
}

impl<'a> MetaParserV5<'a> {
    pub fn event_id(&self) -> (v: Option<u32>)
        ensures
            v == read_int_spec(self@.1),
    {
        Self::read_int(self.event_id)
    }

    /// Writes the provider name into `output`, replacing what it held.
    pub fn provider_name(&self, output: &mut String)
        ensures
            char_codes(final(output)@) == units_codes(self@.0),
    {
        string_clear(output);
        Self::push_unicode_string(self.provider_name, output);
        assert(char_codes(Seq::<char>::empty()) =~= Seq::<u32>::empty());
        assert(Seq::<u32>::empty() + units_codes(self@.0) =~= units_codes(self@.0));
    }

    /// Writes the event name into `output`, replacing what it held.
    pub fn event_name(&self, output: &mut String)
        ensures
            char_codes(final(output)@) == units_codes(self@.2),
    {
        string_clear(output);
        Self::push_unicode_string(self.event_name, output);
        assert(char_codes(Seq::<char>::empty()) =~= Seq::<u32>::empty());
        assert(Seq::<u32>::empty() + units_codes(self@.2) =~= units_codes(self@.2));
    }

    pub fn keywords(&self) -> (v: Option<u64>)
        ensures
            v == read_long_spec(self@.3),
    {
        Self::read_long(self.keywords)
    }

    pub fn version(&self) -> (v: Option<u32>)
        ensures
            v == read_int_spec(self@.4),
    {
        Self::read_int(self.version)
    }

    pub fn level(&self) -> (v: Option<u32>)
        ensures
            v == read_int_spec(self@.5),
    {
        Self::read_int(self.level)
    }

    pub fn fields(&self) -> (f: &'a [u8])
        ensures
            f@ == self@.6,
    {
        self.fields
    }

    fn push_unicode_string(data: &[u8], output: &mut String)
        ensures
            char_codes(final(output)@) == char_codes(old(output)@) + units_codes(data@),
    {
        let n = data.len();
        let mut i: usize = 0;
        assert(data@.skip(0) =~= data@);
        while n - i >= 2 && !(data[i] == 0 && data[i + 1] == 0)
            invariant
                n == data@.len(),
                i <= n,
                char_codes(output@) + units_codes(data@.skip(i as int))
                    == char_codes(old(output)@) + units_codes(data@),
            decreases n - i,
        {
            let ghost rem = data@.skip(i as int);
            let unit = read_u16_le(vstd::slice::slice_subrange(data, i, i + 2));
            assert(unit == u16_from_le_seq(rem));
            assert(unit != 0) by {
                assert(((0u8 as u16) | ((0u8 as u16) << 8)) as u16 == 0) by (bit_vector);
                let (a, b) = (rem[0], rem[1]);
                assert(a != 0 || b != 0);
                assert((a != 0 || b != 0) ==> ((a as u16) | ((b as u16) << 8)) as u16 != 0) by (bit_vector);
            }
            let ghost before = output@;
            push_unit_char(output, unit);
            proof {
                assert(output@ =~= before.push(output@.last()));
                assert(char_codes(output@) =~= char_codes(before) + seq![unit_code(unit)]);
                assert(rem.skip(2) =~= data@.skip(i + 2));
            }
            i = i + 2;
        }
        proof {
            let rem = data@.skip(i as int);
            if rem.len() >= 2 {
                assert(rem[0] == 0 && rem[1] == 0);
                assert(((0u8 as u16) | ((0u8 as u16) << 8)) as u16 == 0) by (bit_vector);
            }
            assert(units_codes(rem) =~= Seq::<u32>::empty());
            assert(char_codes(output@) + Seq::<u32>::empty() =~= char_codes(output@));
        }
    }

    fn read_int(data: &[u8]) -> (v: Option<u32>)
        ensures
            v == read_int_spec(data@),
    {
        if data.len() < 4 {
            None
        } else {
            Some(read_u32_le(data))
        }
    }

    fn read_long(data: &[u8]) -> (v: Option<u64>)
        ensures
            v == read_long_spec(data@),
    {
        if data.len() < 8 {
            None
        } else {
            Some(read_u64_le(data))
        }
    }

    fn read_string(data: &[u8]) -> (len: usize)
        ensures
            len == zunits_consumed(data@),
    {
        let n = data.len();
        let mut len: usize = 0;
        assert(data@.skip(0) =~= data@);
        while n - len >= 2 && !(data[len] == 0 && data[len + 1] == 0)
            invariant
                n == data@.len(),
                len <= n,
                len + zunits_consumed(data@.skip(len as int)) == zunits_consumed(data@),
            decreases n - len,
        {
            assert(data@.skip(len as int).skip(2) =~= data@.skip(len + 2));
            len = len + 2;
        }
        if n - len >= 2 {
            len = len + 2;
        }
        len
    }

    fn advance(data: &'a [u8], len: usize) -> (r: (&'a [u8], &'a [u8]))
        ensures
            (r.0@, r.1@) == advance_spec(data@, len as int),
    {
        if data.len() < len {
            (vstd::slice::slice_subrange(data, 0, 0), vstd::slice::slice_subrange(data, 0, 0))
        } else {
            (vstd::slice::slice_subrange(data, 0, len), vstd::slice::slice_subrange(data, len, data.len()))
        }
    }

    /// Splits V5 event metadata into its parts. Never fails: a part that
    /// does not fit, and everything after it, is empty.
    pub fn parse(data: &'a [u8]) -> (p: Self)
        ensures
            p@ == meta_parse(data@),
    {
        let buffer = data;
        let len = Self::read_string(buffer);
        let (provider_name, buffer) = Self::advance(buffer, len);
        let (event_id, buffer) = Self::advance(buffer, 4);
        let len = Self::read_string(buffer);
        let (event_name, buffer) = Self::advance(buffer, len);
        let (keywords, buffer) = Self::advance(buffer, 8);
        let (version, buffer) = Self::advance(buffer, 4);
        let (level, fields) = Self::advance(buffer, 4);
        Self { provider_name, event_id, event_name, keywords, version, level, fields }
    }
}

} // verus!
