//! 128-bit GUIDs as used by ETW providers and sessions, and the name-based
//! (RFC 4122 version-5 style) derivation used by EventSource providers.

use vstd::prelude::*;
use sha1::{Digest, Sha1};

verus! {

broadcast use vstd::array::group_array_axioms;

/// A GUID laid out as the Windows `GUID` structure.
#[derive(Clone, Copy, Debug, Default, PartialEq, Eq)]
pub struct Guid {
    pub data1: u32,
    pub data2: u16,
    pub data3: u16,
    pub data4: [u8; 8],
}

/// The SHA-1 digest of a byte string, as the `sha1` crate computes it.
pub uninterp spec fn sha1_digest_of(data: Seq<u8>) -> Seq<u8>;

/// Calls `sha1::Sha1` (`new`, `update`, `finalize`) on `data`.
/// Trusted: the result is the SHA-1 digest of `data`, named
/// `sha1_digest_of`, and is 20 bytes long (SHA-1's output size).
#[verifier::external_body]
fn sha1_digest(data: &[u8]) -> (digest: Vec<u8>)
    ensures
        digest@ == sha1_digest_of(data@),
        digest@.len() == 20,
{
    let mut hasher = Sha1::new();
    hasher.update(data);
    hasher.finalize().to_vec()
}

/// The big-endian bytes of a `u64`.
pub open spec fn u64_be_bytes(x: u64) -> Seq<u8> {
    seq![
        ((x >> 56) & 0xff) as u8, ((x >> 48) & 0xff) as u8, ((x >> 40) & 0xff) as u8,
        ((x >> 32) & 0xff) as u8, ((x >> 24) & 0xff) as u8, ((x >> 16) & 0xff) as u8,
        ((x >> 8) & 0xff) as u8, (x & 0xff) as u8,
    ]
}

/// The little-endian bytes of a `u32`.
pub open spec fn u32_le_bytes(x: u32) -> Seq<u8> {
    seq![(x & 0xff) as u8, ((x >> 8) & 0xff) as u8, ((x >> 16) & 0xff) as u8, ((x >> 24) & 0xff) as u8]
}

/// The little-endian bytes of a `u16`.
pub open spec fn u16_le_bytes(x: u16) -> Seq<u8> {
    seq![(x & 0xff) as u8, ((x >> 8) & 0xff) as u8]
}

/// The `u32` whose little-endian bytes are `b0 b1 b2 b3`.
pub open spec fn u32_from_le(b0: u8, b1: u8, b2: u8, b3: u8) -> u32 {
    (b0 as u32) | ((b1 as u32) << 8) | ((b2 as u32) << 16) | ((b3 as u32) << 24)
}

/// The `u16` whose little-endian bytes are `b0 b1`.
pub open spec fn u16_from_le(b0: u8, b1: u8) -> u16 {
    ((b0 as u16) | ((b1 as u16) << 8)) as u16
}

/// The GUID `from_u128` builds from a number.
pub open spec fn spec_guid_from_u128(uuid: u128) -> Guid {
    choose|g: Guid| {
        &&& g.data1 == (uuid >> 96) as u32
        &&& g.data2 == ((uuid >> 80) & 0xffff) as u16
        &&& g.data3 == ((uuid >> 64) & 0xffff) as u16
        &&& g.data4@ == u64_be_bytes(uuid as u64)
    }
}

impl Guid {
    /// The 16 bytes of the GUID in its in-memory layout (little-endian
    /// integer fields followed by `data4`).
    pub open spec fn spec_bytes(self) -> Seq<u8> {
        u32_le_bytes(self.data1) + u16_le_bytes(self.data2) + u16_le_bytes(self.data3)
            + self.data4@
    }

    /// The GUID whose fields are read from a 16-byte-or-longer digest, with
    /// the version nibble (the top four bits of `data3`) forced to 5.
    pub open spec fn is_v5_of_digest(self, d: Seq<u8>) -> bool {
        &&& self.data1 == u32_from_le(d[0], d[1], d[2], d[3])
        &&& self.data2 == u16_from_le(d[4], d[5])
        &&& self.data3 == ((u16_from_le(d[6], d[7]) & 0x0FFF) | 0x5000)
        &&& self.data4@ == d.subrange(8, 16)
    }

    /// `data1` is the top 32 bits, `data2` and `data3` the next two 16-bit
    /// groups and `data4` the low 64 bits in big-endian byte order.
    pub fn from_u128(uuid: u128) -> (g: Self)
        ensures
            g == spec_guid_from_u128(uuid),
            g.data1 == (uuid >> 96) as u32,
            g.data2 == ((uuid >> 80) & 0xffff) as u16,
            g.data3 == ((uuid >> 64) & 0xffff) as u16,
            g.data4@ == u64_be_bytes(uuid as u64),
    {
        let low = uuid as u64;
        let data4: [u8; 8] = [
            ((low >> 56) & 0xff) as u8,
            ((low >> 48) & 0xff) as u8,
            ((low >> 40) & 0xff) as u8,
            ((low >> 32) & 0xff) as u8,
            ((low >> 24) & 0xff) as u8,
            ((low >> 16) & 0xff) as u8,
            ((low >> 8) & 0xff) as u8,
            (low & 0xff) as u8,
        ];
        let g = Guid {
            data1: (uuid >> 96) as u32,
            data2: ((uuid >> 80) & 0xffff) as u16,
            data3: ((uuid >> 64) & 0xffff) as u16,
            data4,
        };
        assert(g.data4@ =~= u64_be_bytes(uuid as u64));
        proof {
            let c = spec_guid_from_u128(uuid);
            assert(c.data4@ =~= g.data4@);
            assert(c.data4 =~= g.data4);
        }
        g
    }

    /// The GUID's 16 bytes in its in-memory (little-endian) layout.
    pub fn to_bytes(&self) -> (bytes: [u8; 16])
        ensures
            bytes@ == self.spec_bytes(),
    {
        let bytes: [u8; 16] = [
            (self.data1 & 0xff) as u8,
            ((self.data1 >> 8) & 0xff) as u8,
            ((self.data1 >> 16) & 0xff) as u8,
            ((self.data1 >> 24) & 0xff) as u8,
            (self.data2 & 0xff) as u8,
            ((self.data2 >> 8) & 0xff) as u8,
            (self.data3 & 0xff) as u8,
            ((self.data3 >> 8) & 0xff) as u8,
            self.data4[0],
            self.data4[1],
            self.data4[2],
            self.data4[3],
            self.data4[4],
            self.data4[5],
            self.data4[6],
            self.data4[7],
        ];
        assert(bytes@ =~= self.spec_bytes());
        bytes
    }

    /// Derives a GUID from `namespace ++ name`: the SHA-1 digest of the
    /// concatenation is laid into the fields (integers read little-endian)
    /// and the version nibble is set to 5; the variant bits are left as the
    /// digest has them.
    pub fn v5_from_name(namespace: &[u8], name: &[u8]) -> (g: Self)
        ensures
            g.is_v5_of_digest(sha1_digest_of(namespace@ + name@)),
    {
        let mut input: Vec<u8> = Vec::new();
        input.extend_from_slice(namespace);
        input.extend_from_slice(name);
        assert(input@ =~= namespace@ + name@);
        let d = sha1_digest(input.as_slice());
        let a = (d[0] as u32) | ((d[1] as u32) << 8) | ((d[2] as u32) << 16) | ((d[3] as u32) << 24);
        let b = ((d[4] as u16) | ((d[5] as u16) << 8)) as u16;
        let c = ((d[6] as u16) | ((d[7] as u16) << 8)) as u16;
        let c = (c & 0x0FFF) | 0x5000;
        let data4: [u8; 8] = [d[8], d[9], d[10], d[11], d[12], d[13], d[14], d[15]];
        let g = Guid { data1: a, data2: b, data3: c, data4 };
        assert(g.data4@ =~= d@.subrange(8, 16));
        g
    }
}

/// The Unicode upper-case mapping of a character, as `char::to_uppercase`
/// yields it.
pub uninterp spec fn uppercase_of(c: char) -> Seq<char>;

/// Calls `char::to_uppercase` and collects what it yields.
/// Trusted: the result is the upper-case mapping of `c`, named
/// `uppercase_of`; nothing more is stated of it.
#[verifier::external_body]
fn char_to_uppercase(c: char) -> (up: Vec<char>)
    ensures
        up@ == uppercase_of(c),
{
    c.to_uppercase().collect()
}

/// The UTF-16 code units of a character.
pub open spec fn utf16_units(c: char) -> Seq<u16> {
    let v = c as u32;
    if v < 0x10000 {
        seq![v as u16]
    } else {
        let w = (v - 0x10000) as u32;
        seq![(0xD800 + (w >> 10)) as u16, (0xDC00 + (w & 0x3FF)) as u16]
    }
}

/// The big-endian bytes of a `u16`.
pub open spec fn u16_be_bytes(x: u16) -> Seq<u8> {
    seq![((x >> 8) & 0xff) as u8, (x & 0xff) as u8]
}

/// The UTF-16BE encoding of one character.
pub open spec fn utf16be_char(c: char) -> Seq<u8> {
    let units = utf16_units(c);
    if units.len() == 1 {
        u16_be_bytes(units[0])
    } else {
        u16_be_bytes(units[0]) + u16_be_bytes(units[1])
    }
}

/// The UTF-16BE encoding of a character sequence.
pub open spec fn utf16be_of(cs: Seq<char>) -> Seq<u8>
    decreases cs.len(),
{
    if cs.len() == 0 {
        Seq::empty()
    } else {
        utf16be_of(cs.drop_last()) + utf16be_char(cs.last())
    }
}

/// A character sequence with every character replaced by its upper-case
/// mapping.
pub open spec fn upper_of(cs: Seq<char>) -> Seq<char>
    decreases cs.len(),
{
    if cs.len() == 0 {
        Seq::empty()
    } else {
        upper_of(cs.drop_last()) + uppercase_of(cs.last())
    }
}

/// The namespace EventSource hashes provider names in.
pub open spec fn eventsource_namespace() -> Seq<u8> {
    seq![
        0x48u8, 0x2C, 0x2D, 0xB2, 0xC3, 0x90, 0x47, 0xC8,
        0x87, 0xF8, 0x1A, 0x15, 0xBF, 0xC1, 0x30, 0xFB,
    ]
}

/// The bytes an EventSource provider name is hashed as: the upper-cased
/// name in UTF-16BE.
pub open spec fn provider_name_bytes(name: Seq<char>) -> Seq<u8> {
    utf16be_of(upper_of(name))
}

proof fn lemma_utf16be_push(cs: Seq<char>, c: char)
    ensures
        utf16be_of(cs.push(c)) == utf16be_of(cs) + utf16be_char(c),
{
    assert(cs.push(c).drop_last() =~= cs);
}

/// Appends the UTF-16BE encoding of `c` to `out`.
fn push_utf16be(out: &mut Vec<u8>, c: char)
    ensures
        final(out)@ == old(out)@ + utf16be_char(c),
{
    let v = c as u32;
    if v < 0x10000 {
        let u = v as u16;
        out.push(((u >> 8) & 0xff) as u8);
        out.push((u & 0xff) as u8);
    } else {
        let w = v - 0x10000;
        assert(w >> 10 < 0x400) by (bit_vector)
            requires w == v - 0x10000, 0x10000 <= v <= 0x10FFFF;
        assert(w & 0x3FF <= 0x3FF) by (bit_vector);
        let hi = (0xD800 + (w >> 10)) as u16;
        let lo = (0xDC00 + (w & 0x3FF)) as u16;
        out.push(((hi >> 8) & 0xff) as u8);
        out.push((hi & 0xff) as u8);
        out.push(((lo >> 8) & 0xff) as u8);
        out.push((lo & 0xff) as u8);
    }
    assert(final(out)@ =~= old(out)@ + utf16be_char(c));
}

/// The control GUID of a self-describing (EventSource / TraceLogging)
/// provider: the name is upper-cased, encoded as UTF-16BE and v5-hashed over
/// the fixed EventSource namespace.
pub fn guid_from_provider_name_hash(name: &str) -> (g: Guid)
    ensures
        g.is_v5_of_digest(sha1_digest_of(eventsource_namespace() + provider_name_bytes(name@))),
{
    let namespace: [u8; 16] = [
        0x48, 0x2C, 0x2D, 0xB2, 0xC3, 0x90, 0x47, 0xC8,
        0x87, 0xF8, 0x1A, 0x15, 0xBF, 0xC1, 0x30, 0xFB,
    ];
    let mut name_bytes: Vec<u8> = Vec::new();
    let n = name.unicode_len();
    let mut i: usize = 0;
    while i < n
        invariant
            n == name@.len(),
            i <= n,
            name_bytes@ == utf16be_of(upper_of(name@.take(i as int))),
        decreases n - i,
    {
        let c = name.get_char(i);
        let up = char_to_uppercase(c);
        let ghost before = upper_of(name@.take(i as int));
        let mut j: usize = 0;
        while j < up.len()
            invariant
                j <= up@.len(),
                name_bytes@ == utf16be_of(before + up@.take(j as int)),
            decreases up@.len() - j,
        {
            proof {
                lemma_utf16be_push(before + up@.take(j as int), up@[j as int]);
                assert((before + up@.take(j as int)).push(up@[j as int]) =~= before + up@.take(j + 1));
            }
            push_utf16be(&mut name_bytes, up[j]);
            j = j + 1;
        }
        proof {
            assert(up@.take(j as int) =~= up@);
            assert(name@.take(i + 1).drop_last() =~= name@.take(i as int));
            assert(name@.take(i + 1).last() == c);
        }
        i = i + 1;
    }
    assert(name@.take(n as int) =~= name@);
    let g = Guid::v5_from_name(&namespace, name_bytes.as_slice());
    assert(namespace@ =~= eventsource_namespace());
    g
}

/// Whether `c` is Unicode white space (`char::is_whitespace`).
pub open spec fn is_white_space(c: char) -> bool {
    let v = c as u32;
    ||| (0x09 <= v <= 0x0D)
    ||| v == 0x20
    ||| v == 0x85
    ||| v == 0xA0
    ||| v == 0x1680
    ||| (0x2000 <= v <= 0x200A)
    ||| v == 0x2028
    ||| v == 0x2029
    ||| v == 0x202F
    ||| v == 0x205F
    ||| v == 0x3000
}

fn char_is_white_space(c: char) -> (b: bool)
    ensures
        b == is_white_space(c),
{
    let v = c as u32;
    (0x09 <= v && v <= 0x0D) || v == 0x20 || v == 0x85 || v == 0xA0 || v == 0x1680
        || (0x2000 <= v && v <= 0x200A) || v == 0x2028 || v == 0x2029 || v == 0x202F
        || v == 0x205F || v == 0x3000
}

/// The characters of `cs` without `-`, `{` and `}`.
pub open spec fn strip_guid_punct(cs: Seq<char>) -> Seq<char>
    decreases cs.len(),
{
    if cs.len() == 0 {
        Seq::empty()
    } else {
        let c = cs.last();
        if c == '-' || c == '{' || c == '}' {
            strip_guid_punct(cs.drop_last())
        } else {
            strip_guid_punct(cs.drop_last()).push(c)
        }
    }
}

/// `cs` without leading white space.
pub open spec fn trim_start(cs: Seq<char>) -> Seq<char>
    decreases cs.len(),
{
    if cs.len() > 0 && is_white_space(cs[0]) {
        trim_start(cs.drop_first())
    } else {
        cs
    }
}

/// `cs` without trailing white space.
pub open spec fn trim_end(cs: Seq<char>) -> Seq<char>
    decreases cs.len(),
{
    if cs.len() > 0 && is_white_space(cs.last()) {
        trim_end(cs.drop_last())
    } else {
        cs
    }
}

/// The value of a hexadecimal digit, or `None` for another character.
pub open spec fn hex_digit(c: char) -> Option<int> {
    if '0' <= c <= '9' {
        Some(c as int - '0' as int)
    } else if 'a' <= c <= 'f' {
        Some(c as int - 'a' as int + 10)
    } else if 'A' <= c <= 'F' {
        Some(c as int - 'A' as int + 10)
    } else {
        None
    }
}

/// The value of a string of hexadecimal digits, or `None` when one is not
/// a digit.
pub open spec fn hex_value(ds: Seq<char>) -> Option<int>
    decreases ds.len(),
{
    if ds.len() == 0 {
        Some(0)
    } else {
        match (hex_value(ds.drop_last()), hex_digit(ds.last())) {
            (Some(v), Some(d)) => Some(v * 16 + d),
            _ => None,
        }
    }
}

/// `u128::from_str_radix(s, 16)`: an optional `+`, then at least one
/// hexadecimal digit, with a value that fits in 128 bits.
pub open spec fn parse_hex_u128(cs: Seq<char>) -> Option<u128> {
    let ds = if cs.len() > 0 && cs[0] == '+' { cs.drop_first() } else { cs };
    if ds.len() == 0 {
        None
    } else {
        match hex_value(ds) {
            Some(v) => if v <= u128::MAX { Some(v as u128) } else { None },
            None => None,
        }
    }
}

/// The GUID written as `{XXXXXXXX-XXXX-XXXX-XXXX-XXXXXXXXXXXX}`: the
/// characters other than `-`, `{` and `}`, trimmed, read as a
/// hexadecimal 128-bit number.
pub open spec fn guid_literal_value(name: Seq<char>) -> Option<u128> {
    parse_hex_u128(trim_end(trim_start(strip_guid_punct(name))))
}

proof fn lemma_hex_value_nonneg(ds: Seq<char>)
    ensures
        hex_value(ds) matches Some(v) ==> v >= 0,
    decreases ds.len(),
{
    if ds.len() > 0 {
        lemma_hex_value_nonneg(ds.drop_last());
    }
}

/// Reads the hexadecimal digits of `ds` (after an optional `+`) as a
/// 128-bit number.
pub(crate) fn parse_hex_chars(cs: &Vec<char>) -> (v: Option<u128>)
    ensures
        v == parse_hex_u128(cs@),
{
    let mut start: usize = 0;
    if cs.len() > 0 && cs[0] == '+' {
        start = 1;
    }
    let ghost ds = if cs@.len() > 0 && cs@[0] == '+' { cs@.drop_first() } else { cs@ };
    assert(ds =~= cs@.skip(start as int));
    if cs.len() == start {
        return None;
    }
    let mut acc: u128 = 0;
    let mut i: usize = start;
    while i < cs.len()
        invariant
            start <= i <= cs@.len(),
            ds == cs@.skip(start as int),
            ds == (if cs@.len() > 0 && cs@[0] == '+' { cs@.drop_first() } else { cs@ }),
            hex_value(ds.take(i - start)) == Some(acc as int),
        decreases cs@.len() - i,
    {
        let c = cs[i];
        let ghost pre = ds.take(i - start);
        assert(ds.take(i + 1 - start).drop_last() =~= pre);
        assert(ds.take(i + 1 - start).last() == c);
        let d: u128 = if '0' <= c && c <= '9' {
            (c as u32 - '0' as u32) as u128
        } else if 'a' <= c && c <= 'f' {
            (c as u32 - 'a' as u32 + 10) as u128
        } else if 'A' <= c && c <= 'F' {
            (c as u32 - 'A' as u32 + 10) as u128
        } else {
            proof {
                assert(hex_digit(c) is None);
                assert(hex_value(ds.take(i + 1 - start)) is None);
                lemma_hex_none_extends(ds, i + 1 - start);
                assert(hex_value(ds) is None);
                assert(ds.len() > 0);
            }
            return None;
        };
        assert(hex_digit(c) == Some(d as int));
        match acc.checked_mul(16) {
            Some(m) => {
                match m.checked_add(d) {
                    Some(next) => {
                        acc = next;
                    },
                    None => {
                        proof {
                            lemma_hex_too_big(ds, i + 1 - start);
                            assert(ds.len() > 0);
                        }
                        return None;
                    },
                }
            },
            None => {
                proof {
                    assert(acc as int * 16 > u128::MAX);
                    assert(acc as int * 16 + d as int > u128::MAX);
                    lemma_hex_too_big(ds, i + 1 - start);
                    assert(ds.len() > 0);
                }
                return None;
            },
        }
        i = i + 1;
    }
    assert(ds.take(i - start) =~= ds);
    Some(acc)
}

proof fn lemma_hex_none_extends(ds: Seq<char>, k: int)
    requires
        0 <= k <= ds.len(),
        hex_value(ds.take(k)) is None,
    ensures
        hex_value(ds) is None,
    decreases ds.len() - k,
{
    if k < ds.len() {
        assert(ds.take(k + 1).drop_last() =~= ds.take(k));
        lemma_hex_none_extends(ds, k + 1);
    } else {
        assert(ds.take(k) =~= ds);
    }
}

proof fn lemma_hex_too_big(ds: Seq<char>, k: int)
    requires
        0 < k <= ds.len(),
        match hex_value(ds.take(k - 1)) {
            Some(w) => match hex_digit(ds[k - 1]) {
                Some(d) => w * 16 + d > u128::MAX,
                None => true,
            },
            None => true,
        },
    ensures
        match hex_value(ds) {
            Some(v) => v > u128::MAX,
            None => true,
        },
    decreases ds.len() - k,
{
    assert(ds.take(k).drop_last() =~= ds.take(k - 1));
    assert(ds.take(k).last() == ds[k - 1]);
    if k < ds.len() {
        if let Some(v) = hex_value(ds.take(k + 1)) {
            assert(ds.take(k + 1).drop_last() =~= ds.take(k));
            lemma_hex_value_nonneg(ds.take(k));
            assert(hex_digit(ds[k]) matches Some(d) && d >= 0);
        }
        assert(ds.take(k + 1).drop_last() =~= ds.take(k));
        lemma_hex_too_big_step(ds, k + 1);
    } else {
        assert(ds.take(k) =~= ds);
    }
}

proof fn lemma_hex_too_big_step(ds: Seq<char>, k: int)
    requires
        1 < k <= ds.len(),
        match hex_value(ds.take(k - 1)) {
            Some(v) => v > u128::MAX,
            None => true,
        },
    ensures
        match hex_value(ds) {
            Some(v) => v > u128::MAX,
            None => true,
        },
    decreases ds.len() - k,
{
    assert(ds.take(k).drop_last() =~= ds.take(k - 1));
    if let Some(v) = hex_value(ds.take(k)) {
        lemma_hex_value_nonneg(ds.take(k - 1));
        assert(hex_digit(ds.take(k).last()) matches Some(d) && d >= 0);
    }
    if k < ds.len() {
        lemma_hex_too_big_step(ds, k + 1);
    } else {
        assert(ds.take(k) =~= ds);
    }
}

/// The GUID of a `{...}` literal: the characters other than `-`, `{` and
/// `}`, trimmed of white space, read as a hexadecimal number; `None` when
/// they are not one.
pub fn parse_guid_literal(name: &str) -> (g: Option<Guid>)
    ensures
        g is Some <==> guid_literal_value(name@) is Some,
        g matches Some(x) ==> x == spec_guid_from_u128(guid_literal_value(name@)->0),
{
    let n = name.unicode_len();
    let mut kept: Vec<char> = Vec::new();
    let mut i: usize = 0;
    while i < n
        invariant
            n == name@.len(),
            i <= n,
            kept@ == strip_guid_punct(name@.take(i as int)),
        decreases n - i,
    {
        let c = name.get_char(i);
        assert(name@.take(i + 1).drop_last() =~= name@.take(i as int));
        if !(c == '-' || c == '{' || c == '}') {
            kept.push(c);
        }
        i = i + 1;
    }
    assert(name@.take(n as int) =~= name@);
    // trim leading white space
    let mut a: usize = 0;
    assert(kept@.skip(0) =~= kept@);
    while a < kept.len() && char_is_white_space(kept[a])
        invariant
            a <= kept@.len(),
            trim_start(kept@) == trim_start(kept@.skip(a as int)),
        decreases kept@.len() - a,
    {
        assert(kept@.skip(a as int).drop_first() =~= kept@.skip(a + 1));
        a = a + 1;
    }
    let mut b: usize = kept.len();
    assert(kept@.skip(a as int).take((b - a) as int) =~= kept@.skip(a as int));
    while b > a && char_is_white_space(kept[b - 1])
        invariant
            a <= b <= kept@.len(),
            trim_end(trim_start(kept@)) == trim_end(kept@.subrange(a as int, b as int)),
        decreases b,
    {
        assert(kept@.subrange(a as int, b as int).drop_last() =~= kept@.subrange(a as int, b - 1));
        b = b - 1;
    }
    let mut trimmed: Vec<char> = Vec::new();
    let mut j: usize = a;
    while j < b
        invariant
            a <= j <= b,
            b <= kept@.len(),
            trimmed@ == kept@.subrange(a as int, j as int),
        decreases b - j,
    {
        trimmed.push(kept[j]);
        assert(trimmed@ =~= kept@.subrange(a as int, j + 1));
        j = j + 1;
    }
    proof {
        let t = kept@.subrange(a as int, b as int);
        assert(trimmed@ == t);
        assert(trim_end(t) == t);
        assert(kept@.skip(a as int) =~= kept@.subrange(a as int, kept@.len() as int));
    }
    match parse_hex_chars(&trimmed) {
        Some(v) => Some(Guid::from_u128(v)),
        None => None,
    }
}

/// Casing is irrelevant to the provider-name hash: two names whose
/// upper-case mappings agree hash to the same GUID.
pub proof fn lemma_provider_hash_case_insensitive(a: Seq<char>, b: Seq<char>, ga: Guid, gb: Guid)
    requires
        upper_of(a) == upper_of(b),
        ga.is_v5_of_digest(sha1_digest_of(eventsource_namespace() + provider_name_bytes(a))),
        gb.is_v5_of_digest(sha1_digest_of(eventsource_namespace() + provider_name_bytes(b))),
        sha1_digest_of(eventsource_namespace() + provider_name_bytes(a)).len() >= 16,
    ensures
        ga == gb,
{
    lemma_v5_deterministic(ga, gb, sha1_digest_of(eventsource_namespace() + provider_name_bytes(a)));
}

/// The version nibble of every name-derived GUID is 5.
pub proof fn lemma_v5_version_nibble(g: Guid, d: Seq<u8>)
    requires
        d.len() >= 16,
        g.is_v5_of_digest(d),
    ensures
        g.data3 & 0xF000 == 0x5000,
{
    let x = u16_from_le(d[6], d[7]);
    assert(((x & 0x0FFF) | 0x5000) & 0xF000 == 0x5000) by (bit_vector);
}

/// Name-derived GUIDs are a function of their digest: two GUIDs laid out
/// from the same digest are equal.
pub proof fn lemma_v5_deterministic(g1: Guid, g2: Guid, d: Seq<u8>)
    requires
        d.len() >= 16,
        g1.is_v5_of_digest(d),
        g2.is_v5_of_digest(d),
    ensures
        g1 == g2,
{
    assert(g1.data4@ =~= g2.data4@);
    assert forall|i: int| 0 <= i < 8 implies g1.data4[i] == g2.data4[i] by {
        assert(g1.data4@[i] == g2.data4@[i]);
    }
    assert(g1.data4 =~= g2.data4);
}

} // verus!
