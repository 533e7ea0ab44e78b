//! TDH schemas: field types of TDH in-types, decode errors, and the cache
//! of decoded schemas keyed by TraceLogging schema bytes or by manifest
//! event identity.

use vstd::prelude::*;

use crate::event::{EventField, EventFormat, LocationType};
pub use crate::event::{field_view, format_view};
use crate::guid::Guid;
use crate::pathbuf_ext::u64_decimal;
use crate::text::string_push;
use crate::dotnet::push_str_chars;
use crate::etw::{read_utf16_at, utf16_decode_lossy, utf16z_units};

verus! {

pub const TDH_INTYPE_UNICODESTRING: i32 = 1;
pub const TDH_INTYPE_ANSISTRING: i32 = 2;
pub const TDH_INTYPE_INT8: i32 = 3;
pub const TDH_INTYPE_UINT8: i32 = 4;
pub const TDH_INTYPE_INT16: i32 = 5;
pub const TDH_INTYPE_UINT16: i32 = 6;
pub const TDH_INTYPE_INT32: i32 = 7;
pub const TDH_INTYPE_UINT32: i32 = 8;
pub const TDH_INTYPE_INT64: i32 = 9;
pub const TDH_INTYPE_UINT64: i32 = 10;
pub const TDH_INTYPE_FLOAT: i32 = 11;
pub const TDH_INTYPE_DOUBLE: i32 = 12;
pub const TDH_INTYPE_BOOLEAN: i32 = 13;
pub const TDH_INTYPE_BINARY: i32 = 14;
pub const TDH_INTYPE_GUID: i32 = 15;
pub const TDH_INTYPE_POINTER: i32 = 16;
pub const TDH_INTYPE_FILETIME: i32 = 17;
pub const TDH_INTYPE_SYSTEMTIME: i32 = 18;
pub const TDH_INTYPE_SID: i32 = 19;
pub const TDH_INTYPE_HEXINT32: i32 = 20;
pub const TDH_INTYPE_HEXINT64: i32 = 21;
pub const TDH_INTYPE_COUNTEDSTRING: i32 = 300;
pub const TDH_INTYPE_COUNTEDANSISTRING: i32 = 301;
pub const TDH_INTYPE_REVERSEDCOUNTEDSTRING: i32 = 302;
pub const TDH_INTYPE_REVERSEDCOUNTEDANSISTRING: i32 = 303;
pub const TDH_INTYPE_NONNULLTERMINATEDSTRING: i32 = 304;
pub const TDH_INTYPE_NONNULLTERMINATEDANSISTRING: i32 = 305;

/// The field type name, location and size of a TDH in-type; pointers are
/// 4 bytes in 32-bit payloads and 8 otherwise; variable-length types have
/// size 0.
pub open spec fn spec_intype_field_info(in_type: i32, is_32bit: bool) -> (Seq<char>, LocationType, usize) {
    if in_type == TDH_INTYPE_INT8 {
        ("s8"@, LocationType::Static, 1)
    } else if in_type == TDH_INTYPE_UINT8 {
        ("u8"@, LocationType::Static, 1)
    } else if in_type == TDH_INTYPE_INT16 {
        ("s16"@, LocationType::Static, 2)
    } else if in_type == TDH_INTYPE_UINT16 {
        ("u16"@, LocationType::Static, 2)
    } else if in_type == TDH_INTYPE_INT32 || in_type == TDH_INTYPE_HEXINT32 {
        ("s32"@, LocationType::Static, 4)
    } else if in_type == TDH_INTYPE_UINT32 || in_type == TDH_INTYPE_BOOLEAN {
        ("u32"@, LocationType::Static, 4)
    } else if in_type == TDH_INTYPE_INT64 || in_type == TDH_INTYPE_HEXINT64 {
        ("s64"@, LocationType::Static, 8)
    } else if in_type == TDH_INTYPE_UINT64 {
        ("u64"@, LocationType::Static, 8)
    } else if in_type == TDH_INTYPE_FLOAT {
        ("float"@, LocationType::Static, 4)
    } else if in_type == TDH_INTYPE_DOUBLE {
        ("double"@, LocationType::Static, 8)
    } else if in_type == TDH_INTYPE_POINTER {
        ("pointer"@, LocationType::Static, if is_32bit { 4 } else { 8 })
    } else if in_type == TDH_INTYPE_FILETIME {
        ("filetime"@, LocationType::Static, 8)
    } else if in_type == TDH_INTYPE_SYSTEMTIME {
        ("systemtime"@, LocationType::Static, 16)
    } else if in_type == TDH_INTYPE_GUID {
        ("guid"@, LocationType::Static, 16)
    } else if in_type == TDH_INTYPE_ANSISTRING || in_type == TDH_INTYPE_REVERSEDCOUNTEDANSISTRING
        || in_type == TDH_INTYPE_NONNULLTERMINATEDANSISTRING {
        ("string"@, LocationType::StaticString, 0)
    } else if in_type == TDH_INTYPE_UNICODESTRING || in_type == TDH_INTYPE_REVERSEDCOUNTEDSTRING
        || in_type == TDH_INTYPE_NONNULLTERMINATEDSTRING {
        ("wstring"@, LocationType::StaticUTF16String, 0)
    } else if in_type == TDH_INTYPE_COUNTEDSTRING {
        ("counted_wstring"@, LocationType::StaticLenPrefixArray, 0)
    } else if in_type == TDH_INTYPE_COUNTEDANSISTRING {
        ("counted_string"@, LocationType::StaticLenPrefixArray, 0)
    } else if in_type == TDH_INTYPE_SID || in_type == TDH_INTYPE_BINARY {
        ("binary"@, LocationType::Static, 0)
    } else {
        ("unsupported"@, LocationType::Static, 0)
    }
}

/// The field type name, location and size of a TDH in-type.
pub fn intype_to_field_info(in_type: i32, is_32bit: bool) -> (r: (&'static str, LocationType, usize))
    ensures
        (r.0@, r.1, r.2) == spec_intype_field_info(in_type, is_32bit),
{
    if in_type == TDH_INTYPE_INT8 {
        ("s8", LocationType::Static, 1)
    } else if in_type == TDH_INTYPE_UINT8 {
        ("u8", LocationType::Static, 1)
    } else if in_type == TDH_INTYPE_INT16 {
        ("s16", LocationType::Static, 2)
    } else if in_type == TDH_INTYPE_UINT16 {
        ("u16", LocationType::Static, 2)
    } else if in_type == TDH_INTYPE_INT32 || in_type == TDH_INTYPE_HEXINT32 {
        ("s32", LocationType::Static, 4)
    } else if in_type == TDH_INTYPE_UINT32 || in_type == TDH_INTYPE_BOOLEAN {
        ("u32", LocationType::Static, 4)
    } else if in_type == TDH_INTYPE_INT64 || in_type == TDH_INTYPE_HEXINT64 {
        ("s64", LocationType::Static, 8)
    } else if in_type == TDH_INTYPE_UINT64 {
        ("u64", LocationType::Static, 8)
    } else if in_type == TDH_INTYPE_FLOAT {
        ("float", LocationType::Static, 4)
    } else if in_type == TDH_INTYPE_DOUBLE {
        ("double", LocationType::Static, 8)
    } else if in_type == TDH_INTYPE_POINTER {
        ("pointer", LocationType::Static, if is_32bit { 4 } else { 8 })
    } else if in_type == TDH_INTYPE_FILETIME {
        ("filetime", LocationType::Static, 8)
    } else if in_type == TDH_INTYPE_SYSTEMTIME {
        ("systemtime", LocationType::Static, 16)
    } else if in_type == TDH_INTYPE_GUID {
        ("guid", LocationType::Static, 16)
    } else if in_type == TDH_INTYPE_ANSISTRING || in_type == TDH_INTYPE_REVERSEDCOUNTEDANSISTRING
        || in_type == TDH_INTYPE_NONNULLTERMINATEDANSISTRING {
        ("string", LocationType::StaticString, 0)
    } else if in_type == TDH_INTYPE_UNICODESTRING || in_type == TDH_INTYPE_REVERSEDCOUNTEDSTRING
        || in_type == TDH_INTYPE_NONNULLTERMINATEDSTRING {
        ("wstring", LocationType::StaticUTF16String, 0)
    } else if in_type == TDH_INTYPE_COUNTEDSTRING {
        ("counted_wstring", LocationType::StaticLenPrefixArray, 0)
    } else if in_type == TDH_INTYPE_COUNTEDANSISTRING {
        ("counted_string", LocationType::StaticLenPrefixArray, 0)
    } else if in_type == TDH_INTYPE_SID || in_type == TDH_INTYPE_BINARY {
        ("binary", LocationType::Static, 0)
    } else {
        ("unsupported", LocationType::Static, 0)
    }
}

/// The field type name of a TDH in-type (as in a 64-bit payload).
pub fn intype_to_type_name(in_type: i32) -> (name: &'static str)
    ensures
        name@ == spec_intype_field_info(in_type, false).0,
{
    intype_to_field_info(in_type, false).0
}

/// The byte width of a fixed-size TDH in-type, as the TDH documentation
/// defines it; `None` for strings, binary and SID data, whose length comes
/// from the payload, and for unknown in-types.
pub open spec fn intype_byte_width(in_type: i32, is_32bit: bool) -> Option<nat> {
    if in_type == TDH_INTYPE_INT8 || in_type == TDH_INTYPE_UINT8 {
        Some(1)
    } else if in_type == TDH_INTYPE_INT16 || in_type == TDH_INTYPE_UINT16 {
        Some(2)
    } else if in_type == TDH_INTYPE_INT32 || in_type == TDH_INTYPE_UINT32 || in_type == TDH_INTYPE_HEXINT32
        || in_type == TDH_INTYPE_FLOAT || in_type == TDH_INTYPE_BOOLEAN {
        Some(4)
    } else if in_type == TDH_INTYPE_INT64 || in_type == TDH_INTYPE_UINT64 || in_type == TDH_INTYPE_HEXINT64
        || in_type == TDH_INTYPE_DOUBLE || in_type == TDH_INTYPE_FILETIME {
        Some(8)
    } else if in_type == TDH_INTYPE_GUID || in_type == TDH_INTYPE_SYSTEMTIME {
        Some(16)
    } else if in_type == TDH_INTYPE_POINTER {
        Some(if is_32bit { 4nat } else { 8nat })
    } else {
        None
    }
}

/// The byte width of a value of a field type name: 8, 16, 32 and 64-bit
/// integers, `float` and `double`, FILETIME, GUID and SYSTEMTIME, and a
/// pointer of the payload's width.
pub open spec fn type_name_width(name: Seq<char>, is_32bit: bool) -> Option<nat> {
    if name == "s8"@ || name == "u8"@ {
        Some(1)
    } else if name == "s16"@ || name == "u16"@ {
        Some(2)
    } else if name == "s32"@ || name == "u32"@ || name == "float"@ {
        Some(4)
    } else if name == "s64"@ || name == "u64"@ || name == "double"@ || name == "filetime"@ {
        Some(8)
    } else if name == "guid"@ || name == "systemtime"@ {
        Some(16)
    } else if name == "pointer"@ {
        Some(if is_32bit { 4nat } else { 8nat })
    } else {
        None
    }
}

/// A fixed-size in-type becomes a static field whose size is the byte
/// width of the in-type, and of the type its name says; every other
/// in-type has size 0, its length being read from the payload.
pub proof fn lemma_intype_size_is_its_width(in_type: i32, is_32bit: bool)
    ensures
        ({
            let r = spec_intype_field_info(in_type, is_32bit);
            match intype_byte_width(in_type, is_32bit) {
                Some(w) => r.1 == LocationType::Static && r.2 == w && type_name_width(r.0, is_32bit) == Some(w),
                None => r.2 == 0,
            }
        }),
{
    reveal_strlit("s8");
    reveal_strlit("u8");
    reveal_strlit("s16");
    reveal_strlit("u16");
    reveal_strlit("s32");
    reveal_strlit("u32");
    reveal_strlit("float");
    reveal_strlit("s64");
    reveal_strlit("u64");
    reveal_strlit("double");
    reveal_strlit("filetime");
    reveal_strlit("guid");
    reveal_strlit("systemtime");
    reveal_strlit("pointer");
    assert(type_name_width("s8"@, is_32bit) == Some(1nat));
    assert(type_name_width("u8"@, is_32bit) == Some(1nat));
    assert("s8"@.len() == 2 && "u8"@.len() == 2 && "float"@.len() == 5 && "double"@.len() == 6);
    assert("filetime"@.len() == 8 && "guid"@.len() == 4 && "systemtime"@.len() == 10 && "pointer"@.len() == 7);
    assert("s16"@.len() == 3 && "s16"@[0] == 's' && "s16"@[1] == '1');
    assert("u16"@.len() == 3 && "u16"@[0] == 'u' && "u16"@[1] == '1');
    assert("s32"@.len() == 3 && "s32"@[0] == 's' && "s32"@[1] == '3');
    assert("u32"@.len() == 3 && "u32"@[0] == 'u' && "u32"@[1] == '3');
    assert("s64"@.len() == 3 && "s64"@[0] == 's' && "s64"@[1] == '6');
    assert("u64"@.len() == 3 && "u64"@[0] == 'u' && "u64"@[1] == '6');
    assert(type_name_width("s16"@, is_32bit) == Some(2nat));
    assert(type_name_width("u16"@, is_32bit) == Some(2nat));
    assert(type_name_width("s32"@, is_32bit) == Some(4nat));
    assert(type_name_width("u32"@, is_32bit) == Some(4nat));
    assert(type_name_width("float"@, is_32bit) == Some(4nat));
    assert(type_name_width("s64"@, is_32bit) == Some(8nat));
    assert(type_name_width("u64"@, is_32bit) == Some(8nat));
    assert(type_name_width("double"@, is_32bit) == Some(8nat));
    assert(type_name_width("filetime"@, is_32bit) == Some(8nat));
    assert(type_name_width("guid"@, is_32bit) == Some(16nat));
    assert(type_name_width("systemtime"@, is_32bit) == Some(16nat));
    assert(type_name_width("pointer"@, is_32bit) == Some(if is_32bit { 4nat } else { 8nat }));
}

/// Why an event could not be decoded.
#[derive(Debug, Clone, Copy, PartialEq, Eq)]
pub enum TdhDecodeError {
    /// No decodable schema was found for the event.
    NotFound,
    /// The event's schema source is not supported.
    Unsupported,
    /// `TdhGetEventInformation` failed with this Win32 error code.
    Win32(u32),
    /// The event information returned by TDH is malformed.
    Malformed(&'static str),
}

/// The decimal digits of `v`, as characters.
pub open spec fn decimal_chars(v: u64) -> Seq<char> {
    crate::pathbuf_ext::decimal_digits(v as nat).map_values(|d: u8| d as char)
}

impl TdhDecodeError {
    /// The text of the error.
    pub open spec fn spec_message(&self) -> Seq<char> {
        match self {
            TdhDecodeError::NotFound => "no decodable schema found for event"@,
            TdhDecodeError::Unsupported => "event schema source is not supported"@,
            TdhDecodeError::Win32(code) => "TdhGetEventInformation failed with Win32 error "@ + decimal_chars(
                *code as u64,
            ),
            TdhDecodeError::Malformed(msg) => "malformed TRACE_EVENT_INFO: "@ + msg@,
        }
    }

    /// The text of the error, as it is displayed.
    pub fn message(&self) -> (m: String)
        ensures
            m@ == self.spec_message(),
    {
        let mut m = String::new();
        match self {
            TdhDecodeError::NotFound => {
                push_str_chars(&mut m, "no decodable schema found for event");
            },
            TdhDecodeError::Unsupported => {
                push_str_chars(&mut m, "event schema source is not supported");
            },
            TdhDecodeError::Win32(code) => {
                push_str_chars(&mut m, "TdhGetEventInformation failed with Win32 error ");
                push_decimal(&mut m, *code as u64);
            },
            TdhDecodeError::Malformed(msg) => {
                push_str_chars(&mut m, "malformed TRACE_EVENT_INFO: ");
                push_str_chars(&mut m, msg);
            },
        }
        m
    }
}

/// Appends the decimal digits of `v`.
pub(crate) fn push_decimal(out: &mut String, v: u64)
    ensures
        final(out)@ == old(out)@ + decimal_chars(v),
{
    let digits = u64_decimal(v);
    let ghost head = out@;
    let mut i: usize = 0;
    while i < digits.len()
        invariant
            i <= digits@.len(),
            digits@ == crate::pathbuf_ext::decimal_digits(v as nat),
            out@ == head + digits@.take(i as int).map_values(|d: u8| d as char),
        decreases digits@.len() - i,
    {
        string_push(out, digits[i] as char);
        assert(digits@.take(i + 1).map_values(|d: u8| d as char) =~= digits@.take(i as int).map_values(
            |d: u8| d as char,
        ).push(digits@[i as int] as char));
        i = i + 1;
    }
    assert(digits@.take(digits@.len() as int) =~= digits@);
}

/// An identifier given to each distinct decoded schema.
#[derive(Debug, Clone, Copy, PartialEq, Eq, Hash, Structural)]
pub struct SchemaId(pub u64);

/// A decoded schema: the event name, its format, and its identifier.
pub struct CachedSchema {
    pub event_name: String,
    pub format: EventFormat,
    pub schema_id: SchemaId,
}

/// The identity of a manifest event's schema: provider, id and version.
#[derive(Debug, Clone, Copy, PartialEq, Eq)]
pub struct ManifestEventKey {
    pub provider: Guid,
    pub id: u16,
    pub version: u8,
}

/// Whether two manifest keys name the same schema.
pub open spec fn same_key(a: ManifestEventKey, b: ManifestEventKey) -> bool {
    &&& a.provider.data1 == b.provider.data1
    &&& a.provider.data2 == b.provider.data2
    &&& a.provider.data3 == b.provider.data3
    &&& a.provider.data4@ == b.provider.data4@
    &&& a.id == b.id
    &&& a.version == b.version
}

/// Two manifest keys name the same schema exactly when they are equal
/// values: the same provider, the same event id and the same version (a
/// new version of an event may change its layout).
pub proof fn lemma_same_key_is_equality(a: ManifestEventKey, b: ManifestEventKey)
    ensures
        same_key(a, b) <==> a == b,
{
    broadcast use vstd::array::axiom_array_ext_equal;
    if same_key(a, b) {
        assert(a.provider.data4 =~= b.provider.data4);
        assert(a.provider == b.provider);
    }
}

fn keys_equal(a: &ManifestEventKey, b: &ManifestEventKey) -> (r: bool)
    ensures
        r == same_key(*a, *b),
{
    let mut i: usize = 0;
    while i < 8
        invariant
            i <= 8,
            forall|j: int| 0 <= j < i ==> a.provider.data4@[j] == b.provider.data4@[j],
        decreases 8 - i,
    {
        if a.provider.data4[i] != b.provider.data4[i] {
            return false;
        }
        i = i + 1;
    }
    assert(a.provider.data4@ =~= b.provider.data4@);
    a.provider.data1 == b.provider.data1 && a.provider.data2 == b.provider.data2 && a.provider.data3
        == b.provider.data3 && a.id == b.id && a.version == b.version
}

pub(crate) fn bytes_equal(a: &[u8], b: &[u8]) -> (r: bool)
    ensures
        r == (a@ == b@),
{
    if a.len() != b.len() {
        return false;
    }
    let mut i: usize = 0;
    while i < a.len()
        invariant
            a@.len() == b@.len(),
            i <= a@.len(),
            forall|j: int| 0 <= j < i ==> a@[j] == b@[j],
        decreases a@.len() - i,
    {
        if a[i] != b[i] {
            return false;
        }
        i = i + 1;
    }
    assert(a@ =~= b@);
    true
}

/// The index a key list gives a TraceLogging schema: the first entry with
/// the key.
pub open spec fn tl_index(list: Seq<(Seq<u8>, usize)>, key: Seq<u8>) -> Option<usize>
    decreases list.len(),
{
    if list.len() == 0 {
        None
    } else if list[0].0 == key {
        Some(list[0].1)
    } else {
        tl_index(list.drop_first(), key)
    }
}

/// The index a key list gives a manifest schema: the first entry with the
/// key.
pub open spec fn manifest_index(list: Seq<(ManifestEventKey, usize)>, key: ManifestEventKey) -> Option<usize>
    decreases list.len(),
{
    if list.len() == 0 {
        None
    } else if same_key(list[0].0, key) {
        Some(list[0].1)
    } else {
        manifest_index(list.drop_first(), key)
    }
}

/// Decoded schemas in one append-only arena, indexed by TraceLogging schema
/// bytes and by manifest event identity, each split by pointer width, with
/// the manifest keys known to be unsupported.
pub struct SchemaCache {
    schemas: Vec<CachedSchema>,
    tl_64: Vec<(Vec<u8>, usize)>,
    tl_32: Vec<(Vec<u8>, usize)>,
    manifest_64: Vec<(ManifestEventKey, usize)>,
    manifest_32: Vec<(ManifestEventKey, usize)>,
    manifest_unsupported: Vec<ManifestEventKey>,
}

impl SchemaCache {
    /// The schemas in the arena.
    pub closed spec fn spec_schemas(&self) -> Seq<CachedSchema> {
        self.schemas@
    }

    pub closed spec fn tl_list(&self, is_32bit: bool) -> Seq<(Seq<u8>, usize)> {
        let l = if is_32bit { self.tl_32@ } else { self.tl_64@ };
        l.map_values(|e: (Vec<u8>, usize)| (e.0@, e.1))
    }

    pub closed spec fn manifest_list(&self, is_32bit: bool) -> Seq<(ManifestEventKey, usize)> {
        if is_32bit { self.manifest_32@ } else { self.manifest_64@ }
    }

    /// The index of a TraceLogging schema, if cached.
    pub open spec fn spec_index_of_tl(&self, key: Seq<u8>, is_32bit: bool) -> Option<usize> {
        tl_index(self.tl_list(is_32bit), key)
    }

    /// The index of a manifest schema, if cached.
    pub open spec fn spec_index_of_manifest(&self, key: ManifestEventKey, is_32bit: bool) -> Option<usize> {
        manifest_index(self.manifest_list(is_32bit), key)
    }

    /// Whether a manifest key is known to be unsupported.
    pub closed spec fn spec_unsupported(&self, key: ManifestEventKey) -> bool {
        exists|i: int| 0 <= i < self.manifest_unsupported@.len() && same_key(self.manifest_unsupported@[i], key)
    }

    /// Whether this cache grew from `earlier` without changing what it
    /// held: the arena starts with the earlier schemas, and every source
    /// the earlier cache indexed keeps its index.
    pub open spec fn extends(&self, earlier: SchemaCache) -> bool {
        &&& earlier.spec_schemas().len() <= self.spec_schemas().len()
        &&& self.spec_schemas().take(earlier.spec_schemas().len() as int) == earlier.spec_schemas()
        &&& forall|k: Seq<u8>, b: bool| #[trigger] earlier.spec_index_of_tl(k, b) is Some
            ==> self.spec_index_of_tl(k, b) == earlier.spec_index_of_tl(k, b)
        &&& forall|k: ManifestEventKey, b: bool| #[trigger] earlier.spec_index_of_manifest(k, b) is Some
            ==> self.spec_index_of_manifest(k, b) == earlier.spec_index_of_manifest(k, b)
    }

    /// The number of entries in a key list: the TraceLogging list (`tl`) or
    /// the manifest list, of one pointer width.
    pub closed spec fn entry_count(&self, tl: bool, is_32bit: bool) -> int {
        if tl {
            self.tl_list(is_32bit).len() as int
        } else {
            self.manifest_list(is_32bit).len() as int
        }
    }

    /// The arena index held by entry `i` of a key list.
    pub closed spec fn entry_slot(&self, tl: bool, is_32bit: bool, i: int) -> usize {
        if tl {
            self.tl_list(is_32bit)[i].1
        } else {
            self.manifest_list(is_32bit)[i].1
        }
    }

    /// No two entries of the key lists share an arena index.
    pub closed spec fn slots_distinct(&self) -> bool {
        forall|t1: bool, b1: bool, i: int, t2: bool, b2: bool, j: int|
            0 <= i < self.entry_count(t1, b1) && 0 <= j < self.entry_count(t2, b2) && #[trigger] self.entry_slot(
                t1,
                b1,
                i,
            ) == #[trigger] self.entry_slot(t2, b2, j) ==> t1 == t2 && b1 == b2 && i == j
    }

    /// Every index in the key lists names a schema of the arena, and no two
    /// entries name the same one.
    pub open spec fn wf(&self) -> bool {
        &&& forall|b: bool, i: int| 0 <= i < self.tl_list(b).len() ==> (#[trigger] self.tl_list(b)[i]).1
            < self.spec_schemas().len()
        &&& forall|b: bool, i: int| 0 <= i < self.manifest_list(b).len() ==> (#[trigger] self.manifest_list(
            b,
        )[i]).1 < self.spec_schemas().len()
        &&& self.slots_distinct()
    }

    pub fn new() -> (c: Self)
        ensures
            c.wf(),
            c.spec_schemas().len() == 0,
            forall|k: Seq<u8>, b: bool| c.spec_index_of_tl(k, b) is None,
            forall|k: ManifestEventKey, b: bool| c.spec_index_of_manifest(k, b) is None,
            forall|k: ManifestEventKey| !c.spec_unsupported(k),
    {
        let c = Self {
            schemas: Vec::new(),
            tl_64: Vec::new(),
            tl_32: Vec::new(),
            manifest_64: Vec::new(),
            manifest_32: Vec::new(),
            manifest_unsupported: Vec::new(),
        };
        assert forall|b: bool| c.tl_list(b).len() == 0 by {}
        c
    }

    fn find_tl(list: &Vec<(Vec<u8>, usize)>, key: &[u8]) -> (r: Option<usize>)
        ensures
            r == tl_index(list@.map_values(|e: (Vec<u8>, usize)| (e.0@, e.1)), key@),
    {
        let ghost views = list@.map_values(|e: (Vec<u8>, usize)| (e.0@, e.1));
        let mut i: usize = 0;
        assert(views.skip(0) =~= views);
        while i < list.len()
            invariant
                i <= list@.len(),
                views == list@.map_values(|e: (Vec<u8>, usize)| (e.0@, e.1)),
                tl_index(views, key@) == tl_index(views.skip(i as int), key@),
            decreases list@.len() - i,
        {
            assert(views.skip(i as int)[0] == views[i as int]);
            assert(views.skip(i as int).drop_first() =~= views.skip(i + 1));
            if bytes_equal(list[i].0.as_slice(), key) {
                return Some(list[i].1);
            }
            i = i + 1;
        }
        None
    }

    fn find_manifest(list: &Vec<(ManifestEventKey, usize)>, key: &ManifestEventKey) -> (r: Option<usize>)
        ensures
            r == manifest_index(list@, *key),
    {
        let mut i: usize = 0;
        assert(list@.skip(0) =~= list@);
        while i < list.len()
            invariant
                i <= list@.len(),
                manifest_index(list@, *key) == manifest_index(list@.skip(i as int), *key),
            decreases list@.len() - i,
        {
            assert(list@.skip(i as int)[0] == list@[i as int]);
            assert(list@.skip(i as int).drop_first() =~= list@.skip(i + 1));
            if keys_equal(&list[i].0, key) {
                return Some(list[i].1);
            }
            i = i + 1;
        }
        None
    }

    /// The index of a cached TraceLogging schema.
    pub fn index_of_tl(&self, key: &[u8], is_32bit: bool) -> (r: Option<usize>)
        ensures
            r == self.spec_index_of_tl(key@, is_32bit),
    {
        if is_32bit {
            Self::find_tl(&self.tl_32, key)
        } else {
            Self::find_tl(&self.tl_64, key)
        }
    }

    /// The index of a cached manifest schema.
    pub fn index_of_manifest(&self, key: &ManifestEventKey, is_32bit: bool) -> (r: Option<usize>)
        ensures
            r == self.spec_index_of_manifest(*key, is_32bit),
    {
        if is_32bit {
            Self::find_manifest(&self.manifest_32, key)
        } else {
            Self::find_manifest(&self.manifest_64, key)
        }
    }

    /// Whether a manifest key was marked unsupported.
    pub fn is_manifest_unsupported(&self, key: &ManifestEventKey) -> (b: bool)
        ensures
            b == self.spec_unsupported(*key),
    {
        let mut i: usize = 0;
        while i < self.manifest_unsupported.len()
            invariant
                i <= self.manifest_unsupported@.len(),
                forall|j: int| 0 <= j < i ==> !same_key(self.manifest_unsupported@[j], *key),
            decreases self.manifest_unsupported@.len() - i,
        {
            if keys_equal(&self.manifest_unsupported[i], key) {
                return true;
            }
            i = i + 1;
        }
        false
    }

    /// Marks a manifest key unsupported; nothing else changes.
    #[verifier::spinoff_prover]
    pub fn mark_manifest_unsupported(&mut self, key: ManifestEventKey)
        requires
            old(self).wf(),
        ensures
            final(self).wf(),
            final(self).extends(*old(self)),
            final(self).spec_schemas() == old(self).spec_schemas(),
            forall|b: bool| final(self).tl_list(b) == old(self).tl_list(b),
            forall|b: bool| final(self).manifest_list(b) == old(self).manifest_list(b),
            forall|k: ManifestEventKey| #[trigger] final(self).spec_unsupported(k) == (old(self).spec_unsupported(k)
                || same_key(key, k)),
    {
        proof {
            old(self).lemma_extends_refl();
        }
        if !self.is_manifest_unsupported(&key) {
            let ghost before = self.manifest_unsupported@;
            self.manifest_unsupported.push(key);
            proof {
                Self::lemma_same_lists(self, old(self));
                Self::lemma_same_slots(old(self), self);
            }
            assert forall|k: ManifestEventKey| #[trigger] self.spec_unsupported(k) == (old(self).spec_unsupported(k)
                || same_key(key, k)) by {
                if old(self).spec_unsupported(k) {
                    let i = choose|i: int| 0 <= i < before.len() && same_key(before[i], k);
                    assert(self.manifest_unsupported@[i] == before[i]);
                }
                if same_key(key, k) {
                    assert(self.manifest_unsupported@[before.len() as int] == key);
                }
                if self.spec_unsupported(k) {
                    let i = choose|i: int| 0 <= i < self.manifest_unsupported@.len() && same_key(
                        self.manifest_unsupported@[i],
                        k,
                    );
                    if i < before.len() {
                        assert(before[i] == self.manifest_unsupported@[i]);
                        assert(old(self).spec_unsupported(k));
                    } else {
                        assert(self.manifest_unsupported@[i] == key);
                    }
                }
            }
        } else {
            assert(self.manifest_unsupported@ == old(self).manifest_unsupported@);
            assert forall|k: ManifestEventKey| #[trigger] self.spec_unsupported(k) == (old(self).spec_unsupported(k)
                || same_key(key, k)) by {
                if same_key(key, k) {
                    let i = choose|i: int| 0 <= i < self.manifest_unsupported@.len() && same_key(
                        self.manifest_unsupported@[i],
                        key,
                    );
                    lemma_same_key_is_equality(self.manifest_unsupported@[i], key);
                    lemma_same_key_is_equality(key, k);
                    assert(same_key(old(self).manifest_unsupported@[i], k));
                }
            }
            assert forall|k: ManifestEventKey| same_key(key, k) implies old(self).spec_unsupported(k) by {
                let i = choose|i: int| 0 <= i < self.manifest_unsupported@.len() && same_key(
                    self.manifest_unsupported@[i],
                    key,
                );
                lemma_same_key_is_equality(self.manifest_unsupported@[i], key);
                lemma_same_key_is_equality(key, k);
                assert(old(self).manifest_unsupported@[i] == self.manifest_unsupported@[i]);
                assert(same_key(old(self).manifest_unsupported@[i], k));
            }
        }
    }

    /// Gives `key` an index: the one it has, or (when it has none) the
    /// next arena slot, where `schema` is stored.
    pub fn insert_tl(&mut self, key: Vec<u8>, is_32bit: bool, schema: CachedSchema) -> (idx: usize)
        requires
            old(self).wf(),
        ensures
            final(self).wf(),
            final(self).extends(*old(self)),
            final(self).spec_index_of_tl(key@, is_32bit) == Some(idx),
            forall|b: bool| final(self).manifest_list(b) == old(self).manifest_list(b),
            forall|k: ManifestEventKey| final(self).spec_unsupported(k) == old(self).spec_unsupported(k),
            old(self).spec_index_of_tl(key@, is_32bit) matches Some(i) ==> {
                &&& idx == i
                &&& final(self).spec_schemas() == old(self).spec_schemas()
                &&& forall|b: bool| final(self).tl_list(b) == old(self).tl_list(b)
            },
            old(self).spec_index_of_tl(key@, is_32bit) is None ==> {
                &&& idx == old(self).spec_schemas().len()
                &&& final(self).spec_schemas() == old(self).spec_schemas().push(schema)
                &&& final(self).tl_list(is_32bit) == old(self).tl_list(is_32bit).push((key@, idx))
                &&& final(self).tl_list(!is_32bit) == old(self).tl_list(!is_32bit)
            },
    {
        let idx = self.schemas.len();
        let found = self.index_of_tl(key.as_slice(), is_32bit);
        proof {
            Self::lemma_same_lists(self, old(self));
        }
        match found {
            Some(i) => {
                assert(self.spec_schemas().take(self.spec_schemas().len() as int) =~= self.spec_schemas());
                i
            },
            None => {
                let ghost kv = key@;
                let ghost before = self.tl_list(is_32bit);
                if is_32bit {
                    self.tl_32.push((key, idx));
                } else {
                    self.tl_64.push((key, idx));
                }
                self.schemas.push(schema);
                assert(self.tl_list(is_32bit) =~= before.push((kv, idx)));
                assert(self.spec_schemas().take(old(self).spec_schemas().len() as int) =~= old(self).spec_schemas());
                assert forall|k: Seq<u8>, b: bool| #[trigger] old(self).spec_index_of_tl(k, b) is Some implies self.spec_index_of_tl(
                    k,
                    b,
                ) == old(self).spec_index_of_tl(k, b) by {
                    if b == is_32bit {
                        lemma_tl_index_push_keeps(before, (kv, idx), k);
                    }
                }
                proof {
                    lemma_tl_index_push(before, kv, idx);
                    assert(self.tl_list(!is_32bit) == old(self).tl_list(!is_32bit));
                    assert forall|b: bool| self.manifest_list(b) == old(self).manifest_list(b) by {}
                    assert(self.manifest_unsupported@ == old(self).manifest_unsupported@);
                    assert forall|k: ManifestEventKey| self.spec_unsupported(k) == old(self).spec_unsupported(k) by {
                        if self.spec_unsupported(k) {
                            let i = choose|i: int| 0 <= i < self.manifest_unsupported@.len() && same_key(
                                self.manifest_unsupported@[i],
                                k,
                            );
                            assert(old(self).manifest_unsupported@[i] == self.manifest_unsupported@[i]);
                        }
                        if old(self).spec_unsupported(k) {
                            let i = choose|i: int| 0 <= i < old(self).manifest_unsupported@.len() && same_key(
                                old(self).manifest_unsupported@[i],
                                k,
                            );
                            assert(old(self).manifest_unsupported@[i] == self.manifest_unsupported@[i]);
                        }
                    }
                    assert forall|b: bool, i: int| 0 <= i < self.tl_list(b).len() implies (#[trigger] self.tl_list(b)[i]).1
                        < self.spec_schemas().len() by {
                        if b == is_32bit && i == before.len() {
                        } else {
                            assert(self.tl_list(b)[i] == old(self).tl_list(b)[i]);
                        }
                    }
                    assert forall|b: bool, i: int| 0 <= i < self.manifest_list(b).len() implies (#[trigger] self.manifest_list(
                        b,
                    )[i]).1 < self.spec_schemas().len() by {
                        assert(self.manifest_list(b)[i] == old(self).manifest_list(b)[i]);
                    }
                    Self::lemma_push_slot_facts(old(self), self, true, is_32bit);
                }
                idx
            },
        }
    }

    /// Gives a manifest `key` an index, as `insert_tl` does.
    pub fn insert_manifest(&mut self, key: ManifestEventKey, is_32bit: bool, schema: CachedSchema) -> (idx: usize)
        requires
            old(self).wf(),
        ensures
            final(self).wf(),
            final(self).extends(*old(self)),
            final(self).spec_index_of_manifest(key, is_32bit) == Some(idx),
            forall|b: bool| final(self).tl_list(b) == old(self).tl_list(b),
            forall|k: ManifestEventKey| final(self).spec_unsupported(k) == old(self).spec_unsupported(k),
            old(self).spec_index_of_manifest(key, is_32bit) matches Some(i) ==> {
                &&& idx == i
                &&& final(self).spec_schemas() == old(self).spec_schemas()
                &&& forall|b: bool| final(self).manifest_list(b) == old(self).manifest_list(b)
            },
            old(self).spec_index_of_manifest(key, is_32bit) is None ==> {
                &&& idx == old(self).spec_schemas().len()
                &&& final(self).spec_schemas() == old(self).spec_schemas().push(schema)
                &&& final(self).manifest_list(is_32bit) == old(self).manifest_list(is_32bit).push((key, idx))
                &&& final(self).manifest_list(!is_32bit) == old(self).manifest_list(!is_32bit)
            },
    {
        let idx = self.schemas.len();
        let found = self.index_of_manifest(&key, is_32bit);
        proof {
            Self::lemma_same_lists(self, old(self));
        }
        match found {
            Some(i) => {
                assert(self.spec_schemas().take(self.spec_schemas().len() as int) =~= self.spec_schemas());
                i
            },
            None => {
                let ghost before = self.manifest_list(is_32bit);
                if is_32bit {
                    self.manifest_32.push((key, idx));
                } else {
                    self.manifest_64.push((key, idx));
                }
                self.schemas.push(schema);
                assert(self.manifest_list(is_32bit) =~= before.push((key, idx)));
                assert(self.spec_schemas().take(old(self).spec_schemas().len() as int) =~= old(self).spec_schemas());
                assert forall|k: ManifestEventKey, b: bool| #[trigger] old(self).spec_index_of_manifest(k, b) is Some implies self.spec_index_of_manifest(
                    k,
                    b,
                ) == old(self).spec_index_of_manifest(k, b) by {
                    if b == is_32bit {
                        lemma_manifest_index_push_keeps(before, (key, idx), k);
                    } else {
                        assert(self.manifest_list(b) == old(self).manifest_list(b));
                    }
                }
                proof {
                    lemma_manifest_index_push(before, key, idx);
                    assert(self.manifest_list(is_32bit) =~= before.push((key, idx)));
                    assert(self.manifest_list(!is_32bit) == old(self).manifest_list(!is_32bit));
                    assert forall|b: bool| self.tl_list(b) == old(self).tl_list(b) by {}
                    assert(self.manifest_unsupported@ == old(self).manifest_unsupported@);
                    assert forall|k: ManifestEventKey| self.spec_unsupported(k) == old(self).spec_unsupported(k) by {
                        if self.spec_unsupported(k) {
                            let i = choose|i: int| 0 <= i < self.manifest_unsupported@.len() && same_key(
                                self.manifest_unsupported@[i],
                                k,
                            );
                            assert(old(self).manifest_unsupported@[i] == self.manifest_unsupported@[i]);
                        }
                        if old(self).spec_unsupported(k) {
                            let i = choose|i: int| 0 <= i < old(self).manifest_unsupported@.len() && same_key(
                                old(self).manifest_unsupported@[i],
                                k,
                            );
                            assert(old(self).manifest_unsupported@[i] == self.manifest_unsupported@[i]);
                        }
                    }
                    assert forall|b: bool, i: int| 0 <= i < self.manifest_list(b).len() implies (#[trigger] self.manifest_list(
                        b,
                    )[i]).1 < self.spec_schemas().len() by {
                        if b == is_32bit && i == before.len() {
                        } else {
                            assert(self.manifest_list(b)[i] == old(self).manifest_list(b)[i]);
                        }
                    }
                    assert forall|b: bool, i: int| 0 <= i < self.tl_list(b).len() implies (#[trigger] self.tl_list(b)[i]).1
                        < self.spec_schemas().len() by {
                        assert(self.tl_list(b)[i] == old(self).tl_list(b)[i]);
                    }
                    Self::lemma_push_slot_facts(old(self), self, false, is_32bit);
                }
                idx
            },
        }
    }

    /// The schema at an index of the arena.
    pub fn get(&self, idx: usize) -> (s: &CachedSchema)
        requires
            idx < self.spec_schemas().len(),
        ensures
            *s == self.spec_schemas()[idx as int],
    {
        &self.schemas[idx]
    }

    /// The number of schemas in the arena.
    pub fn len(&self) -> (n: usize)
        ensures
            n == self.spec_schemas().len(),
    {
        self.schemas.len()
    }
}

impl SchemaCache {
    /// Caches with the same key lists index and mark the same.
    proof fn lemma_same_lists(a: &Self, b: &Self)
        requires
            a.tl_32@ == b.tl_32@,
            a.tl_64@ == b.tl_64@,
            a.manifest_32@ == b.manifest_32@,
            a.manifest_64@ == b.manifest_64@,
        ensures
            forall|x: bool| a.tl_list(x) == b.tl_list(x),
            forall|x: bool| a.manifest_list(x) == b.manifest_list(x),
            a.manifest_unsupported@ == b.manifest_unsupported@ ==> forall|k: ManifestEventKey|
                a.spec_unsupported(k) == b.spec_unsupported(k),
    {
        assert forall|x: bool| a.tl_list(x) == b.tl_list(x) by {}
        assert forall|x: bool| a.manifest_list(x) == b.manifest_list(x) by {}
    }

    /// Key lists that are the same give the same slots.
    proof fn lemma_same_slots(a: &Self, b: &Self)
        requires
            a.slots_distinct(),
            forall|x: bool| a.tl_list(x) == b.tl_list(x),
            forall|x: bool| a.manifest_list(x) == b.manifest_list(x),
        ensures
            b.slots_distinct(),
    {
        assert forall|t1: bool, b1: bool, i: int, t2: bool, b2: bool, j: int|
            0 <= i < b.entry_count(t1, b1) && 0 <= j < b.entry_count(t2, b2) && #[trigger] b.entry_slot(
                t1,
                b1,
                i,
            ) == #[trigger] b.entry_slot(t2, b2, j) implies t1 == t2 && b1 == b2 && i == j by {
            assert(a.entry_count(t1, b1) == b.entry_count(t1, b1));
            assert(a.entry_count(t2, b2) == b.entry_count(t2, b2));
            assert(a.entry_slot(t1, b1, i) == b.entry_slot(t1, b1, i));
            assert(a.entry_slot(t2, b2, j) == b.entry_slot(t2, b2, j));
        }
    }

    /// Every slot of a well-formed cache lies in the arena.
    proof fn lemma_slot_in_arena(c: &Self, t: bool, x: bool, i: int)
        requires
            c.wf(),
            0 <= i < c.entry_count(t, x),
        ensures
            c.entry_slot(t, x, i) < c.spec_schemas().len(),
    {
        if t {
            assert(c.tl_list(x)[i].1 < c.spec_schemas().len());
        } else {
            assert(c.manifest_list(x)[i].1 < c.spec_schemas().len());
        }
    }

    /// One key list grew by an entry naming the next arena slot, the others
    /// stayed: the slots stay distinct.
    proof fn lemma_push_slot_facts(before: &Self, after: &Self, tl: bool, is_32bit: bool)
        requires
            before.wf(),
            tl ==> after.tl_list(is_32bit).len() == before.tl_list(is_32bit).len() + 1,
            tl ==> forall|i: int| 0 <= i < before.tl_list(is_32bit).len() ==> after.tl_list(is_32bit)[i]
                == before.tl_list(is_32bit)[i],
            tl ==> after.tl_list(is_32bit)[before.tl_list(is_32bit).len() as int].1 == before.spec_schemas().len(),
            tl ==> after.tl_list(!is_32bit) == before.tl_list(!is_32bit),
            tl ==> forall|x: bool| after.manifest_list(x) == before.manifest_list(x),
            !tl ==> after.manifest_list(is_32bit).len() == before.manifest_list(is_32bit).len() + 1,
            !tl ==> forall|i: int| 0 <= i < before.manifest_list(is_32bit).len() ==> after.manifest_list(is_32bit)[i]
                == before.manifest_list(is_32bit)[i],
            !tl ==> after.manifest_list(is_32bit)[before.manifest_list(is_32bit).len() as int].1
                == before.spec_schemas().len(),
            !tl ==> after.manifest_list(!is_32bit) == before.manifest_list(!is_32bit),
            !tl ==> forall|x: bool| after.tl_list(x) == before.tl_list(x),
        ensures
            after.slots_distinct(),
    {
        assert forall|t: bool, x: bool| (t != tl || x != is_32bit) implies #[trigger] after.entry_count(t, x)
            == before.entry_count(t, x) by {
            if x != is_32bit {
                assert(x == !is_32bit);
            }
        }
        assert forall|t: bool, x: bool, i: int| 0 <= i < before.entry_count(t, x) implies #[trigger] after.entry_slot(
            t,
            x,
            i,
        ) == before.entry_slot(t, x, i) by {
            if x != is_32bit {
                assert(x == !is_32bit);
            }
        }
        let n = before.entry_count(tl, is_32bit);
        if tl {
            assert(after.tl_list(is_32bit)[n].1 == before.spec_schemas().len());
        } else {
            assert(after.manifest_list(is_32bit)[n].1 == before.spec_schemas().len());
        }
        Self::lemma_slots_after_push(before, after, tl, is_32bit);
    }

    /// Appending to one key list an entry that names a new arena slot keeps
    /// the slots distinct.
    proof fn lemma_slots_after_push(before: &Self, after: &Self, tl: bool, is_32bit: bool)
        requires
            before.wf(),
            after.entry_count(tl, is_32bit) == before.entry_count(tl, is_32bit) + 1,
            after.entry_slot(tl, is_32bit, before.entry_count(tl, is_32bit)) == before.spec_schemas().len(),
            forall|t: bool, x: bool| (t != tl || x != is_32bit) ==> #[trigger] after.entry_count(t, x)
                == before.entry_count(t, x),
            forall|t: bool, x: bool, i: int| 0 <= i < before.entry_count(t, x) ==> #[trigger] after.entry_slot(t, x, i)
                == before.entry_slot(t, x, i),
        ensures
            after.slots_distinct(),
    {
        let n = before.entry_count(tl, is_32bit);
        assert forall|t1: bool, b1: bool, i: int, t2: bool, b2: bool, j: int|
            0 <= i < after.entry_count(t1, b1) && 0 <= j < after.entry_count(t2, b2) && #[trigger] after.entry_slot(
                t1,
                b1,
                i,
            ) == #[trigger] after.entry_slot(t2, b2, j) implies t1 == t2 && b1 == b2 && i == j by {
            let new1 = t1 == tl && b1 == is_32bit && i == n;
            let new2 = t2 == tl && b2 == is_32bit && j == n;
            if !new1 {
                assert(after.entry_count(t1, b1) == before.entry_count(t1, b1) || (t1 == tl && b1 == is_32bit));
                assert(i < before.entry_count(t1, b1));
                Self::lemma_slot_in_arena(before, t1, b1, i);
            }
            if !new2 {
                assert(after.entry_count(t2, b2) == before.entry_count(t2, b2) || (t2 == tl && b2 == is_32bit));
                assert(j < before.entry_count(t2, b2));
                Self::lemma_slot_in_arena(before, t2, b2, j);
            }
            if !new1 && !new2 {
                assert(before.entry_slot(t1, b1, i) == before.entry_slot(t2, b2, j));
            }
        }
    }
}

/// A key list with a new key appended gives it the new index.
proof fn lemma_tl_index_push(list: Seq<(Seq<u8>, usize)>, key: Seq<u8>, idx: usize)
    requires
        tl_index(list, key) is None,
    ensures
        tl_index(list.push((key, idx)), key) == Some(idx),
    decreases list.len(),
{
    if list.len() > 0 {
        assert(list.push((key, idx)).drop_first() =~= list.drop_first().push((key, idx)));
        lemma_tl_index_push(list.drop_first(), key, idx);
    }
}

/// Appending an entry keeps the index of every key already listed.
proof fn lemma_tl_index_push_keeps(list: Seq<(Seq<u8>, usize)>, entry: (Seq<u8>, usize), key: Seq<u8>)
    ensures
        tl_index(list, key) is Some ==> tl_index(list.push(entry), key) == tl_index(list, key),
    decreases list.len(),
{
    if list.len() > 0 {
        assert(list.push(entry).drop_first() =~= list.drop_first().push(entry));
        lemma_tl_index_push_keeps(list.drop_first(), entry, key);
    }
}

/// Appending an entry keeps the index of every key already listed.
proof fn lemma_manifest_index_push_keeps(
    list: Seq<(ManifestEventKey, usize)>,
    entry: (ManifestEventKey, usize),
    key: ManifestEventKey,
)
    ensures
        manifest_index(list, key) is Some ==> manifest_index(list.push(entry), key) == manifest_index(list, key),
    decreases list.len(),
{
    if list.len() > 0 {
        assert(list.push(entry).drop_first() =~= list.drop_first().push(entry));
        lemma_manifest_index_push_keeps(list.drop_first(), entry, key);
    }
}

proof fn lemma_manifest_index_push(list: Seq<(ManifestEventKey, usize)>, key: ManifestEventKey, idx: usize)
    requires
        manifest_index(list, key) is None,
    ensures
        manifest_index(list.push((key, idx)), key) == Some(idx),
    decreases list.len(),
{
    if list.len() > 0 {
        assert(list.push((key, idx)).drop_first() =~= list.drop_first().push((key, idx)));
        lemma_manifest_index_push(list.drop_first(), key, idx);
    }
}

} // verus!

verus! {

/// The property is a structure whose members follow in the property array.
pub const PROPERTY_STRUCT: u32 = 0x1;
/// The property's length is given by another property.
pub const PROPERTY_PARAM_LENGTH: u32 = 0x2;
/// The property's element count is given by another property.
pub const PROPERTY_PARAM_COUNT: u32 = 0x4;
/// The deepest nesting of structure properties a schema may have.
pub const MAX_STRUCT_DEPTH: usize = 8;

/// What a schema walk reads of one TDH property: the name read from the
/// event information (empty when it has none), the property flags, and
/// the values of the property's unions that the walk uses.
pub struct PropertyInfo {
    pub name: String,
    pub flags: u32,
    pub in_type: u16,
    pub struct_start_index: u16,
    pub num_struct_members: u16,
    pub count: u16,
    pub length: u16,
}


/// The state of a schema walk: the fields so far, the running offset,
/// whether a variable-length field was seen, and the error that stopped
/// the walk, if any.
pub type WalkState = (Seq<(Seq<char>, Seq<char>, LocationType, usize, usize)>, int, bool, Option<Seq<char>>);

/// The name of property `i` under `prefix`: its own name, or `field` and
/// its index when it has none, after the prefix and a dot.
pub open spec fn property_field_name(prefix: Seq<char>, name: Seq<char>, i: int) -> Seq<char> {
    let n = if name.len() == 0 { "field"@ + decimal_chars(i as u64) } else { name };
    if prefix.len() == 0 { n } else { prefix + "."@ + n }
}

/// Whether an in-type is a string whose length varies from event to event.
pub open spec fn is_variable_intype(in_type: i32) -> bool {
    in_type == TDH_INTYPE_UNICODESTRING || in_type == TDH_INTYPE_ANSISTRING
        || in_type == TDH_INTYPE_COUNTEDSTRING || in_type == TDH_INTYPE_COUNTEDANSISTRING
        || in_type == TDH_INTYPE_REVERSEDCOUNTEDSTRING || in_type == TDH_INTYPE_REVERSEDCOUNTEDANSISTRING
        || in_type == TDH_INTYPE_NONNULLTERMINATEDSTRING || in_type == TDH_INTYPE_NONNULLTERMINATEDANSISTRING
}

/// The byte length a property states for itself, when the walk uses it:
/// not for variable-length strings, nor when another property gives the
/// length, nor when it is zero.
pub open spec fn explicit_length(p: PropertyInfo) -> Option<usize> {
    if is_variable_intype(p.in_type as i32) {
        None
    } else if p.flags & PROPERTY_PARAM_LENGTH == 0 {
        if p.length > 0 { Some(p.length as usize) } else { None }
    } else {
        None
    }
}

/// The walk state after a leaf property named `qn`. After the first
/// variable-length field every offset is 0 and the running offset stays.
pub open spec fn leaf_step(p: PropertyInfo, qn: Seq<char>, st: WalkState, is_32bit: bool) -> WalkState {
    let off = if st.2 { 0 } else { st.1 };
    match explicit_length(p) {
        Some(len) => (
            st.0.push((qn, spec_intype_field_info(p.in_type as i32, false).0, LocationType::Static, off as usize, len)),
            if st.2 { st.1 } else { st.1 + len },
            st.2,
            st.3,
        ),
        None => {
            let info = spec_intype_field_info(p.in_type as i32, is_32bit);
            (
                st.0.push((qn, info.0, info.1, off as usize, info.2)),
                if info.2 == 0 || st.2 { st.1 } else { st.1 + info.2 },
                st.2 || info.2 == 0,
                st.3,
            )
        },
    }
}

/// The walk of properties `i..end` under `prefix` at structure depth
/// `depth`: structures are flattened, their members named after them;
/// arrays with a count other than one are recorded as unsupported; the
/// walk stops at the first error.
pub open spec fn walk_spec(
    props: Seq<PropertyInfo>,
    i: int,
    end: int,
    prefix: Seq<char>,
    st: WalkState,
    is_32bit: bool,
    depth: int,
) -> WalkState
    decreases MAX_STRUCT_DEPTH - depth, end - i,
{
    if i >= end || st.3 is Some {
        st
    } else if i >= props.len() {
        (st.0, st.1, st.2, Some("property index out of bounds"@))
    } else {
        let p = props[i];
        let qn = property_field_name(prefix, p.name@, i);
        if p.flags & PROPERTY_STRUCT != 0 {
            if depth >= MAX_STRUCT_DEPTH {
                (st.0, st.1, st.2, Some("struct nesting depth exceeded"@))
            } else {
                let start = p.struct_start_index as int;
                let inner = walk_spec(props, start, start + p.num_struct_members, qn, st, is_32bit, depth + 1);
                walk_spec(props, i + 1, end, prefix, inner, is_32bit, depth)
            }
        } else if p.flags & PROPERTY_PARAM_COUNT != 0 && p.count != 1 {
            let off = if st.2 { 0 } else { st.1 };
            let next = (st.0.push((qn, "unsupported"@, LocationType::Static, off as usize, 0usize)), st.1, true, st.3);
            walk_spec(props, i + 1, end, prefix, next, is_32bit, depth)
        } else {
            walk_spec(props, i + 1, end, prefix, leaf_step(p, qn, st, is_32bit), is_32bit, depth)
        }
    }
}

/// The running offset never goes down during a walk.
proof fn lemma_walk_offset_grows(
    props: Seq<PropertyInfo>,
    i: int,
    end: int,
    prefix: Seq<char>,
    st: WalkState,
    is_32bit: bool,
    depth: int,
)
    ensures
        walk_spec(props, i, end, prefix, st, is_32bit, depth).1 >= st.1,
    decreases MAX_STRUCT_DEPTH - depth, end - i,
{
    if i >= end || st.3 is Some || i >= props.len() {
    } else {
        let p = props[i];
        let qn = property_field_name(prefix, p.name@, i);
        if p.flags & PROPERTY_STRUCT != 0 {
            if depth < MAX_STRUCT_DEPTH {
                let start = p.struct_start_index as int;
                lemma_walk_offset_grows(props, start, start + p.num_struct_members, qn, st, is_32bit, depth + 1);
                let inner = walk_spec(props, start, start + p.num_struct_members, qn, st, is_32bit, depth + 1);
                lemma_walk_offset_grows(props, i + 1, end, prefix, inner, is_32bit, depth);
            }
        } else if p.flags & PROPERTY_PARAM_COUNT != 0 && p.count != 1 {
            let off = if st.2 { 0 } else { st.1 };
            let next = (st.0.push((qn, "unsupported"@, LocationType::Static, off as usize, 0usize)), st.1, true, st.3);
            lemma_walk_offset_grows(props, i + 1, end, prefix, next, is_32bit, depth);
        } else {
            lemma_walk_offset_grows(props, i + 1, end, prefix, leaf_step(p, qn, st, is_32bit), is_32bit, depth);
        }
    }
}

/// The name of property `i` under `prefix`.
fn qualified_property_name(prefix: &str, name: &str, i: usize) -> (q: String)
    ensures
        q@ == property_field_name(prefix@, name@, i as int),
{
    let mut n = String::new();
    if name.unicode_len() == 0 {
        push_str_chars(&mut n, "field");
        push_decimal(&mut n, i as u64);
    } else {
        push_str_chars(&mut n, name);
    }
    if prefix.unicode_len() == 0 {
        n
    } else {
        let mut q = String::new();
        push_str_chars(&mut q, prefix);
        push_str_chars(&mut q, ".");
        push_str_chars(&mut q, n.as_str());
        q
    }
}

/// A string holding the characters of `s`.
fn owned_str(s: &str) -> (o: String)
    ensures
        o@ == s@,
{
    let mut o = String::new();
    push_str_chars(&mut o, s);
    o
}

/// Walks properties `start..end` of a TDH schema, flattening structures
/// and adding one field per leaf to `format` (see `walk_spec`). The running
/// offset and whether a variable-length field was seen carry over between
/// calls. On error, what was added before the error stays.
pub fn walk_properties(
    properties: &[PropertyInfo],
    start: usize,
    end: usize,
    prefix: &str,
    format: &mut EventFormat,
    running_offset: &mut usize,
    seen_variable: &mut bool,
    is_32bit: bool,
    depth: usize,
) -> (r: Result<(), TdhDecodeError>)
    requires
        walk_spec(
            properties@,
            start as int,
            end as int,
            prefix@,
            (format_view(*old(format)), *old(running_offset) as int, *old(seen_variable), None),
            is_32bit,
            depth as int,
        ).1 <= usize::MAX,
    ensures
        format_view(*final(format)) == walk_spec(
            properties@,
            start as int,
            end as int,
            prefix@,
            (format_view(*old(format)), *old(running_offset) as int, *old(seen_variable), None),
            is_32bit,
            depth as int,
        ).0,
        *final(running_offset) == walk_spec(
            properties@,
            start as int,
            end as int,
            prefix@,
            (format_view(*old(format)), *old(running_offset) as int, *old(seen_variable), None),
            is_32bit,
            depth as int,
        ).1,
        *final(seen_variable) == walk_spec(
            properties@,
            start as int,
            end as int,
            prefix@,
            (format_view(*old(format)), *old(running_offset) as int, *old(seen_variable), None),
            is_32bit,
            depth as int,
        ).2,
        match r {
            Ok(()) => walk_spec(
                properties@,
                start as int,
                end as int,
                prefix@,
                (format_view(*old(format)), *old(running_offset) as int, *old(seen_variable), None),
                is_32bit,
                depth as int,
            ).3 is None,
            Err(e) => e is Malformed && walk_spec(
                properties@,
                start as int,
                end as int,
                prefix@,
                (format_view(*old(format)), *old(running_offset) as int, *old(seen_variable), None),
                is_32bit,
                depth as int,
            ).3 == Some(e->Malformed_0@),
        },
    decreases MAX_STRUCT_DEPTH - depth,
{
    let ghost total = walk_spec(
        properties@,
        start as int,
        end as int,
        prefix@,
        (format_view(*format), *running_offset as int, *seen_variable, None),
        is_32bit,
        depth as int,
    );
    let mut i = start;
    while i < end
        invariant
            walk_spec(
                properties@,
                i as int,
                end as int,
                prefix@,
                (format_view(*format), *running_offset as int, *seen_variable, None),
                is_32bit,
                depth as int,
            ) == total,
            total == walk_spec(
                properties@,
                start as int,
                end as int,
                prefix@,
                (format_view(*old(format)), *old(running_offset) as int, *old(seen_variable), None),
                is_32bit,
                depth as int,
            ),
            total.1 <= usize::MAX,
        decreases end - i,
    {
        let ghost st: WalkState = (format_view(*format), *running_offset as int, *seen_variable, None);
        if i >= properties.len() {
            let e = TdhDecodeError::Malformed("property index out of bounds");
            proof {
                assert(total == walk_spec(properties@, i as int, end as int, prefix@, st, is_32bit, depth as int));
                assert(total.3 == Some("property index out of bounds"@));
                assert(e matches TdhDecodeError::Malformed(m) && m@ == "property index out of bounds"@);
            }
            return Err(e);
        }
        let prop = &properties[i];
        let qualified_name = qualified_property_name(prefix, prop.name.as_str(), i);
        let flags = prop.flags;

        if flags & PROPERTY_STRUCT != 0 {
            if depth >= MAX_STRUCT_DEPTH {
                let e = TdhDecodeError::Malformed("struct nesting depth exceeded");
                proof {
                    assert(total == walk_spec(properties@, i as int, end as int, prefix@, st, is_32bit, depth as int));
                    assert(total.3 == Some("struct nesting depth exceeded"@));
                }
                return Err(e);
            }
            let s = prop.struct_start_index as usize;
            let count = prop.num_struct_members as usize;
            proof {
                lemma_walk_offset_grows(
                    properties@,
                    i + 1,
                    end as int,
                    prefix@,
                    walk_spec(properties@, s as int, s + count, qualified_name@, st, is_32bit, depth + 1),
                    is_32bit,
                    depth as int,
                );
            }
            match walk_properties(
                properties,
                s,
                s + count,
                qualified_name.as_str(),
                format,
                running_offset,
                seen_variable,
                is_32bit,
                depth + 1,
            ) {
                Ok(()) => {},
                Err(e) => {
                    proof {
                        let inner = walk_spec(properties@, s as int, s + count, qualified_name@, st, is_32bit, depth + 1);
                        assert(total == walk_spec(properties@, i as int, end as int, prefix@, st, is_32bit, depth as int));
                        assert(total == walk_spec(properties@, i + 1, end as int, prefix@, inner, is_32bit, depth as int));
                        assert(inner.3 is Some);
                        assert(total == inner);
                    }
                    return Err(e);
                },
            }
            i = i + 1;
            continue;
        }

        if flags & PROPERTY_PARAM_COUNT != 0 {
            let count = prop.count;
            if count != 1 {
                let offset = if *seen_variable { 0 } else { *running_offset };
                let ghost before = format.spec_fields();
                format.add_field(EventField::new(
                    qualified_name,
                    owned_str("unsupported"),
                    LocationType::Static,
                    offset,
                    0,
                ));
                *seen_variable = true;
                proof {
                    assert(format_view(*format) =~= st.0.push(
                        (property_field_name(prefix@, prop.name@, i as int), "unsupported"@, LocationType::Static, offset, 0usize),
                    ));
                }
                i = i + 1;
                continue;
            }
        }

        let in_type = prop.in_type as i32;
        let raw_len = prop.length as usize;
        let is_variable_intype = in_type == TDH_INTYPE_UNICODESTRING || in_type == TDH_INTYPE_ANSISTRING
            || in_type == TDH_INTYPE_COUNTEDSTRING || in_type == TDH_INTYPE_COUNTEDANSISTRING
            || in_type == TDH_INTYPE_REVERSEDCOUNTEDSTRING || in_type == TDH_INTYPE_REVERSEDCOUNTEDANSISTRING
            || in_type == TDH_INTYPE_NONNULLTERMINATEDSTRING || in_type == TDH_INTYPE_NONNULLTERMINATEDANSISTRING;

        let explicit_len: Option<usize> = if is_variable_intype {
            None
        } else if (flags & PROPERTY_PARAM_LENGTH) == 0 {
            if raw_len > 0 { Some(raw_len) } else { None }
        } else {
            None
        };

        let offset = if *seen_variable { 0 } else { *running_offset };
        proof {
            lemma_walk_offset_grows(
                properties@,
                i + 1,
                end as int,
                prefix@,
                leaf_step(*prop, qualified_name@, st, is_32bit),
                is_32bit,
                depth as int,
            );
        }

        match explicit_len {
            Some(len) => {
                let tname = intype_to_type_name(in_type);
                format.add_field(EventField::new(
                    qualified_name,
                    owned_str(tname),
                    LocationType::Static,
                    offset,
                    len,
                ));
                if !*seen_variable {
                    *running_offset = *running_offset + len;
                }
            },
            None => {
                let (tname, loc, size) = intype_to_field_info(in_type, is_32bit);
                format.add_field(EventField::new(qualified_name, owned_str(tname), loc, offset, size));
                if size == 0 {
                    *seen_variable = true;
                } else if !*seen_variable {
                    *running_offset = *running_offset + size;
                }
            },
        }
        proof {
            assert(format_view(*format) =~= leaf_step(*prop, property_field_name(prefix@, prop.name@, i as int), st, is_32bit).0);
        }
        i = i + 1;
    }
    Ok(())
}

/// The walk of a schema's top-level properties from an empty format.
pub open spec fn schema_walk(properties: Seq<PropertyInfo>, top_level_count: int, is_32bit: bool) -> WalkState {
    walk_spec(properties, 0, top_level_count, Seq::empty(), (Seq::empty(), 0, false, None), is_32bit, 0)
}

/// Builds the schema of an event from its name and properties: no fields
/// when it has no properties, else one field per leaf of the first
/// `top_level_count` properties (see `walk_properties`). The schema id is
/// left 0 for the caller to assign.
pub fn build_cached_schema(
    event_name: String,
    properties: &[PropertyInfo],
    top_level_count: usize,
    is_32bit: bool,
) -> (r: Result<CachedSchema, TdhDecodeError>)
    requires
        schema_walk(properties@, top_level_count as int, is_32bit).1 <= usize::MAX,
    ensures
        properties@.len() == 0 ==> (r matches Ok(c) && c.event_name@ == event_name@
            && format_view(c.format).len() == 0 && c.schema_id == SchemaId(0)),
        properties@.len() > 0 ==> match r {
            Ok(c) => schema_walk(properties@, top_level_count as int, is_32bit).3 is None
                && c.event_name@ == event_name@
                && format_view(c.format) == schema_walk(properties@, top_level_count as int, is_32bit).0
                && c.schema_id == SchemaId(0),
            Err(e) => e is Malformed
                && schema_walk(properties@, top_level_count as int, is_32bit).3 == Some(e->Malformed_0@),
        },
{
    if properties.len() == 0 {
        let format = EventFormat::new();
        proof {
            assert(format_view(format) =~= Seq::empty());
        }
        return Ok(CachedSchema { event_name, format, schema_id: SchemaId(0) });
    }
    let mut format = EventFormat::new();
    let mut running_offset: usize = 0;
    let mut seen_variable = false;
    proof {
        assert(format_view(format) =~= Seq::empty());
        reveal_strlit("");
        assert(""@ =~= Seq::<char>::empty());
    }
    match walk_properties(
        properties,
        0,
        top_level_count,
        "",
        &mut format,
        &mut running_offset,
        &mut seen_variable,
        is_32bit,
        0,
    ) {
        Ok(()) => Ok(CachedSchema { event_name, format, schema_id: SchemaId(0) }),
        Err(e) => Err(e),
    }
}

} // verus!

verus! {

/// The decoding source of an XML manifest.
pub const DECODING_SOURCE_XML_FILE: i32 = 0;
/// The decoding source of TraceLogging.
pub const DECODING_SOURCE_TLG: i32 = 3;

/// Where an event's schema comes from: an inline TraceLogging schema, keyed
/// by its bytes, or a manifest, keyed by the event's identity.
pub enum SchemaSource {
    TraceLogging(Vec<u8>),
    Manifest(ManifestEventKey),
}

/// What the decoder reads of an event's TDH information (a
/// `TRACE_EVENT_INFO`): its bytes, the decoding source, the offsets of the
/// event and task names, the properties and how many are top-level.
pub struct EventInformation {
    pub buffer: Vec<u8>,
    pub decoding_source: i32,
    pub event_name_offset: u32,
    pub task_name_offset: u32,
    pub properties: Vec<PropertyInfo>,
    pub top_level_count: u32,
}

/// The NUL-terminated UTF-16LE string at `off` in `buf`; empty for offset
/// 0 or past the end.
pub open spec fn utf16_at(buf: Seq<u8>, off: int) -> Seq<char> {
    if off == 0 || off >= buf.len() {
        Seq::empty()
    } else {
        utf16_decode_lossy(utf16z_units(buf.skip(off)))
    }
}

/// The event name: at the event-name offset for TraceLogging, at the
/// task-name offset otherwise.
pub open spec fn spec_event_name(info: EventInformation) -> Seq<char> {
    if info.decoding_source == DECODING_SOURCE_TLG {
        utf16_at(info.buffer@, info.event_name_offset as int)
    } else {
        utf16_at(info.buffer@, info.task_name_offset as int)
    }
}

/// The event name of the information.
pub fn read_event_name(info: &EventInformation) -> (name: String)
    ensures
        name@ == spec_event_name(*info),
{
    let offset = if info.decoding_source == DECODING_SOURCE_TLG {
        info.event_name_offset as usize
    } else {
        info.task_name_offset as usize
    };
    read_utf16_at(info.buffer.as_slice(), offset)
}

/// The source of an event's schema: its inline TraceLogging schema when it
/// carries a non-empty one; else an error for a classic (MOF) event, whose
/// identity is not a manifest key; else its manifest identity.
pub fn schema_source(schema_tl: Option<&[u8]>, classic_header: bool, key: ManifestEventKey) -> (r: Result<
    SchemaSource,
    TdhDecodeError,
>)
    ensures
        match schema_tl {
            Some(b) if b@.len() > 0 => r matches Ok(SchemaSource::TraceLogging(v)) && v@ == b@,
            _ => if classic_header {
                r == Err::<SchemaSource, TdhDecodeError>(TdhDecodeError::Unsupported)
            } else {
                r matches Ok(SchemaSource::Manifest(k)) && k == key
            },
        },
{
    match schema_tl {
        Some(b) => {
            if b.len() > 0 {
                return Ok(SchemaSource::TraceLogging(vstd::slice::slice_to_vec(b)));
            }
        },
        None => {},
    }
    if classic_header {
        Err(TdhDecodeError::Unsupported)
    } else {
        Ok(SchemaSource::Manifest(key))
    }
}

/// Decodes event schemas through TDH, caching each decoded schema by its
/// source and giving it the next schema id.
pub struct TdhDecoder {
    cache: SchemaCache,
    next_schema_id: u64,
}

/// The cached index of a source, or the error for a manifest key known to
/// be unsupported, or `None` on a miss.
pub open spec fn spec_lookup(cache: SchemaCache, source: SchemaSource, is_32bit: bool) -> Result<Option<usize>, TdhDecodeError> {
    match source {
        SchemaSource::TraceLogging(bytes) => Ok(cache.spec_index_of_tl(bytes@, is_32bit)),
        SchemaSource::Manifest(key) => match cache.spec_index_of_manifest(key, is_32bit) {
            Some(i) => Ok(Some(i)),
            None => if cache.spec_unsupported(key) {
                Err(TdhDecodeError::Unsupported)
            } else {
                Ok(None)
            },
        },
    }
}

proof fn lemma_tl_index_listed(list: Seq<(Seq<u8>, usize)>, key: Seq<u8>)
    ensures
        tl_index(list, key) matches Some(i) ==> exists|j: int|
            0 <= j < list.len() && (#[trigger] list[j]).1 == i && list[j].0 == key,
    decreases list.len(),
{
    if list.len() > 0 && list[0].0 != key {
        lemma_tl_index_listed(list.drop_first(), key);
        if let Some(i) = tl_index(list, key) {
            let j = choose|j: int|
                0 <= j < list.drop_first().len() && (#[trigger] list.drop_first()[j]).1 == i && list.drop_first()[j].0
                    == key;
            assert(list[j + 1] == list.drop_first()[j]);
        }
    }
}

proof fn lemma_manifest_index_listed(list: Seq<(ManifestEventKey, usize)>, key: ManifestEventKey)
    ensures
        manifest_index(list, key) matches Some(i) ==> exists|j: int|
            0 <= j < list.len() && (#[trigger] list[j]).1 == i && same_key(list[j].0, key),
    decreases list.len(),
{
    if list.len() > 0 && !same_key(list[0].0, key) {
        lemma_manifest_index_listed(list.drop_first(), key);
        if let Some(i) = manifest_index(list, key) {
            let j = choose|j: int|
                0 <= j < list.drop_first().len() && (#[trigger] list.drop_first()[j]).1 == i && same_key(
                    list.drop_first()[j].0,
                    key,
                );
            assert(list[j + 1] == list.drop_first()[j]);
        }
    }
}

/// Keys that name the same schema have the same index in a key list.
proof fn lemma_manifest_index_same_key(list: Seq<(ManifestEventKey, usize)>, k1: ManifestEventKey, k2: ManifestEventKey)
    requires
        same_key(k1, k2),
    ensures
        manifest_index(list, k1) == manifest_index(list, k2),
    decreases list.len(),
{
    if list.len() > 0 {
        lemma_manifest_index_same_key(list.drop_first(), k1, k2);
    }
}

/// Whether two schema sources are the same: the same TraceLogging schema
/// bytes, or manifest keys that name the same schema.
pub open spec fn same_source(a: SchemaSource, b: SchemaSource) -> bool {
    match (a, b) {
        (SchemaSource::TraceLogging(x), SchemaSource::TraceLogging(y)) => x@ == y@,
        (SchemaSource::Manifest(k1), SchemaSource::Manifest(k2)) => same_key(k1, k2),
        _ => false,
    }
}

impl SchemaCache {
    /// An index the cache gives a source names a schema of the arena.
    pub proof fn lemma_lookup_in_arena(self, source: SchemaSource, is_32bit: bool)
        requires
            self.wf(),
        ensures
            spec_lookup(self, source, is_32bit) matches Ok(Some(i)) ==> i < self.spec_schemas().len(),
    {
        match source {
            SchemaSource::TraceLogging(bytes) => {
                lemma_tl_index_listed(self.tl_list(is_32bit), bytes@);
            },
            SchemaSource::Manifest(key) => {
                lemma_manifest_index_listed(self.manifest_list(is_32bit), key);
            },
        }
    }
}

impl SchemaCache {
    /// The key-list entry behind a cached source: its list, its position,
    /// and the key it holds.
    proof fn lemma_listed_entry(self, source: SchemaSource, is_32bit: bool) -> (r: (bool, int))
        requires
            spec_lookup(self, source, is_32bit) is Ok,
            spec_lookup(self, source, is_32bit)->Ok_0 is Some,
        ensures
            r.0 == (source is TraceLogging),
            0 <= r.1 < self.entry_count(r.0, is_32bit),
            self.entry_slot(r.0, is_32bit, r.1) == spec_lookup(self, source, is_32bit)->Ok_0->Some_0,
            source matches SchemaSource::TraceLogging(x) ==> self.tl_list(is_32bit)[r.1].0 == x@,
            source matches SchemaSource::Manifest(k) ==> same_key(self.manifest_list(is_32bit)[r.1].0, k),
    {
        let i = spec_lookup(self, source, is_32bit)->Ok_0->Some_0;
        match source {
            SchemaSource::TraceLogging(x) => {
                let list = self.tl_list(is_32bit);
                lemma_tl_index_listed(list, x@);
                let j = choose|j: int| 0 <= j < list.len() && (#[trigger] list[j]).1 == i && list[j].0 == x@;
                (true, j)
            },
            SchemaSource::Manifest(k) => {
                let list = self.manifest_list(is_32bit);
                lemma_manifest_index_listed(list, k);
                let j = choose|j: int| 0 <= j < list.len() && (#[trigger] list[j]).1 == i && same_key(list[j].0, k);
                (false, j)
            },
        }
    }

    /// Two cached sources get the same arena index exactly when they are
    /// the same source at the same pointer width: one TraceLogging schema
    /// decodes to one slot, and different schema bytes, a different pointer
    /// width, or a manifest key never reuse it.
    pub proof fn lemma_slot_identifies_source(self, s1: SchemaSource, b1: bool, s2: SchemaSource, b2: bool)
        requires
            self.wf(),
            spec_lookup(self, s1, b1) is Ok,
            spec_lookup(self, s1, b1)->Ok_0 is Some,
            spec_lookup(self, s2, b2) is Ok,
            spec_lookup(self, s2, b2)->Ok_0 is Some,
        ensures
            spec_lookup(self, s1, b1) == spec_lookup(self, s2, b2) <==> (b1 == b2 && same_source(s1, s2)),
    {
        if b1 == b2 && same_source(s1, s2) {
            match s1 {
                SchemaSource::Manifest(k1) => {
                    let k2 = s2->Manifest_0;
                    lemma_manifest_index_same_key(self.manifest_list(b1), k1, k2);
                },
                SchemaSource::TraceLogging(_) => {},
            }
        }
        if spec_lookup(self, s1, b1) == spec_lookup(self, s2, b2) {
            let (t1, j1) = self.lemma_listed_entry(s1, b1);
            let (t2, j2) = self.lemma_listed_entry(s2, b2);
            assert(self.entry_slot(t1, b1, j1) == self.entry_slot(t2, b2, j2));
        }
    }
}

impl SchemaCache {
    /// A cache extends itself.
    pub proof fn lemma_extends_refl(self)
        ensures
            self.extends(self),
    {
        assert(self.spec_schemas().take(self.spec_schemas().len() as int) =~= self.spec_schemas());
    }

    /// Growing a cache twice is growing it once.
    pub proof fn lemma_extends_trans(c1: SchemaCache, c2: SchemaCache, c3: SchemaCache)
        requires
            c2.extends(c1),
            c3.extends(c2),
        ensures
            c3.extends(c1),
    {
        assert(c3.spec_schemas().take(c1.spec_schemas().len() as int) =~= c1.spec_schemas()) by {
            assert forall|i: int| 0 <= i < c1.spec_schemas().len() implies c3.spec_schemas()[i] == c1.spec_schemas()[i] by {
                assert(c3.spec_schemas().take(c2.spec_schemas().len() as int)[i] == c3.spec_schemas()[i]);
                assert(c2.spec_schemas().take(c1.spec_schemas().len() as int)[i] == c2.spec_schemas()[i]);
            }
        }
        assert forall|k: Seq<u8>, b: bool| #[trigger] c1.spec_index_of_tl(k, b) is Some implies c3.spec_index_of_tl(k, b)
            == c1.spec_index_of_tl(k, b) by {
            assert(c2.spec_index_of_tl(k, b) is Some);
        }
        assert forall|k: ManifestEventKey, b: bool| #[trigger] c1.spec_index_of_manifest(k, b) is Some implies c3.spec_index_of_manifest(
            k,
            b,
        ) == c1.spec_index_of_manifest(k, b) by {
            assert(c2.spec_index_of_manifest(k, b) is Some);
        }
    }

    /// Decoding agrees with the cache: once a source's schema is cached,
    /// every later state of the cache gives the source the same index,
    /// holding the same schema, so decoding the source again gives what
    /// the first decoding gave.
    pub proof fn lemma_cached_schema_kept(earlier: SchemaCache, later: SchemaCache, source: SchemaSource, is_32bit: bool)
        requires
            earlier.wf(),
            later.extends(earlier),
            spec_lookup(earlier, source, is_32bit) is Ok,
            spec_lookup(earlier, source, is_32bit)->Ok_0 is Some,
        ensures
            spec_lookup(later, source, is_32bit) == spec_lookup(earlier, source, is_32bit),
            later.spec_schemas()[spec_lookup(earlier, source, is_32bit)->Ok_0->Some_0 as int]
                == earlier.spec_schemas()[spec_lookup(earlier, source, is_32bit)->Ok_0->Some_0 as int],
    {
        earlier.lemma_lookup_in_arena(source, is_32bit);
        let i = spec_lookup(earlier, source, is_32bit)->Ok_0->Some_0;
        match source {
            SchemaSource::TraceLogging(bytes) => {
                assert(earlier.spec_index_of_tl(bytes@, is_32bit) is Some);
            },
            SchemaSource::Manifest(key) => {
                assert(earlier.spec_index_of_manifest(key, is_32bit) is Some);
            },
        }
        assert(later.spec_schemas().take(earlier.spec_schemas().len() as int)[i as int] == later.spec_schemas()[i as int]);
    }
}

/// Whether decoding a cache miss from what TDH gave fails: TDH failed, a
/// manifest source's information is not an XML manifest, or the schema
/// walk stopped at an error.
pub open spec fn decode_fails(source: SchemaSource, is_32bit: bool, info: Result<EventInformation, TdhDecodeError>) -> bool {
    match info {
        Err(_) => true,
        Ok(inf) => (source is Manifest && inf.decoding_source != DECODING_SOURCE_XML_FILE) || (inf.properties@.len() > 0
            && schema_walk(inf.properties@, inf.top_level_count as int, is_32bit).3 is Some),
    }
}

/// Whether `e` is the error that decoding a cache miss gives: TDH's own,
/// `Unsupported` for a manifest source that is not an XML manifest, or the
/// schema walk's error.
pub open spec fn decode_error(
    source: SchemaSource,
    is_32bit: bool,
    info: Result<EventInformation, TdhDecodeError>,
    e: TdhDecodeError,
) -> bool {
    match info {
        Err(e0) => e == e0,
        Ok(inf) => if source is Manifest && inf.decoding_source != DECODING_SOURCE_XML_FILE {
            e == TdhDecodeError::Unsupported
        } else {
            e is Malformed && schema_walk(inf.properties@, inf.top_level_count as int, is_32bit).3 == Some(e->Malformed_0@)
        },
    }
}

/// The fields of a schema decoded from the information: none without
/// properties, else those of the schema walk.
pub open spec fn decoded_fields(inf: EventInformation, is_32bit: bool) -> Seq<(Seq<char>, Seq<char>, LocationType, usize, usize)> {
    if inf.properties@.len() == 0 {
        Seq::empty()
    } else {
        schema_walk(inf.properties@, inf.top_level_count as int, is_32bit).0
    }
}

impl TdhDecoder {
    pub closed spec fn spec_cache(&self) -> SchemaCache {
        self.cache
    }

    pub closed spec fn spec_next_schema_id(&self) -> u64 {
        self.next_schema_id
    }

    pub open spec fn wf(&self) -> bool {
        self.spec_cache().wf()
    }

    /// The schema ids in the arena rise with the slot and stay below the
    /// next id to give.
    pub open spec fn ids_ordered(&self) -> bool {
        let s = self.spec_cache().spec_schemas();
        &&& forall|i: int, j: int| 0 <= i < j < s.len() ==> (#[trigger] s[i]).schema_id.0 < (#[trigger] s[j]).schema_id.0
        &&& forall|i: int| 0 <= i < s.len() ==> (#[trigger] s[i]).schema_id.0 < self.spec_next_schema_id()
    }

    pub fn new() -> (d: Self)
        ensures
            d.wf(),
            d.ids_ordered(),
            d.spec_next_schema_id() == 0,
            d.spec_cache().spec_schemas().len() == 0,
            forall|k: Seq<u8>, b: bool| d.spec_cache().spec_index_of_tl(k, b) is None,
            forall|k: ManifestEventKey, b: bool| d.spec_cache().spec_index_of_manifest(k, b) is None,
            forall|k: ManifestEventKey| !d.spec_cache().spec_unsupported(k),
    {
        Self { cache: SchemaCache::new(), next_schema_id: 0 }
    }

    /// The schema cache.
    pub fn cache(&self) -> (c: &SchemaCache)
        ensures
            *c == self.spec_cache(),
    {
        &self.cache
    }

    /// Looks a source up in the cache (see `spec_lookup`).
    pub fn lookup_cached(&self, source: &SchemaSource, is_32bit: bool) -> (r: Result<Option<usize>, TdhDecodeError>)
        ensures
            r == spec_lookup(self.spec_cache(), *source, is_32bit),
    {
        match source {
            SchemaSource::TraceLogging(bytes) => Ok(self.cache.index_of_tl(bytes.as_slice(), is_32bit)),
            SchemaSource::Manifest(key) => {
                match self.cache.index_of_manifest(key, is_32bit) {
                    Some(idx) => Ok(Some(idx)),
                    None => {
                        if self.cache.is_manifest_unsupported(key) {
                            Err(TdhDecodeError::Unsupported)
                        } else {
                            Ok(None)
                        }
                    },
                }
            },
        }
    }

    /// Stores a decoded schema under its source, as the cache's inserts do,
    /// and gives back its index.
    fn insert_cached(&mut self, source: SchemaSource, is_32bit: bool, schema: CachedSchema) -> (idx: usize)
        requires
            old(self).wf(),
        ensures
            final(self).wf(),
            final(self).spec_cache().extends(old(self).spec_cache()),
            final(self).spec_next_schema_id() == old(self).spec_next_schema_id(),
            spec_lookup(final(self).spec_cache(), source, is_32bit) == Ok::<Option<usize>, TdhDecodeError>(Some(idx)),
            forall|k: ManifestEventKey| #[trigger] final(self).spec_cache().spec_unsupported(k)
                == old(self).spec_cache().spec_unsupported(k),
            match spec_lookup(old(self).spec_cache(), source, is_32bit) {
                Ok(Some(i)) => idx == i && final(self).spec_cache().spec_schemas() == old(self).spec_cache().spec_schemas(),
                _ => idx == old(self).spec_cache().spec_schemas().len()
                    && final(self).spec_cache().spec_schemas() == old(self).spec_cache().spec_schemas().push(schema),
            },
    {
        match source {
            SchemaSource::TraceLogging(bytes) => self.cache.insert_tl(bytes, is_32bit, schema),
            SchemaSource::Manifest(key) => self.cache.insert_manifest(key, is_32bit, schema),
        }
    }

    /// The schema id of a cached source's schema.
    pub open spec fn cached_schema_id(&self, source: SchemaSource, is_32bit: bool) -> SchemaId {
        self.spec_cache().spec_schemas()[spec_lookup(self.spec_cache(), source, is_32bit)->Ok_0->Some_0 as int].schema_id
    }

    /// Decoding gives one schema id per schema source: two cached sources
    /// carry the same schema id exactly when they are the same source
    /// (TraceLogging schema bytes, or manifest key) at the same pointer
    /// width, while the ids stay ordered (the id counter has not wrapped).
    pub proof fn lemma_schema_id_identifies_source(self, s1: SchemaSource, b1: bool, s2: SchemaSource, b2: bool)
        requires
            self.wf(),
            self.ids_ordered(),
            spec_lookup(self.spec_cache(), s1, b1) is Ok,
            spec_lookup(self.spec_cache(), s1, b1)->Ok_0 is Some,
            spec_lookup(self.spec_cache(), s2, b2) is Ok,
            spec_lookup(self.spec_cache(), s2, b2)->Ok_0 is Some,
        ensures
            self.cached_schema_id(s1, b1) == self.cached_schema_id(s2, b2) <==> (b1 == b2 && same_source(s1, s2)),
    {
        let c = self.spec_cache();
        c.lemma_lookup_in_arena(s1, b1);
        c.lemma_lookup_in_arena(s2, b2);
        c.lemma_slot_identifies_source(s1, b1, s2, b2);
        let i1 = spec_lookup(c, s1, b1)->Ok_0->Some_0 as int;
        let i2 = spec_lookup(c, s2, b2)->Ok_0->Some_0 as int;
        let sch = c.spec_schemas();
        if i1 < i2 {
            assert(sch[i1].schema_id.0 < sch[i2].schema_id.0);
        } else if i2 < i1 {
            assert(sch[i2].schema_id.0 < sch[i1].schema_id.0);
        }
    }

    /// The next schema id; the counter wraps.
    fn assign_schema_id(&mut self) -> (id: u64)
        ensures
            id == old(self).spec_next_schema_id(),
            final(self).spec_next_schema_id() == old(self).spec_next_schema_id().wrapping_add(1),
            final(self).spec_cache() == old(self).spec_cache(),
    {
        let id = self.next_schema_id;
        self.next_schema_id = id.wrapping_add(1);
        id
    }

    /// Builds the schema of a cache miss from what TDH gave for the event:
    /// TDH's error as is; for a manifest source whose information is not
    /// an XML manifest, `Unsupported`, and the key is remembered as
    /// unsupported; else the schema built from the information.
    pub fn decode_schema(
        &mut self,
        source: &SchemaSource,
        is_32bit: bool,
        info: Result<EventInformation, TdhDecodeError>,
    ) -> (r: Result<CachedSchema, TdhDecodeError>)
        requires
            old(self).wf(),
            info matches Ok(inf) ==> schema_walk(inf.properties@, inf.top_level_count as int, is_32bit).1 <= usize::MAX,
        ensures
            final(self).wf(),
            final(self).spec_cache().extends(old(self).spec_cache()),
            final(self).spec_next_schema_id() == old(self).spec_next_schema_id(),
            final(self).spec_cache().spec_schemas() == old(self).spec_cache().spec_schemas(),
            forall|k: Seq<u8>, b: bool| final(self).spec_cache().spec_index_of_tl(k, b)
                == old(self).spec_cache().spec_index_of_tl(k, b),
            forall|k: ManifestEventKey, b: bool| final(self).spec_cache().spec_index_of_manifest(k, b)
                == old(self).spec_cache().spec_index_of_manifest(k, b),
            match info {
                Err(e) => r == Err::<CachedSchema, TdhDecodeError>(e)
                    && forall|k: ManifestEventKey| #[trigger] final(self).spec_cache().spec_unsupported(k)
                        == old(self).spec_cache().spec_unsupported(k),
                Ok(inf) => if *source is Manifest && inf.decoding_source != DECODING_SOURCE_XML_FILE {
                    &&& r == Err::<CachedSchema, TdhDecodeError>(TdhDecodeError::Unsupported)
                    &&& forall|k: ManifestEventKey| #[trigger] final(self).spec_cache().spec_unsupported(k)
                        == (old(self).spec_cache().spec_unsupported(k) || same_key(source->Manifest_0, k))
                } else {
                    &&& forall|k: ManifestEventKey| #[trigger] final(self).spec_cache().spec_unsupported(k)
                        == old(self).spec_cache().spec_unsupported(k)
                    &&& if inf.properties@.len() == 0 {
                        r matches Ok(c) && c.event_name@ == spec_event_name(inf) && format_view(c.format).len() == 0
                            && c.schema_id == SchemaId(0)
                    } else {
                        let w = schema_walk(inf.properties@, inf.top_level_count as int, is_32bit);
                        match r {
                            Ok(c) => w.3 is None && c.event_name@ == spec_event_name(inf)
                                && format_view(c.format) == w.0 && c.schema_id == SchemaId(0),
                            Err(e) => e is Malformed && w.3 == Some(e->Malformed_0@),
                        }
                    }
                },
            },
    {
        proof {
            old(self).spec_cache().lemma_extends_refl();
        }
        let inf = match info {
            Ok(inf) => inf,
            Err(e) => {
                return Err(e);
            },
        };
        match source {
            SchemaSource::Manifest(key) => {
                if inf.decoding_source != DECODING_SOURCE_XML_FILE {
                    self.cache.mark_manifest_unsupported(*key);
                    return Err(TdhDecodeError::Unsupported);
                }
            },
            SchemaSource::TraceLogging(_) => {},
        }
        let event_name = read_event_name(&inf);
        build_cached_schema(event_name, inf.properties.as_slice(), inf.top_level_count as usize, is_32bit)
    }

    /// Completes a cache miss: builds the schema from what TDH gave (see
    /// `decode_schema`), gives it the next schema id and caches it under its
    /// source; gives back its index.
    pub fn decode_miss(
        &mut self,
        source: SchemaSource,
        is_32bit: bool,
        info: Result<EventInformation, TdhDecodeError>,
    ) -> (r: Result<usize, TdhDecodeError>)
        requires
            old(self).wf(),
            info matches Ok(inf) ==> schema_walk(inf.properties@, inf.top_level_count as int, is_32bit).1 <= usize::MAX,
        ensures
            final(self).wf(),
            final(self).spec_cache().extends(old(self).spec_cache()),
            r matches Ok(idx) ==> {
                &&& idx < final(self).spec_cache().spec_schemas().len()
                &&& spec_lookup(final(self).spec_cache(), source, is_32bit) == Ok::<Option<usize>, TdhDecodeError>(Some(idx))
                &&& final(self).spec_next_schema_id() == old(self).spec_next_schema_id().wrapping_add(1)
            },
            r is Err ==> final(self).spec_next_schema_id() == old(self).spec_next_schema_id()
                && final(self).spec_cache().spec_schemas() == old(self).spec_cache().spec_schemas(),
            old(self).ids_ordered() && old(self).spec_next_schema_id() < u64::MAX ==> final(self).ids_ordered(),
            r is Err <==> decode_fails(source, is_32bit, info),
            r matches Err(e) ==> decode_error(source, is_32bit, info, e),
            forall|k: ManifestEventKey| #[trigger] final(self).spec_cache().spec_unsupported(k) == (old(self).spec_cache().spec_unsupported(k)
                || (source is Manifest && info is Ok && info->Ok_0.decoding_source != DECODING_SOURCE_XML_FILE
                    && same_key(source->Manifest_0, k))),
            spec_lookup(old(self).spec_cache(), source, is_32bit) == Ok::<Option<usize>, TdhDecodeError>(None)
                && r is Ok ==> {
                let c = final(self).spec_cache().spec_schemas().last();
                &&& final(self).spec_cache().spec_schemas().len() == old(self).spec_cache().spec_schemas().len() + 1
                &&& final(self).spec_cache().spec_schemas().drop_last() == old(self).spec_cache().spec_schemas()
                &&& c.schema_id == SchemaId(old(self).spec_next_schema_id())
                &&& c.event_name@ == spec_event_name(info->Ok_0)
                &&& format_view(c.format) == decoded_fields(info->Ok_0, is_32bit)
            },
    {
        let ghost old_cache = self.spec_cache();
        let mut schema = match self.decode_schema(&source, is_32bit, info) {
            Ok(s) => s,
            Err(e) => {
                return Err(e);
            },
        };
        let ghost decoded = schema;
        schema.schema_id = SchemaId(self.assign_schema_id());
        let ghost src = source;
        let ghost stored = schema;
        let idx = self.insert_cached(source, is_32bit, schema);
        proof {
            self.spec_cache().lemma_lookup_in_arena(src, is_32bit);
            if spec_lookup(old(self).spec_cache(), src, is_32bit) == Ok::<Option<usize>, TdhDecodeError>(None) {
                assert(self.spec_cache().spec_schemas().drop_last() =~= old(self).spec_cache().spec_schemas());
                assert(self.spec_cache().spec_schemas().last() == stored);
            }
            if old(self).ids_ordered() && old(self).spec_next_schema_id() < u64::MAX {
                let before = old(self).spec_cache().spec_schemas();
                let after = self.spec_cache().spec_schemas();
                assert(self.spec_next_schema_id() == old(self).spec_next_schema_id() + 1);
                assert forall|i: int| 0 <= i < before.len() implies #[trigger] after[i] == before[i] by {
                    if after != before {
                        assert(after == before.push(stored));
                    }
                }
                if after != before {
                    assert(after == before.push(stored));
                    assert(stored.schema_id.0 == old(self).spec_next_schema_id());
                }
            }
        }
        Ok(idx)
    }
}

} // verus!
