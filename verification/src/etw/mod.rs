//! ETW support that is independent of the OS calls: the fixed payload
//! formats of kernel events, ETW event extensions, the data of the event
//! being dispatched, provider GUIDs and UTF-16 strings in TDH buffers.

use vstd::prelude::*;
use crate::event::{Event, EventField, EventFormat, LocationType, u16_from_le_seq, u64_from_le_seq,
    u32_from_le_seq, read_u16_le, read_u32_le, read_u64_le};
use crate::text::char_codes;

pub use crate::guid::Guid;

pub mod providers;
pub mod session;
pub mod tdh;

verus! {

/// Whether a UTF-16 unit is a leading (high) surrogate.
pub open spec fn is_high_surrogate(u: u16) -> bool {
    0xD800 <= u <= 0xDBFF
}

/// Whether a UTF-16 unit is a trailing (low) surrogate.
pub open spec fn is_low_surrogate(u: u16) -> bool {
    0xDC00 <= u <= 0xDFFF
}

/// The UTF-16 decoding of `units`: a high surrogate followed by a low one
/// makes one supplementary character, any other surrogate becomes U+FFFD,
/// and every other unit is the character with its code.
pub open spec fn utf16_decode_lossy(units: Seq<u16>) -> Seq<char>
    decreases units.len(),
{
    if units.len() == 0 {
        Seq::empty()
    } else if units.len() >= 2 && is_high_surrogate(units[0]) && is_low_surrogate(units[1]) {
        seq![(0x10000 + (units[0] - 0xD800) * 0x400 + (units[1] - 0xDC00)) as char]
            + utf16_decode_lossy(units.skip(2))
    } else if 0xD800 <= units[0] <= 0xDFFF {
        seq!['\u{FFFD}'] + utf16_decode_lossy(units.skip(1))
    } else {
        seq![units[0] as char] + utf16_decode_lossy(units.skip(1))
    }
}

/// Calls `String::from_utf16_lossy`. Trusted: as documented, the result
/// decodes `units` as UTF-16, each unpaired surrogate replaced by U+FFFD
/// (`utf16_decode_lossy`).
#[verifier::external_body]
pub(crate) fn string_from_utf16_lossy(units: &[u16]) -> (s: String)
    ensures
        s@ == utf16_decode_lossy(units@),
{
    String::from_utf16_lossy(units)
}

/// The UTF-16LE units of `s` before the first zero unit, over whole
/// two-byte units.
pub open spec fn utf16z_units(s: Seq<u8>) -> Seq<u16>
    decreases s.len(),
{
    if s.len() < 2 {
        Seq::empty()
    } else {
        let u = u16_from_le_seq(s);
        if u == 0 {
            Seq::empty()
        } else {
            seq![u] + utf16z_units(s.skip(2))
        }
    }
}

/// The UTF-16LE units of the NUL-terminated string at `offset` in `bytes`.
fn utf16z_units_at(bytes: &[u8], offset: usize) -> (units: Vec<u16>)
    requires
        offset <= bytes@.len(),
    ensures
        units@ == utf16z_units(bytes@.skip(offset as int)),
{
    let n = bytes.len();
    let mut units: Vec<u16> = Vec::new();
    let mut i = offset;
    let mut done = false;
    while !done && n - i >= 2
        invariant
            n == bytes@.len(),
            offset <= i <= n,
            done ==> units@ == utf16z_units(bytes@.skip(offset as int)),
            !done ==> units@ + utf16z_units(bytes@.skip(i as int)) == utf16z_units(bytes@.skip(offset as int)),
        decreases (n - i) * 2 + (if done { 0int } else { 1int }),
    {
        let ghost rem = bytes@.skip(i as int);
        let unit = read_u16_le(vstd::slice::slice_subrange(bytes, i, i + 2));
        assert(unit == u16_from_le_seq(rem));
        if unit == 0 {
            assert(units@ + Seq::<u16>::empty() =~= units@);
            done = true;
        } else {
            assert(rem.skip(2) =~= bytes@.skip(i + 2));
            assert(units@.push(unit) + utf16z_units(bytes@.skip(i + 2)) =~= units@ + utf16z_units(rem));
            units.push(unit);
            i = i + 2;
        }
    }
    if !done {
        assert(utf16z_units(bytes@.skip(i as int)) =~= Seq::<u16>::empty());
        assert(units@ + Seq::<u16>::empty() =~= units@);
    }
    units
}

/// The NUL-terminated UTF-16LE string at `byte_offset` in `bytes`, or
/// `None` when the offset leaves room for no unit.
pub fn read_utf16z(bytes: &[u8], byte_offset: usize) -> (s: Option<String>)
    requires
        byte_offset < usize::MAX,
    ensures
        byte_offset + 1 >= bytes@.len() ==> s is None,
        byte_offset + 1 < bytes@.len() ==> s is Some
            && s->0@ == utf16_decode_lossy(utf16z_units(bytes@.skip(byte_offset as int))),
{
    if byte_offset + 1 >= bytes.len() {
        return None;
    }
    let units = utf16z_units_at(bytes, byte_offset);
    Some(string_from_utf16_lossy(units.as_slice()))
}

/// The NUL-terminated UTF-16LE string at `byte_offset` in `buf`; empty for
/// offset 0 (no string) or an offset past the end.
pub fn read_utf16_at(buf: &[u8], byte_offset: usize) -> (s: String)
    ensures
        byte_offset == 0 || byte_offset >= buf@.len() ==> s@ == Seq::<char>::empty(),
        byte_offset != 0 && byte_offset < buf@.len() ==>
            s@ == utf16_decode_lossy(utf16z_units(buf@.skip(byte_offset as int))),
{
    if byte_offset == 0 || byte_offset >= buf.len() {
        return String::new();
    }
    let units = utf16z_units_at(buf, byte_offset);
    string_from_utf16_lossy(units.as_slice())
}

/// A provider found in the OS provider database: its control GUID and
/// schema source (0 for an XML manifest, 1 for classic WMI/MOF).
#[derive(Clone, Copy, Debug)]
pub struct RegisteredProvider {
    pub guid: Guid,
    pub schema_source: u32,
}

/// Why a provider GUID could not be resolved.
#[derive(Debug, Clone, Copy, PartialEq, Eq)]
pub enum ProviderGuidError {
    /// A `{...}` literal that is not a hexadecimal GUID.
    InvalidLiteral,
}

/// The control GUID of a self-describing provider: a `{GUID}` literal is
/// parsed, any other name is hashed (see `guid_from_provider_name_hash`).
pub fn guid_from_tracelogging_name(provider_name: &str) -> (r: Result<Guid, ProviderGuidError>)
    ensures
        provider_name@.len() > 0 && provider_name@[0] == '{' ==> match crate::guid::guid_literal_value(provider_name@) {
            Some(v) => r == Ok::<Guid, ProviderGuidError>(crate::guid::spec_guid_from_u128(v)),
            None => r == Err::<Guid, ProviderGuidError>(ProviderGuidError::InvalidLiteral),
        },
        !(provider_name@.len() > 0 && provider_name@[0] == '{') ==> (r matches Ok(g)
            && g.is_v5_of_digest(crate::guid::sha1_digest_of(
                crate::guid::eventsource_namespace() + crate::guid::provider_name_bytes(provider_name@)))),
{
    if provider_name.unicode_len() > 0 && provider_name.get_char(0) == '{' {
        return match crate::guid::parse_guid_literal(provider_name) {
            Some(g) => Ok(g),
            None => Err(ProviderGuidError::InvalidLiteral),
        };
    }
    Ok(crate::guid::guid_from_provider_name_hash(provider_name))
}

/// The ETW settings of an event: its provider, level and keyword.
pub struct EventExtension {
    provider: Guid,
    level: u8,
    keyword: u64,
}

impl EventExtension {
    pub closed spec fn spec_provider(&self) -> Guid {
        self.provider
    }

    pub closed spec fn spec_level(&self) -> u8 {
        self.level
    }

    pub closed spec fn spec_keyword(&self) -> u64 {
        self.keyword
    }

    pub fn new(provider: Guid, level: u8, keyword: u64) -> (e: Self)
        ensures
            e.spec_provider() == provider,
            e.spec_level() == level,
            e.spec_keyword() == keyword,
    {
        Self { provider, level, keyword }
    }

    pub fn provider(&self) -> (g: &Guid)
        ensures
            *g == self.spec_provider(),
    {
        &self.provider
    }

    pub fn provider_mut(&mut self) -> (g: &mut Guid)
        ensures
            *g == old(self).spec_provider(),
            final(self).spec_provider() == *final(g),
            final(self).spec_level() == old(self).spec_level(),
            final(self).spec_keyword() == old(self).spec_keyword(),
    {
        &mut self.provider
    }

    pub fn level(&self) -> (l: u8)
        ensures
            l == self.spec_level(),
    {
        self.level
    }

    pub fn level_mut(&mut self) -> (l: &mut u8)
        ensures
            *l == old(self).spec_level(),
            final(self).spec_level() == *final(l),
            final(self).spec_provider() == old(self).spec_provider(),
            final(self).spec_keyword() == old(self).spec_keyword(),
    {
        &mut self.level
    }

    pub fn keyword(&self) -> (k: u64)
        ensures
            k == self.spec_keyword(),
    {
        self.keyword
    }

    pub fn keyword_mut(&mut self) -> (k: &mut u64)
        ensures
            *k == old(self).spec_keyword(),
            final(self).spec_keyword() == *final(k),
            final(self).spec_provider() == old(self).spec_provider(),
            final(self).spec_level() == old(self).spec_level(),
    {
        &mut self.keyword
    }
}

/// Building events for ETW providers.
pub trait WindowsEventExtension: Sized {
    /// The event `id` named `name` of `provider` at `level` and `keyword`.
    fn for_etw(id: usize, name: String, provider: Guid, level: u8, keyword: u64) -> Self;
}

impl WindowsEventExtension for Event {
    fn for_etw(id: usize, name: String, provider: Guid, level: u8, keyword: u64) -> (e: Event)
        ensures
            e.spec_id() == id,
            e.spec_name() == name@,
            e.spec_format().spec_fields().len() == 0,
            !e.spec_no_callstack(),
            e.spec_extension().spec_provider() == provider,
            e.spec_extension().spec_level() == level,
            e.spec_extension().spec_keyword() == keyword,
    {
        let mut event = Event::new(id, name);
        let ext = event.extension_mut();
        *ext.provider_mut() = provider;
        *ext.level_mut() = level;
        *ext.keyword_mut() = keyword;
        event
    }
}

/// `EVENT_HEADER_EXT_TYPE_STACK_TRACE32`
pub const EXT_TYPE_STACK_TRACE32: u16 = 0x0005;

/// `EVENT_HEADER_EXT_TYPE_STACK_TRACE64`
pub const EXT_TYPE_STACK_TRACE64: u16 = 0x0006;

/// An extended data item of an event record: its type and bytes.
pub struct ExtendedDataItem {
    pub ext_type: u16,
    pub data: Vec<u8>,
}

/// What is read from the event record being dispatched.
pub struct EventRecordData {
    pub cpu: u32,
    pub pid: u32,
    pub tid: u32,
    pub time: u64,
    pub provider: Guid,
    pub activity: Guid,
    pub version: u8,
    pub extended: Vec<ExtendedDataItem>,
}

/// The event record being dispatched, if any.
pub struct AncillaryData {
    event: Option<EventRecordData>,
}

/// Item `i` is the first extended data item of type `t`.
pub open spec fn is_first_ext(exts: Seq<ExtendedDataItem>, t: u16, i: int) -> bool {
    &&& 0 <= i < exts.len()
    &&& exts[i].ext_type == t
    &&& forall|j: int| 0 <= j < i ==> exts[j].ext_type != t
}

/// No extended data item has type `t`.
pub open spec fn has_no_ext(exts: Seq<ExtendedDataItem>, t: u16) -> bool {
    forall|j: int| 0 <= j < exts.len() ==> exts[j].ext_type != t
}

/// The 64-bit frames of a stack trace item: little-endian `u64`s after the
/// 8-byte match id.
pub open spec fn frames64(d: Seq<u8>) -> Seq<u64> {
    Seq::new(((d.len() - 8) / 8) as nat, |k: int| u64_from_le_seq(d.subrange(8 + 8 * k, 16 + 8 * k)))
}

/// The 32-bit frames of a stack trace item: little-endian `u32`s after the
/// 8-byte match id, widened to 64 bits.
pub open spec fn frames32(d: Seq<u8>) -> Seq<u64> {
    Seq::new(((d.len() - 8) / 4) as nat, |k: int| u32_from_le_seq(d.subrange(8 + 4 * k, 12 + 4 * k)) as u64)
}

impl AncillaryData {
    pub closed spec fn spec_event(&self) -> Option<EventRecordData> {
        self.event
    }

    /// No event is being dispatched.
    pub fn new() -> (a: Self)
        ensures
            a.spec_event() is None,
    {
        Self { event: None }
    }

    /// Sets the event being dispatched.
    pub fn set_event(&mut self, event: Option<EventRecordData>)
        ensures
            final(self).spec_event() == event,
    {
        self.event = event;
    }

    pub fn cpu(&self) -> (v: u32)
        ensures
            v == (match self.spec_event() { Some(e) => e.cpu, None => 0 }),
    {
        match &self.event {
            Some(e) => e.cpu,
            None => 0,
        }
    }

    pub fn pid(&self) -> (v: u32)
        ensures
            v == (match self.spec_event() { Some(e) => e.pid, None => 0 }),
    {
        match &self.event {
            Some(e) => e.pid,
            None => 0,
        }
    }

    pub fn tid(&self) -> (v: u32)
        ensures
            v == (match self.spec_event() { Some(e) => e.tid, None => 0 }),
    {
        match &self.event {
            Some(e) => e.tid,
            None => 0,
        }
    }

    pub fn time(&self) -> (v: u64)
        ensures
            v == (match self.spec_event() { Some(e) => e.time, None => 0 }),
    {
        match &self.event {
            Some(e) => e.time,
            None => 0,
        }
    }

    pub fn provider(&self) -> (g: Guid)
        ensures
            g == (match self.spec_event() {
                Some(e) => e.provider,
                None => crate::guid::spec_guid_from_u128(0),
            }),
    {
        match &self.event {
            Some(e) => e.provider,
            None => Guid::from_u128(0),
        }
    }

    pub fn activity(&self) -> (g: Guid)
        ensures
            g == (match self.spec_event() {
                Some(e) => e.activity,
                None => crate::guid::spec_guid_from_u128(0),
            }),
    {
        match &self.event {
            Some(e) => e.activity,
            None => Guid::from_u128(0),
        }
    }

    pub fn version(&self) -> (v: u8)
        ensures
            v == (match self.spec_event() { Some(e) => e.version, None => 0 }),
    {
        match &self.event {
            Some(e) => e.version,
            None => 0,
        }
    }

    /// The index of the first extended data item of type `ext_type`.
    pub fn find_ext(&self, ext_type: u16) -> (r: Option<usize>)
        ensures
            r matches Some(i) ==> self.spec_event() matches Some(e) && is_first_ext(e.extended@, ext_type, i as int),
            r is None ==> (self.spec_event() matches Some(e) ==> has_no_ext(e.extended@, ext_type)),
    {
        match &self.event {
            Some(e) => {
                let mut i: usize = 0;
                while i < e.extended.len()
                    invariant
                        self.event == Some(*e),
                        i <= e.extended@.len(),
                        forall|j: int| 0 <= j < i ==> e.extended@[j].ext_type != ext_type,
                    decreases e.extended@.len() - i,
                {
                    if e.extended[i].ext_type == ext_type {
                        return Some(i);
                    }
                    i = i + 1;
                }
                None
            },
            None => None,
        }
    }

    /// Appends the frames of the event's stack trace item to `frames` and
    /// sets `match_id`: the first 64-bit trace item, else the first 32-bit
    /// one. False, changing nothing, when there is none or it holds fewer
    /// than 8 bytes.
    pub fn callstack(&self, frames: &mut Vec<u64>, match_id: &mut u64) -> (found: bool)
        ensures
            self.spec_event() is None ==> !found && final(frames)@ == old(frames)@ && *final(match_id) == *old(match_id),
            self.spec_event() matches Some(e) ==> {
                let ex = e.extended@;
                if exists|i: int| is_first_ext(ex, EXT_TYPE_STACK_TRACE64, i) {
                    let i = choose|i: int| is_first_ext(ex, EXT_TYPE_STACK_TRACE64, i);
                    let d = ex[i].data@;
                    if d.len() < 8 {
                        !found && final(frames)@ == old(frames)@ && *final(match_id) == *old(match_id)
                    } else {
                        found && *final(match_id) == u64_from_le_seq(d) && final(frames)@ == old(frames)@ + frames64(d)
                    }
                } else if exists|i: int| is_first_ext(ex, EXT_TYPE_STACK_TRACE32, i) {
                    let i = choose|i: int| is_first_ext(ex, EXT_TYPE_STACK_TRACE32, i);
                    let d = ex[i].data@;
                    if d.len() < 8 {
                        !found && final(frames)@ == old(frames)@ && *final(match_id) == *old(match_id)
                    } else {
                        found && *final(match_id) == u64_from_le_seq(d) && final(frames)@ == old(frames)@ + frames32(d)
                    }
                } else {
                    !found && final(frames)@ == old(frames)@ && *final(match_id) == *old(match_id)
                }
            },
    {
        let e = match &self.event {
            Some(e) => e,
            None => { return false; },
        };
        let ghost ex = e.extended@;
        if let Some(i) = self.find_ext(EXT_TYPE_STACK_TRACE64) {
            proof { lemma_first_ext_unique(ex, EXT_TYPE_STACK_TRACE64, i as int); }
            let d = e.extended[i].data.as_slice();
            if d.len() < 8 {
                return false;
            }
            *match_id = read_u64_le(d);
            let count = (d.len() - 8) / 8;
            let ghost start = frames@;
            let mut k: usize = 0;
            while k < count
                invariant
                    k <= count,
                    count == (d@.len() - 8) / 8,
                    d@.len() >= 8,
                    frames@ == start + frames64(d@).take(k as int),
                    d@.len() <= usize::MAX,
                decreases count - k,
            {
                assert(16 + 8 * k <= d@.len()) by (nonlinear_arith)
                    requires k < count, count == (d@.len() - 8) / 8, d@.len() >= 8;
                let f = read_u64_le(vstd::slice::slice_subrange(d, 8 + 8 * k, 16 + 8 * k));
                frames.push(f);
                assert(frames@ =~= start + frames64(d@).take(k + 1));
                k = k + 1;
            }
            assert(frames64(d@).take(count as int) =~= frames64(d@));
            return true;
        } else if let Some(i) = self.find_ext(EXT_TYPE_STACK_TRACE32) {
            proof { lemma_first_ext_unique(ex, EXT_TYPE_STACK_TRACE32, i as int); }
            let d = e.extended[i].data.as_slice();
            if d.len() < 8 {
                return false;
            }
            *match_id = read_u64_le(d);
            let count = (d.len() - 8) / 4;
            let ghost start = frames@;
            let mut k: usize = 0;
            while k < count
                invariant
                    k <= count,
                    count == (d@.len() - 8) / 4,
                    d@.len() >= 8,
                    frames@ == start + frames32(d@).take(k as int),
                    d@.len() <= usize::MAX,
                decreases count - k,
            {
                assert(12 + 4 * k <= d@.len()) by (nonlinear_arith)
                    requires k < count, count == (d@.len() - 8) / 4, d@.len() >= 8;
                let f = read_u32_le(vstd::slice::slice_subrange(d, 8 + 4 * k, 12 + 4 * k)) as u64;
                frames.push(f);
                assert(frames@ =~= start + frames32(d@).take(k + 1));
                k = k + 1;
            }
            assert(frames32(d@).take(count as int) =~= frames32(d@));
            return true;
        }
        false
    }
}

proof fn lemma_first_ext_unique(exts: Seq<ExtendedDataItem>, t: u16, i: int)
    requires
        is_first_ext(exts, t, i),
    ensures
        (choose|j: int| is_first_ext(exts, t, j)) == i,
{
    let j = choose|j: int| is_first_ext(exts, t, j);
    assert(is_first_ext(exts, t, j));
    if j < i {
        assert(exts[j].ext_type != t);
    } else if i < j {
        assert(exts[i].ext_type != t);
    }
}

impl Default for AncillaryData {
    fn default() -> (a: Self)
        ensures
            a.spec_event() is None,
    {
        Self::new()
    }
}

/// Whether `f` is the field `name` of type `ty` at `offset` of `size` bytes.
pub open spec fn field_is(f: EventField, name: Seq<char>, ty: Seq<char>, loc: LocationType, offset: int, size: int) -> bool {
    &&& f.name@ == name
    &&& f.type_str@ == ty
    &&& f.location == loc
    &&& f.offset == offset
    &&& f.size == size
}

pub(crate) fn push_field(format: &mut EventFormat, name: &str, ty: &str, loc: LocationType, offset: usize, size: usize)
    ensures
        final(format).spec_fields().len() == old(format).spec_fields().len() + 1,
        final(format).spec_fields().drop_last() == old(format).spec_fields(),
        field_is(final(format).spec_fields().last(), name@, ty@, loc, offset as int, size as int),
{
    format.add_field(EventField::new(name.to_owned(), ty.to_owned(), loc, offset, size));
    assert(final(format).spec_fields().drop_last() =~= old(format).spec_fields());
}

/// The process start/end event of the kernel: six 32-bit fields, the
/// user SID, then the image file name and command line as UTF-16 strings.
pub fn comm(id: usize, name: &str) -> (e: Event)
    ensures
        e.spec_id() == id,
        e.spec_name() == name@,
        e.spec_no_callstack(),
        ({
            let f = e.spec_format().spec_fields();
            &&& f.len() == 9
            &&& field_is(f[0], "UniqueProcessKey"@, "u32"@, LocationType::Static, 0, 4)
            &&& field_is(f[1], "ProcessId"@, "u32"@, LocationType::Static, 4, 4)
            &&& field_is(f[2], "ParentId"@, "u32"@, LocationType::Static, 8, 4)
            &&& field_is(f[3], "SessionId"@, "u32"@, LocationType::Static, 12, 4)
            &&& field_is(f[4], "ExitStatus"@, "s32"@, LocationType::Static, 16, 4)
            &&& field_is(f[5], "DirectoryTableBase"@, "u32"@, LocationType::Static, 20, 4)
            &&& field_is(f[6], "UserSID"@, "object"@, LocationType::Static, 24, 0)
            &&& field_is(f[7], "ImageFileName"@, "string"@, LocationType::StaticUTF16String, 24, 0)
            &&& field_is(f[8], "CommandLine"@, "string"@, LocationType::StaticUTF16String, 24, 0)
        }),
{
    let mut event = Event::new(id, name.to_owned());
    let format = event.format_mut();
    push_field(format, "UniqueProcessKey", "u32", LocationType::Static, 0, 4);
    push_field(format, "ProcessId", "u32", LocationType::Static, 4, 4);
    push_field(format, "ParentId", "u32", LocationType::Static, 8, 4);
    push_field(format, "SessionId", "u32", LocationType::Static, 12, 4);
    push_field(format, "ExitStatus", "s32", LocationType::Static, 16, 4);
    push_field(format, "DirectoryTableBase", "u32", LocationType::Static, 20, 4);
    push_field(format, "UserSID", "object", LocationType::Static, 24, 0);
    push_field(format, "ImageFileName", "string", LocationType::StaticUTF16String, 24, 0);
    push_field(format, "CommandLine", "string", LocationType::StaticUTF16String, 24, 0);
    event.set_no_callstack_flag();
    event
}

/// The image load/unload event of the kernel: 32-bit image fields with
/// reserved gaps, then the file name as a UTF-16 string.
pub fn mmap(id: usize, name: &str) -> (e: Event)
    ensures
        e.spec_id() == id,
        e.spec_name() == name@,
        e.spec_no_callstack(),
        ({
            let f = e.spec_format().spec_fields();
            &&& f.len() == 7
            &&& field_is(f[0], "ImageBase"@, "u32"@, LocationType::Static, 0, 4)
            &&& field_is(f[1], "ImageSize"@, "u32"@, LocationType::Static, 4, 4)
            &&& field_is(f[2], "ProcessId"@, "u32"@, LocationType::Static, 8, 4)
            &&& field_is(f[3], "ImageCheckSum"@, "u32"@, LocationType::Static, 12, 4)
            &&& field_is(f[4], "TimeDateStamp"@, "u32"@, LocationType::Static, 16, 4)
            &&& field_is(f[5], "DefaultBase"@, "u32"@, LocationType::Static, 24, 4)
            &&& field_is(f[6], "FileName"@, "string"@, LocationType::StaticUTF16String, 44, 0)
        }),
{
    let mut event = Event::new(id, name.to_owned());
    let format = event.format_mut();
    push_field(format, "ImageBase", "u32", LocationType::Static, 0, 4);
    push_field(format, "ImageSize", "u32", LocationType::Static, 4, 4);
    push_field(format, "ProcessId", "u32", LocationType::Static, 8, 4);
    push_field(format, "ImageCheckSum", "u32", LocationType::Static, 12, 4);
    push_field(format, "TimeDateStamp", "u32", LocationType::Static, 16, 4);
    // Reserved0 at 20
    push_field(format, "DefaultBase", "u32", LocationType::Static, 24, 4);
    // Reserved1..4 at 28, 32, 36, 40, so the name starts at 44
    push_field(format, "FileName", "string", LocationType::StaticUTF16String, 44, 0);
    event.set_no_callstack_flag();
    event
}

/// Whether two GUIDs are the same.
pub fn same_guid(a: &Guid, b: &Guid) -> (r: bool)
    ensures
        r == (*a == *b),
{
    let mut same = a.data1 == b.data1 && a.data2 == b.data2 && a.data3 == b.data3;
    let mut i: usize = 0;
    assert(a.data4@.take(0) =~= b.data4@.take(0));
    while i < 8
        invariant
            i <= 8,
            a.data4@.len() == 8,
            b.data4@.len() == 8,
            same == (a.data1 == b.data1 && a.data2 == b.data2 && a.data3 == b.data3
                && a.data4@.take(i as int) =~= b.data4@.take(i as int)),
        decreases 8 - i,
    {
        assert(a.data4@.take(i + 1) =~= a.data4@.take(i as int).push(a.data4@[i as int]));
        assert(b.data4@.take(i + 1) =~= b.data4@.take(i as int).push(b.data4@[i as int]));
        if a.data4[i] != b.data4[i] {
            assert(a.data4@.take(i + 1) != b.data4@.take(i + 1)) by {
                assert(a.data4@.take(i + 1)[i as int] != b.data4@.take(i + 1)[i as int]);
            }
            same = false;
        }
        i = i + 1;
    }
    assert(a.data4@.take(8) =~= a.data4@);
    assert(b.data4@.take(8) =~= b.data4@);
    if same {
        assert(a.data4 =~= b.data4);
    }
    same
}

/// The classic kernel events whose callstacks a session asks for: each a
/// provider GUID and an event type, with no pair twice.
pub struct KernelCallstacks {
    events: Vec<(Guid, u8)>,
}

impl KernelCallstacks {
    /// The pairs asked for, in the order they were first added.
    pub closed spec fn spec_events(&self) -> Seq<(Guid, u8)> {
        self.events@
    }

    /// No pair is asked for twice.
    pub open spec fn wf(&self) -> bool {
        self.spec_events().no_duplicates()
    }

    pub fn new() -> (k: Self)
        ensures
            k.wf(),
            k.spec_events() == Seq::<(Guid, u8)>::empty(),
    {
        Self { events: Vec::new() }
    }

    /// Asks for the callstacks of event type `id` of `provider`. Ids above
    /// 255 are no event type and are ignored, as is a pair already asked
    /// for.
    pub fn add(&mut self, provider: Guid, id: usize)
        requires
            old(self).wf(),
        ensures
            final(self).wf(),
            id > 255 || old(self).spec_events().contains((provider, id as u8)) ==> final(self).spec_events()
                == old(self).spec_events(),
            id <= 255 && !old(self).spec_events().contains((provider, id as u8)) ==> final(self).spec_events()
                == old(self).spec_events().push((provider, id as u8)),
    {
        if id > 255 {
            return;
        }
        let kind = id as u8;
        let mut i: usize = 0;
        while i < self.events.len()
            invariant
                i <= self.events@.len(),
                id <= 255,
                kind == id as u8,
                old(self).wf(),
                self.events@ == old(self).spec_events(),
                forall|j: int| 0 <= j < i ==> self.events@[j] != (provider, kind),
            decreases self.events@.len() - i,
        {
            let (g, t) = self.events[i];
            if same_guid(&g, &provider) && t == kind {
                assert(self.events@[i as int] == (provider, kind));
                return;
            }
            i = i + 1;
        }
        self.events.push((provider, kind));
    }

    /// Whether any callstack is asked for.
    pub fn needs_kernel_callstacks(&self) -> (b: bool)
        ensures
            b == (self.spec_events().len() > 0),
    {
        self.events.len() > 0
    }

    /// The pairs asked for.
    pub fn events(&self) -> (e: &[(Guid, u8)])
        ensures
            e@ == self.spec_events(),
    {
        self.events.as_slice()
    }
}

} // verus!
