//! .NET runtime providers, events and scenarios.

use vstd::prelude::*;

use crate::event::{str_eq, EventFormat, u64_from_le_seq, read_u64_le};
use crate::guid::{
    Guid, eventsource_namespace, guid_from_provider_name_hash, guid_literal_value, parse_guid_literal,
    provider_name_bytes, sha1_digest_of, spec_guid_from_u128,
};
use crate::text::string_push;

pub mod linux;
pub mod runtime;

verus! {

/// The upper-case hexadecimal digit of `d` (0 to 15).
pub open spec fn hex_digit_char(d: int) -> char {
    if d < 10 {
        (('0' as int) + d) as char
    } else {
        (('A' as int) + d - 10) as char
    }
}

/// The last `n` hexadecimal digits of `v`, most significant first.
pub open spec fn hex_fixed(v: int, n: nat) -> Seq<char>
    decreases n,
{
    if n == 0 {
        Seq::empty()
    } else {
        hex_fixed(v / 16, (n - 1) as nat).push(hex_digit_char(v % 16))
    }
}

fn hex_char(d: u64) -> (c: char)
    requires
        d < 16,
    ensures
        c == hex_digit_char(d as int),
{
    if d < 10 {
        ((48 + d) as u8) as char
    } else {
        ((55 + d) as u8) as char
    }
}

/// Appends the last `n` hexadecimal digits of `v` (upper case).
fn push_hex(out: &mut String, v: u64, n: usize)
    ensures
        final(out)@ == old(out)@ + hex_fixed(v as int, n as nat),
    decreases n,
{
    if n > 0 {
        push_hex(out, v / 16, n - 1);
        string_push(out, hex_char(v % 16));
    } else {
        assert(old(out)@ + hex_fixed(v as int, 0) =~= old(out)@);
    }
}

/// Appends the characters of `s`.
pub(crate) fn push_str_chars(out: &mut String, s: &str)
    ensures
        final(out)@ == old(out)@ + s@,
{
    let ghost start = out@;
    let n = s.unicode_len();
    let mut i: usize = 0;
    while i < n
        invariant
            n == s@.len(),
            i <= n,
            out@ == start + s@.take(i as int),
        decreases n - i,
    {
        let c = s.get_char(i);
        string_push(out, c);
        assert(s@.take(i + 1) =~= s@.take(i as int).push(c));
        i = i + 1;
    }
    assert(s@.take(n as int) =~= s@);
}

/// The text of a GUID as `XXXXXXXX-XXXX-XXXX-XXXX-XXXXXXXXXXXX`.
pub open spec fn guid_text(g: Guid) -> Seq<char> {
    hex_fixed(g.data1 as int, 8) + seq!['-'] + hex_fixed(g.data2 as int, 4) + seq!['-'] + hex_fixed(
        g.data3 as int,
        4,
    ) + seq!['-'] + hex_fixed(g.data4[0] as int, 2) + hex_fixed(g.data4[1] as int, 2) + seq!['-']
        + hex_fixed(g.data4[2] as int, 2) + hex_fixed(g.data4[3] as int, 2) + hex_fixed(g.data4[4] as int, 2)
        + hex_fixed(g.data4[5] as int, 2) + hex_fixed(g.data4[6] as int, 2) + hex_fixed(g.data4[7] as int, 2)
}

/// The full name of a provider's event: `provider:{GUID}/event`.
pub fn event_full_name(provider_name: &str, guid: Guid, event_name: &str) -> (full: String)
    ensures
        full@ == provider_name@ + seq![':', '{'] + guid_text(guid) + seq!['}', '/'] + event_name@,
{
    let mut full = String::new();
    push_str_chars(&mut full, provider_name);
    string_push(&mut full, ':');
    string_push(&mut full, '{');
    let ghost head = full@;
    push_hex(&mut full, guid.data1 as u64, 8);
    string_push(&mut full, '-');
    push_hex(&mut full, guid.data2 as u64, 4);
    string_push(&mut full, '-');
    push_hex(&mut full, guid.data3 as u64, 4);
    string_push(&mut full, '-');
    push_hex(&mut full, guid.data4[0] as u64, 2);
    push_hex(&mut full, guid.data4[1] as u64, 2);
    string_push(&mut full, '-');
    push_hex(&mut full, guid.data4[2] as u64, 2);
    push_hex(&mut full, guid.data4[3] as u64, 2);
    push_hex(&mut full, guid.data4[4] as u64, 2);
    push_hex(&mut full, guid.data4[5] as u64, 2);
    push_hex(&mut full, guid.data4[6] as u64, 2);
    push_hex(&mut full, guid.data4[7] as u64, 2);
    assert(full@ =~= head + guid_text(guid));
    string_push(&mut full, '}');
    string_push(&mut full, '/');
    push_str_chars(&mut full, event_name);
    assert(full@ =~= provider_name@ + seq![':', '{'] + guid_text(guid) + seq!['}', '/'] + event_name@);
    full
}

/// Why a provider name gives no GUID.
#[derive(Debug, Clone, Copy, PartialEq, Eq)]
pub enum DotNetProviderError {
    /// A `{...}` name that is not a hexadecimal GUID.
    InvalidFormat,
}

/// The fixed control GUID of a .NET runtime provider name, if it is one.
pub open spec fn runtime_provider_guid(name: Seq<char>) -> Option<u128> {
    if name == "Microsoft-Windows-DotNETRuntime"@ {
        Some(0xe13c0d23_ccbc_4e12_931b_d9cc2eee27e4u128)
    } else if name == "Microsoft-Windows-DotNETRuntimeRundown"@ {
        Some(0xA669021C_C450_4609_A035_5AF59AF4DF18u128)
    } else if name == "Microsoft-Windows-DotNETRuntimeStress"@ {
        Some(0xCC2BCBBA_16B6_4cf3_8990_D74C2E8AF500u128)
    } else if name == "Microsoft-Windows-DotNETRuntimePrivate"@ {
        Some(0x763FD754_7086_4dfe_95EB_C01A46FAF4CAu128)
    } else if name == "Microsoft-DotNETRuntimeMonoProfiler"@ {
        Some(0x7F442D82_0F1D_5155_4B8C_1529EB2E31C2u128)
    } else {
        None
    }
}

/// The control GUID of a provider: the fixed GUID of a .NET runtime
/// provider, the parsed GUID of a `{GUID}` name, else the EventSource
/// hash of the name.
pub fn guid_from_provider(provider_name: &str) -> (r: Result<Guid, DotNetProviderError>)
    ensures
        runtime_provider_guid(provider_name@) matches Some(v) ==> r == Ok::<Guid, DotNetProviderError>(
            spec_guid_from_u128(v),
        ),
        runtime_provider_guid(provider_name@) is None && provider_name@.len() > 0 && provider_name@[0]
            == '{' ==> match guid_literal_value(provider_name@) {
            Some(v) => r == Ok::<Guid, DotNetProviderError>(spec_guid_from_u128(v)),
            None => r == Err::<Guid, DotNetProviderError>(DotNetProviderError::InvalidFormat),
        },
        runtime_provider_guid(provider_name@) is None && !(provider_name@.len() > 0 && provider_name@[0]
            == '{') ==> (r matches Ok(g) && g.is_v5_of_digest(
            sha1_digest_of(eventsource_namespace() + provider_name_bytes(provider_name@)),
        )),
{
    if str_eq(provider_name, "Microsoft-Windows-DotNETRuntime") {
        return Ok(Guid::from_u128(0xe13c0d23_ccbc_4e12_931b_d9cc2eee27e4));
    }
    if str_eq(provider_name, "Microsoft-Windows-DotNETRuntimeRundown") {
        return Ok(Guid::from_u128(0xA669021C_C450_4609_A035_5AF59AF4DF18));
    }
    if str_eq(provider_name, "Microsoft-Windows-DotNETRuntimeStress") {
        return Ok(Guid::from_u128(0xCC2BCBBA_16B6_4cf3_8990_D74C2E8AF500));
    }
    if str_eq(provider_name, "Microsoft-Windows-DotNETRuntimePrivate") {
        return Ok(Guid::from_u128(0x763FD754_7086_4dfe_95EB_C01A46FAF4CA));
    }
    if str_eq(provider_name, "Microsoft-DotNETRuntimeMonoProfiler") {
        return Ok(Guid::from_u128(0x7F442D82_0F1D_5155_4B8C_1529EB2E31C2));
    }
    if provider_name.unicode_len() > 0 && provider_name.get_char(0) == '{' {
        return match parse_guid_literal(provider_name) {
            Some(g) => Ok(g),
            None => Err(DotNetProviderError::InvalidFormat),
        };
    }
    Ok(guid_from_provider_name_hash(provider_name))
}

/// Whether a provider's events ask for callstacks, and for which keywords.
#[derive(Debug, Clone, Copy, Default)]
pub struct DotNetProviderFlags {
    callstacks: bool,
    callstack_keywords: u64,
}

impl View for DotNetProviderFlags {
    type V = (bool, u64);

    closed spec fn view(&self) -> (bool, u64) {
        (self.callstacks, self.callstack_keywords)
    }
}

impl DotNetProviderFlags {
    pub fn new() -> (f: Self)
        ensures
            f@ == (false, 0u64),
    {
        Self { callstacks: false, callstack_keywords: 0 }
    }

    /// Callstacks for every keyword.
    pub fn with_callstacks(&mut self)
        ensures
            final(self)@ == (true, u64::MAX),
    {
        self.callstacks = true;
        self.callstack_keywords = u64::MAX;
    }

    /// Callstacks for the given keywords.
    pub fn with_callstacks_for_keywords(&mut self, keywords: u64)
        ensures
            final(self)@ == (true, keywords),
    {
        self.callstacks = true;
        self.callstack_keywords = keywords;
    }

    pub fn callstacks(&self) -> (b: bool)
        ensures
            b == self@.0,
    {
        self.callstacks
    }

    pub fn callstack_keywords(&self) -> (k: u64)
        ensures
            k == self@.1,
    {
        self.callstack_keywords
    }
}

/// A .NET runtime event to enable: its id, keywords and level.
#[derive(Debug, Clone, Copy, Default)]
pub struct DotNetEvent {
    id: u16,
    keywords: u64,
    level: u8,
}

impl View for DotNetEvent {
    type V = (u16, u64, u8);

    closed spec fn view(&self) -> (u16, u64, u8) {
        (self.id, self.keywords, self.level)
    }
}

impl DotNetEvent {
    pub fn new(id: u16, keywords: u64, level: u8) -> (e: Self)
        ensures
            e@ == (id, keywords, level),
    {
        Self { id, keywords, level }
    }

    pub fn id(&self) -> (i: u16)
        ensures
            i == self@.0,
    {
        self.id
    }

    pub fn keywords(&self) -> (k: u64)
        ensures
            k == self@.1,
    {
        self.keywords
    }

    pub fn level(&self) -> (l: u8)
        ensures
            l == self@.2,
    {
        self.level
    }
}

/// The union of the keywords of the events.
pub open spec fn keywords_of(events: Seq<(u16, u64, u8)>) -> u64
    decreases events.len(),
{
    if events.len() == 0 {
        0
    } else {
        keywords_of(events.drop_last()) | events.last().1
    }
}

/// The highest level of the events (0 for none).
pub open spec fn level_of(events: Seq<(u16, u64, u8)>) -> u8
    decreases events.len(),
{
    if events.len() == 0 {
        0
    } else {
        let l = level_of(events.drop_last());
        if events.last().2 > l {
            events.last().2
        } else {
            l
        }
    }
}

/// Keywords and level after enabling one more event: the keywords or-ed
/// with its keyword, the level raised to its level.
pub open spec fn keyword_updated(keywords: u64, level: u8, keyword: u64, event_level: u8) -> (u64, u8) {
    (keywords | keyword, if event_level > level { event_level } else { level })
}

/// Enabling two events gives the same keywords and level in either order.
pub proof fn lemma_keyword_updates_commute(keywords: u64, level: u8, k1: u64, l1: u8, k2: u64, l2: u8)
    ensures
        ({
            let a = keyword_updated(keywords, level, k1, l1);
            let b = keyword_updated(keywords, level, k2, l2);
            keyword_updated(a.0, a.1, k2, l2) == keyword_updated(b.0, b.1, k1, l1)
        }),
{
    assert((keywords | k1) | k2 == (keywords | k2) | k1) by (bit_vector);
}

/// Enabling an event again changes nothing.
pub proof fn lemma_keyword_update_idempotent(keywords: u64, level: u8, k: u64, l: u8)
    ensures
        ({
            let a = keyword_updated(keywords, level, k, l);
            keyword_updated(a.0, a.1, k, l) == a
        }),
{
    assert((keywords | k) | k == keywords | k) by (bit_vector);
}

/// Runtime events of one provider, with the keywords and level that
/// enable all of them.
#[derive(Debug, Clone, Default)]
pub struct DotNetEventGroup {
    events: Vec<DotNetEvent>,
    keyword: u64,
    level: u8,
}

impl View for DotNetEventGroup {
    type V = (Seq<(u16, u64, u8)>, u64, u8);

    closed spec fn view(&self) -> (Seq<(u16, u64, u8)>, u64, u8) {
        (self.events@.map_values(|e: DotNetEvent| e@), self.keyword, self.level)
    }
}

impl DotNetEventGroup {
    /// The keyword is the union of the events' keywords and the level is
    /// their highest level.
    pub open spec fn wf(&self) -> bool {
        &&& self@.1 == keywords_of(self@.0)
        &&& self@.2 == level_of(self@.0)
    }

    pub fn new() -> (g: Self)
        ensures
            g.wf(),
            g@.0 == Seq::<(u16, u64, u8)>::empty(),
    {
        let g = Self { events: Vec::new(), keyword: 0, level: 0 };
        assert(g@.0 =~= Seq::<(u16, u64, u8)>::empty());
        g
    }

    pub fn events(&self) -> (e: &Vec<DotNetEvent>)
        ensures
            e@.map_values(|x: DotNetEvent| x@) == self@.0,
    {
        &self.events
    }

    pub fn keyword(&self) -> (k: u64)
        ensures
            k == self@.1,
    {
        self.keyword
    }

    pub fn level(&self) -> (l: u8)
        ensures
            l == self@.2,
    {
        self.level
    }

    /// Adds `keyword` to the keywords and raises the level to `level`.
    fn update_keyword(&mut self, keyword: u64, level: u8)
        ensures
            final(self)@.0 == old(self)@.0,
            (final(self)@.1, final(self)@.2) == keyword_updated(old(self)@.1, old(self)@.2, keyword, level),
    {
        self.keyword = self.keyword | keyword;
        if level > self.level {
            self.level = level;
        }
    }

    /// Adds an event, widening the keywords and level to enable it.
    pub fn add(&mut self, event: DotNetEvent)
        requires
            old(self).wf(),
        ensures
            final(self).wf(),
            final(self)@.0 == old(self)@.0.push(event@),
            (final(self)@.1, final(self)@.2) == keyword_updated(old(self)@.1, old(self)@.2, event@.1, event@.2),
    {
        let ghost before = self@.0;
        self.update_keyword(event.keywords, event.level);
        self.events.push(event);
        assert(self@.0 =~= before.push(event@));
        assert(self@.0.drop_last() =~= before);
    }
}

/// A metric a .NET sample gives.
#[derive(Debug, Clone, Copy, PartialEq, Eq)]
pub enum MetricValue {
    Count(u64),
    Bytes(u64),
}

/// How a sample's value is read from an event payload: a count of one, or
/// a count or byte amount held as a 64-bit value at an offset.
#[derive(Debug, Clone, Copy, PartialEq, Eq, Structural)]
pub enum DotNetSampleValue {
    CountOne,
    CountAt(usize),
    BytesAt(usize),
}

impl DotNetSampleValue {
    /// The payload bytes the value needs.
    pub open spec fn needs(&self) -> int {
        match self {
            DotNetSampleValue::CountOne => 0,
            DotNetSampleValue::CountAt(o) => o + 8,
            DotNetSampleValue::BytesAt(o) => o + 8,
        }
    }

    /// The value of a payload: the 64-bit value (little-endian) at the
    /// offset, or one.
    pub fn value(&self, data: &[u8]) -> (m: MetricValue)
        requires
            self.needs() <= data@.len(),
        ensures
            m == match self {
                DotNetSampleValue::CountOne => MetricValue::Count(1),
                DotNetSampleValue::CountAt(o) => MetricValue::Count(
                    u64_from_le_seq(data@.subrange(*o as int, *o + 8)),
                ),
                DotNetSampleValue::BytesAt(o) => MetricValue::Bytes(
                    u64_from_le_seq(data@.subrange(*o as int, *o + 8)),
                ),
            },
    {
        let n = data.len();
        match self {
            DotNetSampleValue::CountOne => MetricValue::Count(1),
            DotNetSampleValue::CountAt(o) => {
                let slice = vstd::slice::slice_subrange(data, *o, *o + 8);
                MetricValue::Count(read_u64_le(slice))
            },
            DotNetSampleValue::BytesAt(o) => {
                let slice = vstd::slice::slice_subrange(data, *o, *o + 8);
                MetricValue::Bytes(read_u64_le(slice))
            },
        }
    }
}

/// A runtime event to record or sample: its .NET id, name and format, how
/// its value is read, whether it is recorded, and whether it goes without
/// a callstack.
pub struct DotNetSample {
    id: u16,
    name: String,
    format: EventFormat,
    value: DotNetSampleValue,
    record: bool,
    no_callstack: bool,
}

impl DotNetSample {
    pub closed spec fn spec_id(&self) -> u16 {
        self.id
    }

    pub closed spec fn spec_name(&self) -> Seq<char> {
        self.name@
    }

    pub closed spec fn spec_format(&self) -> EventFormat {
        self.format
    }

    pub closed spec fn spec_value(&self) -> DotNetSampleValue {
        self.value
    }

    pub closed spec fn spec_record(&self) -> bool {
        self.record
    }

    pub closed spec fn spec_no_callstack(&self) -> bool {
        self.no_callstack
    }

    pub fn id(&self) -> (i: u16)
        ensures
            i == self.spec_id(),
    {
        self.id
    }

    pub fn name(&self) -> (n: &str)
        ensures
            n@ == self.spec_name(),
    {
        self.name.as_str()
    }

    pub fn format(&self) -> (f: &EventFormat)
        ensures
            *f == self.spec_format(),
    {
        &self.format
    }

    pub fn sample_value(&self) -> (v: DotNetSampleValue)
        ensures
            v == self.spec_value(),
    {
        self.value
    }

    pub fn record(&self) -> (b: bool)
        ensures
            b == self.spec_record(),
    {
        self.record
    }

    pub fn no_callstack(&self) -> (b: bool)
        ensures
            b == self.spec_no_callstack(),
    {
        self.no_callstack
    }

    /// Gives up the sample for its event format and the way its value is
    /// read.
    pub fn take(self) -> (r: (EventFormat, DotNetSampleValue))
        ensures
            r.0 == self.spec_format(),
            r.1 == self.spec_value(),
    {
        (self.format, self.value)
    }
}

/// A set of runtime events to enable, and whether to record them and take
/// callstacks.
#[derive(Debug, Clone, Default)]
pub struct DotNetScenario {
    runtime: DotNetEventGroup,
    record: bool,
    callstacks: bool,
}

impl DotNetScenario {
    pub closed spec fn spec_runtime(&self) -> DotNetEventGroup {
        self.runtime
    }

    pub closed spec fn spec_record(&self) -> bool {
        self.record
    }

    pub closed spec fn spec_callstacks(&self) -> bool {
        self.callstacks
    }

    pub open spec fn wf(&self) -> bool {
        self.spec_runtime().wf()
    }

    pub fn new() -> (s: Self)
        ensures
            s.wf(),
            s.spec_runtime()@.0 == Seq::<(u16, u64, u8)>::empty(),
            !s.spec_record(),
            !s.spec_callstacks(),
    {
        Self { runtime: DotNetEventGroup::new(), record: false, callstacks: false }
    }

    pub fn runtime(&self) -> (g: &DotNetEventGroup)
        ensures
            *g == self.spec_runtime(),
    {
        &self.runtime
    }

    /// Records the scenario's events.
    pub fn with_records(&mut self)
        ensures
            final(self).spec_record(),
            final(self).spec_callstacks() == old(self).spec_callstacks(),
            final(self).spec_runtime() == old(self).spec_runtime(),
    {
        self.record = true;
    }

    /// Takes callstacks with the scenario's events.
    pub fn with_callstacks(&mut self)
        ensures
            final(self).spec_callstacks(),
            final(self).spec_record() == old(self).spec_record(),
            final(self).spec_runtime() == old(self).spec_runtime(),
    {
        self.callstacks = true;
    }
}

} // verus!
