//! The nettrace file format: the bytes of its trace, metadata and event
//! block objects, built in memory.

use vstd::prelude::*;
use vstd::string::StringSliceAdditionalSpecFns;

use crate::exporting::mappings::ExportMapping;
use crate::exporting::modulemetadata::ModuleMetadata;
use crate::exporting::symbols::ExportSymbol;
use crate::intern::InternedStrings;
use crate::text::string_push;
use crate::dotnet::push_str_chars;

verus! {

/// The little-endian bytes of a 16-bit value.
pub open spec fn le16(v: u16) -> Seq<u8> {
    seq![(v % 256) as u8, (v / 256) as u8]
}

/// The little-endian bytes of a 32-bit value.
pub open spec fn le32(v: u32) -> Seq<u8> {
    seq![(v % 256) as u8, ((v / 256) % 256) as u8, ((v / 65536) % 256) as u8, (v / 16777216) as u8]
}

/// The little-endian bytes of a 64-bit value.
pub open spec fn le64(v: u64) -> Seq<u8> {
    le32((v % 0x1_0000_0000) as u32) + le32((v / 0x1_0000_0000) as u32)
}

/// The variable-length encoding of a value: seven bits a byte, lowest
/// first, the high bit set on every byte but the last.
pub open spec fn varint(v: u64) -> Seq<u8>
    decreases v,
{
    if v < 128 {
        seq![v as u8]
    } else {
        seq![((v % 128) + 128) as u8] + varint(v / 128)
    }
}

/// The 16-bit code units of characters (each character's code truncated to
/// 16 bits), little-endian.
pub open spec fn unicode_units(s: Seq<char>) -> Seq<u8>
    decreases s.len(),
{
    if s.len() == 0 {
        Seq::empty()
    } else {
        unicode_units(s.drop_last()) + le16(((s.last() as u32) % 65536) as u16)
    }
}

/// A string as 16-bit units with a terminating zero unit.
pub open spec fn unicode_z(s: Seq<char>) -> Seq<u8> {
    unicode_units(s) + le16(0)
}

/// A string as its UTF-8 byte count (32 bits) and bytes.
pub open spec fn utf8(bytes: Seq<u8>) -> Seq<u8> {
    le32(bytes.len() as u32) + bytes
}

/// `n` zero bytes.
pub open spec fn zeros(n: nat) -> Seq<u8> {
    Seq::new(n, |i: int| 0u8)
}

/// The padding that aligns position `pos` to four bytes.
pub open spec fn pad_for(pos: int) -> nat {
    if pos % 4 == 0 { 0 } else { (4 - pos % 4) as nat }
}

pub(crate) fn push_u8(out: &mut Vec<u8>, v: u8)
    ensures
        final(out)@ == old(out)@.push(v),
{
    out.push(v);
}

pub(crate) fn push_u16(out: &mut Vec<u8>, v: u16)
    ensures
        final(out)@ == old(out)@ + le16(v),
{
    out.push((v % 256) as u8);
    out.push((v / 256) as u8);
    assert(out@ =~= old(out)@ + le16(v));
}

pub(crate) fn push_u32(out: &mut Vec<u8>, v: u32)
    ensures
        final(out)@ == old(out)@ + le32(v),
{
    out.push((v % 256) as u8);
    out.push(((v / 256) % 256) as u8);
    out.push(((v / 65536) % 256) as u8);
    out.push((v / 16777216) as u8);
    assert(out@ =~= old(out)@ + le32(v));
}

pub(crate) fn push_u64(out: &mut Vec<u8>, v: u64)
    ensures
        final(out)@ == old(out)@ + le64(v),
{
    push_u32(out, (v % 0x1_0000_0000) as u32);
    push_u32(out, (v / 0x1_0000_0000) as u32);
    assert(out@ =~= old(out)@ + le64(v));
}

fn push_varint(out: &mut Vec<u8>, v: u64)
    ensures
        final(out)@ == old(out)@ + varint(v),
    decreases v,
{
    if v < 128 {
        out.push(v as u8);
        assert(out@ =~= old(out)@ + varint(v));
    } else {
        out.push(((v % 128) + 128) as u8);
        let ghost mid = out@;
        push_varint(out, v / 128);
        assert(out@ =~= old(out)@ + varint(v));
    }
}

fn push_bytes(out: &mut Vec<u8>, bytes: &[u8])
    ensures
        final(out)@ == old(out)@ + bytes@,
{
    let mut i: usize = 0;
    while i < bytes.len()
        invariant
            i <= bytes@.len(),
            out@ == old(out)@ + bytes@.take(i as int),
        decreases bytes@.len() - i,
    {
        out.push(bytes[i]);
        assert(out@ =~= old(out)@ + bytes@.take(i + 1));
        i = i + 1;
    }
    assert(bytes@.take(i as int) =~= bytes@);
}

pub(crate) fn push_unicode_z(out: &mut Vec<u8>, s: &str)
    ensures
        final(out)@ == old(out)@ + unicode_z(s@),
{
    let n = s.unicode_len();
    let mut i: usize = 0;
    while i < n
        invariant
            n == s@.len(),
            i <= n,
            out@ == old(out)@ + unicode_units(s@.take(i as int)),
        decreases n - i,
    {
        let c = s.get_char(i);
        push_u16(out, ((c as u32) % 65536) as u16);
        assert(s@.take(i + 1).drop_last() =~= s@.take(i as int));
        assert(out@ =~= old(out)@ + unicode_units(s@.take(i + 1)));
        i = i + 1;
    }
    assert(s@.take(n as int) =~= s@);
    push_u16(out, 0);
    assert(out@ =~= old(out)@ + unicode_z(s@));
}

fn push_utf8(out: &mut Vec<u8>, s: &str)
    ensures
        final(out)@ == old(out)@ + utf8(s.spec_bytes()),
{
    let bytes = s.as_bytes();
    push_u32(out, bytes.len() as u32);
    push_bytes(out, bytes);
    assert(out@ =~= old(out)@ + utf8(s.spec_bytes()));
}

/// A field of a metadata event: its type id and name.
#[derive(Clone, Copy)]
pub struct NetTraceField {
    pub type_id: u32,
    pub name: &'static str,
}

pub const TYPE_ID_UINT32: u32 = 10;
pub const TYPE_ID_UINT64: u32 = 12;
pub const TYPE_ID_STRING: u32 = 18;

/// The field views of a field list.
pub open spec fn field_views(fields: Seq<NetTraceField>) -> Seq<(u32, Seq<char>)> {
    fields.map_values(|f: NetTraceField| (f.type_id, f.name@))
}

fn field(type_id: u32, name: &'static str) -> (f: NetTraceField)
    ensures
        f.type_id == type_id,
        f.name@ == name@,
{
    NetTraceField { type_id, name }
}

/// The field of a stack event: its value.
pub fn stack_event_fields() -> (f: Vec<NetTraceField>)
    ensures
        field_views(f@) == seq![(TYPE_ID_UINT64, "Value"@)],
{
    let f = vec![field(TYPE_ID_UINT64, "Value")];
    assert(field_views(f@) =~= seq![(TYPE_ID_UINT64, "Value"@)]);
    f
}

/// The fields of a process create event.
pub fn process_create_fields() -> (f: Vec<NetTraceField>)
    ensures
        field_views(f@) == seq![
            (TYPE_ID_UINT32, "Id"@),
            (TYPE_ID_UINT32, "NamespaceId"@),
            (TYPE_ID_STRING, "Name"@),
            (TYPE_ID_STRING, "NamespaceName"@),
        ],
{
    let f = vec![
        field(TYPE_ID_UINT32, "Id"),
        field(TYPE_ID_UINT32, "NamespaceId"),
        field(TYPE_ID_STRING, "Name"),
        field(TYPE_ID_STRING, "NamespaceName"),
    ];
    assert(field_views(f@) =~= seq![
        (TYPE_ID_UINT32, "Id"@),
        (TYPE_ID_UINT32, "NamespaceId"@),
        (TYPE_ID_STRING, "Name"@),
        (TYPE_ID_STRING, "NamespaceName"@),
    ]);
    f
}

/// The field of a process exit event.
pub fn process_exit_fields() -> (f: Vec<NetTraceField>)
    ensures
        field_views(f@) == seq![(TYPE_ID_UINT32, "ProcessId"@)],
{
    let f = vec![field(TYPE_ID_UINT32, "ProcessId")];
    assert(field_views(f@) =~= seq![(TYPE_ID_UINT32, "ProcessId"@)]);
    f
}

/// The fields of a process mapping event.
pub fn process_mapping_fields() -> (f: Vec<NetTraceField>)
    ensures
        field_views(f@) == seq![
            (TYPE_ID_UINT32, "Id"@),
            (TYPE_ID_UINT32, "ProcessId"@),
            (TYPE_ID_UINT64, "StartAddress"@),
            (TYPE_ID_UINT64, "EndAddress"@),
            (TYPE_ID_UINT64, "FileOffset"@),
            (TYPE_ID_STRING, "FileName"@),
            (TYPE_ID_STRING, "SymbolIndex"@),
        ],
{
    let f = vec![
        field(TYPE_ID_UINT32, "Id"),
        field(TYPE_ID_UINT32, "ProcessId"),
        field(TYPE_ID_UINT64, "StartAddress"),
        field(TYPE_ID_UINT64, "EndAddress"),
        field(TYPE_ID_UINT64, "FileOffset"),
        field(TYPE_ID_STRING, "FileName"),
        field(TYPE_ID_STRING, "SymbolIndex"),
    ];
    assert(field_views(f@) =~= seq![
        (TYPE_ID_UINT32, "Id"@),
        (TYPE_ID_UINT32, "ProcessId"@),
        (TYPE_ID_UINT64, "StartAddress"@),
        (TYPE_ID_UINT64, "EndAddress"@),
        (TYPE_ID_UINT64, "FileOffset"@),
        (TYPE_ID_STRING, "FileName"@),
        (TYPE_ID_STRING, "SymbolIndex"@),
    ]);
    f
}

/// The fields of a process symbol event.
pub fn process_symbol_fields() -> (f: Vec<NetTraceField>)
    ensures
        field_views(f@) == seq![
            (TYPE_ID_UINT32, "Id"@),
            (TYPE_ID_UINT32, "MappingId"@),
            (TYPE_ID_UINT64, "StartAddress"@),
            (TYPE_ID_UINT64, "EndAddress"@),
            (TYPE_ID_STRING, "Name"@),
        ],
{
    let f = vec![
        field(TYPE_ID_UINT32, "Id"),
        field(TYPE_ID_UINT32, "MappingId"),
        field(TYPE_ID_UINT64, "StartAddress"),
        field(TYPE_ID_UINT64, "EndAddress"),
        field(TYPE_ID_STRING, "Name"),
    ];
    assert(field_views(f@) =~= seq![
        (TYPE_ID_UINT32, "Id"@),
        (TYPE_ID_UINT32, "MappingId"@),
        (TYPE_ID_UINT64, "StartAddress"@),
        (TYPE_ID_UINT64, "EndAddress"@),
        (TYPE_ID_STRING, "Name"@),
    ]);
    f
}

/// The field list of a metadata payload: each field's type id and name.
pub open spec fn fields_payload(fields: Seq<(u32, Seq<char>)>) -> Seq<u8>
    decreases fields.len(),
{
    if fields.len() == 0 {
        Seq::empty()
    } else {
        fields_payload(fields.drop_last()) + le32(fields.last().0) + unicode_z(fields.last().1)
    }
}

/// The payload of a metadata event.
pub open spec fn metadata_payload(
    meta_id: u32,
    provider: Seq<char>,
    event_id: u32,
    event_name: Seq<char>,
    keywords: u64,
    version: u32,
    level: u32,
    fields: Seq<(u32, Seq<char>)>,
) -> Seq<u8> {
    le32(meta_id) + unicode_z(provider) + le32(event_id) + unicode_z(event_name) + le64(keywords) + le32(version)
        + le32(level) + le32(fields.len() as u32) + fields_payload(fields)
}

/// A metadata event: flags, timestamp, payload size and payload.
pub open spec fn metadata_event(sync_time: u64, payload: Seq<u8>) -> Seq<u8> {
    seq![128u8] + varint(sync_time) + varint(payload.len() as u64) + payload
}

/// The start of an object: begin tags, a null type reference, versions and
/// the type name, then the type's end tag.
pub open spec fn start_object(version: u32, min_version: u32, name: Seq<u8>) -> Seq<u8> {
    seq![5u8, 5u8, 1u8] + le32(version) + le32(min_version) + utf8(name) + seq![6u8]
}

/// The header of a metadata or event block: header size, flags, and the
/// time range from the sync time on.
pub open spec fn block_header(sync_time: u64) -> Seq<u8> {
    le16(20) + le16(1) + le64(sync_time) + le64(u64::MAX)
}

/// The metadata events of the stack kinds (from meta id `first` on) and of
/// the system events after them.
pub open spec fn kind_metadata(kinds: Seq<Seq<char>>, sync_time: u64) -> Seq<u8>
    decreases kinds.len(),
{
    if kinds.len() == 0 {
        Seq::empty()
    } else {
        let id = (kinds.len() - 1) as u32;
        kind_metadata(kinds.drop_last(), sync_time) + metadata_event(
            sync_time,
            metadata_payload(id, "Universal.Events"@, id, kinds.last(), 0, 0, 0, seq![(TYPE_ID_UINT64, "Value"@)]),
        )
    }
}

/// The system metadata events, from meta id `first` on.
#[verifier::opaque]
pub open spec fn system_metadata(first: u32, sync_time: u64) -> Seq<u8> {
    let create = seq![
        (TYPE_ID_UINT32, "Id"@),
        (TYPE_ID_UINT32, "NamespaceId"@),
        (TYPE_ID_STRING, "Name"@),
        (TYPE_ID_STRING, "NamespaceName"@),
    ];
    let mapping = seq![
        (TYPE_ID_UINT32, "Id"@),
        (TYPE_ID_UINT32, "ProcessId"@),
        (TYPE_ID_UINT64, "StartAddress"@),
        (TYPE_ID_UINT64, "EndAddress"@),
        (TYPE_ID_UINT64, "FileOffset"@),
        (TYPE_ID_STRING, "FileName"@),
        (TYPE_ID_STRING, "SymbolIndex"@),
    ];
    let symbol = seq![
        (TYPE_ID_UINT32, "Id"@),
        (TYPE_ID_UINT32, "MappingId"@),
        (TYPE_ID_UINT64, "StartAddress"@),
        (TYPE_ID_UINT64, "EndAddress"@),
        (TYPE_ID_STRING, "Name"@),
    ];
    metadata_event(sync_time, metadata_payload(first, "Universal.System"@, 0, "ExistingProcess"@, 0, 0, 0, create))
        + metadata_event(
        sync_time,
        metadata_payload((first + 1) as u32, "Universal.System"@, 1, "ProcessCreate"@, 0, 0, 0, create),
    ) + metadata_event(
        sync_time,
        metadata_payload((first + 2) as u32, "Universal.System"@, 2, "ProcessExit"@, 0, 0, 0, seq![(TYPE_ID_UINT32, "ProcessId"@)]),
    ) + metadata_event(
        sync_time,
        metadata_payload((first + 3) as u32, "Universal.System"@, 3, "ProcessMapping"@, 0, 0, 0, mapping),
    ) + metadata_event(
        sync_time,
        metadata_payload((first + 4) as u32, "Universal.System"@, 4, "ProcessSymbol"@, 0, 0, 0, symbol),
    )
}

/// An object whose size is patched in: the start, the 32-bit size of the
/// body, padding to four bytes, the body and the end tag. `pos` is where
/// the object starts.
pub open spec fn sized_object(pos: int, start: Seq<u8>, body: Seq<u8>) -> Seq<u8> {
    let pad = pad_for(pos + start.len() + 4);
    start + le32(body.len() as u32) + zeros(pad) + body + seq![6u8]
}

/// The timestamp an event is written with: the time, raised to the sync
/// time and to the last time written.
pub open spec fn event_time(time: u64, sync_time: u64, last_time: u64) -> u64 {
    let t = if time < sync_time { sync_time } else { time };
    if t < last_time { last_time } else { t }
}

/// An event of the event block: flags, ids, processor, thread, stack id
/// (when given), time delta from the last event, payload size and payload.
pub open spec fn event_blob(
    meta_id: u32,
    cpu: u32,
    thread_id: u32,
    stack_id: Option<u32>,
    delta: u64,
    payload: Seq<u8>,
) -> Seq<u8> {
    (if stack_id is Some { seq![207u8] } else { seq![199u8] }) + varint(meta_id as u64) + varint(0) + varint(
        thread_id as u64,
    ) + varint(cpu as u64) + varint(thread_id as u64) + (match stack_id {
        Some(s) => varint(s as u64),
        None => Seq::empty(),
    }) + varint(delta) + varint(payload.len() as u64) + payload
}

/// Reads the variable-length number at the start of `b`: its value and
/// how many bytes it takes. Each byte gives seven bits, lowest first; a
/// byte below 128 is the last.
pub open spec fn read_varint(b: Seq<u8>) -> (int, int)
    decreases b.len(),
{
    if b.len() == 0 {
        (0, 0)
    } else if b[0] < 128 {
        (b[0] as int, 1)
    } else {
        let r = read_varint(b.drop_first());
        ((b[0] - 128) + 128 * r.0, r.1 + 1)
    }
}

/// Reading back a written number gives the number and the length written,
/// whatever follows it.
pub proof fn lemma_read_varint(v: u64, rest: Seq<u8>)
    ensures
        read_varint(varint(v) + rest) == (v as int, varint(v).len() as int),
    decreases v,
{
    let b = varint(v) + rest;
    if v >= 128 {
        lemma_read_varint(v / 128, rest);
        assert(b.drop_first() =~= varint(v / 128) + rest);
        assert(b[0] == ((v % 128) + 128) as u8);
        assert((v % 128) + 128 * (v / 128) == v) by (nonlinear_arith);
    }
}

proof fn lemma_skip_past(s: Seq<u8>, k: int, x: Seq<u8>, y: Seq<u8>)
    requires
        0 <= k <= s.len(),
        s.skip(k) == x + y,
    ensures
        k + x.len() <= s.len(),
        s.skip(k + x.len()) == y,
{
    assert(s.skip(k).len() == s.len() - k);
    assert((x + y).len() == x.len() + y.len());
    let m = k + x.len();
    assert(s.skip(m).len() == y.len());
    assert(s.skip(m) =~= y) by {
        assert forall|i: int| 0 <= i < y.len() implies s.skip(m)[i] == y[i] by {
            assert(s.skip(m)[i] == s[m + i]);
            assert(s.skip(k)[x.len() + i] == s[k + x.len() + i]);
            assert((x + y)[x.len() + i] == y[i]);
        }
    }
}

proof fn lemma_regroup(
    a: Seq<u8>,
    b: Seq<u8>,
    c: Seq<u8>,
    d: Seq<u8>,
    e: Seq<u8>,
    f: Seq<u8>,
    g: Seq<u8>,
    h: Seq<u8>,
    i: Seq<u8>,
    j: Seq<u8>,
)
    ensures
        a + b + c + d + e + f + g + h + i + j == a + (b + (c + (d + (e + (f + (g + (h + (i + j)))))))),
{
    let t9 = i + j;
    let t8 = h + t9;
    let t7 = g + t8;
    let t6 = f + t7;
    let t5 = e + t6;
    let t4 = d + t5;
    let t3 = c + t4;
    let t2 = b + t3;
    vstd::seq_lib::lemma_concat_associative(h, i, j);
    vstd::seq_lib::lemma_concat_associative(g, h + i, j);
    vstd::seq_lib::lemma_concat_associative(g, h, i);
    assert(g + h + i + j == t7);
    vstd::seq_lib::lemma_concat_associative(f, g + h + i, j);
    vstd::seq_lib::lemma_concat_associative(f, g + h, i);
    vstd::seq_lib::lemma_concat_associative(f, g, h);
    assert(f + g + h + i + j == t6);
    vstd::seq_lib::lemma_concat_associative(e, f + g + h + i, j);
    vstd::seq_lib::lemma_concat_associative(e, f + g + h, i);
    vstd::seq_lib::lemma_concat_associative(e, f + g, h);
    vstd::seq_lib::lemma_concat_associative(e, f, g);
    assert(e + f + g + h + i + j == t5);
    vstd::seq_lib::lemma_concat_associative(d, e + f + g + h + i, j);
    vstd::seq_lib::lemma_concat_associative(d, e + f + g + h, i);
    vstd::seq_lib::lemma_concat_associative(d, e + f + g, h);
    vstd::seq_lib::lemma_concat_associative(d, e + f, g);
    vstd::seq_lib::lemma_concat_associative(d, e, f);
    assert(d + e + f + g + h + i + j == t4);
    vstd::seq_lib::lemma_concat_associative(c, d + e + f + g + h + i, j);
    vstd::seq_lib::lemma_concat_associative(c, d + e + f + g + h, i);
    vstd::seq_lib::lemma_concat_associative(c, d + e + f + g, h);
    vstd::seq_lib::lemma_concat_associative(c, d + e + f, g);
    vstd::seq_lib::lemma_concat_associative(c, d + e, f);
    vstd::seq_lib::lemma_concat_associative(c, d, e);
    assert(c + d + e + f + g + h + i + j == t3);
    vstd::seq_lib::lemma_concat_associative(b, c + d + e + f + g + h + i, j);
    vstd::seq_lib::lemma_concat_associative(b, c + d + e + f + g + h, i);
    vstd::seq_lib::lemma_concat_associative(b, c + d + e + f + g, h);
    vstd::seq_lib::lemma_concat_associative(b, c + d + e + f, g);
    vstd::seq_lib::lemma_concat_associative(b, c + d + e, f);
    vstd::seq_lib::lemma_concat_associative(b, c + d, e);
    vstd::seq_lib::lemma_concat_associative(b, c, d);
    assert(b + c + d + e + f + g + h + i + j == t2);
    vstd::seq_lib::lemma_concat_associative(a, b + c + d + e + f + g + h + i, j);
    vstd::seq_lib::lemma_concat_associative(a, b + c + d + e + f + g + h, i);
    vstd::seq_lib::lemma_concat_associative(a, b + c + d + e + f + g, h);
    vstd::seq_lib::lemma_concat_associative(a, b + c + d + e + f, g);
    vstd::seq_lib::lemma_concat_associative(a, b + c + d + e, f);
    vstd::seq_lib::lemma_concat_associative(a, b + c + d, e);
    vstd::seq_lib::lemma_concat_associative(a, b + c, d);
    vstd::seq_lib::lemma_concat_associative(a, b, c);
}

/// An event blob read back field by field, in the order of the NetTrace
/// event header: the flags byte (207 with a stack id, else 199), the
/// metadata id, the sequence number 0, the capture thread id, the
/// processor number, the thread id, the stack id when there is one, the
/// time delta, the payload size, then the payload.
pub proof fn lemma_event_blob_fields(
    meta_id: u32,
    cpu: u32,
    thread_id: u32,
    stack_id: Option<u32>,
    delta: u64,
    payload: Seq<u8>,
)
    requires
        payload.len() <= u64::MAX,
    ensures
        ({
            let b = event_blob(meta_id, cpu, thread_id, stack_id, delta, payload);
            let meta = read_varint(b.skip(1));
            let p2: int = 1 + meta.1;
            let sequence = read_varint(b.skip(p2));
            let p3: int = p2 + sequence.1;
            let capture = read_varint(b.skip(p3));
            let p4: int = p3 + capture.1;
            let processor = read_varint(b.skip(p4));
            let p5: int = p4 + processor.1;
            let thread = read_varint(b.skip(p5));
            let p6: int = p5 + thread.1;
            let stack = read_varint(b.skip(p6));
            let p7: int = if stack_id is Some { p6 + stack.1 } else { p6 };
            let time = read_varint(b.skip(p7));
            let p8: int = p7 + time.1;
            let size = read_varint(b.skip(p8));
            let p9 = p8 + size.1;
            &&& b[0] == (if stack_id is Some { 207u8 } else { 199u8 })
            &&& meta.0 == meta_id
            &&& sequence.0 == 0
            &&& capture.0 == thread_id
            &&& processor.0 == cpu
            &&& thread.0 == thread_id
            &&& (stack_id matches Some(s) ==> stack.0 == s)
            &&& time.0 == delta
            &&& size.0 == payload.len()
            &&& p9 <= b.len()
            &&& b.skip(p9) == payload
        }),
{
    let b = event_blob(meta_id, cpu, thread_id, stack_id, delta, payload);
    let flag: Seq<u8> = if stack_id is Some { seq![207u8] } else { seq![199u8] };
    let st: Seq<u8> = match stack_id {
        Some(s) => varint(s as u64),
        None => Seq::empty(),
    };
    let t8 = varint(payload.len() as u64) + payload;
    let t7 = varint(delta) + t8;
    let t6 = st + t7;
    let t5 = varint(thread_id as u64) + t6;
    let t4 = varint(cpu as u64) + t5;
    let t3 = varint(thread_id as u64) + t4;
    let t2 = varint(0) + t3;
    let t1 = varint(meta_id as u64) + t2;
    lemma_regroup(flag, varint(meta_id as u64), varint(0), varint(thread_id as u64), varint(cpu as u64), varint(thread_id as u64), st, varint(delta), varint(payload.len() as u64), payload);
    assert(b == flag + t1);
    assert(b.skip(0) =~= b);
    lemma_skip_past(b, 0, flag, t1);
    lemma_read_varint(meta_id as u64, t2);
    lemma_skip_past(b, 1, varint(meta_id as u64), t2);
    let p2: int = 1int + varint(meta_id as u64).len();
    lemma_read_varint(0, t3);
    lemma_skip_past(b, p2, varint(0), t3);
    let p3: int = p2 + varint(0).len();
    lemma_read_varint(thread_id as u64, t4);
    lemma_skip_past(b, p3, varint(thread_id as u64), t4);
    let p4: int = p3 + varint(thread_id as u64).len();
    lemma_read_varint(cpu as u64, t5);
    lemma_skip_past(b, p4, varint(cpu as u64), t5);
    let p5: int = p4 + varint(cpu as u64).len();
    lemma_read_varint(thread_id as u64, t6);
    lemma_skip_past(b, p5, varint(thread_id as u64), t6);
    let p6: int = p5 + varint(thread_id as u64).len();
    lemma_skip_past(b, p6, st, t7);
    match stack_id {
        Some(s) => {
            lemma_read_varint(s as u64, t7);
        },
        None => {
            assert(st + t7 =~= t7);
        },
    }
    let p7: int = p6 + st.len();
    lemma_read_varint(delta, t8);
    lemma_skip_past(b, p7, varint(delta), t8);
    let p8: int = p7 + varint(delta).len();
    lemma_read_varint(payload.len() as u64, payload);
    lemma_skip_past(b, p8, varint(payload.len() as u64), payload);
}

/// The lower-case hexadecimal digits of bytes, two per byte.
pub open spec fn hex_lower(bytes: Seq<u8>) -> Seq<char>
    decreases bytes.len(),
{
    if bytes.len() == 0 {
        Seq::empty()
    } else {
        hex_lower(bytes.drop_last()) + seq![hex_lower_digit(bytes.last() as int / 16), hex_lower_digit(bytes.last() as int % 16)]
    }
}

pub open spec fn hex_lower_digit(d: int) -> char {
    if d < 10 {
        (('0' as int) + d) as char
    } else {
        (('a' as int) + d - 10) as char
    }
}

fn hex_lower_char(d: u8) -> (c: char)
    requires
        d < 16,
    ensures
        c == hex_lower_digit(d as int),
{
    if d < 10 {
        (48 + d) as char
    } else {
        (87 + d) as char
    }
}

/// The symbol index of a mapping with ELF metadata: `elf:`, the build id in
/// hexadecimal, `:`, and the debug link.
pub open spec fn elf_symbol_index(build_id: Option<Seq<u8>>, debug_link: Option<Seq<char>>) -> Seq<char> {
    "elf:"@ + (match build_id {
        Some(b) => hex_lower(b),
        None => Seq::empty(),
    }) + seq![':'] + (match debug_link {
        Some(l) => l,
        None => Seq::empty(),
    })
}

/// Writes a nettrace stream into memory.
pub struct NetTraceWriter {
    output: Vec<u8>,
    buffer: Vec<u8>,
    existing_event_id: u32,
    create_event_id: u32,
    exit_event_id: u32,
    mapping_event_id: u32,
    symbol_event_id: u32,
    last_time: u64,
    sync_time: u64,
    sym_id: u32,
}

impl NetTraceWriter {
    pub closed spec fn spec_output(&self) -> Seq<u8> {
        self.output@
    }

    pub closed spec fn spec_buffer(&self) -> Seq<u8> {
        self.buffer@
    }

    pub closed spec fn spec_sync_time(&self) -> u64 {
        self.sync_time
    }

    pub closed spec fn spec_last_time(&self) -> u64 {
        self.last_time
    }

    pub closed spec fn spec_sym_id(&self) -> u32 {
        self.sym_id
    }

    /// The meta ids of the system events: existing process, process
    /// create, exit, mapping and symbol.
    pub closed spec fn spec_event_ids(&self) -> (u32, u32, u32, u32, u32) {
        (self.existing_event_id, self.create_event_id, self.exit_event_id, self.mapping_event_id, self.symbol_event_id)
    }

    /// Whether everything but the output is as in `other`.
    pub open spec fn same_state(&self, other: &Self) -> bool {
        &&& self.spec_sync_time() == other.spec_sync_time()
        &&& self.spec_last_time() == other.spec_last_time()
        &&& self.spec_sym_id() == other.spec_sym_id()
        &&& self.spec_event_ids() == other.spec_event_ids()
    }

    /// A writer whose stream starts with the nettrace magic and the
    /// serialization format name.
    pub fn new() -> (w: Self)
        ensures
            w.spec_output() == "Nettrace".spec_bytes() + utf8("!FastSerialization.1".spec_bytes()),
            w.spec_sync_time() == 0,
            w.spec_last_time() == 0,
            w.spec_sym_id() == 0,
            w.spec_event_ids() == (0u32, 0u32, 0u32, 0u32, 0u32),
    {
        let mut w = Self {
            output: Vec::new(),
            buffer: Vec::new(),
            existing_event_id: 0,
            create_event_id: 0,
            exit_event_id: 0,
            mapping_event_id: 0,
            symbol_event_id: 0,
            last_time: 0,
            sync_time: 0,
            sym_id: 0,
        };
        w.init();
        w
    }

    fn init(&mut self)
        requires
            old(self).output@.len() == 0,
        ensures
            final(self).output@ == "Nettrace".spec_bytes() + utf8("!FastSerialization.1".spec_bytes()),
            final(self).same_state(old(self)),
    {
        let magic = "Nettrace";
        let name = "!FastSerialization.1";
        push_bytes(&mut self.output, magic.as_bytes());
        push_utf8(&mut self.output, name);
    }

    /// The bytes written so far.
    pub fn output(&self) -> (o: &[u8])
        ensures
            o@ == self.spec_output(),
    {
        self.output.as_slice()
    }

    /// The position at the end of the stream.
    pub fn get_pos(&self) -> (p: u64)
        ensures
            p == self.spec_output().len(),
    {
        self.output.len() as u64
    }

    /// Writes a zero 32-bit value to fill in later, giving the position
    /// after it.
    pub fn reserve_u32(&mut self) -> (p: u64)
        ensures
            final(self).spec_output() == old(self).spec_output() + le32(0),
            p == final(self).spec_output().len(),
            final(self).same_state(old(self)),
    {
        push_u32(&mut self.output, 0);
        self.get_pos()
    }

    /// Pads the stream with zeros to a multiple of four bytes, giving the
    /// number of bytes added.
    pub fn align_to_u32(&mut self) -> (pad: u64)
        ensures
            pad == pad_for(old(self).spec_output().len() as int),
            final(self).spec_output() == old(self).spec_output() + zeros(pad as nat),
            final(self).same_state(old(self)),
    {
        let pos = self.get_pos();
        let align = pos % 4;
        if align == 0 {
            assert(self.output@ =~= old(self).output@ + zeros(0));
            return 0;
        }
        let padding = 4 - align;
        let mut i: u64 = 0;
        while i < padding
            invariant
                i <= padding,
                padding <= 4,
                self.output@ == old(self).output@ + zeros(i as nat),
                self.same_state(old(self)),
            decreases padding - i,
        {
            push_u8(&mut self.output, 0);
            assert(self.output@ =~= old(self).output@ + zeros((i + 1) as nat));
            i = i + 1;
        }
        padding
    }

    /// Writes `value` into the 32 bits before position `reserved_at`.
    pub fn update_u32(&mut self, value: u32, reserved_at: u64)
        requires
            4 <= reserved_at <= old(self).spec_output().len(),
        ensures
            final(self).spec_output() == old(self).spec_output().subrange(0, reserved_at - 4) + le32(value)
                + old(self).spec_output().subrange(reserved_at as int, old(self).spec_output().len() as int),
            final(self).same_state(old(self)),
    {
        let n = self.output.len();
        let at = (reserved_at - 4) as usize;
        self.output.set(at, (value % 256) as u8);
        self.output.set(at + 1, ((value / 256) % 256) as u8);
        self.output.set(at + 2, ((value / 65536) % 256) as u8);
        self.output.set(at + 3, (value / 16777216) as u8);
        assert(self.output@ =~= old(self).output@.subrange(0, reserved_at - 4) + le32(value)
            + old(self).output@.subrange(reserved_at as int, old(self).output@.len() as int));
    }

    /// Reserves the size of an object and aligns the stream, giving the
    /// position after the size and the padding.
    pub fn reserve_object_size(&mut self) -> (r: (u64, u64))
        ensures
            r.0 == old(self).spec_output().len() + 4,
            r.1 == pad_for(r.0 as int),
            final(self).spec_output() == old(self).spec_output() + le32(0) + zeros(r.1 as nat),
            final(self).same_state(old(self)),
    {
        let loc = self.reserve_u32();
        let pad = self.align_to_u32();
        (loc, pad)
    }

    /// Writes, before `loc`, the number of bytes after `loc` and `pad`.
    pub fn update_object_size(&mut self, loc: u64, pad: u64)
        requires
            4 <= loc,
            loc + pad <= old(self).spec_output().len(),
        ensures
            final(self).spec_output() == old(self).spec_output().subrange(0, loc - 4) + le32(
                (old(self).spec_output().len() - loc - pad) as u32,
            ) + old(self).spec_output().subrange(loc as int, old(self).spec_output().len() as int),
            final(self).same_state(old(self)),
    {
        let total_size = self.get_pos() - loc - pad;
        self.update_u32(total_size as u32, loc);
    }

    pub fn write_tag(&mut self, kind: u8)
        ensures
            final(self).spec_output() == old(self).spec_output().push(kind),
            final(self).same_state(old(self)),
    {
        push_u8(&mut self.output, kind);
    }

    /// Starts an object of type `name`.
    pub fn write_start_object(&mut self, version: u32, min_version: u32, name: &str)
        ensures
            final(self).spec_output() == old(self).spec_output() + start_object(version, min_version, name.spec_bytes()),
            final(self).same_state(old(self)),
    {
        self.write_tag(5);
        self.write_tag(5);
        self.write_tag(1);
        push_u32(&mut self.output, version);
        push_u32(&mut self.output, min_version);
        push_utf8(&mut self.output, name);
        self.write_tag(6);
        assert(self.output@ =~= old(self).output@ + start_object(version, min_version, name.spec_bytes()));
    }

    pub fn write_end_object(&mut self)
        ensures
            final(self).spec_output() == old(self).spec_output().push(6),
            final(self).same_state(old(self)),
    {
        self.write_tag(6);
    }

    /// Writes the metadata event of an event: its provider, id, name,
    /// keywords, version, level and fields, at the sync time.
    pub fn write_event_metadata(
        &mut self,
        meta_id: u32,
        provider: &str,
        event_id: u32,
        event_name: &str,
        keywords: u64,
        version: u32,
        level: u32,
        fields: &[NetTraceField],
    )
        ensures
            final(self).spec_output() == old(self).spec_output() + metadata_event(
                old(self).spec_sync_time(),
                metadata_payload(meta_id, provider@, event_id, event_name@, keywords, version, level, field_views(fields@)),
            ),
            final(self).same_state(old(self)),
    {
        self.buffer.clear();
        push_u32(&mut self.buffer, meta_id);
        push_unicode_z(&mut self.buffer, provider);
        push_u32(&mut self.buffer, event_id);
        push_unicode_z(&mut self.buffer, event_name);
        push_u64(&mut self.buffer, keywords);
        push_u32(&mut self.buffer, version);
        push_u32(&mut self.buffer, level);
        push_u32(&mut self.buffer, fields.len() as u32);
        let ghost head = self.buffer@;
        let mut i: usize = 0;
        while i < fields.len()
            invariant
                i <= fields@.len(),
                self.buffer@ == head + fields_payload(field_views(fields@.take(i as int))),
                self.same_state(old(self)),
                self.output == old(self).output,
            decreases fields@.len() - i,
        {
            push_u32(&mut self.buffer, fields[i].type_id);
            push_unicode_z(&mut self.buffer, fields[i].name);
            proof {
                assert(field_views(fields@.take(i + 1)).drop_last() =~= field_views(fields@.take(i as int)));
            }
            assert(self.buffer@ =~= head + fields_payload(field_views(fields@.take(i + 1))));
            i = i + 1;
        }
        assert(fields@.take(i as int) =~= fields@);
        assert(self.buffer@ =~= metadata_payload(meta_id, provider@, event_id, event_name@, keywords, version, level, field_views(fields@)));
        push_u8(&mut self.output, 128);
        push_varint(&mut self.output, self.sync_time);
        push_varint(&mut self.output, self.buffer.len() as u64);
        push_bytes(&mut self.output, self.buffer.as_slice());
        assert(self.output@ =~= old(self).output@ + metadata_event(old(self).sync_time, self.buffer@));
    }

    /// Starts the event block: its object start, reserved size and header.
    pub fn write_eventblock_start(&mut self) -> (r: (u64, u64))
        ensures
            ({
                let start = start_object(2, 2, "EventBlock".spec_bytes());
                let at = old(self).spec_output().len() + start.len() + 4;
                &&& r.0 == at
                &&& r.1 == pad_for(at as int)
                &&& final(self).spec_output() == old(self).spec_output() + start + le32(0) + zeros(r.1 as nat)
                    + block_header(old(self).spec_sync_time())
            }),
            final(self).same_state(old(self)),
    {
        let name = "EventBlock";
        self.write_start_object(2, 2, name);
        let (loc, pad) = self.reserve_object_size();
        push_u16(&mut self.output, 20);
        push_u16(&mut self.output, 1);
        push_u64(&mut self.output, self.sync_time);
        push_u64(&mut self.output, u64::MAX);
        assert(self.output@ =~= old(self).output@ + start_object(2, 2, "EventBlock".spec_bytes())
            + le32(0) + zeros(pad as nat) + block_header(old(self).sync_time));
        (loc, pad)
    }

    /// Writes the delta of an event's time from the last one written, the
    /// time raised to the sync time and to the last time.
    pub fn write_event_timestamp(&mut self, time: u64)
        ensures
            ({
                let t = event_time(time, old(self).spec_sync_time(), old(self).spec_last_time());
                &&& final(self).spec_output() == old(self).spec_output() + varint((t - old(self).spec_last_time()) as u64)
                &&& final(self).spec_last_time() == t
            }),
            final(self).spec_sync_time() == old(self).spec_sync_time(),
            final(self).spec_sym_id() == old(self).spec_sym_id(),
            final(self).spec_event_ids() == old(self).spec_event_ids(),
            final(self).spec_buffer() == old(self).spec_buffer(),
    {
        let mut time = time;
        if time < self.sync_time {
            time = self.sync_time;
        }
        if time < self.last_time {
            time = self.last_time;
        }
        let delta = time - self.last_time;
        self.last_time = time;
        push_varint(&mut self.output, delta);
    }

    /// Writes an event of the event block with the payload in the buffer.
    pub fn write_event_blob_from_buffer(&mut self, meta_id: u32, cpu: u32, thread_id: u32, stack_id: Option<u32>, time: u64)
        ensures
            ({
                let t = event_time(time, old(self).spec_sync_time(), old(self).spec_last_time());
                &&& final(self).spec_output() == old(self).spec_output() + event_blob(
                    meta_id,
                    cpu,
                    thread_id,
                    stack_id,
                    (t - old(self).spec_last_time()) as u64,
                    old(self).spec_buffer(),
                )
                &&& final(self).spec_last_time() == t
            }),
            final(self).spec_sync_time() == old(self).spec_sync_time(),
            final(self).spec_sym_id() == old(self).spec_sym_id(),
            final(self).spec_event_ids() == old(self).spec_event_ids(),
            final(self).spec_buffer() == old(self).spec_buffer(),
    {
        if stack_id.is_some() {
            push_u8(&mut self.output, 207);
        } else {
            push_u8(&mut self.output, 199);
        }
        push_varint(&mut self.output, meta_id as u64);
        push_varint(&mut self.output, 0);
        push_varint(&mut self.output, thread_id as u64);
        push_varint(&mut self.output, cpu as u64);
        push_varint(&mut self.output, thread_id as u64);
        let ghost mid = self.output@;
        match stack_id {
            Some(s) => {
                push_varint(&mut self.output, s as u64);
            },
            None => {
                assert(self.output@ =~= mid + Seq::<u8>::empty());
            },
        }
        let ghost before_time = self.output@;
        self.write_event_timestamp(time);
        push_varint(&mut self.output, self.buffer.len() as u64);
        push_bytes(&mut self.output, self.buffer.as_slice());
        let ghost t = event_time(time, old(self).sync_time, old(self).last_time);
        assert(self.output@ =~= old(self).output@ + event_blob(
            meta_id,
            cpu,
            thread_id,
            stack_id,
            (t - old(self).last_time) as u64,
            old(self).buffer@,
        ));
    }

    /// Ends the event block: patches its size and writes its end tag.
    pub fn write_eventblock_end(&mut self, loc: u64, pad: u64)
        requires
            4 <= loc,
            loc + pad <= old(self).spec_output().len(),
        ensures
            final(self).spec_output() == (old(self).spec_output().subrange(0, loc - 4) + le32(
                (old(self).spec_output().len() - loc - pad) as u32,
            ) + old(self).spec_output().subrange(loc as int, old(self).spec_output().len() as int)).push(6),
            final(self).same_state(old(self)),
    {
        self.update_object_size(loc, pad);
        self.write_end_object();
    }

    /// Writes the event of a process that exists (created before the sync
    /// time) or is created: its id, namespace id, name and namespace name.
    pub fn write_created_event(&mut self, pid: u32, ns_pid: u32, name: &str, time: u64)
        ensures
            ({
                let payload = le32(pid) + le32(ns_pid) + unicode_z(name@) + unicode_z("Unknown"@);
                let id = if time < old(self).spec_sync_time() { old(self).spec_event_ids().0 } else { old(self).spec_event_ids().1 };
                let t = event_time(time, old(self).spec_sync_time(), old(self).spec_last_time());
                &&& final(self).spec_output() == old(self).spec_output() + event_blob(
                    id,
                    0,
                    0,
                    None,
                    (t - old(self).spec_last_time()) as u64,
                    payload,
                )
                &&& final(self).spec_last_time() == t
            }),
            final(self).spec_sync_time() == old(self).spec_sync_time(),
            final(self).spec_sym_id() == old(self).spec_sym_id(),
            final(self).spec_event_ids() == old(self).spec_event_ids(),
    {
        self.buffer.clear();
        push_u32(&mut self.buffer, pid);
        push_u32(&mut self.buffer, ns_pid);
        push_unicode_z(&mut self.buffer, name);
        push_unicode_z(&mut self.buffer, "Unknown");
        let id = if time < self.sync_time { self.existing_event_id } else { self.create_event_id };
        assert(self.buffer@ =~= le32(pid) + le32(ns_pid) + unicode_z(name@) + unicode_z("Unknown"@));
        self.write_event_blob_from_buffer(id, 0, 0, None, time);
    }

    /// Writes the exit event of a process.
    pub fn write_exited_event(&mut self, pid: u32, time: u64)
        ensures
            ({
                let t = event_time(time, old(self).spec_sync_time(), old(self).spec_last_time());
                &&& final(self).spec_output() == old(self).spec_output() + event_blob(
                    old(self).spec_event_ids().2,
                    0,
                    0,
                    None,
                    (t - old(self).spec_last_time()) as u64,
                    le32(pid),
                )
                &&& final(self).spec_last_time() == t
            }),
            final(self).spec_sync_time() == old(self).spec_sync_time(),
            final(self).spec_sym_id() == old(self).spec_sym_id(),
            final(self).spec_event_ids() == old(self).spec_event_ids(),
    {
        self.buffer.clear();
        push_u32(&mut self.buffer, pid);
        assert(self.buffer@ =~= le32(pid));
        self.write_event_blob_from_buffer(self.exit_event_id, 0, 0, None, time);
    }

    /// Writes the event of a mapping of a process: its id, the process id,
    /// its range and file offset, its file name and its symbol index.
    pub fn write_mapping_event(&mut self, mapping: &ExportMapping, pid: u32, name: &str, sym_index: &str, time: u64)
        ensures
            ({
                let payload = le32(mapping.spec_id() as u32) + le32(pid) + le64(mapping.spec_start()) + le64(
                    mapping.spec_end(),
                ) + le64(mapping.spec_file_offset()) + unicode_z(name@) + unicode_z(sym_index@);
                let t = event_time(time, old(self).spec_sync_time(), old(self).spec_last_time());
                &&& final(self).spec_output() == old(self).spec_output() + event_blob(
                    old(self).spec_event_ids().3,
                    0,
                    0,
                    None,
                    (t - old(self).spec_last_time()) as u64,
                    payload,
                )
                &&& final(self).spec_last_time() == t
            }),
            final(self).spec_sync_time() == old(self).spec_sync_time(),
            final(self).spec_sym_id() == old(self).spec_sym_id(),
            final(self).spec_event_ids() == old(self).spec_event_ids(),
    {
        self.buffer.clear();
        push_u32(&mut self.buffer, mapping.id() as u32);
        push_u32(&mut self.buffer, pid);
        push_u64(&mut self.buffer, mapping.start());
        push_u64(&mut self.buffer, mapping.end());
        push_u64(&mut self.buffer, mapping.file_offset());
        push_unicode_z(&mut self.buffer, name);
        push_unicode_z(&mut self.buffer, sym_index);
        assert(self.buffer@ =~= le32(mapping.spec_id() as u32) + le32(pid) + le64(mapping.spec_start()) + le64(
            mapping.spec_end(),
        ) + le64(mapping.spec_file_offset()) + unicode_z(name@) + unicode_z(sym_index@));
        self.write_event_blob_from_buffer(self.mapping_event_id, 0, 0, None, time);
    }

    /// Writes the event of a symbol of a mapping, numbering symbols in the
    /// order they are written.
    pub fn write_mapping_symbol_event(&mut self, mapping: &ExportMapping, symbol: &ExportSymbol, name: &str, time: u64)
        requires
            old(self).spec_sym_id() < u32::MAX,
        ensures
            ({
                let payload = le32(old(self).spec_sym_id()) + le32(mapping.spec_id() as u32) + le64(symbol@.1) + le64(
                    symbol@.2,
                ) + unicode_z(name@);
                let t = event_time(time, old(self).spec_sync_time(), old(self).spec_last_time());
                &&& final(self).spec_output() == old(self).spec_output() + event_blob(
                    old(self).spec_event_ids().4,
                    0,
                    0,
                    None,
                    (t - old(self).spec_last_time()) as u64,
                    payload,
                )
                &&& final(self).spec_last_time() == t
            }),
            final(self).spec_sym_id() == old(self).spec_sym_id() + 1,
            final(self).spec_sync_time() == old(self).spec_sync_time(),
            final(self).spec_event_ids() == old(self).spec_event_ids(),
    {
        self.buffer.clear();
        push_u32(&mut self.buffer, self.sym_id);
        push_u32(&mut self.buffer, mapping.id() as u32);
        push_u64(&mut self.buffer, symbol.start());
        push_u64(&mut self.buffer, symbol.end());
        push_unicode_z(&mut self.buffer, name);
        assert(self.buffer@ =~= le32(old(self).sym_id) + le32(mapping.spec_id() as u32) + le64(symbol@.1) + le64(
            symbol@.2,
        ) + unicode_z(name@));
        self.sym_id = self.sym_id + 1;
        self.write_event_blob_from_buffer(self.symbol_event_id, 0, 0, None, time);
    }

    /// Writes the metadata block: a metadata event for each stack kind (its
    /// index as meta id and event id), then the system events, whose meta
    /// ids are kept for the events written later.
    pub fn write_metadata_object(&mut self, stack_kinds: &[String])
        requires
            stack_kinds@.len() + 5 <= u32::MAX,
        ensures
            ({
                let n = stack_kinds@.len();
                let kinds = stack_kinds@.map_values(|s: String| s@);
                let start = start_object(2, 2, "MetadataBlock".spec_bytes());
                let body = block_header(old(self).spec_sync_time()) + kind_metadata(kinds, old(self).spec_sync_time())
                    + system_metadata(n as u32, old(self).spec_sync_time());
                &&& final(self).spec_output() == old(self).spec_output() + sized_object(
                    old(self).spec_output().len() as int,
                    start,
                    body,
                )
                &&& final(self).spec_event_ids() == (n as u32, (n + 1) as u32, (n + 2) as u32, (n + 3) as u32, (n + 4) as u32)
            }),
            final(self).spec_sync_time() == old(self).spec_sync_time(),
            final(self).spec_last_time() == old(self).spec_last_time(),
            final(self).spec_sym_id() == old(self).spec_sym_id(),
    {
        let ghost kinds = stack_kinds@.map_values(|s: String| s@);
        let ghost sync = self.sync_time;
        let name = "MetadataBlock";
        self.write_start_object(2, 2, name);
        let ghost after_start = self.output@;
        let (loc, pad) = self.reserve_object_size();
        let ghost after_size = self.output@;
        self.write_metadata_body(stack_kinds);
        let ghost body = block_header(sync) + kind_metadata(kinds, sync) + system_metadata(stack_kinds@.len() as u32, sync);
        assert(self.output@ =~= after_start + le32(0) + zeros(pad as nat) + body);
        let ghost before_patch = self.output@;
        self.update_object_size(loc, pad);
        proof {
            assert(before_patch.len() - loc - pad == body.len());
            assert(self.output@ =~= after_start + le32(body.len() as u32) + zeros(pad as nat) + body);
        }
        self.write_end_object();
        proof {
            let start = start_object(2, 2, "MetadataBlock".spec_bytes());
            assert(after_start =~= old(self).output@ + start);
            assert(self.output@ =~= old(self).output@ + sized_object(old(self).output@.len() as int, start, body));
        }
    }

    /// Writes the body of the metadata block: its header, the stack kind
    /// metadata and the system metadata.
    fn write_metadata_body(&mut self, stack_kinds: &[String])
        requires
            stack_kinds@.len() + 5 <= u32::MAX,
        ensures
            final(self).spec_output() == old(self).spec_output() + (block_header(old(self).spec_sync_time())
                + kind_metadata(stack_kinds@.map_values(|s: String| s@), old(self).spec_sync_time())
                + system_metadata(stack_kinds@.len() as u32, old(self).spec_sync_time())),
            final(self).spec_event_ids() == (
                stack_kinds@.len() as u32,
                (stack_kinds@.len() + 1) as u32,
                (stack_kinds@.len() + 2) as u32,
                (stack_kinds@.len() + 3) as u32,
                (stack_kinds@.len() + 4) as u32,
            ),
            final(self).spec_sync_time() == old(self).spec_sync_time(),
            final(self).spec_last_time() == old(self).spec_last_time(),
            final(self).spec_sym_id() == old(self).spec_sym_id(),
    {
        push_u16(&mut self.output, 20);
        push_u16(&mut self.output, 1);
        push_u64(&mut self.output, self.sync_time);
        push_u64(&mut self.output, u64::MAX);
        let ghost after_header = self.output@;
        assert(after_header =~= old(self).output@ + block_header(old(self).sync_time));
        self.write_kind_metadata(stack_kinds);
        let ghost after_kinds = self.output@;
        self.write_system_metadata(stack_kinds.len() as u32);
        assert(self.output@ =~= old(self).output@ + (block_header(old(self).sync_time)
            + kind_metadata(stack_kinds@.map_values(|s: String| s@), old(self).sync_time)
            + system_metadata(stack_kinds@.len() as u32, old(self).sync_time)));
    }

    /// Writes a metadata event for each stack kind, its index as meta id and
    /// event id.
    fn write_kind_metadata(&mut self, stack_kinds: &[String])
        requires
            stack_kinds@.len() <= u32::MAX,
        ensures
            final(self).spec_output() == old(self).spec_output() + kind_metadata(
                stack_kinds@.map_values(|s: String| s@),
                old(self).spec_sync_time(),
            ),
            final(self).same_state(old(self)),
    {
        let ghost kinds = stack_kinds@.map_values(|s: String| s@);
        let ghost sync = self.sync_time;
        let mut meta_id: u32 = 0;
        let stack_fields = stack_event_fields();
        let mut i: usize = 0;
        assert(kinds.take(0) =~= Seq::<Seq<char>>::empty());
        assert(self.output@ =~= old(self).output@ + kind_metadata(kinds.take(0), sync));
        while i < stack_kinds.len()
            invariant
                i <= stack_kinds@.len(),
                stack_kinds@.len() <= u32::MAX,
                meta_id == i,
                kinds == stack_kinds@.map_values(|s: String| s@),
                sync == self.sync_time,
                field_views(stack_fields@) == seq![(TYPE_ID_UINT64, "Value"@)],
                self.output@ == old(self).output@ + kind_metadata(kinds.take(i as int), sync),
                self.same_state(old(self)),
            decreases stack_kinds@.len() - i,
        {
            self.write_event_metadata(meta_id, "Universal.Events", meta_id, stack_kinds[i].as_str(), 0, 0, 0, stack_fields.as_slice());
            proof {
                assert(kinds.take(i + 1).drop_last() =~= kinds.take(i as int));
                assert(kinds.take(i + 1).last() == stack_kinds@[i as int]@);
                assert(self.output@ =~= old(self).output@ + kind_metadata(kinds.take(i + 1), sync));
            }
            meta_id = meta_id + 1;
            i = i + 1;
        }
        assert(kinds.take(i as int) =~= kinds);
    }

    /// Writes the metadata events of the system events from meta id
    /// `first` on, keeping their meta ids.
    fn write_system_metadata(&mut self, first: u32)
        requires
            first + 5 <= u32::MAX,
        ensures
            final(self).spec_output() == old(self).spec_output() + system_metadata(first, old(self).spec_sync_time()),
            final(self).spec_event_ids() == (first, (first + 1) as u32, (first + 2) as u32, (first + 3) as u32, (first + 4) as u32),
            final(self).spec_sync_time() == old(self).spec_sync_time(),
            final(self).spec_last_time() == old(self).spec_last_time(),
            final(self).spec_sym_id() == old(self).spec_sym_id(),
    {
        let mut meta_id = first;
        self.existing_event_id = meta_id;
        let create_fields = process_create_fields();
        self.write_event_metadata(meta_id, "Universal.System", 0, "ExistingProcess", 0, 0, 0, create_fields.as_slice());
        meta_id = meta_id + 1;
        self.create_event_id = meta_id;
        self.write_event_metadata(meta_id, "Universal.System", 1, "ProcessCreate", 0, 0, 0, create_fields.as_slice());
        meta_id = meta_id + 1;
        self.exit_event_id = meta_id;
        let exit_fields = process_exit_fields();
        self.write_event_metadata(meta_id, "Universal.System", 2, "ProcessExit", 0, 0, 0, exit_fields.as_slice());
        meta_id = meta_id + 1;
        self.mapping_event_id = meta_id;
        let mapping_fields = process_mapping_fields();
        self.write_event_metadata(meta_id, "Universal.System", 3, "ProcessMapping", 0, 0, 0, mapping_fields.as_slice());
        meta_id = meta_id + 1;
        self.symbol_event_id = meta_id;
        let symbol_fields = process_symbol_fields();
        self.write_event_metadata(meta_id, "Universal.System", 4, "ProcessSymbol", 0, 0, 0, symbol_fields.as_slice());
        proof {
            reveal(system_metadata);
        }
        assert(self.output@ =~= old(self).output@ + system_metadata(first, old(self).sync_time));
    }

    /// Writes the trace object: the sync time as a date (year, month,
    /// weekday, day, hour, minute, second, milliseconds) and as a counter
    /// value, the counter frequency, pointer size, process id, processor
    /// count and the nanoseconds between samples. Later events are timed
    /// from the sync counter value.
    pub fn write_trace_object(
        &mut self,
        date: [u16; 7],
        nanosecond: u32,
        sync_time_qpc: u64,
        qpc_freq: u64,
        process_id: u32,
        num_of_cpus: u32,
        sample_freq: u32,
    )
        requires
            sample_freq > 0,
        ensures
            final(self).spec_output() == old(self).spec_output() + start_object(4, 4, "Trace".spec_bytes())
                + le16(date[0]) + le16(date[1]) + le16(date[2]) + le16(date[3]) + le16(date[4]) + le16(date[5])
                + le16(date[6]) + le16((nanosecond / 1000000) as u16) + le64(sync_time_qpc) + le64(qpc_freq) + le32(8)
                + le32(process_id) + le32(num_of_cpus) + le32((1000000000u32 / sample_freq) as u32) + seq![6u8],
            final(self).spec_sync_time() == sync_time_qpc,
            final(self).spec_last_time() == old(self).spec_last_time(),
            final(self).spec_sym_id() == old(self).spec_sym_id(),
            final(self).spec_event_ids() == old(self).spec_event_ids(),
    {
        let nanos_between_samples = 1000000000u32 / sample_freq;
        let milli_secs = nanosecond / 1000000;
        self.sync_time = sync_time_qpc;
        let name = "Trace";
        self.write_start_object(4, 4, name);
        let mut k: usize = 0;
        while k < 7
            invariant
                k <= 7,
                self.output@ == old(self).output@ + start_object(4, 4, "Trace".spec_bytes())
                    + date_bytes(date@.take(k as int)),
                self.sync_time == sync_time_qpc,
                self.last_time == old(self).last_time,
                self.sym_id == old(self).sym_id,
                self.spec_event_ids() == old(self).spec_event_ids(),
            decreases 7 - k,
        {
            push_u16(&mut self.output, date[k]);
            assert(date@.take(k + 1).drop_last() =~= date@.take(k as int));
            k = k + 1;
        }
        assert(date@.take(7) =~= date@);
        assert(date_bytes(date@) =~= le16(date[0]) + le16(date[1]) + le16(date[2]) + le16(date[3]) + le16(date[4])
            + le16(date[5]) + le16(date[6])) by {
            reveal_with_fuel(date_bytes, 8);
        }
        push_u16(&mut self.output, milli_secs as u16);
        push_u64(&mut self.output, sync_time_qpc);
        push_u64(&mut self.output, qpc_freq);
        push_u32(&mut self.output, 8);
        push_u32(&mut self.output, process_id);
        push_u32(&mut self.output, num_of_cpus);
        push_u32(&mut self.output, nanos_between_samples);
        self.write_end_object();
        assert(self.output@ =~= old(self).output@ + start_object(4, 4, "Trace".spec_bytes())
            + le16(date[0]) + le16(date[1]) + le16(date[2]) + le16(date[3]) + le16(date[4]) + le16(date[5])
            + le16(date[6]) + le16((nanosecond / 1000000) as u16) + le64(sync_time_qpc) + le64(qpc_freq) + le32(8)
            + le32(process_id) + le32(num_of_cpus) + le32((1000000000u32 / sample_freq) as u32) + seq![6u8]);
    }

    /// Ends the stream with a null reference.
    pub fn finish(&mut self)
        ensures
            final(self).spec_output() == old(self).spec_output().push(1),
            final(self).same_state(old(self)),
    {
        self.write_tag(1);
    }
}

/// The 16-bit little-endian values of a date.
pub open spec fn date_bytes(d: Seq<u16>) -> Seq<u8>
    decreases d.len(),
{
    if d.len() == 0 {
        Seq::empty()
    } else {
        date_bytes(d.drop_last()) + le16(d.last())
    }
}

/// The symbol index of a mapping's module metadata: for ELF metadata,
/// `elf:`, the build id in lower-case hexadecimal, `:` and the debug link;
/// empty when there is none.
pub fn mapping_symbol_index(metadata: Option<&ModuleMetadata>, strings: &InternedStrings) -> (s: String)
    requires
        strings.wf(),
    ensures
        metadata is None ==> s@ == Seq::<char>::empty(),
        metadata matches Some(ModuleMetadata::Elf(e)) ==> s@ == elf_symbol_index(
            match e.spec_build_id() {
                Some(b) => Some(b@),
                None => None,
            },
            if e.spec_debug_link_id() < strings@.len() {
                Some(strings@[e.spec_debug_link_id() as int])
            } else {
                None
            },
        ),
{
    let mut out = String::new();
    match metadata {
        None => {},
        Some(ModuleMetadata::Elf(elf)) => {
            push_str_chars(&mut out, "elf:");
            let ghost head = out@;
            match elf.build_id() {
                Some(build_id) => {
                    let mut i: usize = 0;
                    while i < 20
                        invariant
                            i <= 20,
                            out@ == head + hex_lower(build_id@.take(i as int)),
                        decreases 20 - i,
                    {
                        let b = build_id[i];
                        string_push(&mut out, hex_lower_char(b / 16));
                        string_push(&mut out, hex_lower_char(b % 16));
                        assert(build_id@.take(i + 1).drop_last() =~= build_id@.take(i as int));
                        assert(out@ =~= head + hex_lower(build_id@.take(i + 1)));
                        i = i + 1;
                    }
                    assert(build_id@.take(20) =~= build_id@);
                },
                None => {
                    assert(out@ =~= head + Seq::<char>::empty());
                },
            }
            let ghost mid = out@;
            string_push(&mut out, ':');
            match elf.debug_link(strings) {
                Some(link) => {
                    push_str_chars(&mut out, link);
                },
                None => {
                    assert(out@ =~= mid.push(':') + Seq::<char>::empty());
                },
            }
        },
    }
    out
}

} // verus!
