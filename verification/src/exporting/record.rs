//! Records: raw event payloads kept with the type of event they came from.

use vstd::prelude::*;
use crate::event::{Event, EventFormat};

verus! {

/// A record's payload together with its type.
pub struct ExportRecordData<'a> {
    record_type_id: u16,
    record_type: &'a ExportRecordType,
    record_data: &'a [u8],
}

impl<'a> ExportRecordData<'a> {
    pub closed spec fn spec_record_type_id(&self) -> u16 {
        self.record_type_id
    }

    pub closed spec fn spec_record_type(&self) -> &'a ExportRecordType {
        self.record_type
    }

    pub closed spec fn spec_record_data(&self) -> Seq<u8> {
        self.record_data@
    }

    pub fn new(record_type_id: u16, record_type: &'a ExportRecordType, record_data: &'a [u8]) -> (d: Self)
        ensures
            d.spec_record_type_id() == record_type_id,
            d.spec_record_type() == record_type,
            d.spec_record_data() == record_data@,
    {
        Self { record_type_id, record_type, record_data }
    }

    pub fn record_type_id(&self) -> (id: u16)
        ensures
            id == self.spec_record_type_id(),
    {
        self.record_type_id
    }

    pub fn record_type(&self) -> (t: &'a ExportRecordType)
        ensures
            t == self.spec_record_type(),
    {
        self.record_type
    }

    pub fn record_data(&self) -> (d: &'a [u8])
        ensures
            d@ == self.spec_record_data(),
    {
        self.record_data
    }
}

/// The type of a record: a kind, the id and name of its event, and its
/// payload format.
pub struct ExportRecordType {
    kind: u16,
    id: usize,
    name: String,
    format: EventFormat,
}

impl ExportRecordType {
    pub closed spec fn spec_kind(&self) -> u16 {
        self.kind
    }

    pub closed spec fn spec_id(&self) -> usize {
        self.id
    }

    pub closed spec fn spec_name(&self) -> Seq<char> {
        self.name@
    }

    pub closed spec fn spec_format(&self) -> EventFormat {
        self.format
    }

    pub fn new(kind: u16, id: usize, name: String, format: EventFormat) -> (t: Self)
        ensures
            t.spec_kind() == kind,
            t.spec_id() == id,
            t.spec_name() == name@,
            t.spec_format() == format,
    {
        Self { kind, id, name, format }
    }

    /// The record type of an event: its id, name and a copy of its format.
    pub fn from_event(kind: u16, event: &Event) -> (t: Self)
        ensures
            t.spec_kind() == kind,
            t.spec_id() == event.spec_id(),
            t.spec_name() == event.spec_name(),
            t.spec_format().spec_fields().len() == event.spec_format().spec_fields().len(),
            forall|i: int| 0 <= i < event.spec_format().spec_fields().len()
                ==> #[trigger] t.spec_format().spec_fields()[i].same_as(&event.spec_format().spec_fields()[i]),
    {
        Self {
            kind,
            id: event.id(),
            name: event.name().to_owned(),
            format: event.format().clone(),
        }
    }

    pub fn kind(&self) -> (k: u16)
        ensures
            k == self.spec_kind(),
    {
        self.kind
    }

    pub fn id(&self) -> (i: usize)
        ensures
            i == self.spec_id(),
    {
        self.id
    }

    pub fn name(&self) -> (n: &str)
        ensures
            n@ == self.spec_name(),
    {
        self.name.as_str()
    }

    pub fn format(&self) -> (f: &EventFormat)
        ensures
            *f == self.spec_format(),
    {
        &self.format
    }
}

impl Default for ExportRecordType {
    fn default() -> (t: Self)
        ensures
            t.spec_kind() == 0,
            t.spec_id() == 0,
            t.spec_name().len() == 0,
            t.spec_format().spec_fields().len() == 0,
    {
        Self { kind: 0, id: 0, name: String::new(), format: EventFormat::new() }
    }
}

/// Where a record's payload lies in the record buffer.
#[derive(Clone, Copy, Debug, Default)]
pub struct ExportRecord {
    record_type: u16,
    offset: usize,
    length: u32,
}

impl View for ExportRecord {
    type V = (u16, usize, u32);

    closed spec fn view(&self) -> (u16, usize, u32) {
        (self.record_type, self.offset, self.length)
    }
}

impl ExportRecord {
    pub fn new(record_type: u16, offset: usize, length: u32) -> (r: Self)
        ensures
            r@ == (record_type, offset, length),
    {
        Self { record_type, offset, length }
    }

    pub fn record_type(&self) -> (t: u16)
        ensures
            t == self@.0,
    {
        self.record_type
    }

    pub fn start(&self) -> (s: usize)
        ensures
            s == self@.1,
    {
        self.offset
    }

    /// One past the last byte of the payload.
    pub fn end(&self) -> (e: usize)
        requires
            self@.1 + self@.2 <= usize::MAX,
        ensures
            e == self@.1 + self@.2,
    {
        self.offset + self.length as usize
    }
}

} // verus!
