//! Events: a format describing where each field of an event's payload
//! lives, and the callbacks run on each payload.

use vstd::prelude::*;
use std::rc::Rc;
use vstd::cell::invcell::InvCell;
use vstd::predicate::Predicate;

verus! {

/// The `u64` whose little-endian bytes are the first eight of `s`.
pub open spec fn u64_from_le_seq(s: Seq<u8>) -> u64 {
    (s[0] as u64) | ((s[1] as u64) << 8) | ((s[2] as u64) << 16) | ((s[3] as u64) << 24)
        | ((s[4] as u64) << 32) | ((s[5] as u64) << 40) | ((s[6] as u64) << 48)
        | ((s[7] as u64) << 56)
}

/// The `u32` whose little-endian bytes are the first four of `s`.
pub open spec fn u32_from_le_seq(s: Seq<u8>) -> u32 {
    (s[0] as u32) | ((s[1] as u32) << 8) | ((s[2] as u32) << 16) | ((s[3] as u32) << 24)
}

/// The `u16` whose little-endian bytes are the first two of `s`.
pub open spec fn u16_from_le_seq(s: Seq<u8>) -> u16 {
    ((s[0] as u16) | ((s[1] as u16) << 8)) as u16
}

/// Reads a little-endian `u64` from the first eight bytes of `s`.
pub fn read_u64_le(s: &[u8]) -> (v: u64)
    requires
        s@.len() >= 8,
    ensures
        v == u64_from_le_seq(s@),
{
    (s[0] as u64) | ((s[1] as u64) << 8) | ((s[2] as u64) << 16) | ((s[3] as u64) << 24)
        | ((s[4] as u64) << 32) | ((s[5] as u64) << 40) | ((s[6] as u64) << 48)
        | ((s[7] as u64) << 56)
}

/// Reads a little-endian `u32` from the first four bytes of `s`.
pub fn read_u32_le(s: &[u8]) -> (v: u32)
    requires
        s@.len() >= 4,
    ensures
        v == u32_from_le_seq(s@),
{
    (s[0] as u32) | ((s[1] as u32) << 8) | ((s[2] as u32) << 16) | ((s[3] as u32) << 24)
}

/// Reads a little-endian `u16` from the first two bytes of `s`.
pub fn read_u16_le(s: &[u8]) -> (v: u16)
    requires
        s@.len() >= 2,
    ensures
        v == u16_from_le_seq(s@),
{
    ((s[0] as u16) | ((s[1] as u16) << 8)) as u16
}

/// A byte range `start..end` of an event payload.
#[derive(Clone, Copy, Debug, Default)]
pub struct DataField(u32, u32);

impl DataField {
    pub closed spec fn spec_start(&self) -> usize {
        self.0 as usize
    }

    pub closed spec fn spec_end(&self) -> usize {
        self.1 as usize
    }

    fn new(start: u32, end: u32) -> (f: Self)
        ensures
            f.0 == start,
            f.1 == end,
    {
        Self(start, end)
    }

    pub fn start(&self) -> (s: usize)
        ensures
            s == self.spec_start(),
    {
        self.0 as usize
    }

    pub fn end(&self) -> (e: usize)
        ensures
            e == self.spec_end(),
    {
        self.1 as usize
    }
}

/// Any field range may be stored in a shared field reference.
pub struct AnyField;

impl Predicate<DataField> for AnyField {
    open spec fn predicate(&self, v: DataField) -> bool {
        true
    }
}

/// A field range shared between all clones of the reference: an update
/// through one clone is seen through every other. Since any holder may
/// update it, a reader knows nothing of the range it reads.
#[derive(Clone)]
pub struct DataFieldRef(Rc<InvCell<DataField, AnyField>>);

/// Whether `r` is the payload slice a field range selects in `data`, or is
/// empty because the range does not fit in `data`.
pub open spec fn selects_some_range(data: Seq<u8>, r: Seq<u8>) -> bool {
    ||| r.len() == 0
    ||| exists|a: int, b: int| 0 <= a <= b <= data.len() && r == data.subrange(a, b)
}

impl DataFieldRef {
    pub fn new() -> (r: Self) {
        DataFieldRef(Rc::new(InvCell::new(DataField::new(0, 0), Ghost(AnyField))))
    }

    /// The field range as it is now.
    pub fn get(&self) -> DataField {
        (*self.0).get()
    }

    /// The payload bytes that the field range selects now; empty when the
    /// range does not fit in `data`.
    pub fn get_data<'a>(&self, data: &'a [u8]) -> (r: &'a [u8])
        ensures
            selects_some_range(data@, r@),
    {
        let field = self.get();
        let start = field.start();
        let end = field.end();
        if start <= end && end <= data.len() {
            vstd::slice::slice_subrange(data, start, end)
        } else {
            vstd::slice::slice_subrange(data, 0, 0)
        }
    }

    /// The little-endian `u64` at the start of the selected bytes, or
    /// `None` when fewer than eight are selected.
    pub fn try_get_u64(&self, data: &[u8]) -> (v: Option<u64>)
        ensures
            v matches Some(x) ==> exists|s: Seq<u8>| selects_some_range(data@, s) && s.len() >= 8
                && x == u64_from_le_seq(s),
            v is None ==> exists|s: Seq<u8>| selects_some_range(data@, s) && s.len() < 8,
    {
        let slice = self.get_data(data);
        if slice.len() < 8 {
            return None;
        }
        Some(read_u64_le(slice))
    }

    /// The little-endian `u32` at the start of the selected bytes, or
    /// `None` when fewer than four are selected.
    pub fn try_get_u32(&self, data: &[u8]) -> (v: Option<u32>)
        ensures
            v matches Some(x) ==> exists|s: Seq<u8>| selects_some_range(data@, s) && s.len() >= 4
                && x == u32_from_le_seq(s),
            v is None ==> exists|s: Seq<u8>| selects_some_range(data@, s) && s.len() < 4,
    {
        let slice = self.get_data(data);
        if slice.len() < 4 {
            return None;
        }
        Some(read_u32_le(slice))
    }

    /// The little-endian `u16` at the start of the selected bytes, or
    /// `None` when fewer than two are selected.
    pub fn try_get_u16(&self, data: &[u8]) -> (v: Option<u16>)
        ensures
            v matches Some(x) ==> exists|s: Seq<u8>| selects_some_range(data@, s) && s.len() >= 2
                && x == u16_from_le_seq(s),
            v is None ==> exists|s: Seq<u8>| selects_some_range(data@, s) && s.len() < 2,
    {
        let slice = self.get_data(data);
        if slice.len() < 2 {
            return None;
        }
        Some(read_u16_le(slice))
    }

    /// Empties the range (`0..0`).
    pub fn reset(&self) {
        self.update(0, 0);
    }

    /// Sets the range to `start..start + len` (each end truncated to 32
    /// bits) for every holder, and gives back `len`.
    pub fn update(&self, start: usize, len: usize) -> (n: usize)
        requires
            start + len <= usize::MAX,
        ensures
            n == len,
    {
        let end = start + len;
        (*self.0).set(DataField::new(start as u32, end as u32));
        len
    }
}

impl Default for DataFieldRef {
    fn default() -> Self {
        Self::new()
    }
}

/// The index of a field in an event format.
#[derive(Clone, Copy, Debug)]
pub struct EventFieldRef(usize);

impl EventFieldRef {
    pub closed spec fn spec_index(&self) -> usize {
        self.0
    }

    pub fn index(&self) -> (i: usize)
        ensures
            i == self.spec_index(),
    {
        self.0
    }
}

/// Where a field's bytes are found in a payload.
#[derive(Clone, Copy, Debug, PartialEq, Eq)]
pub enum LocationType {
    /// `size` bytes at `offset`.
    Static,
    /// A NUL-terminated byte string at `offset`.
    StaticString,
    /// A NUL-terminated UTF-16 string at `offset`.
    StaticUTF16String,
    /// A 16-bit little-endian byte count at `offset`, then that many bytes.
    StaticLenPrefixArray,
    /// A location relative to another field (not supported).
    DynRelative,
    /// A location stored in the payload (not supported).
    DynAbsolute,
}

/// A named, typed field of an event format.
pub struct EventField {
    pub name: String,
    pub type_str: String,
    pub location: LocationType,
    pub offset: usize,
    pub size: usize,
}

impl EventField {
    pub fn new(
        name: String,
        type_str: String,
        location: LocationType,
        offset: usize,
        size: usize,
    ) -> (f: Self)
        ensures
            f.name@ == name@,
            f.type_str@ == type_str@,
            f.location == location,
            f.offset == offset,
            f.size == size,
    {
        Self { name, type_str, location, offset, size }
    }
}

impl EventField {
    /// Whether two fields describe the same thing.
    pub open spec fn same_as(&self, other: &EventField) -> bool {
        &&& self.name@ == other.name@
        &&& self.type_str@ == other.type_str@
        &&& self.location == other.location
        &&& self.offset == other.offset
        &&& self.size == other.size
    }
}

impl Clone for EventField {
    fn clone(&self) -> (f: Self)
        ensures
            f.same_as(self),
    {
        EventField {
            name: self.name.clone(),
            type_str: self.type_str.clone(),
            location: self.location,
            offset: self.offset,
            size: self.size,
        }
    }
}

/// Calls `<str as PartialEq>::eq`. Trusted: strings are equal exactly when
/// their characters are.
#[verifier::external_body]
pub(crate) fn str_eq(a: &str, b: &str) -> (r: bool)
    ensures
        r == (a@ == b@),
{
    a == b
}

/// The length of the NUL-terminated byte string at the start of `s`: the
/// index of its first zero byte, or its length when it has none.
pub open spec fn is_zstr_len(s: Seq<u8>, n: int) -> bool {
    &&& 0 <= n <= s.len()
    &&& forall|k: int| 0 <= k < n ==> s[k] != 0
    &&& (n == s.len() || s[n] == 0)
}

/// The length in bytes of the NUL-terminated UTF-16 string at the start
/// of `s`: twice the index of its first zero unit among the whole two-byte
/// units, or the byte length of all whole units when there is none.
pub open spec fn is_wzstr_len(s: Seq<u8>, n: int) -> bool {
    &&& 0 <= n <= s.len()
    &&& n % 2 == 0
    &&& forall|k: int| 0 <= k < n / 2 ==> !#[trigger] unit_is_zero(s, k)
    &&& (n + 2 > s.len() || unit_is_zero(s, n / 2))
}

/// Whether the two-byte unit `k` of `s` is zero.
pub open spec fn unit_is_zero(s: Seq<u8>, k: int) -> bool {
    s[2 * k] == 0 && s[2 * k + 1] == 0
}

/// The layout of an event's payload: its fields in order.
pub struct EventFormat {
    fields: Vec<EventField>,
}

impl EventFormat {
    /// The fields of the format.
    pub closed spec fn spec_fields(&self) -> Seq<EventField> {
        self.fields@
    }

    /// Whether `get_data` on field `index` of `data` would panic: an
    /// unsupported location, or a string that starts past the end.
    pub open spec fn get_data_panics(&self, index: int, data: Seq<u8>) -> bool {
        0 <= index < self.spec_fields().len() && {
            let f = self.spec_fields()[index];
            ||| f.location == LocationType::DynRelative
            ||| f.location == LocationType::DynAbsolute
            ||| (f.location == LocationType::StaticString || f.location == LocationType::StaticUTF16String)
                && f.offset > data.len()
        }
    }

    /// The bytes that field `index` selects in `data`.
    pub open spec fn field_data(&self, index: int, data: Seq<u8>, r: Seq<u8>) -> bool {
        if index < 0 || index >= self.spec_fields().len() {
            r.len() == 0
        } else {
            let f = self.spec_fields()[index];
            match f.location {
                LocationType::Static => if f.offset + f.size > data.len() {
                    r.len() == 0
                } else {
                    r == data.subrange(f.offset as int, f.offset + f.size)
                },
                LocationType::StaticString => is_zstr_len(data.skip(f.offset as int), r.len() as int)
                    && r == data.subrange(f.offset as int, f.offset + r.len()),
                LocationType::StaticUTF16String => is_wzstr_len(data.skip(f.offset as int), r.len() as int)
                    && r == data.subrange(f.offset as int, f.offset + r.len()),
                LocationType::StaticLenPrefixArray => if f.offset + 2 > data.len() {
                    r.len() == 0
                } else {
                    let n = u16_from_le_seq(data.subrange(f.offset as int, f.offset + 2));
                    if f.offset + 2 + n > data.len() {
                        r.len() == 0
                    } else {
                        r == data.subrange(f.offset + 2, f.offset + 2 + n)
                    }
                },
                _ => false,
            }
        }
    }

    pub fn new() -> (f: Self)
        ensures
            f.spec_fields().len() == 0,
    {
        Self { fields: Vec::new() }
    }

    pub fn add_field(&mut self, field: EventField)
        ensures
            final(self).spec_fields() == old(self).spec_fields().push(field),
    {
        self.fields.push(field);
    }

    pub fn fields(&self) -> (f: &[EventField])
        ensures
            f@ == self.spec_fields(),
    {
        self.fields.as_slice()
    }

    /// The first field named `name`, or `None` when there is none.
    pub fn get_field_ref(&self, name: &str) -> (r: Option<EventFieldRef>)
        ensures
            r matches Some(fr) ==> {
                &&& fr.spec_index() < self.spec_fields().len()
                &&& self.spec_fields()[fr.spec_index() as int].name@ == name@
                &&& forall|k: int| 0 <= k < fr.spec_index() ==> self.spec_fields()[k].name@ != name@
            },
            r is None ==> forall|k: int| 0 <= k < self.spec_fields().len()
                ==> self.spec_fields()[k].name@ != name@,
    {
        let mut i: usize = 0;
        while i < self.fields.len()
            invariant
                i <= self.fields@.len(),
                forall|k: int| 0 <= k < i ==> self.fields@[k].name@ != name@,
            decreases self.fields@.len() - i,
        {
            if str_eq(self.fields[i].name.as_str(), name) {
                return Some(EventFieldRef(i));
            }
            i = i + 1;
        }
        None
    }

    /// The first field named `name`; the name must be present.
    pub fn get_field_ref_unchecked(&self, name: &str) -> (r: EventFieldRef)
        requires
            exists|k: int| 0 <= k < self.spec_fields().len() && self.spec_fields()[k].name@ == name@,
        ensures
            r.spec_index() < self.spec_fields().len(),
            self.spec_fields()[r.spec_index() as int].name@ == name@,
            forall|k: int| 0 <= k < r.spec_index() ==> self.spec_fields()[k].name@ != name@,
    {
        match self.get_field_ref(name) {
            Some(r) => r,
            None => {
                proof {
                    let k = choose|k: int| 0 <= k < self.spec_fields().len() && self.spec_fields()[k].name@ == name@;
                    assert(self.spec_fields()[k].name@ != name@);
                }
                EventFieldRef(0)
            },
        }
    }

    /// The bytes of the field in `data`: `size` bytes at `offset` for a
    /// static field (empty when they do not fit), the bytes before the
    /// first NUL for a string field; empty for an unknown field.
    pub fn get_data<'a>(&self, field_ref: EventFieldRef, data: &'a [u8]) -> (r: &'a [u8])
        requires
            !self.get_data_panics(field_ref.spec_index() as int, data@),
        ensures
            self.field_data(field_ref.spec_index() as int, data@, r@),
    {
        let index = field_ref.index();
        if index >= self.fields.len() {
            return vstd::slice::slice_subrange(data, 0, 0);
        }
        let field = &self.fields[index];
        let data_len = data.len();
        match field.location {
            LocationType::Static => {
                if field.size > usize::MAX - field.offset {
                    return vstd::slice::slice_subrange(data, 0, 0);
                }
                let end = field.offset + field.size;
                if end > data.len() {
                    return vstd::slice::slice_subrange(data, 0, 0);
                }
                vstd::slice::slice_subrange(data, field.offset, end)
            },
            LocationType::StaticString => {
                let mut len: usize = 0;
                let avail = data_len - field.offset;
                while len < avail && data[field.offset + len] != 0
                    invariant
                        data_len == data@.len(),
                        field.offset <= data@.len(),
                        avail == data@.len() - field.offset,
                        len <= avail,
                        forall|k: int| 0 <= k < len ==> #[trigger] data@.skip(field.offset as int)[k] != 0,
                    decreases avail - len,
                {
                    len = len + 1;
                }
                let r = vstd::slice::slice_subrange(data, field.offset, field.offset + len);
                assert(is_zstr_len(data@.skip(field.offset as int), len as int));
                r
            },
            LocationType::StaticLenPrefixArray => {
                if field.offset > data_len || data_len - field.offset < 2 {
                    return vstd::slice::slice_subrange(data, 0, 0);
                }
                let prefix = vstd::slice::slice_subrange(data, field.offset, field.offset + 2);
                let n = read_u16_le(prefix) as usize;
                if data_len - field.offset - 2 < n {
                    return vstd::slice::slice_subrange(data, 0, 0);
                }
                vstd::slice::slice_subrange(data, field.offset + 2, field.offset + 2 + n)
            },
            LocationType::StaticUTF16String => {
                let mut len: usize = 0;
                let avail = data_len - field.offset;
                while len + 1 < avail && !(data[field.offset + len] == 0 && data[field.offset + len + 1] == 0)
                    invariant
                        data_len == data@.len(),
                        field.offset <= data@.len(),
                        avail == data@.len() - field.offset,
                        len <= avail,
                        len % 2 == 0,
                        forall|k: int| 0 <= k < len / 2 ==>
                            !#[trigger] unit_is_zero(data@.skip(field.offset as int), k),
                    decreases avail - len,
                {
                    assert(!unit_is_zero(data@.skip(field.offset as int), len as int / 2));
                    len = len + 2;
                }
                proof {
                    if len + 2 <= avail {
                        assert(unit_is_zero(data@.skip(field.offset as int), len as int / 2));
                    }
                }
                let r = vstd::slice::slice_subrange(data, field.offset, field.offset + len);
                assert(is_wzstr_len(data@.skip(field.offset as int), len as int));
                r
            },
            _ => {
                vstd::slice::slice_subrange(data, 0, 0)
            },
        }
    }

    /// The little-endian `u64` at the start of the field, or `None` when it
    /// has fewer than eight bytes.
    pub fn try_get_u64(&self, field_ref: EventFieldRef, data: &[u8]) -> (v: Option<u64>)
        requires
            !self.get_data_panics(field_ref.spec_index() as int, data@),
        ensures
            forall|r: Seq<u8>| #[trigger] self.field_data(field_ref.spec_index() as int, data@, r) ==> {
                &&& r.len() < 8 ==> v is None
                &&& r.len() >= 8 ==> v == Some(u64_from_le_seq(r))
            },
    {
        let slice = self.get_data(field_ref, data);
        proof { self.lemma_field_data_unique(field_ref.spec_index() as int, data@, slice@); }
        if slice.len() < 8 {
            return None;
        }
        Some(read_u64_le(slice))
    }

    /// The little-endian `u32` at the start of the field, or `None` when it
    /// has fewer than four bytes.
    pub fn try_get_u32(&self, field_ref: EventFieldRef, data: &[u8]) -> (v: Option<u32>)
        requires
            !self.get_data_panics(field_ref.spec_index() as int, data@),
        ensures
            forall|r: Seq<u8>| #[trigger] self.field_data(field_ref.spec_index() as int, data@, r) ==> {
                &&& r.len() < 4 ==> v is None
                &&& r.len() >= 4 ==> v == Some(u32_from_le_seq(r))
            },
    {
        let slice = self.get_data(field_ref, data);
        proof { self.lemma_field_data_unique(field_ref.spec_index() as int, data@, slice@); }
        if slice.len() < 4 {
            return None;
        }
        Some(read_u32_le(slice))
    }

    /// The little-endian `u16` at the start of the field, or `None` when it
    /// has fewer than two bytes.
    pub fn try_get_u16(&self, field_ref: EventFieldRef, data: &[u8]) -> (v: Option<u16>)
        requires
            !self.get_data_panics(field_ref.spec_index() as int, data@),
        ensures
            forall|r: Seq<u8>| #[trigger] self.field_data(field_ref.spec_index() as int, data@, r) ==> {
                &&& r.len() < 2 ==> v is None
                &&& r.len() >= 2 ==> v == Some(u16_from_le_seq(r))
            },
    {
        let slice = self.get_data(field_ref, data);
        proof { self.lemma_field_data_unique(field_ref.spec_index() as int, data@, slice@); }
        if slice.len() < 2 {
            return None;
        }
        Some(read_u16_le(slice))
    }

    /// A field selects exactly one byte string of a payload.
    pub proof fn lemma_field_data_unique(&self, index: int, data: Seq<u8>, r: Seq<u8>)
        requires
            self.field_data(index, data, r),
        ensures
            forall|r2: Seq<u8>| #[trigger] self.field_data(index, data, r2) ==> r2 == r,
    {
        assert forall|r2: Seq<u8>| #[trigger] self.field_data(index, data, r2) implies r2 == r by {
            if 0 <= index < self.spec_fields().len() {
                let f = self.spec_fields()[index];
                let s = data.skip(f.offset as int);
                if f.location == LocationType::StaticString {
                    let (n1, n2) = (r.len() as int, r2.len() as int);
                    if n1 < n2 {
                        assert(s[n1] != 0);
                    } else if n2 < n1 {
                        assert(s[n2] != 0);
                    }
                } else if f.location == LocationType::StaticUTF16String {
                    let (n1, n2) = (r.len() as int, r2.len() as int);
                    if n1 < n2 {
                        assert(n1 / 2 < n2 / 2);
                        assert(!unit_is_zero(s, n1 / 2));
                    } else if n2 < n1 {
                        assert(n2 / 2 < n1 / 2);
                        assert(!unit_is_zero(s, n2 / 2));
                    }
                }
            }
        }
    }
}

impl Clone for EventFormat {
    fn clone(&self) -> (f: Self)
        ensures
            f.spec_fields().len() == self.spec_fields().len(),
            forall|i: int| 0 <= i < self.spec_fields().len()
                ==> #[trigger] f.spec_fields()[i].same_as(&self.spec_fields()[i]),
    {
        let mut fields: Vec<EventField> = Vec::new();
        let mut i: usize = 0;
        while i < self.fields.len()
            invariant
                i <= self.fields@.len(),
                fields@.len() == i,
                forall|k: int| 0 <= k < i ==> #[trigger] fields@[k].same_as(&self.fields@[k]),
            decreases self.fields@.len() - i,
        {
            fields.push(self.fields[i].clone());
            i = i + 1;
        }
        EventFormat { fields }
    }
}

impl Default for EventFormat {
    fn default() -> (f: Self)
        ensures
            f.spec_fields().len() == 0,
    {
        EventFormat::new()
    }
}

/// A field as a tuple: name, type name, location, offset and size.
pub open spec fn field_view(f: EventField) -> (Seq<char>, Seq<char>, LocationType, usize, usize) {
    (f.name@, f.type_str@, f.location, f.offset, f.size)
}

/// The fields of a format as tuples.
pub open spec fn format_view(f: EventFormat) -> Seq<(Seq<char>, Seq<char>, LocationType, usize, usize)> {
    f.spec_fields().map_values(|x: EventField| field_view(x))
}

/// The callbacks registered on an event, in registration order, each a
/// boxed closure. The list is opaque: it is reached only through the
/// wrappers below, which say how many callbacks it holds and which of them
/// have been run, on what.
#[verifier::external_body]
pub struct EventCallbacks {
    list: Vec<Box<dyn FnMut(&[u8], &EventFormat, &[u8])>>,
}

/// How many callbacks a list holds.
pub uninterp spec fn callback_count(c: EventCallbacks) -> nat;

/// The runs of the list's callbacks so far, in order: for each, the
/// callback's position and what it was given: the full record, the fields
/// of the format, and the event payload.
pub uninterp spec fn callback_runs(c: EventCallbacks) -> Seq<(int, Seq<u8>, Seq<(Seq<char>, Seq<char>, LocationType, usize, usize)>, Seq<u8>)>;

/// Calls `Vec::new`. Trusted: the list is empty and nothing has run.
#[verifier::external_body]
fn callbacks_new() -> (c: EventCallbacks)
    ensures
        callback_count(c) == 0,
        callback_runs(c).len() == 0,
{
    EventCallbacks { list: Vec::new() }
}

/// Calls `Vec::len`. Trusted: it gives the number of callbacks.
#[verifier::external_body]
fn callbacks_len(c: &EventCallbacks) -> (n: usize)
    ensures
        n == callback_count(*c),
{
    c.list.len()
}

/// Calls `Vec::push` with the boxed callback. Trusted: the list grows by
/// one; pushing runs nothing.
#[verifier::external_body]
fn callbacks_push(c: &mut EventCallbacks, callback: impl FnMut(&[u8], &EventFormat, &[u8]) + 'static)
    ensures
        callback_count(*final(c)) == callback_count(*old(c)) + 1,
        callback_runs(*final(c)) == callback_runs(*old(c)),
{
    c.list.push(Box::new(callback));
}

/// Calls callback `i` of the list on a payload. Trusted: the list keeps
/// its length, and this one run of callback `i` on the payload is
/// recorded with what it was given.
#[verifier::external_body]
fn callbacks_call(c: &mut EventCallbacks, i: usize, full_data: &[u8], format: &EventFormat, event_data: &[u8])
    requires
        i < callback_count(*old(c)),
    ensures
        callback_count(*final(c)) == callback_count(*old(c)),
        callback_runs(*final(c)) == callback_runs(*old(c)).push((i as int, full_data@, format_view(*format), event_data@)),
{
    (c.list[i])(full_data, format, event_data);
}

/// An event: an id, a name, a payload format, and callbacks run on each
/// payload.
pub struct Event {
    id: usize,
    name: String,
    no_callstack: bool,
    callbacks: EventCallbacks,
    format: EventFormat,
    extension: crate::etw::EventExtension,
}

impl Event {
    pub closed spec fn spec_id(&self) -> usize {
        self.id
    }

    pub closed spec fn spec_name(&self) -> Seq<char> {
        self.name@
    }

    pub closed spec fn spec_format(&self) -> EventFormat {
        self.format
    }

    pub closed spec fn spec_no_callstack(&self) -> bool {
        self.no_callstack
    }

    pub closed spec fn spec_extension(&self) -> crate::etw::EventExtension {
        self.extension
    }

    /// How many callbacks are registered.
    pub closed spec fn spec_callback_count(&self) -> nat {
        callback_count(self.callbacks)
    }

    /// The callback runs so far, in order: position, full record, the
    /// format's fields, payload.
    pub closed spec fn spec_runs(&self) -> Seq<(int, Seq<u8>, Seq<(Seq<char>, Seq<char>, LocationType, usize, usize)>, Seq<u8>)> {
        callback_runs(self.callbacks)
    }

    pub fn new(id: usize, name: String) -> (e: Self)
        ensures
            e.spec_id() == id,
            e.spec_name() == name@,
            e.spec_format().spec_fields().len() == 0,
            !e.spec_no_callstack(),
            e.spec_extension().spec_provider() == crate::guid::spec_guid_from_u128(0),
            e.spec_extension().spec_level() == 0,
            e.spec_extension().spec_keyword() == 0,
            e.spec_callback_count() == 0,
            e.spec_runs().len() == 0,
    {
        let extension = crate::etw::EventExtension::new(crate::guid::Guid::from_u128(0), 0, 0);
        Self { id, name, no_callstack: false, callbacks: callbacks_new(), format: EventFormat::new(), extension }
    }

    pub fn id(&self) -> (id: usize)
        ensures
            id == self.spec_id(),
    {
        self.id
    }

    pub fn name(&self) -> (name: &str)
        ensures
            name@ == self.spec_name(),
    {
        self.name.as_str()
    }

    pub fn format(&self) -> (f: &EventFormat)
        ensures
            *f == self.spec_format(),
    {
        &self.format
    }

    pub fn format_mut(&mut self) -> (f: &mut EventFormat)
        ensures
            *f == old(self).spec_format(),
            final(self).spec_format() == *final(f),
            final(self).spec_id() == old(self).spec_id(),
            final(self).spec_name() == old(self).spec_name(),
            final(self).spec_no_callstack() == old(self).spec_no_callstack(),
            final(self).spec_extension() == old(self).spec_extension(),
    {
        &mut self.format
    }

    pub fn extension(&self) -> (e: &crate::etw::EventExtension)
        ensures
            *e == self.spec_extension(),
    {
        &self.extension
    }

    pub fn extension_mut(&mut self) -> (e: &mut crate::etw::EventExtension)
        ensures
            *e == old(self).spec_extension(),
            final(self).spec_extension() == *final(e),
            final(self).spec_id() == old(self).spec_id(),
            final(self).spec_name() == old(self).spec_name(),
            final(self).spec_format() == old(self).spec_format(),
            final(self).spec_no_callstack() == old(self).spec_no_callstack(),
    {
        &mut self.extension
    }

    /// Marks the event as one whose samples carry no callstack.
    pub fn set_no_callstack_flag(&mut self)
        ensures
            final(self).spec_no_callstack(),
            final(self).spec_id() == old(self).spec_id(),
            final(self).spec_name() == old(self).spec_name(),
            final(self).spec_format() == old(self).spec_format(),
            final(self).spec_extension() == old(self).spec_extension(),
    {
        self.no_callstack = true;
    }

    pub fn has_no_callstack_flag(&self) -> (b: bool)
        ensures
            b == self.spec_no_callstack(),
    {
        self.no_callstack
    }
}

impl Event {
    /// Registers a callback run on every payload of the event.
    pub fn add_callback(&mut self, callback: impl FnMut(&[u8], &EventFormat, &[u8]) + 'static)
        ensures
            final(self).spec_callback_count() == old(self).spec_callback_count() + 1,
            final(self).spec_runs() == old(self).spec_runs(),
            final(self).spec_extension() == old(self).spec_extension(),
            final(self).spec_id() == old(self).spec_id(),
            final(self).spec_name() == old(self).spec_name(),
            final(self).spec_format() == old(self).spec_format(),
            final(self).spec_no_callstack() == old(self).spec_no_callstack(),
    {
        callbacks_push(&mut self.callbacks, callback);
    }

    /// Runs every callback, in registration order, on a payload, each
    /// handed the event's format.
    pub fn process(&mut self, full_data: &[u8], event_data: &[u8])
        ensures
            final(self).spec_runs() == old(self).spec_runs() + Seq::new(
                old(self).spec_callback_count(),
                |j: int| (j, full_data@, format_view(old(self).spec_format()), event_data@),
            ),
            final(self).spec_callback_count() == old(self).spec_callback_count(),
            final(self).spec_id() == old(self).spec_id(),
            final(self).spec_name() == old(self).spec_name(),
            final(self).spec_format() == old(self).spec_format(),
            final(self).spec_no_callstack() == old(self).spec_no_callstack(),
            final(self).spec_extension() == old(self).spec_extension(),
    {
        let n = callbacks_len(&self.callbacks);
        let mut i: usize = 0;
        while i < n
            invariant
                n == callback_count(self.callbacks),
                i <= n,
                self.spec_runs() == old(self).spec_runs() + Seq::new(
                    i as nat,
                    |j: int| (j, full_data@, format_view(old(self).spec_format()), event_data@),
                ),
                self.spec_callback_count() == old(self).spec_callback_count(),
                self.spec_id() == old(self).spec_id(),
                self.spec_name() == old(self).spec_name(),
                self.spec_format() == old(self).spec_format(),
                self.spec_no_callstack() == old(self).spec_no_callstack(),
                self.spec_extension() == old(self).spec_extension(),
            decreases n - i,
        {
            let ghost before = self.spec_runs();
            callbacks_call(&mut self.callbacks, i, full_data, &self.format, event_data);
            assert(old(self).spec_runs() + Seq::new((i + 1) as nat, |j: int| (j, full_data@, format_view(old(self).spec_format()), event_data@))
                =~= before.push((i as int, full_data@, format_view(old(self).spec_format()), event_data@)));
            i = i + 1;
        }
        assert(old(self).spec_runs() + Seq::new(n as nat, |j: int| (j, full_data@, format_view(old(self).spec_format()), event_data@))
            =~= self.spec_runs());
    }
}

} // verus!
