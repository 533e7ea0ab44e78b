//! Scripted timelines: the flags of their events, the checks made when an
//! event is tracked and when a timeline is applied, and the spans a
//! timeline builds from the events it sees.

use vstd::prelude::*;

use crate::event::{Event, EventField, LocationType};
use super::span::ExportSpan;

verus! {

const TIMELINE_EVENT_FLAG_NONE: u8 = 0x0;
const TIMELINE_EVENT_FLAG_START: u8 = 0x1;
const TIMELINE_EVENT_FLAG_END: u8 = 0x2;

/// Whether a timeline event starts and/or ends a span.
#[derive(Clone, Copy, Debug, Default)]
pub struct TimelineEventFlags {
    flags: u8,
}

impl View for TimelineEventFlags {
    type V = (bool, bool);

    /// (starts a span, ends a span)
    closed spec fn view(&self) -> (bool, bool) {
        (self.flags & TIMELINE_EVENT_FLAG_START != 0, self.flags & TIMELINE_EVENT_FLAG_END != 0)
    }
}

impl TimelineEventFlags {
    pub fn new() -> (f: Self)
        ensures
            f@ == (false, false),
    {
        let f = Self { flags: TIMELINE_EVENT_FLAG_NONE };
        assert(0u8 & 1u8 == 0 && 0u8 & 2u8 == 0) by (bit_vector);
        f
    }

    pub fn will_start(&self) -> (b: bool)
        ensures
            b == self@.0,
    {
        self.flags & TIMELINE_EVENT_FLAG_START != 0
    }

    pub fn should_start(&mut self)
        ensures
            final(self)@ == (true, old(self)@.1),
    {
        let old_flags = self.flags;
        self.flags = self.flags | TIMELINE_EVENT_FLAG_START;
        assert((old_flags | 1u8) & 1u8 != 0) by (bit_vector);
        assert(((old_flags | 1u8) & 2u8 != 0) == (old_flags & 2u8 != 0)) by (bit_vector);
    }

    pub fn will_end(&self) -> (b: bool)
        ensures
            b == self@.1,
    {
        self.flags & TIMELINE_EVENT_FLAG_END != 0
    }

    pub fn should_end(&mut self)
        ensures
            final(self)@ == (old(self)@.0, true),
    {
        let old_flags = self.flags;
        self.flags = self.flags | TIMELINE_EVENT_FLAG_END;
        assert((old_flags | 2u8) & 2u8 != 0) by (bit_vector);
        assert(((old_flags | 2u8) & 1u8 != 0) == (old_flags & 1u8 != 0)) by (bit_vector);
    }

    pub fn clear(&mut self)
        ensures
            final(self)@ == (false, false),
    {
        self.flags = TIMELINE_EVENT_FLAG_NONE;
        assert(0u8 & 1u8 == 0 && 0u8 & 2u8 == 0) by (bit_vector);
    }
}

/// Why a timeline refused an event or could not be applied.
#[derive(Debug, Clone, Copy, PartialEq, Eq)]
pub enum TimelineError {
    /// The event's flags say it both starts and ends spans.
    StartAndEnd,
    /// No id field was named.
    NoIdField,
    /// An id field is not in the event's format.
    FieldNotFound,
    /// An id field has no fixed size.
    FieldNotStatic,
    /// The event's id has another size than the other events' ids.
    IdSizeMismatch,
    /// The timeline has fewer than two events.
    TooFewEvents,
    /// No event ends spans.
    NoCompletion,
    /// No event starts spans.
    NoStart,
    /// The id is over 32 bytes.
    IdTooLarge,
}

/// The text of each string.
pub open spec fn texts(s: Seq<&str>) -> Seq<Seq<char>> {
    s.map_values(|x: &str| x@)
}

/// The index of the first field named `name`, if any.
#[verifier::opaque]
pub open spec fn first_named(fields: Seq<EventField>, name: Seq<char>) -> Option<int> {
    if exists|k: int| 0 <= k < fields.len() && fields[k].name@ == name {
        Some(choose|k: int| 0 <= k < fields.len() && fields[k].name@ == name && forall|j: int| 0 <= j < k ==> fields[j].name@ != name)
    } else {
        None
    }
}

/// Whether a field has a fixed size, as an id part needs.
pub open spec fn static_sized(f: EventField) -> bool {
    f.size != 0 && f.location != LocationType::DynRelative && f.location != LocationType::DynAbsolute
}

/// The id made of the first `n` named fields: their indices and total
/// size, or the error for the first that is missing or has no fixed size.
pub open spec fn id_parts(fields: Seq<EventField>, names: Seq<Seq<char>>, n: int) -> Result<(Seq<int>, int), TimelineError>
    decreases n,
{
    if n <= 0 {
        Ok((Seq::empty(), 0))
    } else {
        match id_parts(fields, names, n - 1) {
            Err(e) => Err(e),
            Ok((idx, total)) => match first_named(fields, names[n - 1]) {
                None => Err(TimelineError::FieldNotFound),
                Some(k) => if !static_sized(fields[k]) {
                    Err(TimelineError::FieldNotStatic)
                } else {
                    Ok((idx.push(k), total + fields[k].size))
                },
            },
        }
    }
}

/// What tracking an event gives: the error, in the order the checks are
/// made, or the id's field indices and size.
pub open spec fn track_spec(
    fields: Seq<EventField>,
    names: Seq<Seq<char>>,
    flags: (bool, bool),
    first: bool,
    id_size: usize,
) -> Result<(Seq<int>, int), TimelineError> {
    if flags.0 && flags.1 {
        Err(TimelineError::StartAndEnd)
    } else if names.len() == 0 {
        Err(TimelineError::NoIdField)
    } else {
        match id_parts(fields, names, names.len() as int) {
            Err(e) => Err(e),
            Ok((idx, total)) => if !first && total != id_size {
                Err(TimelineError::IdSizeMismatch)
            } else {
                Ok((idx, total))
            },
        }
    }
}

/// The timeline events' flags, in order.
pub open spec fn flags_of(events: Seq<(Event, Vec<usize>, TimelineEventFlags)>) -> Seq<(bool, bool)> {
    events.map_values(|e: (Event, Vec<usize>, TimelineEventFlags)| e.2@)
}

/// What applying a timeline gives: the error, in the order the checks are
/// made, or the size of the id key its spans are found by.
pub open spec fn apply_spec(flags: Seq<(bool, bool)>, id_size: usize) -> Result<usize, TimelineError> {
    if flags.len() < 2 {
        Err(TimelineError::TooFewEvents)
    } else if !(exists|i: int| 0 <= i < flags.len() && flags[i].1) {
        Err(TimelineError::NoCompletion)
    } else if !(exists|i: int| 0 <= i < flags.len() && flags[i].0) {
        Err(TimelineError::NoStart)
    } else if id_size <= 8 {
        Ok(8)
    } else if id_size <= 16 {
        Ok(16)
    } else if id_size <= 24 {
        Ok(24)
    } else if id_size <= 32 {
        Ok(32)
    } else {
        Err(TimelineError::IdTooLarge)
    }
}

/// The key spans are found by holds the whole id: when a timeline can be
/// applied, its key size is the smallest of 8, 16, 24 and 32 bytes that is
/// at least the id size, and an id of more than 32 bytes is refused.
pub proof fn lemma_apply_key_holds_id(flags: Seq<(bool, bool)>, id_size: usize)
    ensures
        apply_spec(flags, id_size) matches Ok(k) ==> {
            &&& id_size <= k
            &&& (k == 8 || k == 16 || k == 24 || k == 32)
            &&& (k == 8 || k - 8 < id_size)
        },
        id_size > 32 ==> apply_spec(flags, id_size) is Err,
{
}

/// The first field with a name is the one `first_named` gives.
proof fn lemma_first_named(fields: Seq<EventField>, name: Seq<char>, k: int)
    requires
        0 <= k < fields.len(),
        fields[k].name@ == name,
        forall|j: int| 0 <= j < k ==> fields[j].name@ != name,
    ensures
        first_named(fields, name) == Some(k),
{
    reveal(first_named);
    let c = choose|c: int| 0 <= c < fields.len() && fields[c].name@ == name && forall|j: int| 0 <= j < c ==> fields[j].name@ != name;
    assert(0 <= c < fields.len() && fields[c].name@ == name && forall|j: int| 0 <= j < c ==> fields[j].name@ != name);
    if c < k {
        assert(fields[c].name@ != name);
    } else if c > k {
        assert(fields[k].name@ != name);
    }
}

/// No field with a name: `first_named` gives none.
proof fn lemma_first_named_none(fields: Seq<EventField>, name: Seq<char>)
    requires
        forall|k: int| 0 <= k < fields.len() ==> fields[k].name@ != name,
    ensures
        first_named(fields, name) is None,
{
    reveal(first_named);
}

/// Reads the id's field indices and total size (see `id_parts`).
#[verifier::rlimit(30)]
pub fn read_id_parts(format: &crate::event::EventFormat, id_fields: &[&str]) -> (r: Result<(Vec<usize>, usize), TimelineError>)
    requires
        forall|n: int| #![trigger id_parts(format.spec_fields(), texts(id_fields@), n)]
            0 <= n <= id_fields@.len() ==> (id_parts(format.spec_fields(), texts(id_fields@), n) matches Ok(p)
                ==> p.1 <= usize::MAX),
    ensures
        match id_parts(format.spec_fields(), texts(id_fields@), id_fields@.len() as int) {
            Err(e) => r == Err::<(Vec<usize>, usize), TimelineError>(e),
            Ok(p) => r matches Ok(v) && v.0@.map_values(|i: usize| i as int) == p.0 && v.1 == p.1,
        },
{
    let ghost names = texts(id_fields@);
    let ghost fields = format.spec_fields();
    let mut parts: Vec<usize> = Vec::new();
    let mut total: usize = 0;
    let mut i: usize = 0;
    assert(parts@.map_values(|k: usize| k as int) =~= Seq::<int>::empty());
    while i < id_fields.len()
        invariant
            i <= id_fields@.len(),
            names == texts(id_fields@),
            fields == format.spec_fields(),
            forall|n: int| #![trigger id_parts(fields, names, n)]
                0 <= n <= id_fields@.len() ==> (id_parts(fields, names, n) matches Ok(p) ==> p.1 <= usize::MAX),
            id_parts(fields, names, i as int) matches Ok(p) && parts@.map_values(|k: usize| k as int) == p.0
                && total == p.1,
        decreases id_fields@.len() - i,
    {
        assert(names[i as int] == id_fields@[i as int]@);
        match format.get_field_ref(id_fields[i]) {
            None => {
                proof {
                    lemma_first_named_none(fields, names[i as int]);
                    lemma_id_parts_err(fields, names, i as int + 1, id_fields@.len() as int);
                }
                return Err(TimelineError::FieldNotFound);
            },
            Some(fr) => {
                let k = fr.index();
                let field = &format.fields()[k];
                proof {
                    lemma_first_named(fields, names[i as int], k as int);
                }
                let dynamic = match field.location {
                    LocationType::DynRelative | LocationType::DynAbsolute => true,
                    _ => false,
                };
                if field.size == 0 || dynamic {
                    proof {
                        lemma_id_parts_err(fields, names, i as int + 1, id_fields@.len() as int);
                    }
                    return Err(TimelineError::FieldNotStatic);
                }
                let ghost before = parts@;
                parts.push(k);
                assert(parts@.map_values(|k: usize| k as int) =~= before.map_values(|k: usize| k as int).push(k as int));
                assert(id_parts(fields, names, i + 1) matches Ok(p) && p.1 <= usize::MAX);
                total = total + field.size;
            },
        }
        i = i + 1;
    }
    Ok((parts, total))
}

/// A named timeline: the events it tracks, each with the indices of the
/// fields its id is read from and its flags, the id size they share, and
/// the shortest span it records (in nanoseconds).
pub struct ExporterTimeline {
    name: String,
    events: Vec<(Event, Vec<usize>, TimelineEventFlags)>,
    id_size: usize,
    min_duration_ns: Option<u64>,
}

impl ExporterTimeline {
    pub closed spec fn spec_name(&self) -> Seq<char> {
        self.name@
    }

    pub closed spec fn spec_events(&self) -> Seq<(Event, Vec<usize>, TimelineEventFlags)> {
        self.events@
    }

    pub closed spec fn spec_id_size(&self) -> usize {
        self.id_size
    }

    pub closed spec fn spec_min_duration_ns(&self) -> Option<u64> {
        self.min_duration_ns
    }

    pub fn new(name: String) -> (t: Self)
        ensures
            t.spec_name() == name@,
            t.spec_events().len() == 0,
            t.spec_id_size() == 0,
            t.spec_min_duration_ns() is None,
    {
        Self { name, events: Vec::new(), id_size: 0, min_duration_ns: None }
    }

    /// Sets the shortest span recorded.
    pub fn set_min_duration_ns(&mut self, duration_ns: u64)
        ensures
            final(self).spec_min_duration_ns() == Some(duration_ns),
            final(self).spec_events() == old(self).spec_events(),
            final(self).spec_id_size() == old(self).spec_id_size(),
            final(self).spec_name() == old(self).spec_name(),
    {
        self.min_duration_ns = Some(duration_ns);
    }

    /// The shortest span recorded, if set.
    pub fn min_duration_ns(&self) -> (d: Option<u64>)
        ensures
            d == self.spec_min_duration_ns(),
    {
        self.min_duration_ns
    }

    /// The id size the events share.
    pub fn id_size(&self) -> (n: usize)
        ensures
            n == self.spec_id_size(),
    {
        self.id_size
    }

    /// Tracks an event whose id is read from the named fields: refused
    /// (see `track_spec`) when its flags both start and end, when no field
    /// is named, when a field is missing or has no fixed size, or when its
    /// id size differs from the other events'; else added, the first
    /// event setting the id size.
    pub fn track_event(&mut self, event: Event, id_fields: &[&str], flags: TimelineEventFlags) -> (r: Result<
        (),
        TimelineError,
    >)
        requires
            forall|n: int| #![trigger id_parts(event.spec_format().spec_fields(), texts(id_fields@), n)]
                0 <= n <= id_fields@.len() ==> (id_parts(
                    event.spec_format().spec_fields(),
                    texts(id_fields@),
                    n,
                ) matches Ok(p) ==> p.1 <= usize::MAX),
        ensures
            ({
                let t = track_spec(
                    event.spec_format().spec_fields(),
                    texts(id_fields@),
                    flags@,
                    old(self).spec_events().len() == 0,
                    old(self).spec_id_size(),
                );
                &&& t matches Err(e) ==> r == Err::<(), TimelineError>(e) && *final(self) == *old(self)
                &&& t matches Ok(p) ==> r is Ok && final(self).spec_events().len() == old(self).spec_events().len() + 1
                    && final(self).spec_events().drop_last() == old(self).spec_events()
                    && final(self).spec_events().last().0 == event
                    && final(self).spec_events().last().1@.map_values(|i: usize| i as int) == p.0
                    && final(self).spec_events().last().2 == flags
                    && final(self).spec_id_size() == p.1
                    && final(self).spec_name() == old(self).spec_name()
                    && final(self).spec_min_duration_ns() == old(self).spec_min_duration_ns()
            }),
    {
        if flags.will_end() && flags.will_start() {
            return Err(TimelineError::StartAndEnd);
        }
        if id_fields.len() == 0 {
            return Err(TimelineError::NoIdField);
        }
        let (parts, total) = match read_id_parts(event.format(), id_fields) {
            Ok(p) => p,
            Err(e) => {
                return Err(e);
            },
        };
        if self.events.len() > 0 && total != self.id_size {
            return Err(TimelineError::IdSizeMismatch);
        }
        self.id_size = total;
        self.events.push((event, parts, flags));
        Ok(())
    }

    /// Checks that the timeline can be applied (see `apply_spec`): it has
    /// two events or more, one that ends spans and one that starts them,
    /// and an id of 32 bytes or less; gives the id key size.
    pub fn check_apply(&self) -> (r: Result<usize, TimelineError>)
        ensures
            r == apply_spec(flags_of(self.spec_events()), self.spec_id_size()),
    {
        let ghost flags = flags_of(self.spec_events());
        if self.events.len() < 2 {
            return Err(TimelineError::TooFewEvents);
        }
        let mut has_completes = false;
        let mut has_starts = false;
        let mut i: usize = 0;
        while i < self.events.len()
            invariant
                i <= self.events@.len(),
                flags == flags_of(self.spec_events()),
                has_completes == exists|j: int| 0 <= j < i && flags[j].1,
                has_starts == exists|j: int| 0 <= j < i && flags[j].0,
            decreases self.events@.len() - i,
        {
            let f = self.events[i].2;
            assert(flags[i as int] == f@);
            if f.will_end() {
                has_completes = true;
            }
            if f.will_start() {
                has_starts = true;
            }
            i = i + 1;
        }
        if !has_completes {
            return Err(TimelineError::NoCompletion);
        }
        if !has_starts {
            return Err(TimelineError::NoStart);
        }
        if self.id_size <= 8 {
            Ok(8)
        } else if self.id_size <= 16 {
            Ok(16)
        } else if self.id_size <= 24 {
            Ok(24)
        } else if self.id_size <= 32 {
            Ok(32)
        } else {
            Err(TimelineError::IdTooLarge)
        }
    }
}

/// Once a prefix of the id fields fails, the whole id fails the same way.
proof fn lemma_id_parts_err(fields: Seq<EventField>, names: Seq<Seq<char>>, n: int, m: int)
    requires
        1 <= n <= m,
        id_parts(fields, names, n) is Err,
    ensures
        id_parts(fields, names, m) == id_parts(fields, names, n),
    decreases m - n,
{
    if m > n {
        lemma_id_parts_err(fields, names, n, m - 1);
    }
}

/// Whether `after` is `before` with its last child (if any) ended at
/// `time` and a new child named `name_id` started at `time`.
pub open spec fn child_added(before: ExportSpan, after: ExportSpan, time: u64, name_id: usize) -> bool {
    let b = before.spec_children();
    let a = after.spec_children();
    &&& after.spec_name_id() == before.spec_name_id()
    &&& after.spec_start_time() == before.spec_start_time()
    &&& after.spec_end_time() == before.spec_end_time()
    &&& a.len() == b.len() + 1
    &&& forall|i: int| 0 <= i < b.len() - 1 ==> #[trigger] a[i] == b[i]
    &&& b.len() > 0 ==> {
        &&& a[b.len() - 1].spec_end_time() == time
        &&& a[b.len() - 1].spec_start_time() == b.last().spec_start_time()
        &&& a[b.len() - 1].spec_name_id() == b.last().spec_name_id()
        &&& a[b.len() - 1].spec_children() == b.last().spec_children()
    }
    &&& a.last().spec_name_id() == name_id
    &&& a.last().spec_start_time() == time
    &&& a.last().spec_end_time() == time
    &&& a.last().spec_children().len() == 0
}

/// Whether `after` is `before` ended at `time`, its last child (if any)
/// too.
pub open spec fn span_ended(before: ExportSpan, after: ExportSpan, time: u64) -> bool {
    let b = before.spec_children();
    let a = after.spec_children();
    &&& after.spec_name_id() == before.spec_name_id()
    &&& after.spec_start_time() == before.spec_start_time()
    &&& after.spec_end_time() == time
    &&& a.len() == b.len()
    &&& forall|i: int| 0 <= i < b.len() - 1 ==> #[trigger] a[i] == b[i]
    &&& b.len() > 0 ==> {
        &&& a.last().spec_end_time() == time
        &&& a.last().spec_start_time() == b.last().spec_start_time()
        &&& a.last().spec_name_id() == b.last().spec_name_id()
        &&& a.last().spec_children() == b.last().spec_children()
    }
}

/// The open spans of a timeline, each found by its id, with the process
/// and thread that started it.
pub struct TimelineSpans {
    open: Vec<(Vec<u8>, ExportSpan, u32, u32)>,
}

impl TimelineSpans {
    /// The open spans: id, span, process and thread.
    pub closed spec fn spec_open(&self) -> Seq<(Seq<u8>, ExportSpan, u32, u32)> {
        self.open@.map_values(|e: (Vec<u8>, ExportSpan, u32, u32)| (e.0@, e.1, e.2, e.3))
    }

    /// No two open spans share an id.
    pub open spec fn wf(&self) -> bool {
        forall|i: int, j: int| 0 <= i < j < self.spec_open().len() ==> #[trigger] self.spec_open()[i].0 != #[trigger] self.spec_open()[j].0
    }

    pub fn new() -> (t: Self)
        ensures
            t.wf(),
            t.spec_open().len() == 0,
    {
        let t = Self { open: Vec::new() };
        assert(t.spec_open() =~= Seq::empty());
        t
    }

    fn find(&self, id: &[u8]) -> (r: Option<usize>)
        ensures
            match r {
                Some(i) => i < self.spec_open().len() && self.spec_open()[i as int].0 == id@,
                None => forall|i: int| 0 <= i < self.spec_open().len() ==> self.spec_open()[i].0 != id@,
            },
    {
        let mut i: usize = 0;
        while i < self.open.len()
            invariant
                i <= self.open@.len(),
                forall|j: int| 0 <= j < i ==> self.spec_open()[j].0 != id@,
            decreases self.open@.len() - i,
        {
            if crate::etw::tdh::bytes_equal(self.open[i].0.as_slice(), id) {
                return Some(i);
            }
            i = i + 1;
        }
        None
    }

    /// An event of a timeline that does not end spans, at `time`: for an
    /// open span with its id, the last child ends and a child named
    /// `name_id` starts; with none open, an event that starts spans opens
    /// one (named `timeline_name_id`, of process `pid` and thread `tid`)
    /// holding just that child, and another event does nothing.
    pub fn on_event(
        &mut self,
        id: &[u8],
        will_start: bool,
        pid: u32,
        tid: u32,
        time: u64,
        name_id: usize,
        timeline_name_id: usize,
        capacity: usize,
    )
        requires
            old(self).wf(),
        ensures
            final(self).wf(),
            forall|i: int| 0 <= i < old(self).spec_open().len() && old(self).spec_open()[i].0 == id@ ==> {
                &&& final(self).spec_open().len() == old(self).spec_open().len()
                &&& forall|j: int| 0 <= j < old(self).spec_open().len() && j != i ==> final(self).spec_open()[j] == old(self).spec_open()[j]
                &&& final(self).spec_open()[i].0 == id@
                &&& final(self).spec_open()[i].2 == old(self).spec_open()[i].2
                &&& final(self).spec_open()[i].3 == old(self).spec_open()[i].3
                &&& child_added(old(self).spec_open()[i].1, final(self).spec_open()[i].1, time, name_id)
            },
            (forall|i: int| 0 <= i < old(self).spec_open().len() ==> old(self).spec_open()[i].0 != id@) ==> if will_start {
                &&& final(self).spec_open().drop_last() == old(self).spec_open()
                &&& final(self).spec_open().len() == old(self).spec_open().len() + 1
                &&& final(self).spec_open().last().0 == id@
                &&& final(self).spec_open().last().2 == pid
                &&& final(self).spec_open().last().3 == tid
                &&& final(self).spec_open().last().1.spec_name_id() == timeline_name_id
                &&& final(self).spec_open().last().1.spec_start_time() == time
                &&& final(self).spec_open().last().1.spec_end_time() == time
                &&& final(self).spec_open().last().1.spec_children().len() == 1
                &&& final(self).spec_open().last().1.spec_children()[0].spec_name_id() == name_id
                &&& final(self).spec_open().last().1.spec_children()[0].spec_start_time() == time
                &&& final(self).spec_open().last().1.spec_children()[0].spec_end_time() == time
                &&& final(self).spec_open().last().1.spec_children()[0].spec_children().len() == 0
            } else {
                final(self).spec_open() == old(self).spec_open()
            },
    {
        match self.find(id) {
            Some(i) => {
                let (key, mut span, p, t) = self.open.remove(i);
                let ghost before = span;
                span.mark_last_child_end(time);
                span.add_child(ExportSpan::start(name_id, time, 0));
                self.open.insert(i, (key, span, p, t));
                proof {
                    assert forall|j: int| 0 <= j < old(self).spec_open().len() && j != i implies self.spec_open()[j] == old(self).spec_open()[j] by {
                        if j < i {
                            assert(self.open@[j] == old(self).open@[j]);
                        } else {
                            assert(self.open@[j] == old(self).open@[j]);
                        }
                    }
                    assert forall|a: int, b: int| 0 <= a < b < self.spec_open().len() implies #[trigger] self.spec_open()[a].0 != #[trigger] self.spec_open()[b].0 by {
                        assert(self.spec_open()[a].0 == old(self).spec_open()[a].0);
                        assert(self.spec_open()[b].0 == old(self).spec_open()[b].0);
                    }
                    assert forall|q: int| 0 <= q < old(self).spec_open().len() && old(self).spec_open()[q].0 == id@ implies q == i by {
                        if q != i {
                            if q < i {
                                assert(old(self).spec_open()[q].0 != old(self).spec_open()[i as int].0);
                            } else {
                                assert(old(self).spec_open()[i as int].0 != old(self).spec_open()[q].0);
                            }
                        }
                    }
                }
            },
            None => {
                if will_start {
                    let mut span = ExportSpan::start(timeline_name_id, time, capacity);
                    span.mark_last_child_end(time);
                    span.add_child(ExportSpan::start(name_id, time, 0));
                    let key = vstd::slice::slice_to_vec(id);
                    let ghost before = self.spec_open();
                    self.open.push((key, span, pid, tid));
                    proof {
                        assert(self.spec_open() =~= before.push((id@, span, pid, tid)));
                        assert forall|a: int, b: int| 0 <= a < b < self.spec_open().len() implies #[trigger] self.spec_open()[a].0 != #[trigger] self.spec_open()[b].0 by {
                            if b == before.len() {
                                assert(before[a].0 != id@);
                            } else {
                                assert(self.spec_open()[a] == before[a]);
                                assert(self.spec_open()[b] == before[b]);
                            }
                        }
                    }
                }
            },
        }
    }

    /// When the open span with `id` started, if one is open.
    pub fn start_time(&self, id: &[u8]) -> (t: Option<u64>)
        ensures
            t matches Some(s) ==> exists|i: int| 0 <= i < self.spec_open().len() && self.spec_open()[i].0 == id@
                && self.spec_open()[i].1.spec_start_time() == s,
            t is None ==> forall|i: int| 0 <= i < self.spec_open().len() ==> self.spec_open()[i].0 != id@,
    {
        match self.find(id) {
            Some(i) => Some(self.open[i].1.start_time()),
            None => None,
        }
    }

    /// An event of a timeline that ends spans, at `time`: the open span
    /// with its id, if any, is closed: it and its last child end at
    /// `time`, and it is given back with its process and thread when it
    /// lasted `min_duration` or more.
    pub fn on_end(&mut self, id: &[u8], time: u64, min_duration: u64) -> (r: Option<(ExportSpan, u32, u32)>)
        requires
            old(self).wf(),
            forall|i: int| 0 <= i < old(self).spec_open().len() && old(self).spec_open()[i].0 == id@
                ==> old(self).spec_open()[i].1.spec_start_time() <= time,
        ensures
            final(self).wf(),
            (forall|i: int| 0 <= i < old(self).spec_open().len() ==> old(self).spec_open()[i].0 != id@) ==> r is None
                && final(self).spec_open() == old(self).spec_open(),
            forall|i: int| 0 <= i < old(self).spec_open().len() && old(self).spec_open()[i].0 == id@ ==> {
                &&& final(self).spec_open() == old(self).spec_open().remove(i)
                &&& (time - old(self).spec_open()[i].1.spec_start_time() >= min_duration) == r is Some
                &&& r matches Some(v) ==> span_ended(old(self).spec_open()[i].1, v.0, time)
                    && v.1 == old(self).spec_open()[i].2 && v.2 == old(self).spec_open()[i].3
            },
    {
        match self.find(id) {
            Some(i) => {
                let (_key, mut span, p, t) = self.open.remove(i);
                proof {
                    assert(self.spec_open() =~= old(self).spec_open().remove(i as int));
                    assert forall|q: int| 0 <= q < old(self).spec_open().len() && old(self).spec_open()[q].0 == id@ implies q == i by {
                        if q != i {
                            if q < i {
                                assert(old(self).spec_open()[q].0 != old(self).spec_open()[i as int].0);
                            } else {
                                assert(old(self).spec_open()[i as int].0 != old(self).spec_open()[q].0);
                            }
                        }
                    }
                    assert forall|a: int, b: int| 0 <= a < b < self.spec_open().len() implies #[trigger] self.spec_open()[a].0 != #[trigger] self.spec_open()[b].0 by {
                        let oa = if a < i { a } else { a + 1 };
                        let ob = if b < i { b } else { b + 1 };
                        assert(self.spec_open()[a] == old(self).spec_open()[oa]);
                        assert(self.spec_open()[b] == old(self).spec_open()[ob]);
                    }
                }
                span.mark_last_child_end(time);
                span.mark_end(time);
                if span.qpc_duration() >= min_duration {
                    Some((span, p, t))
                } else {
                    None
                }
            },
            None => None,
        }
    }
}

} // verus!
