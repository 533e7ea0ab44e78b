use one_collect::event::{Event, EventField, LocationType};
use one_collect::exporting::scripting::{ExporterTimeline, TimelineError, TimelineEventFlags, TimelineSpans};

fn event_with(id: usize, name: &str, fields: &[(&str, LocationType, usize)]) -> Event {
    let mut e = Event::new(id, name.to_string());
    let mut offset = 0;
    for (n, loc, size) in fields {
        e.format_mut().add_field(EventField::new(n.to_string(), "u32".to_string(), *loc, offset, *size));
        offset += size;
    }
    e
}

#[test]
fn timeline_tracks_and_applies() {
    let mut tl = ExporterTimeline::new("Requests".to_string());
    let mut start = TimelineEventFlags::new();
    start.should_start();
    let mut end = TimelineEventFlags::new();
    end.should_end();
    let mut both = TimelineEventFlags::new();
    both.should_start();
    both.should_end();

    let fields = [("Id", LocationType::Static, 4usize), ("Other", LocationType::Static, 8usize)];
    assert_eq!(Err(TimelineError::StartAndEnd), tl.track_event(event_with(1, "A", &fields), &["Id"], both));
    assert_eq!(Err(TimelineError::NoIdField), tl.track_event(event_with(1, "A", &fields), &[], start));
    assert_eq!(Err(TimelineError::FieldNotFound), tl.track_event(event_with(1, "A", &fields), &["Nope"], start));
    let dynamic = [("Id", LocationType::DynAbsolute, 4usize)];
    assert_eq!(Err(TimelineError::FieldNotStatic), tl.track_event(event_with(1, "A", &dynamic), &["Id"], start));

    assert_eq!(Err(TimelineError::TooFewEvents), tl.check_apply());
    assert_eq!(Ok(()), tl.track_event(event_with(1, "Start", &fields), &["Id"], start));
    assert_eq!(4, tl.id_size());
    assert_eq!(
        Err(TimelineError::IdSizeMismatch),
        tl.track_event(event_with(2, "End", &fields), &["Id", "Other"], end)
    );
    assert_eq!(Ok(()), tl.track_event(event_with(3, "Mid", &fields), &["Id"], TimelineEventFlags::new()));
    assert_eq!(Err(TimelineError::NoCompletion), tl.check_apply());
    assert_eq!(Ok(()), tl.track_event(event_with(2, "End", &fields), &["Id"], end));
    assert_eq!(Ok(8), tl.check_apply());
}

#[test]
fn timeline_spans_open_and_close() {
    let mut spans = TimelineSpans::new();
    let id = [1u8, 0, 0, 0];
    let other = [2u8, 0, 0, 0];

    // An event that does not start spans does nothing without an open one.
    spans.on_event(&id, false, 10, 11, 100, 5, 9, 4);
    assert_eq!(None, spans.start_time(&id));

    spans.on_event(&id, true, 10, 11, 100, 5, 9, 4);
    assert_eq!(Some(100), spans.start_time(&id));
    spans.on_event(&id, false, 99, 99, 150, 6, 9, 4);
    assert!(spans.on_end(&other, 160, 0).is_none());

    let (span, pid, tid) = spans.on_end(&id, 200, 50).unwrap();
    assert_eq!((10, 11), (pid, tid));
    assert_eq!(9, span.name_id());
    assert_eq!(100, span.start_time());
    assert_eq!(200, span.end_time());
    assert_eq!(2, span.children().len());
    assert_eq!((5, 100, 150), (span.children()[0].name_id(), span.children()[0].start_time(), span.children()[0].end_time()));
    assert_eq!((6, 150, 200), (span.children()[1].name_id(), span.children()[1].start_time(), span.children()[1].end_time()));
    assert_eq!(None, spans.start_time(&id));

    // Too short: closed but not given back.
    spans.on_event(&id, true, 1, 1, 300, 5, 9, 0);
    assert!(spans.on_end(&id, 310, 50).is_none());
    assert_eq!(None, spans.start_time(&id));
}
