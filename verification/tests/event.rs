use std::cell::Cell;
use std::rc::Rc;

use one_collect::event::{DataFieldRef, Event, EventField, LocationType};

fn create_abc() -> Event {
    let mut e = Event::new(1, "test".into());
    let format = e.format_mut();

    format.add_field(EventField::new(
        "1".into(), "unsigned char".into(), LocationType::Static, 0, 1));
    format.add_field(EventField::new(
        "2".into(), "unsigned char".into(), LocationType::Static, 1, 1));
    format.add_field(EventField::new(
        "3".into(), "unsigned char".into(), LocationType::Static, 2, 1));

    e
}

fn setup_abc(e: &mut Event, count: Rc<Cell<usize>>) {
    let format = e.format();

    let first = format.get_field_ref("1").unwrap();
    let second = format.get_field_ref("2").unwrap();
    let third = format.get_field_ref("3").unwrap();

    e.add_callback(move |_full_data, format, event_data| {
        let a = format.get_data(first, event_data);
        let b = format.get_data(second, event_data);
        let c = format.get_data(third, event_data);

        assert!(a[0] == 1u8);
        assert!(b[0] == 2u8);
        assert!(c[0] == 3u8);

        count.set(count.get() + 1);
    });
}

#[test]
fn event_it_works() {
    let count = Rc::new(Cell::new(0usize));
    let mut e = create_abc();
    setup_abc(&mut e, Rc::clone(&count));

    let mut data: Vec<u8> = Vec::new();
    data.push(1u8);
    data.push(2u8);
    data.push(3u8);

    let slice = data.as_slice();

    assert_eq!(count.get(), 0);
    e.process(slice, slice);
    assert_eq!(count.get(), 1);
    e.process(slice, slice);
    assert_eq!(count.get(), 2);
}

#[test]
fn data_refs() {
    let field = DataFieldRef::new();
    let field2 = field.clone();
    let field3 = field2.clone();

    field.update(0, 1);

    let test = field.get();
    assert_eq!(0, test.start());
    assert_eq!(1, test.end());

    let test = field2.get();
    assert_eq!(0, test.start());
    assert_eq!(1, test.end());

    let test = field3.get();
    assert_eq!(0, test.start());
    assert_eq!(1, test.end());
}

#[test]
fn data_ref_reads_and_resets() {
    let field = DataFieldRef::new();
    let data = [1u8, 0, 0, 0, 2, 0, 0, 0, 3, 0];

    field.update(4, 4);
    assert_eq!(Some(2u32), field.try_get_u32(&data));
    assert_eq!(None, field.try_get_u64(&data));
    assert_eq!(&data[4..8], field.get_data(&data));

    field.update(8, 2);
    assert_eq!(Some(3u16), field.try_get_u16(&data));

    field.reset();
    assert_eq!(0, field.get().start());
    assert_eq!(0, field.get().end());
    assert!(field.get_data(&data).is_empty());
}

#[test]
fn format_reads_fields() {
    let e = create_abc();
    let format = e.format();
    let data = [1u8, 2, 3];

    assert_eq!(3, format.fields().len());
    assert!(format.get_field_ref("4").is_none());

    let second = format.get_field_ref("2").unwrap();
    assert_eq!(1, second.index());
    assert_eq!(&[2u8], format.get_data(second, &data));
    assert_eq!(None, format.try_get_u16(second, &data));
    assert_eq!(second.index(), format.get_field_ref_unchecked("2").index());
}

#[test]
fn event_flags_and_names() {
    let mut e = Event::new(7, "named".into());
    assert_eq!(7, e.id());
    assert_eq!("named", e.name());
    assert!(!e.has_no_callstack_flag());
    e.set_no_callstack_flag();
    assert!(e.has_no_callstack_flag());
}

#[test]
fn data_ref_clones_share_updates() {
    let owner = DataFieldRef::new();
    let reader = owner.clone();
    let data = [9u8, 8, 7, 6, 5, 4, 3, 2, 1, 0];

    assert!(reader.get_data(&data).is_empty());

    owner.update(2, 3);
    assert_eq!(2, reader.get().start());
    assert_eq!(5, reader.get().end());
    assert_eq!(&data[2..5], reader.get_data(&data));

    reader.update(6, 4);
    assert_eq!(&data[6..10], owner.get_data(&data));
    assert_eq!(Some(0x0001_0203u32), owner.try_get_u32(&data));
}
