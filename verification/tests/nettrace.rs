use one_collect::nettrace::{parse_event_extension_v1, MetaParserV5};

const EMPTY: &[u8] = &[];

#[test]
fn extension_parser() {
    let mut count = 0;

    /* Shouldn't get anything on empty data */
    parse_event_extension_v1(EMPTY, |_, _| { count += 1; });

    assert_eq!(0, count);

    let data = [
        0x00,0x00,0x00,0x00,
        0x00,0x00,0x00,0x00,
        0x00,0x00,0x00,0x00,
        0x00,0x00,0x00,0x00,
        0x00,0x00,0x00,0x00,
        0x00,0x00,0x00,0x00,
        0x00,0x00,0x00,0x00,
        0x00,0x00,0x00,0x00,
        0x00,0x00,0x00,0x00,
    ];

    /* Shouldn't get anything on invalid data */
    parse_event_extension_v1(&data, |_, _| { count += 1; });

    assert_eq!(0, count);

    /* Should get valid metadata */
    let data = [
        0x01,
        0x1C,0x00,0x00,0x00,
        0x00,0x00,0x2f,0x01,
        0x00,0x00,0x00,0x00,
        0x00,0x00,0x00,0x00,
        0x00,0x08,0x00,0x00,
        0x00,0x00,0x00,0x00,
        0x04,0x00,0x00,0x00,
        0x00,0x00,0x00,0x00];

    parse_event_extension_v1(&data, |label, data| {
        count += 1;

        assert_eq!(1, label);

        let parser = MetaParserV5::parse(data);

        assert_eq!(Some(303), parser.event_id());
        assert_eq!(Some(0x80000000000), parser.keywords());
        assert_eq!(Some(0), parser.version());
        assert_eq!(Some(4), parser.level());
        assert_eq!(4, parser.fields().len());
    });

    assert_eq!(1, count);
    count = 0;

    /* Guid at start should work */
    let data = [
        0x2,
        0x01,0x02,0x03,0x04,
        0x05,0x06,0x07,0x08,
        0x09,0x0a,0x0b,0x0c,
        0x0d,0x0e,0x0f,0x10,
        0x3,
        0x01,0x02,0x03,0x04,
        0x05,0x06,0x07,0x08,
        0x09,0x0a,0x0b,0x0c,
        0x0d,0x0e,0x0f,0x10,
        0x01,
        0x1C,0x00,0x00,0x00,
        0x00,0x00,0x2f,0x01,
        0x00,0x00,0x00,0x00,
        0x00,0x00,0x00,0x00,
        0x00,0x08,0x00,0x00,
        0x00,0x00,0x00,0x00,
        0x04,0x00,0x00,0x00,
        0x00,0x00,0x00,0x00];

    parse_event_extension_v1(&data, |label, data| {
        if label == 2 {
            assert_eq!(0, count);
            assert_eq!(16, data.len());
            assert_eq!(0x01, data[0]);
            assert_eq!(0x10, data[15]);
            count += 1;
        } else if label == 3 {
            assert_eq!(1, count);
            assert_eq!(16, data.len());
            assert_eq!(0x01, data[0]);
            assert_eq!(0x10, data[15]);
            count += 1;
        } else if label == 1 {
            assert_eq!(2, count);
            count += 1;
            let parser = MetaParserV5::parse(data);

            assert_eq!(Some(303), parser.event_id());
            assert_eq!(Some(0x80000000000), parser.keywords());
            assert_eq!(Some(0), parser.version());
            assert_eq!(Some(4), parser.level());
            assert_eq!(4, parser.fields().len());
        }
    });

    assert_eq!(3, count);
    count = 0;

    /* Partial data should stop */
    let data = [0x1, 0x01,0x02,0x03,0x04];

    parse_event_extension_v1(&data, |_, _| { count += 1; });

    assert_eq!(0, count);

    let data = [0x2, 0x01,0x02,0x03,0x04];

    parse_event_extension_v1(&data, |_, _| { count += 1; });

    assert_eq!(0, count);

    let data = [0x3, 0x01,0x02,0x03,0x04];

    parse_event_extension_v1(&data, |_, _| { count += 1; });

    assert_eq!(0, count);

    /* Zero length extension */
    let data = [0x1, 0x00,0x00,0x00,0x00];

    parse_event_extension_v1(&data, |label, data| {
        assert_eq!(0, count);
        assert_eq!(1, label);
        assert!(data.is_empty());

        count += 1;
    });

    assert_eq!(1, count);
    count = 0;

    /* Limit count to 3 for DOS */
    let data = [
        0x2,
        0x01,0x02,0x03,0x04,
        0x05,0x06,0x07,0x08,
        0x09,0x0a,0x0b,0x0c,
        0x0d,0x0e,0x0f,0x10,
        0x3,
        0x01,0x02,0x03,0x04,
        0x05,0x06,0x07,0x08,
        0x09,0x0a,0x0b,0x0c,
        0x0d,0x0e,0x0f,0x10,
        0x2,
        0x01,0x02,0x03,0x04,
        0x05,0x06,0x07,0x08,
        0x09,0x0a,0x0b,0x0c,
        0x0d,0x0e,0x0f,0x10,
        0x3,
        0x01,0x02,0x03,0x04,
        0x05,0x06,0x07,0x08,
        0x09,0x0a,0x0b,0x0c,
        0x0d,0x0e,0x0f,0x10,
        0x2,
        0x01,0x02,0x03,0x04,
        0x05,0x06,0x07,0x08,
        0x09,0x0a,0x0b,0x0c,
        0x0d,0x0e,0x0f,0x10,
        0x3,
        0x01,0x02,0x03,0x04,
        0x05,0x06,0x07,0x08,
        0x09,0x0a,0x0b,0x0c,
        0x0d,0x0e,0x0f,0x10];

    parse_event_extension_v1(&data, |_, _| { count += 1 });

    assert_eq!(3, count);
}

#[test]
fn no_meta_parser_panics() {
    /* Parser should be very safe to use without panics */
    let parser = MetaParserV5::parse(EMPTY);
    let mut name = String::new();

    /* Shouldn't have anything */
    assert!(parser.event_id().is_none());
    assert!(parser.keywords().is_none());
    assert!(parser.version().is_none());
    assert!(parser.level().is_none());
    assert!(parser.fields().is_empty());

    parser.event_name(&mut name);
    assert!(name.is_empty());

    parser.provider_name(&mut name);
    assert!(name.is_empty());
}

#[test]
fn meta_parser_works() {
    let mut name = String::new();

    let data = [
        0x00,0x00,0x2f,0x01,
        0x00,0x00,0x00,0x00,
        0x00,0x00,0x00,0x00,
        0x00,0x08,0x00,0x00,
        0x00,0x00,0x00,0x00,
        0x04,0x00,0x00,0x00,
        0x00,0x00,0x00,0x00];

    let parser = MetaParserV5::parse(&data);

    assert_eq!(Some(303), parser.event_id());
    assert_eq!(Some(0x80000000000), parser.keywords());
    assert_eq!(Some(0), parser.version());
    assert_eq!(Some(4), parser.level());
    assert_eq!(4, parser.fields().len());

    parser.event_name(&mut name);
    assert!(name.is_empty());

    parser.provider_name(&mut name);
    assert!(name.is_empty());

    let data = [
        0x00,0x00,0x50,0x00,
        0x00,0x00,0x00,0x00,
        0x00,0x80,0x00,0x00,
        0x02,0x00,0x00,0x00,
        0x01,0x00,0x00,0x00,
        0x02,0x00,0x00,0x00,
        0x00,0x00,0x00,0x00];

    let parser = MetaParserV5::parse(&data);

    assert_eq!(Some(80), parser.event_id());
    assert_eq!(Some(0x200008000), parser.keywords());
    assert_eq!(Some(1), parser.version());
    assert_eq!(Some(2), parser.level());
    assert_eq!(4, parser.fields().len());

    parser.event_name(&mut name);
    assert!(name.is_empty());

    parser.provider_name(&mut name);
    assert!(name.is_empty());
}

#[test]
fn meta_parser_reads_names() {
    /* Provider "Ab", event id 7, event name "Hi" */
    let data = [
        b'A',0x00, b'b',0x00, 0x00,0x00,
        0x07,0x00,0x00,0x00,
        b'H',0x00, b'i',0x00, 0x00,0x00,
        0x01,0x00,0x00,0x00,0x00,0x00,0x00,0x00,
        0x02,0x00,0x00,0x00,
        0x03,0x00,0x00,0x00,
        0xAA];

    let parser = MetaParserV5::parse(&data);
    let mut name = String::new();

    parser.provider_name(&mut name);
    assert_eq!("Ab", name);
    parser.event_name(&mut name);
    assert_eq!("Hi", name);
    assert_eq!(Some(7), parser.event_id());
    assert_eq!(Some(1), parser.keywords());
    assert_eq!(Some(2), parser.version());
    assert_eq!(Some(3), parser.level());
    assert_eq!(&[0xAAu8], parser.fields());
}
