use one_collect::intern::{InternError, InternedCallstacks, InternedSlices, InternedStrings};

#[test]
fn slices() {
    let mut slices: InternedSlices<u64> = InternedSlices::new(8);

    let id1 = slices.to_id(&[1, 2, 3]);
    let id2 = slices.to_id(&[3, 2, 1]);
    let id3 = slices.to_id(&[1, 2, 3]);
    let id4 = slices.to_id(&[3, 2, 1]);

    assert!(id1 != id2);
    assert!(id1 == id3);
    assert!(id2 == id4);

    assert!(slices.from_id(id1) == Some(&[1, 2, 3][..]));
    assert!(slices.from_id(id2) == Some(&[3, 2, 1][..]));
    assert!(slices.from_id(id3) == Some(&[1, 2, 3][..]));
    assert!(slices.from_id(id4) == Some(&[3, 2, 1][..]));

    let mut current_index: usize = 0;

    slices.for_each(|index, span| {
        assert_eq!(current_index, index);
        current_index += 1;

        if index == 0 {
            assert!(span == &[1, 2, 3]);
        } else if index == 1 {
            assert!(span == &[3, 2, 1]);
        } else {
            /* Too many items */
            assert!(false);
        }
    });

    assert_eq!(2, current_index);
}

#[test]
fn strings() {
    let mut strings = InternedStrings::new(8);

    let id1 = strings.to_id("1 2 3");
    let id2 = strings.to_id("3 2 1");
    let id3 = strings.to_id("1 2 3");
    let id4 = strings.to_id("3 2 1");

    assert!(id1 != id2);
    assert!(id1 == id3);
    assert!(id2 == id4);

    assert!(strings.from_id(id1).unwrap() == "1 2 3");
    assert!(strings.from_id(id2).unwrap() == "3 2 1");
    assert!(strings.from_id(id3).unwrap() == "1 2 3");
    assert!(strings.from_id(id4).unwrap() == "3 2 1");
}

#[test]
fn callstacks() {
    let mut callstacks = InternedCallstacks::new(8);

    let id1 = callstacks.to_id(&[1, 2, 3]);
    let id2 = callstacks.to_id(&[3, 2, 1]);
    let id3 = callstacks.to_id(&[1, 2, 3]);
    let id4 = callstacks.to_id(&[3, 2, 1]);

    assert!(id1 != id2);
    assert!(id1 == id3);
    assert!(id2 == id4);

    let mut frames: Vec<u64> = Vec::new();
    callstacks.from_id(id1, &mut frames).unwrap();
    assert!(frames == &[1, 2, 3]);
    callstacks.from_id(id2, &mut frames).unwrap();
    assert!(frames == &[3, 2, 1]);
    callstacks.from_id(id3, &mut frames).unwrap();
    assert!(frames == &[1, 2, 3]);
    callstacks.from_id(id4, &mut frames).unwrap();
    assert!(frames == &[3, 2, 1]);
}

#[test]
fn empty_slice_and_unknown_ids() {
    let mut slices: InternedSlices<u8> = InternedSlices::new(4);
    let empty = slices.to_id(&[]);
    let again = slices.to_id(&[]);
    assert_eq!(empty, again);
    assert_eq!(1, slices.len());
    assert!(slices.from_id(5).is_none());

    let strings = InternedStrings::new(4);
    assert!(matches!(strings.from_id(3), Err(InternError::IdNotFound)));
}

#[test]
fn callstack_ids_split_leaf_ip() {
    let mut callstacks = InternedCallstacks::new(4);
    let a = callstacks.to_id(&[9, 2, 3]);
    let b = callstacks.to_id(&[8, 2, 3]);
    /* Same parent frames, different leaf IP */
    assert_eq!(a.id(), b.id());
    assert_eq!(9, a.ip());
    assert_eq!(8, b.ip());

    let mut frames = vec![7u64];
    callstacks.from_id(b, &mut frames).unwrap();
    assert_eq!(vec![8u64, 2, 3], frames);
}
