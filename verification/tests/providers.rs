use std::ops::ControlFlow;

use one_collect::etw::providers::{for_each_provider_in_buffer, providers_in_buffer};
use one_collect::Guid;

fn write_utf16z(buf: &mut Vec<u8>, s: &str) -> u32 {
    let off = buf.len() as u32;
    for u in s.encode_utf16() {
        buf.extend_from_slice(&u.to_le_bytes());
    }
    buf.extend_from_slice(&0u16.to_le_bytes());
    off
}

/// A TDH provider list: an 8-byte header (count, reserved), 24-byte
/// entries (GUID, schema source, name offset), then the names.
fn make_provider_enum_buffer(entries: &[(Guid, u32, Option<u32>)], names: &[&str]) -> Vec<u8> {
    let array_offset = 8;
    let entries_bytes = entries.len() * 24;

    let mut out = vec![0u8; array_offset + entries_bytes];
    let name_offsets: Vec<u32> = names.iter().map(|name| write_utf16z(&mut out, name)).collect();
    out[0..4].copy_from_slice(&(entries.len() as u32).to_le_bytes());

    for (i, (guid, schema_source, maybe_name_idx)) in entries.iter().enumerate() {
        let off = array_offset + i * 24;
        let name_offset = maybe_name_idx
            .and_then(|idx| name_offsets.get(idx as usize).copied())
            .unwrap_or(u32::MAX);
        out[off..off + 16].copy_from_slice(&guid.to_bytes());
        out[off + 16..off + 20].copy_from_slice(&schema_source.to_le_bytes());
        out[off + 20..off + 24].copy_from_slice(&name_offset.to_le_bytes());
    }

    out
}

fn guid(data1: u32, data2: u16, data3: u16, b: u8) -> Guid {
    Guid { data1, data2, data3, data4: [b; 8] }
}

#[test]
fn skips_malformed_name_offsets() {
    let g1 = guid(1, 2, 3, 4);
    let g2 = guid(9, 8, 7, 6);

    // First entry points to an invalid offset and must be skipped;
    // second entry points to "ValidName" and must be delivered.
    let bytes = make_provider_enum_buffer(&[(g1, 0, None), (g2, 1, Some(0))], &["ValidName"]);

    let mut names = Vec::<String>::new();
    for_each_provider_in_buffer(&bytes, &mut |name: &str, _| {
        names.push(name.to_string());
        ControlFlow::Continue(())
    });

    assert_eq!(names, vec!["validname".to_string()]);
}

#[test]
fn respects_early_break() {
    let g1 = guid(10, 11, 12, 13);
    let g2 = guid(20, 21, 22, 23);
    let bytes = make_provider_enum_buffer(&[(g1, 0, Some(0)), (g2, 1, Some(1))], &["First", "Second"]);

    let mut seen = 0usize;
    for_each_provider_in_buffer(&bytes, &mut |_name: &str, _| {
        seen += 1;
        ControlFlow::Break(())
    });

    assert_eq!(seen, 1, "Break must stop enumeration at first callback");
}

#[test]
fn provider_list_reads_guids_and_sources() {
    let g1 = guid(0x11223344, 0x5566, 0x7788, 0x99);
    let g2 = guid(1, 2, 3, 4);
    let bytes = make_provider_enum_buffer(&[(g1, 0, Some(1)), (g2, 1, Some(0))], &["Beta", "Alpha"]);

    let list = providers_in_buffer(&bytes);
    assert_eq!(2, list.len());
    assert_eq!("alpha", list[0].0);
    assert_eq!(g1.to_bytes(), list[0].1.guid.to_bytes());
    assert_eq!(0, list[0].1.schema_source);
    assert_eq!("beta", list[1].0);
    assert_eq!(1, list[1].1.schema_source);

    /* Too small for a header: nothing */
    assert!(providers_in_buffer(&bytes[..31]).is_empty());
}

#[test]
fn provider_count_is_bounded_by_buffer() {
    let g = guid(1, 1, 1, 1);
    let mut bytes = make_provider_enum_buffer(&[(g, 0, Some(0))], &["Only"]);
    /* Claim more entries than fit */
    bytes[0..4].copy_from_slice(&100u32.to_le_bytes());
    let list = providers_in_buffer(&bytes);
    assert_eq!(1, list.len());
    assert_eq!("only", list[0].0);
}
