use one_collect::exporting::formats::nettrace::{mapping_symbol_index, stack_event_fields, NetTraceWriter};
use one_collect::exporting::mappings::ExportMapping;
use one_collect::exporting::modulemetadata::{ElfModuleMetadata, ModuleMetadata};
use one_collect::exporting::symbols::ExportSymbol;
use one_collect::intern::InternedStrings;

fn unicode_z(s: &str) -> Vec<u8> {
    let mut out = Vec::new();
    for c in s.chars() {
        out.extend_from_slice(&(c as u16).to_le_bytes());
    }
    out.extend_from_slice(&[0, 0]);
    out
}

#[test]
fn stream_starts_with_magic() {
    let writer = NetTraceWriter::new();
    let mut expected = b"Nettrace".to_vec();
    expected.extend_from_slice(&20u32.to_le_bytes());
    expected.extend_from_slice(b"!FastSerialization.1");
    assert_eq!(expected, writer.output());
    assert_eq!(expected.len() as u64, writer.get_pos());
}

#[test]
fn metadata_event_layout() {
    let mut writer = NetTraceWriter::new();
    let start = writer.output().len();
    writer.write_event_metadata(3, "P", 7, "E", 0x10, 1, 4, &stack_event_fields());
    let out = &writer.output()[start..];

    let mut payload = Vec::new();
    payload.extend_from_slice(&3u32.to_le_bytes());
    payload.extend_from_slice(&unicode_z("P"));
    payload.extend_from_slice(&7u32.to_le_bytes());
    payload.extend_from_slice(&unicode_z("E"));
    payload.extend_from_slice(&0x10u64.to_le_bytes());
    payload.extend_from_slice(&1u32.to_le_bytes());
    payload.extend_from_slice(&4u32.to_le_bytes());
    payload.extend_from_slice(&1u32.to_le_bytes());
    payload.extend_from_slice(&12u32.to_le_bytes());
    payload.extend_from_slice(&unicode_z("Value"));

    let mut expected = vec![128u8, 0, payload.len() as u8];
    expected.extend_from_slice(&payload);
    assert_eq!(expected, out);
}

#[test]
fn metadata_object_patches_size() {
    let mut writer = NetTraceWriter::new();
    let start = writer.output().len();
    writer.write_metadata_object(&["cpu".to_string(), "alloc".to_string()]);
    let out = writer.output()[start..].to_vec();

    /* Begin object, begin type, null ref, versions, name, end type */
    assert_eq!(&[5u8, 5, 1], &out[0..3]);
    assert_eq!(&2u32.to_le_bytes(), &out[3..7]);
    assert_eq!(&2u32.to_le_bytes(), &out[7..11]);
    assert_eq!(&13u32.to_le_bytes(), &out[11..15]);
    assert_eq!(b"MetadataBlock", &out[15..28]);
    assert_eq!(6, out[28]);

    /* Size, then padding to four bytes, then the body and the end tag */
    let size = u32::from_le_bytes(out[29..33].try_into().unwrap()) as usize;
    let abs_after_size = start + 33;
    let pad = (4 - abs_after_size % 4) % 4;
    let body_start = 33 + pad;
    assert_eq!(out.len(), body_start + size + 1);
    assert_eq!(6, *out.last().unwrap());
    assert_eq!(&20u16.to_le_bytes(), &out[body_start..body_start + 2]);
}

#[test]
fn event_blobs_use_time_deltas() {
    let mut writer = NetTraceWriter::new();
    writer.write_trace_object([2024, 1, 2, 3, 4, 5, 6], 7_000_000, 100, 10_000_000, 0, 8, 1000);
    writer.write_metadata_object(&[]);

    let start = writer.output().len();
    writer.write_exited_event(42, 150);
    let out = writer.output()[start..].to_vec();
    /* Flags, meta id (exit = 2), seq, capture thread, cpu, thread, delta 150 from
     * the last time written (none yet), size 4, pid */
    assert_eq!(vec![199u8, 2, 0, 0, 0, 0, 150, 1, 4, 42, 0, 0, 0], out);

    /* An earlier time is raised to the last time: delta 0 */
    let start = writer.output().len();
    writer.write_exited_event(1, 120);
    assert_eq!(0, writer.output()[start + 6]);

    /* Created before the sync time: the existing-process event */
    let start = writer.output().len();
    writer.write_created_event(5, 0, "a", 10);
    assert_eq!(0, writer.output()[start + 1]);
    let start = writer.output().len();
    writer.write_created_event(5, 0, "a", 300);
    assert_eq!(1, writer.output()[start + 1]);
}

#[test]
fn varint_timestamps() {
    let mut writer = NetTraceWriter::new();
    writer.write_trace_object([0; 7], 0, 0, 1, 0, 1, 1);
    let start = writer.output().len();
    writer.write_event_timestamp(300);
    assert_eq!(&[0xAC, 0x02], &writer.output()[start..]);
}

#[test]
fn mapping_and_symbol_events() {
    let mut writer = NetTraceWriter::new();
    writer.write_metadata_object(&[]);
    let map = ExportMapping::new(0, 0, 0x1000, 0x2000, 0x10, false, 3);
    let start = writer.output().len();
    writer.write_mapping_event(&map, 9, "f", "", 0);
    let out = writer.output()[start..].to_vec();
    assert_eq!(199, out[0]);
    assert_eq!(3, out[1]);
    assert_eq!(&3u32.to_le_bytes(), &out[8..12]);

    let sym = ExportSymbol::new(0, 0x1100, 0x1200);
    writer.write_mapping_symbol_event(&map, &sym, "s", 0);
    writer.write_mapping_symbol_event(&map, &sym, "s", 0);
    writer.finish();
    assert_eq!(1, *writer.output().last().unwrap());
}

#[test]
fn elf_symbol_index() {
    let mut strings = InternedStrings::new(8);
    let mut elf = ElfModuleMetadata::new();
    let mut id = [0u8; 20];
    id[0] = 0xAB;
    id[19] = 0x01;
    elf.set_build_id(Some(&id));
    elf.set_debug_link(Some("lib.debug".to_string()), &mut strings);
    let metadata = ModuleMetadata::Elf(elf);
    let index = mapping_symbol_index(Some(&metadata), &strings);
    assert_eq!("elf:ab00000000000000000000000000000000000001:lib.debug", index);
    assert_eq!("", mapping_symbol_index(None, &strings));
}
