use dx_cli::byte_buffer::ByteBuffer;
use dx_cli::ds_parser::{
    align_and_adjust_cursor, parse_allocator, parse_ds_store, parse_header, parse_master_node,
    vec_to_u64_be, DsError, ModType, RecordValue,
};

fn put_u32(d: &mut Vec<u8>, at: usize, v: u32) {
    d[at..at + 4].copy_from_slice(&v.to_be_bytes());
}

/// One record: name, field, type, payload bytes.
struct Rec {
    name: &'static str,
    field: &'static [u8; 4],
    dtype: &'static [u8; 4],
    payload: Vec<u8>,
}

fn rec_bytes(r: &Rec) -> Vec<u8> {
    let units: Vec<u16> = r.name.encode_utf16().collect();
    let mut out = Vec::new();
    out.extend_from_slice(&(units.len() as u32).to_be_bytes());
    for u in units {
        out.extend_from_slice(&u.to_be_bytes());
    }
    out.extend_from_slice(r.field);
    out.extend_from_slice(r.dtype);
    out.extend_from_slice(&r.payload);
    out
}

/// A file whose table of contents names block 0 as `DSDB`, whose master node names block 1
/// as the root, and whose root is a leaf holding `recs` plus one trailing record that the
/// reader skips.
fn build(recs: &[Rec]) -> Vec<u8> {
    let mut d = vec![0u8; 0x1000];
    put_u32(&mut d, 0, 1);
    d[4..8].copy_from_slice(b"Bud1");
    put_u32(&mut d, 8, 0x1c);
    put_u32(&mut d, 12, 0x800);
    put_u32(&mut d, 16, 0x1c);
    // allocator at 0x20
    put_u32(&mut d, 0x20, 2);
    put_u32(&mut d, 0x24, 0);
    put_u32(&mut d, 0x28, 0x800); // block 0: master, at 0x804
    put_u32(&mut d, 0x2c, 0xa00); // block 1: root, at 0xa04
    // table of contents at 0x428
    put_u32(&mut d, 0x428, 1);
    d[0x42c] = 4;
    d[0x42d..0x431].copy_from_slice(b"DSDB");
    put_u32(&mut d, 0x431, 0);
    // master node at 0x804
    put_u32(&mut d, 0x804, 1);
    put_u32(&mut d, 0x808, 0);
    put_u32(&mut d, 0x80c, recs.len() as u32);
    put_u32(&mut d, 0x810, 1);
    put_u32(&mut d, 0x814, 0x1000);
    // root leaf at 0xa04
    put_u32(&mut d, 0xa04, 0);
    put_u32(&mut d, 0xa08, recs.len() as u32 + 1);
    let mut at = 0xa0c;
    for r in recs {
        let b = rec_bytes(r);
        d[at..at + b.len()].copy_from_slice(&b);
        at += b.len();
    }
    d
}

fn size_rec(name: &'static str, field: &'static [u8; 4], v: u64) -> Rec {
    Rec { name, field, dtype: b"comp", payload: v.to_be_bytes().to_vec() }
}

#[test]
fn keeps_sizes_of_ph1s_and_phys() {
    let d = build(&[size_rec("Music", b"ph1S", 4096), size_rec("Films", b"phyS", 77)]);
    let r = parse_ds_store(d);
    assert_eq!(r.error, None);
    assert_eq!(r.records.len(), 2);
    assert_eq!(r.records[0].name, "Music");
    assert_eq!(r.records[0].field, "ph1S");
    assert!(matches!(r.records[0].value, RecordValue::Size(4096)));
    assert_eq!(r.records[1].name, "Films");
    assert!(matches!(r.records[1].value, RecordValue::Size(77)));
}

#[test]
fn skips_other_fields_and_types() {
    let d = build(&[
        size_rec("a", b"lg1S", 5),
        Rec { name: "b", field: b"Iloc", dtype: b"blob", payload: vec![0, 0, 0, 2, 9, 9] },
        Rec { name: "c", field: b"vSrn", dtype: b"long", payload: vec![0, 0, 0, 1] },
        Rec { name: "d", field: b"BKGD", dtype: b"bool", payload: vec![1] },
        Rec { name: "e", field: b"vstl", dtype: b"type", payload: b"icnv".to_vec() },
        Rec { name: "f", field: b"cmmt", dtype: b"ustr", payload: vec![0, 0, 0, 1, 0, 0x41] },
        size_rec("g", b"phyS", 9),
    ]);
    let r = parse_ds_store(d);
    assert_eq!(r.error, None);
    assert_eq!(r.records.len(), 1);
    assert_eq!(r.records[0].name, "g");
}

#[test]
fn keeps_date_blobs() {
    let mut payload = vec![0, 0, 0, 8];
    payload.extend_from_slice(&1.0f64.to_le_bytes());
    let d = build(&[Rec { name: "Docs", field: b"moDD", dtype: b"blob", payload }]);
    let r = parse_ds_store(d);
    assert_eq!(r.error, None);
    assert_eq!(r.records.len(), 1);
    match &r.records[0].value {
        RecordValue::Date(b) => assert_eq!(b.as_slice(), &1.0f64.to_le_bytes()),
        other => panic!("unexpected {:?}", other),
    }
}

#[test]
fn date_blob_of_other_length_is_malformed() {
    let d = build(&[
        size_rec("x", b"ph1S", 1),
        Rec { name: "Docs", field: b"modD", dtype: b"blob", payload: vec![0, 0, 0, 4, 1, 2, 3, 4] },
    ]);
    let r = parse_ds_store(d);
    assert_eq!(r.error, Some(DsError::Malformed));
    // the record read before the error is still reported
    assert_eq!(r.records.len(), 1);
}

#[test]
fn the_last_record_of_a_node_is_not_read() {
    let mut d = build(&[size_rec("a", b"ph1S", 1), size_rec("b", b"ph1S", 2)]);
    // announce one record fewer: the second is then the node's last
    put_u32(&mut d, 0xa08, 2);
    let r = parse_ds_store(d);
    assert_eq!(r.error, None);
    assert_eq!(r.records.len(), 1);
    assert_eq!(r.records[0].name, "a");
}

#[test]
fn later_records_come_after_earlier_ones() {
    let d = build(&[size_rec("a", b"ph1S", 1), size_rec("a", b"ph1S", 2)]);
    let r = parse_ds_store(d);
    assert_eq!(r.records.len(), 2);
    assert!(matches!(r.records[1].value, RecordValue::Size(2)));
}

#[test]
fn bad_magic_is_malformed() {
    let mut d = build(&[]);
    d[4] = b'X';
    assert_eq!(parse_ds_store(d).error, Some(DsError::Malformed));
}

#[test]
fn bad_alignment_is_malformed() {
    let mut d = build(&[]);
    put_u32(&mut d, 0, 2);
    assert_eq!(parse_ds_store(d).error, Some(DsError::Malformed));
}

#[test]
fn short_files_end_early() {
    assert_eq!(parse_ds_store(vec![]).error, Some(DsError::UnexpectedEof));
    assert_eq!(parse_ds_store(vec![0, 0, 0, 1, b'B', b'u']).error, Some(DsError::UnexpectedEof));
    let d = build(&[]);
    assert_eq!(parse_ds_store(d[..0x30].to_vec()).error, Some(DsError::UnexpectedEof));
}

#[test]
fn mismatched_offset_is_malformed() {
    let mut d = build(&[]);
    put_u32(&mut d, 16, 0x1d);
    assert_eq!(parse_ds_store(d).error, Some(DsError::Malformed));
}

#[test]
fn overflowing_offset_is_malformed() {
    let mut d = build(&[]);
    put_u32(&mut d, 8, 0xffff_fffe);
    assert_eq!(parse_ds_store(d).error, Some(DsError::Malformed));
}

#[test]
fn missing_dsdb_is_reported() {
    let mut d = build(&[]);
    d[0x42d..0x431].copy_from_slice(b"XXXX");
    assert_eq!(parse_ds_store(d).error, Some(DsError::MissingDsdb));
}

#[test]
fn the_last_dsdb_entry_wins() {
    let mut d = build(&[size_rec("a", b"ph1S", 1)]);
    // two entries: DSDB -> 7 (out of range), then DSDB -> 0
    put_u32(&mut d, 0x428, 2);
    put_u32(&mut d, 0x431, 7);
    d[0x435] = 4;
    d[0x436..0x43a].copy_from_slice(b"DSDB");
    put_u32(&mut d, 0x43a, 0);
    let r = parse_ds_store(d);
    assert_eq!(r.error, None);
    assert_eq!(r.records.len(), 1);
}

#[test]
fn master_out_of_range_is_malformed() {
    let mut d = build(&[]);
    put_u32(&mut d, 0x431, 5);
    assert_eq!(parse_ds_store(d).error, Some(DsError::Malformed));
}

#[test]
fn bad_master_page_size_is_malformed() {
    let mut d = build(&[]);
    put_u32(&mut d, 0x814, 0x2000);
    assert_eq!(parse_ds_store(d).error, Some(DsError::Malformed));
}

#[test]
fn node_without_records_is_malformed() {
    let mut d = build(&[]);
    put_u32(&mut d, 0xa08, 0);
    assert_eq!(parse_ds_store(d).error, Some(DsError::Malformed));
}

#[test]
fn root_out_of_range_is_malformed() {
    let mut d = build(&[]);
    put_u32(&mut d, 0x804, 9);
    assert_eq!(parse_ds_store(d).error, Some(DsError::Malformed));
}

#[test]
fn a_cycle_in_the_tree_is_malformed() {
    let mut d = build(&[size_rec("a", b"ph1S", 1)]);
    // make the root an inner node whose first child is the root itself
    put_u32(&mut d, 0xa04, 1);
    let b = rec_bytes(&size_rec("a", b"ph1S", 1));
    let mut inner = vec![0, 0, 0, 1];
    inner.extend_from_slice(&b);
    d[0xa0c..0xa0c + inner.len()].copy_from_slice(&inner);
    assert_eq!(parse_ds_store(d).error, Some(DsError::Malformed));
}

#[test]
fn inner_nodes_read_their_children_first() {
    let mut d = build(&[]);
    // three blocks: master, root (inner), leaf
    put_u32(&mut d, 0x20, 3);
    put_u32(&mut d, 0x30, 0xc00); // block 2 at 0xc04
    // root: next_id 2, two records announced: one (child 2, "top") is read
    put_u32(&mut d, 0xa04, 2);
    put_u32(&mut d, 0xa08, 2);
    let mut inner = vec![0, 0, 0, 2];
    inner.extend_from_slice(&rec_bytes(&size_rec("top", b"ph1S", 10)));
    d[0xa0c..0xa0c + inner.len()].copy_from_slice(&inner);
    // leaf: one record read
    put_u32(&mut d, 0xc04, 0);
    put_u32(&mut d, 0xc08, 2);
    let leaf = rec_bytes(&size_rec("low", b"ph1S", 20));
    d[0xc0c..0xc0c + leaf.len()].copy_from_slice(&leaf);
    let r = parse_ds_store(d);
    assert_eq!(r.error, None);
    assert_eq!(r.records.len(), 2);
    assert_eq!(r.records[0].name, "low");
    assert_eq!(r.records[1].name, "top");
}

#[test]
fn name_longer_than_the_file_is_reported() {
    let mut d = build(&[size_rec("a", b"ph1S", 1)]);
    put_u32(&mut d, 0xa0c, 0x0100_0000);
    assert_eq!(parse_ds_store(d).error, Some(DsError::NotEnoughBytes));
}

#[test]
fn name_running_past_the_end_is_malformed() {
    let mut d = build(&[size_rec("a", b"ph1S", 1)]);
    // fewer units than remaining bytes, but twice as many bytes as remain
    let remaining = (d.len() - 0xa10) as u32;
    put_u32(&mut d, 0xa0c, remaining);
    assert_eq!(parse_ds_store(d).error, Some(DsError::Malformed));
}

#[test]
fn unpaired_surrogate_in_a_name_is_malformed() {
    let mut d = build(&[size_rec("a", b"ph1S", 1)]);
    d[0xa10] = 0xd8;
    d[0xa11] = 0x00;
    assert_eq!(parse_ds_store(d).error, Some(DsError::Malformed));
}

#[test]
fn names_with_surrogate_pairs_decode() {
    let d = build(&[size_rec("a😀b", b"ph1S", 3)]);
    let r = parse_ds_store(d);
    assert_eq!(r.records[0].name, "a😀b");
}

#[test]
fn header_and_allocator_read_alone() {
    let d = build(&[]);
    let mut b = ByteBuffer::new(d);
    assert_eq!(parse_header(&mut b), Ok((0x20, 0x800)));
    assert_eq!(b.byte_offset(), 20);
    let (master, offsets) = parse_allocator(&mut b, 0x20).unwrap();
    assert_eq!(master, 0);
    assert_eq!(offsets, vec![0x800, 0xa00]);
    assert_eq!(parse_master_node(&mut b, 0x800), Ok(1));
}

#[test]
fn blocks_are_aligned_to_32_bytes_plus_4() {
    assert_eq!(align_and_adjust_cursor(0), 4);
    assert_eq!(align_and_adjust_cursor(0x1f), 4);
    assert_eq!(align_and_adjust_cursor(0x20), 0x24);
    assert_eq!(align_and_adjust_cursor(0x40b), 0x404);
    assert_eq!(align_and_adjust_cursor(u32::MAX), 0xffff_ffe4);
}

#[test]
fn eight_bytes_make_a_big_endian_u64() {
    assert_eq!(vec_to_u64_be(vec![0, 0, 0, 0, 0, 0, 1, 2]), Ok(0x102));
    assert_eq!(vec_to_u64_be(vec![0xff; 8]), Ok(u64::MAX));
    assert!(vec_to_u64_be(vec![1, 2, 3]).is_err());
}

#[test]
fn mod_types_name_their_fields() {
    assert_eq!(ModType::LogicalSize.field_code(), "ph1S");
    assert_eq!(ModType::PhysicalSize.field_code(), "phyS");
    assert_eq!(ModType::ModificationDate.field_code(), "moDD");
}
