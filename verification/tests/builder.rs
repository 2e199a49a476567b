use flatbuffers::builder::FlatBufferBuilder;

#[test]
fn empty_table_minimal_finish() {
    let mut b = FlatBufferBuilder::new();
    let t = b.start_table();
    let root = b.end_table(t);
    b.finish_minimal(root);
    let expect: &[u8] = &[
        0x08, 0x00, 0x00, 0x00, // root uoffset = 8
        0x04, 0x00, // vtable length = 4
        0x04, 0x00, // object inline size = 4
        0x04, 0x00, 0x00, 0x00, // soffset to vtable = 4
    ];
    assert_eq!(b.finished_data(), expect);
}

#[test]
fn single_u16_field() {
    let mut b = FlatBufferBuilder::new();
    let t = b.start_table();
    b.push_slot(4u16, 0x1234u16, 0u16);
    let root = b.end_table(t);
    b.finish_minimal(root);
    let expect: &[u8] = &[
        0x0C, 0x00, 0x00, 0x00, // root uoffset = 12
        0x00, 0x00, // alignment padding
        0x06, 0x00, // vtable length = 6
        0x08, 0x00, // object inline size = 8
        0x06, 0x00, // slot for field id 4
        0x06, 0x00, 0x00, 0x00, // soffset to vtable = 6
        0x00, 0x00, // alignment padding inside the table
        0x34, 0x12, // the field value, little-endian
    ];
    assert_eq!(b.finished_data(), expect);
}

#[test]
fn default_valued_slot_is_skipped() {
    let mut b = FlatBufferBuilder::new();
    let t = b.start_table();
    b.push_slot(4u16, 0u16, 0u16);
    let root = b.end_table(t);
    b.finish_minimal(root);
    // Same as the empty table: the vtable is header-only.
    let expect: &[u8] = &[
        0x08, 0x00, 0x00, 0x00, 0x04, 0x00, 0x04, 0x00, 0x04, 0x00, 0x00, 0x00,
    ];
    assert_eq!(b.finished_data(), expect);
}

#[test]
fn vtable_deduplication() {
    let mut b = FlatBufferBuilder::new();
    let t1 = b.start_table();
    let _r1 = b.end_table(t1);
    assert_eq!(b.num_written_vtables(), 1);
    let t2 = b.start_table();
    let _r2 = b.end_table(t2);
    assert_eq!(b.num_written_vtables(), 1);
}

#[test]
fn two_distinct_vtables() {
    let mut b = FlatBufferBuilder::new();
    let t1 = b.start_table();
    b.push_slot_always(4u16, 7u8);
    let _r1 = b.end_table(t1);
    let t2 = b.start_table();
    b.push_slot_always(4u16, 7u8);
    b.push_slot_always(6u16, 9u8);
    let _r2 = b.end_table(t2);
    assert_eq!(b.num_written_vtables(), 2);
}

#[test]
fn vector_of_u8_direct() {
    let mut b = FlatBufferBuilder::new();
    let _v = b.create_vector_direct(&[0x01u8, 0x02, 0x03]);
    let expect: &[u8] = &[0x03, 0x00, 0x00, 0x00, 0x01, 0x02, 0x03, 0x00];
    assert_eq!(b.unfinished_data(), expect);
}

#[test]
fn empty_vector_is_aligned() {
    let mut b = FlatBufferBuilder::new();
    b.start_vector(0, 1);
    let v = b.end_vector::<u8>(0);
    assert_eq!(b.unfinished_data(), &[0x00, 0x00, 0x00, 0x00]);
    assert_eq!(v.value(), 4);
}

#[test]
fn empty_string() {
    let mut b = FlatBufferBuilder::new();
    let s = b.create_string("");
    // 4-byte zero length, NUL, then padding to 4.
    assert_eq!(b.unfinished_data(), &[0, 0, 0, 0, 0, 0, 0, 0]);
    assert_eq!(s.value(), 8);
}

#[test]
fn short_string_bytes() {
    let mut b = FlatBufferBuilder::new();
    let _s = b.create_string("hi");
    let expect: &[u8] = &[0x02, 0x00, 0x00, 0x00, b'h', b'i', 0x00, 0x00];
    assert_eq!(b.unfinished_data(), expect);
}

#[test]
fn byte_string_bytes() {
    let mut b = FlatBufferBuilder::new();
    let _s = b.create_byte_string(&[9, 8, 7]);
    let expect: &[u8] = &[0x03, 0x00, 0x00, 0x00, 9, 8, 7, 0x00];
    assert_eq!(b.unfinished_data(), expect);
}

#[test]
fn scalar_pushes_are_little_endian() {
    let mut b = FlatBufferBuilder::new();
    let _o = b.push(0xDDCCBBAAu32);
    assert_eq!(b.unfinished_data(), &[0xAA, 0xBB, 0xCC, 0xDD]);
    let mut b2 = FlatBufferBuilder::new();
    let _o = b2.push(0x1122334455667788u64);
    assert_eq!(
        b2.unfinished_data(),
        &[0x88, 0x77, 0x66, 0x55, 0x44, 0x33, 0x22, 0x11]
    );
    let mut b3 = FlatBufferBuilder::new();
    let _o = b3.push(-2i16);
    assert_eq!(b3.unfinished_data(), &[0xFE, 0xFF]);
}

#[test]
fn push_aligns_used_space() {
    let mut b = FlatBufferBuilder::new();
    let _o = b.push(1u8);
    let _o = b.push(0x0807060504030201u64);
    // 1 byte, then 7 bytes of padding, then the 8-byte scalar.
    assert_eq!(b.unfinished_data().len(), 16);
    assert_eq!(
        &b.unfinished_data()[..8],
        &[0x01, 0x02, 0x03, 0x04, 0x05, 0x06, 0x07, 0x08]
    );
    assert_eq!(b.unfinished_data()[15], 1u8);
}

#[test]
fn size_prefixed_and_identified() {
    let mut b = FlatBufferBuilder::new();
    let t = b.start_table();
    let root = b.end_table(t);
    b.finish_size_prefixed(root, Some("ABCD"));
    let expect: &[u8] = &[
        0x10, 0x00, 0x00, 0x00, // total size excluding this prefix = 16
        0x0C, 0x00, 0x00, 0x00, // root uoffset = 12
        b'A', b'B', b'C', b'D', // file identifier
        0x04, 0x00, 0x04, 0x00, // vtable
        0x04, 0x00, 0x00, 0x00, // soffset
    ];
    assert_eq!(b.finished_data(), expect);
}

#[test]
fn growth_preserves_tail_and_handles() {
    // Capacity 0 forces repeated doubling while the table is built.
    let mut b = FlatBufferBuilder::new();
    let _s = b.create_byte_string(&[9, 8, 7]);
    let t = b.start_table();
    b.push_slot_always(4u16, 0x1122334455667788u64);
    let root = b.end_table(t);
    b.finish_minimal(root);
    let data = b.finished_data();
    // The byte string written first still ends the buffer, untouched.
    assert_eq!(&data[data.len() - 8..], &[0x03, 0x00, 0x00, 0x00, 9, 8, 7, 0x00]);
    // The root offset still leads to the table: its soffset leads to a
    // vtable that maps field id 4 to the stored u64.
    let root_off = u32::from_le_bytes([data[0], data[1], data[2], data[3]]) as usize;
    let so = i32::from_le_bytes([
        data[root_off],
        data[root_off + 1],
        data[root_off + 2],
        data[root_off + 3],
    ]);
    let vt = (root_off as i64 - so as i64) as usize;
    let slot = u16::from_le_bytes([data[vt + 4], data[vt + 5]]) as usize;
    assert_ne!(slot, 0);
    let field = root_off + slot;
    let val = u64::from_le_bytes([
        data[field],
        data[field + 1],
        data[field + 2],
        data[field + 3],
        data[field + 4],
        data[field + 5],
        data[field + 6],
        data[field + 7],
    ]);
    assert_eq!(val, 0x1122334455667788);
}

#[test]
fn round_trip_single_field() {
    let mut b = FlatBufferBuilder::new();
    let t = b.start_table();
    b.push_slot(4u16, 0x1234u16, 0u16);
    let root = b.end_table(t);
    b.finish_minimal(root);
    let data = b.finished_data();
    let root_off = u32::from_le_bytes([data[0], data[1], data[2], data[3]]) as usize;
    let so = i32::from_le_bytes([
        data[root_off],
        data[root_off + 1],
        data[root_off + 2],
        data[root_off + 3],
    ]);
    let vt = (root_off as i64 - so as i64) as usize;
    let vt_len = u16::from_le_bytes([data[vt], data[vt + 1]]);
    assert_eq!(vt_len, 6);
    let slot = u16::from_le_bytes([data[vt + 4], data[vt + 5]]) as usize;
    let val = u16::from_le_bytes([data[root_off + slot], data[root_off + slot + 1]]);
    assert_eq!(val, 0x1234);
}

#[test]
fn required_reports_presence() {
    let mut b = FlatBufferBuilder::new();
    let t = b.start_table();
    b.push_slot_always(4u16, 5u32);
    let root = b.end_table(t);
    assert!(b.required(root, 4, "present_field"));
    assert!(!b.required(root, 6, "absent_field"));
}

#[test]
fn reset_restores_fresh_state() {
    let mut b = FlatBufferBuilder::new();
    let t = b.start_table();
    let root = b.end_table(t);
    b.finish_minimal(root);
    let first = b.finished_data().to_vec();
    b.reset();
    assert_eq!(b.unfinished_data().len(), 0);
    assert_eq!(b.num_written_vtables(), 0);
    // Rebuilding after reset produces the same bytes as the first build.
    let t = b.start_table();
    let root = b.end_table(t);
    b.finish_minimal(root);
    assert_eq!(b.finished_data(), &first[..]);
}

#[test]
fn collapse_returns_buffer_and_head() {
    let mut b = FlatBufferBuilder::new_with_capacity(64);
    let _o = b.push(0xAABBCCDDu32);
    let (buf, head) = b.collapse();
    assert_eq!(buf.len(), 64);
    assert_eq!(&buf[head..], &[0xDD, 0xCC, 0xBB, 0xAA]);
}

#[test]
fn new_with_capacity_is_fresh() {
    let b = FlatBufferBuilder::new_with_capacity(32);
    assert_eq!(b.unfinished_data().len(), 0);
    assert_eq!(b.num_written_vtables(), 0);
}

#[test]
fn vector_of_u16_elements() {
    let mut b = FlatBufferBuilder::new();
    let _v = b.create_vector(&[0x0102u16, 0x0304u16]);
    let expect: &[u8] = &[0x02, 0x00, 0x00, 0x00, 0x02, 0x01, 0x04, 0x03];
    assert_eq!(b.unfinished_data(), expect);
}

#[test]
fn vector_of_string_offsets() {
    let mut b = FlatBufferBuilder::new();
    let s_a = b.create_string("a");
    let s_b = b.create_string("b");
    let _v = b.create_vector(&[s_a, s_b]);
    let expect: &[u8] = &[
        0x02, 0x00, 0x00, 0x00, // vector length = 2
        0x10, 0x00, 0x00, 0x00, // element 0: forward offset to "a"
        0x04, 0x00, 0x00, 0x00, // element 1: forward offset to "b"
        0x01, 0x00, 0x00, 0x00, b'b', 0x00, 0x00, 0x00, // "b", NUL, padding
        0x01, 0x00, 0x00, 0x00, b'a', 0x00, 0x00, 0x00, // "a", NUL, padding
    ];
    assert_eq!(b.unfinished_data(), expect);
}
