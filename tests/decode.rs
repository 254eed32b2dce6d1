use sqlite_ondisk::btree::{read_btree_cell, read_btree_page, BTreeCell, PageType, TableLeafCell};
use sqlite_ondisk::error::DecodeError;
use sqlite_ondisk::header::read_database_header;
use sqlite_ondisk::record::{read_record, read_value, Record, SerialType, Value};
use sqlite_ondisk::varint::read_varint;

const SIGNATURE: &[u8; 16] = b"SQLite format 3\0";

fn header_bytes(page_size: [u8; 2]) -> Vec<u8> {
    let mut b = vec![0u8; 100];
    b[..16].copy_from_slice(SIGNATURE);
    b[16] = page_size[0];
    b[17] = page_size[1];
    b
}

fn leaf_cell(payload: &[u8]) -> BTreeCell {
    BTreeCell::TableLeafCell(TableLeafCell { rowid: 1, payload: payload.to_vec() })
}

#[test]
fn varint_single_byte() {
    assert_eq!(read_varint(&[0x05]), Ok((5, 1)));
    assert_eq!(read_varint(&[0x7f, 0xff]), Ok((0x7f, 1)));
}

#[test]
fn varint_low_group_first() {
    assert_eq!(read_varint(&[0x81, 0x01]), Ok((129, 2)));
    assert_eq!(read_varint(&[0xac, 0x02, 0x99]), Ok((300, 2)));
}

#[test]
fn varint_nine_bytes_take_all_bits_of_the_last() {
    let all = [0xffu8; 10];
    assert_eq!(read_varint(&all), Ok((u64::MAX, 9)));
    let mut b = [0x80u8; 9];
    b[8] = 0x01;
    assert_eq!(read_varint(&b), Ok((1u64 << 56, 9)));
}

#[test]
fn varint_round_trip_of_encoded_values() {
    for v in [0u64, 1, 0x7f, 0x80, 0x3fff, 0x4000, 1 << 35, (1 << 56) - 1, 1 << 56, u64::MAX] {
        let mut bytes = Vec::new();
        let mut x = v;
        let mut i = 0;
        loop {
            if i == 8 {
                bytes.push(x as u8);
                break;
            }
            if x < 0x80 {
                bytes.push(x as u8);
                break;
            }
            bytes.push((x & 0x7f) as u8 | 0x80);
            x >>= 7;
            i += 1;
        }
        let n = bytes.len();
        bytes.push(0xee);
        assert_eq!(read_varint(&bytes), Ok((v, n)));
    }
}

#[test]
fn varint_truncated_is_out_of_bounds() {
    assert_eq!(read_varint(&[]), Err(DecodeError::OutOfBounds));
    assert_eq!(read_varint(&[0x80]), Err(DecodeError::OutOfBounds));
    assert_eq!(read_varint(&[0xff; 8]), Err(DecodeError::OutOfBounds));
}

#[test]
fn serial_types_fixed_codes() {
    assert_eq!(SerialType::try_from(0), Ok(SerialType::Null));
    assert_eq!(SerialType::try_from(1), Ok(SerialType::UInt8));
    assert_eq!(SerialType::try_from(5), Ok(SerialType::BEInt48));
    assert_eq!(SerialType::try_from(7), Ok(SerialType::BEFloat64));
    assert_eq!(SerialType::try_from(8), Ok(SerialType::ConstInt0));
    assert_eq!(SerialType::try_from(9), Ok(SerialType::ConstInt1));
}

#[test]
fn serial_types_lengths() {
    assert_eq!(SerialType::try_from(12), Ok(SerialType::Blob(0)));
    assert_eq!(SerialType::try_from(13), Ok(SerialType::String(0)));
    assert_eq!(SerialType::try_from(14), Ok(SerialType::Blob(1)));
    assert_eq!(SerialType::try_from(15), Ok(SerialType::String(1)));
    assert_eq!(SerialType::try_from(100), Ok(SerialType::Blob(44)));
    assert_eq!(SerialType::try_from(101), Ok(SerialType::String(44)));
}

#[test]
fn serial_types_reserved_codes_fail() {
    assert_eq!(SerialType::try_from(10), Err(DecodeError::InvalidSerialType(10)));
    assert_eq!(SerialType::try_from(11), Err(DecodeError::InvalidSerialType(11)));
}

#[test]
fn value_integers_are_sign_extended() {
    assert_eq!(read_value(&[0xff], SerialType::UInt8), Ok((Value::Integer(-1), 1)));
    assert_eq!(read_value(&[0x01, 0x00], SerialType::BEInt16), Ok((Value::Integer(256), 2)));
    assert_eq!(read_value(&[0xff, 0xff, 0xfe], SerialType::BEInt24), Ok((Value::Integer(-2), 3)));
    assert_eq!(
        read_value(&[0x7f, 0xff, 0xff], SerialType::BEInt24),
        Ok((Value::Integer(8388607), 3))
    );
    assert_eq!(
        read_value(&[0x80, 0, 0, 0], SerialType::BEInt32),
        Ok((Value::Integer(i32::MIN as i64), 4))
    );
    assert_eq!(
        read_value(&[0x80, 0, 0, 0, 0, 0], SerialType::BEInt48),
        Ok((Value::Integer(-(1i64 << 47)), 6))
    );
    assert_eq!(
        read_value(&[0, 0, 0, 1, 0, 0, 0, 2], SerialType::BEInt64),
        Ok((Value::Integer((1i64 << 32) + 2), 8))
    );
    assert_eq!(
        read_value(&[0xff; 8], SerialType::BEInt64),
        Ok((Value::Integer(-1), 8))
    );
}

#[test]
fn value_widths_ignore_following_bytes() {
    let buf = [0x01u8, 0x02, 0x03, 0x04, 0x05, 0x06, 0x07, 0x08, 0x09];
    let cases = [
        (SerialType::Null, 0usize),
        (SerialType::UInt8, 1),
        (SerialType::BEInt16, 2),
        (SerialType::BEInt24, 3),
        (SerialType::BEInt32, 4),
        (SerialType::BEInt48, 6),
        (SerialType::BEInt64, 8),
        (SerialType::BEFloat64, 8),
        (SerialType::ConstInt0, 0),
        (SerialType::ConstInt1, 0),
    ];
    for (t, w) in cases {
        let (v, n) = read_value(&buf, t).unwrap();
        assert_eq!(n, w);
        assert_eq!(read_value(&buf[..w], t), Ok((v, w)));
    }
    assert_eq!(read_value(&buf, SerialType::UInt8), Ok((Value::Integer(1), 1)));
}

#[test]
fn value_constants_and_null() {
    assert_eq!(read_value(&[], SerialType::Null), Ok((Value::Null, 0)));
    assert_eq!(read_value(&[], SerialType::ConstInt0), Ok((Value::Integer(0), 0)));
    assert_eq!(read_value(&[], SerialType::ConstInt1), Ok((Value::Integer(1), 0)));
}

#[test]
fn value_float_bits() {
    let (v, n) = read_value(&[0x3f, 0xf0, 0, 0, 0, 0, 0, 0], SerialType::BEFloat64).unwrap();
    assert_eq!(n, 8);
    assert_eq!(v, Value::Float(0x3ff0_0000_0000_0000));
    match v {
        Value::Float(bits) => assert_eq!(f64::from_bits(bits), 1.0),
        _ => panic!("not a float"),
    }
}

#[test]
fn value_blob_and_text() {
    assert_eq!(
        read_value(&[1, 2, 3, 4], SerialType::Blob(3)),
        Ok((Value::Blob(vec![1, 2, 3]), 3))
    );
    assert_eq!(
        read_value("héllo".as_bytes(), SerialType::String(3)),
        Ok((Value::Text("hé".to_string()), 3))
    );
    assert_eq!(read_value(&[], SerialType::String(0)), Ok((Value::Text(String::new()), 0)));
}

#[test]
fn value_invalid_utf8() {
    assert_eq!(read_value(&[0xff, 0x41], SerialType::String(2)), Err(DecodeError::InvalidEncoding));
    assert_eq!(read_value(&[0xc3], SerialType::String(1)), Err(DecodeError::InvalidEncoding));
}

#[test]
fn value_short_buffer() {
    assert_eq!(read_value(&[0x01], SerialType::BEInt16), Err(DecodeError::OutOfBounds));
    assert_eq!(read_value(&[0; 7], SerialType::BEFloat64), Err(DecodeError::OutOfBounds));
    assert_eq!(read_value(&[1, 2], SerialType::Blob(3)), Err(DecodeError::OutOfBounds));
}

#[test]
fn record_single_constant() {
    assert_eq!(read_record(&[0x02, 0x08]), Ok(Record { values: vec![Value::Integer(0)] }));
}

#[test]
fn record_several_columns() {
    let payload = [0x04, 0x01, 0x11, 0x00, 0x2a, b'h', b'i', 0x77];
    assert_eq!(
        read_record(&payload),
        Ok(Record {
            values: vec![Value::Integer(42), Value::Text("hi".to_string()), Value::Null]
        })
    );
}

#[test]
fn record_fits_in_payload() {
    let payload = [0x03, 0x02, 0x0e, 0x01, 0x02, 0xab];
    let record = read_record(&payload).unwrap();
    assert_eq!(record.values, vec![Value::Integer(258), Value::Blob(vec![0xab])]);
    assert!(3 + 2 + 1 <= payload.len());
    assert_eq!(read_record(&payload[..5]), Err(DecodeError::OutOfBounds));
}

#[test]
fn record_header_shorter_than_its_length_varint() {
    assert_eq!(read_record(&[0x00]), Err(DecodeError::MalformedHeader));
}

#[test]
fn record_serial_type_past_header_end() {
    assert_eq!(read_record(&[0x02, 0x81, 0x01]), Err(DecodeError::MalformedHeader));
}

#[test]
fn record_reserved_serial_type() {
    assert_eq!(read_record(&[0x02, 0x0a]), Err(DecodeError::InvalidSerialType(10)));
}

#[test]
fn record_header_past_payload() {
    assert_eq!(read_record(&[0x05, 0x01]), Err(DecodeError::OutOfBounds));
    assert_eq!(read_record(&[]), Err(DecodeError::OutOfBounds));
}

#[test]
fn cell_table_leaf() {
    let page = [0xaa, 0x05, 0x01, 0x02, 0x08, 0x00, 0x00, 0x00, 0xbb];
    assert_eq!(
        read_btree_cell(&page, &PageType::TableLeaf, 1),
        Ok(leaf_cell(&[0x02, 0x08, 0x00, 0x00, 0x00]))
    );
}

#[test]
fn cell_payload_past_page_end() {
    let page = [0x05, 0x01, 0x02, 0x08];
    assert_eq!(read_btree_cell(&page, &PageType::TableLeaf, 0), Err(DecodeError::OutOfBounds));
    assert_eq!(read_btree_cell(&page, &PageType::TableLeaf, 9), Err(DecodeError::OutOfBounds));
}

#[test]
fn cell_of_other_page_types_unsupported() {
    let page = [0x05, 0x01, 0x02, 0x08, 0, 0, 0];
    for t in [PageType::IndexInterior, PageType::TableInterior, PageType::IndexLeaf] {
        assert_eq!(read_btree_cell(&page, &t, 0), Err(DecodeError::UnsupportedCellVariant));
    }
}

#[test]
fn page_type_tags() {
    assert_eq!(PageType::try_from(2), Ok(PageType::IndexInterior));
    assert_eq!(PageType::try_from(5), Ok(PageType::TableInterior));
    assert_eq!(PageType::try_from(10), Ok(PageType::IndexLeaf));
    assert_eq!(PageType::try_from(13), Ok(PageType::TableLeaf));
    assert_eq!(PageType::try_from(0), Err(DecodeError::InvalidPageType(0)));
}

#[test]
fn page_empty_table_leaf() {
    let mut page = vec![0u8; 4096];
    page[0] = 13;
    page[1] = 0x00;
    page[2] = 0x10;
    page[5] = 0x10;
    page[6] = 0x00;
    page[7] = 3;
    let decoded = read_btree_page(&page, 2).unwrap();
    assert_eq!(decoded.header.page_type, PageType::TableLeaf);
    assert_eq!(decoded.header.first_freeblock_offset, 0x10);
    assert_eq!(decoded.header.num_cells, 0);
    assert_eq!(decoded.header.cell_content_area, 0x1000);
    assert_eq!(decoded.header.num_frag_free_bytes, 3);
    assert_eq!(decoded.header.right_most_pointer, None);
    assert!(decoded.cells.is_empty());
}

#[test]
fn page_one_leaf_cell() {
    let mut page = vec![0u8; 4096];
    page[0] = 13;
    page[4] = 1;
    page[5] = 0x0f;
    page[6] = 0xf0;
    page[8] = 0x0f;
    page[9] = 0xf0;
    page[0xff0..0xff4].copy_from_slice(&[0x05, 0x01, 0x02, 0x08]);
    let decoded = read_btree_page(&page, 3).unwrap();
    assert_eq!(decoded.header.num_cells, 1);
    assert_eq!(decoded.cells.len(), 1);
    let BTreeCell::TableLeafCell(cell) = &decoded.cells[0];
    assert_eq!(cell.rowid, 1);
    assert_eq!(cell.payload, vec![0x02, 0x08, 0, 0, 0]);
    let record = read_record(&cell.payload).unwrap();
    assert_eq!(record.values, vec![Value::Integer(0)]);
}

#[test]
fn page_one_starts_after_file_header() {
    let mut page = header_bytes([0x10, 0x00]);
    page.resize(4096, 0);
    page[100] = 5;
    page[103] = 0;
    page[104] = 0;
    page[108..112].copy_from_slice(&[0, 0, 0, 7]);
    let decoded = read_btree_page(&page, 1).unwrap();
    assert_eq!(decoded.header.page_type, PageType::TableInterior);
    assert_eq!(decoded.header.right_most_pointer, Some(7));
    assert!(decoded.cells.is_empty());
}

#[test]
fn page_invalid_type() {
    let mut page = vec![0u8; 512];
    page[0] = 7;
    assert_eq!(read_btree_page(&page, 2).unwrap_err(), DecodeError::InvalidPageType(7));
}

#[test]
fn page_cell_payload_past_end() {
    let mut page = vec![0u8; 512];
    page[0] = 13;
    page[4] = 1;
    page[8] = 0x01;
    page[9] = 0xfc;
    page[0x1fc..0x200].copy_from_slice(&[0x7f, 0x01, 0x02, 0x08]);
    assert_eq!(read_btree_page(&page, 2).unwrap_err(), DecodeError::OutOfBounds);
}

#[test]
fn page_interior_cells_unsupported() {
    let mut page = vec![0u8; 512];
    page[0] = 5;
    page[4] = 1;
    page[12] = 0x01;
    assert_eq!(read_btree_page(&page, 2).unwrap_err(), DecodeError::UnsupportedCellVariant);
}

#[test]
fn page_corrupt_record_fails_page() {
    let mut page = vec![0u8; 512];
    page[0] = 13;
    page[4] = 1;
    page[8] = 0x01;
    page[9] = 0x00;
    page[0x100..0x104].copy_from_slice(&[0x02, 0x01, 0x02, 0x0a]);
    assert_eq!(read_btree_page(&page, 2).unwrap_err(), DecodeError::InvalidSerialType(10));
}

#[test]
fn page_too_short() {
    assert_eq!(read_btree_page(&[13, 0, 0], 2).unwrap_err(), DecodeError::OutOfBounds);
    assert_eq!(read_btree_page(&[13; 50], 1).unwrap_err(), DecodeError::OutOfBounds);
}

#[test]
fn header_page_size_4096() {
    let h = read_database_header(&header_bytes([0x10, 0x00])).unwrap();
    assert_eq!(h.page_size, 4096);
    assert_eq!(h.page_size_bytes(), 4096);
    assert_eq!(&h.magic, SIGNATURE);
}

#[test]
fn header_page_size_one_is_65536() {
    let h = read_database_header(&header_bytes([0x00, 0x01])).unwrap();
    assert_eq!(h.page_size, 1);
    assert_eq!(h.page_size_bytes(), 65536);
}

#[test]
fn header_fields_big_endian() {
    let mut b = header_bytes([0x02, 0x00]);
    b[18] = 1;
    b[19] = 2;
    b[20] = 12;
    b[21] = 64;
    b[24..28].copy_from_slice(&[0, 0, 1, 2]);
    b[28..32].copy_from_slice(&[0, 0, 0, 9]);
    b[56..60].copy_from_slice(&[0, 0, 0, 1]);
    b[72] = 0x5a;
    b[91] = 0xa5;
    b[96..100].copy_from_slice(&[0x00, 0x2d, 0xe2, 0x18]);
    let h = read_database_header(&b).unwrap();
    assert_eq!(h.page_size, 512);
    assert_eq!(h.write_version, 1);
    assert_eq!(h.read_version, 2);
    assert_eq!(h.unused_space, 12);
    assert_eq!(h.max_embed_frac, 64);
    assert_eq!(h.change_counter, 258);
    assert_eq!(h.database_size, 9);
    assert_eq!(h.text_encoding, 1);
    assert_eq!(h.reserved[0], 0x5a);
    assert_eq!(h.reserved[19], 0xa5);
    assert_eq!(h.version_number, 3007000);
}

#[test]
fn header_too_short() {
    let b = header_bytes([0x10, 0x00]);
    assert_eq!(read_database_header(&b[..99]), Err(DecodeError::MalformedHeader));
}

#[test]
fn header_bad_signature() {
    let mut b = header_bytes([0x10, 0x00]);
    b[3] = b'l';
    assert_eq!(read_database_header(&b), Err(DecodeError::MalformedHeader));
}

#[test]
fn header_bad_page_size() {
    for size in [[0x00, 0x00], [0x01, 0x00], [0x03, 0xe8], [0x80, 0x01]] {
        let b = header_bytes(size);
        assert_eq!(read_database_header(&b), Err(DecodeError::MalformedHeader));
    }
}
