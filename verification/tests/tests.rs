use rsv_core::reader::Reader;
use rsv_core::utils::{NULL_BYTE, ROW_TERM_BYTE, VALUE_TERM_BYTE};

#[test]
fn seq_deserialization() {
    // empty buffer
    let buffer: Vec<u8> = vec![];
    let mut row_count = 0;
    let mut reader = Reader::from_reader(&*buffer);
    let mut rows = reader.deserialize();
    while let Some(result) = rows.next() {
        assert!(result.is_ok());
        assert!(result.unwrap().len() == 0);
        row_count += 1;
    }
    assert!(row_count == 0);

    // 3 empty rows
    let buffer: Vec<u8> = vec![ROW_TERM_BYTE, ROW_TERM_BYTE, ROW_TERM_BYTE];
    let mut row_count = 0;
    let mut reader = Reader::from_reader(&*buffer);
    let mut rows = reader.deserialize();
    while let Some(result) = rows.next() {
        assert!(result.is_ok());
        assert!(result.unwrap().len() == 0);
        row_count += 1;
    }
    assert!(row_count == 3);

    // 3 rows with empty strings
    let buffer: Vec<u8> = vec![
        VALUE_TERM_BYTE, ROW_TERM_BYTE,
        VALUE_TERM_BYTE, ROW_TERM_BYTE,
        VALUE_TERM_BYTE, ROW_TERM_BYTE,
    ];
    let mut row_count = 0;
    let mut reader = Reader::from_reader(&*buffer);
    let mut rows = reader.deserialize();
    while let Some(result) = rows.next() {
        assert!(result.is_ok());
        let row = result.unwrap();
        assert!(row.len() == 1);
        assert!(row[0] == "");
        row_count += 1;
    }
    assert!(row_count == 3);

    // 5 rows with non-empty strings
    let buffer: Vec<u8> = vec![
        b'a', VALUE_TERM_BYTE, ROW_TERM_BYTE,
        b'a', b'b', b'c', VALUE_TERM_BYTE, ROW_TERM_BYTE,
        b'x', VALUE_TERM_BYTE, ROW_TERM_BYTE,
        b'y', VALUE_TERM_BYTE, ROW_TERM_BYTE,
        b'z', VALUE_TERM_BYTE, ROW_TERM_BYTE,
    ];
    let mut row_count = 0;
    let mut reader = Reader::from_reader(&*buffer);
    let mut rows = reader.deserialize();
    while let Some(result) = rows.next() {
        assert!(result.is_ok());
        assert!(result.unwrap().len() > 0);
        row_count += 1;
    }
    assert!(row_count == 5);

    // 3 rows with multiple strings
    let buffer: Vec<u8> = vec![
        b'a', VALUE_TERM_BYTE, b'a', b'b', b'c', VALUE_TERM_BYTE, b'x', VALUE_TERM_BYTE, ROW_TERM_BYTE,
        ROW_TERM_BYTE,
        b'y', VALUE_TERM_BYTE, b'x', b'z', VALUE_TERM_BYTE, ROW_TERM_BYTE,
    ];
    let mut row_count = 0;
    let mut reader = Reader::from_reader(&*buffer);
    let mut rows = reader.deserialize();
    while let Some(result) = rows.next() {
        assert!(result.is_ok());
        let value = result.unwrap();
        if row_count == 1 {
            assert!(value.len() == 0);
        } else {
            assert!(value.len() > 1);
        }
        row_count += 1;
    }
    assert!(row_count == 3);
}

#[test]
fn reserved_bytes_are_distinct() {
    assert_eq!(NULL_BYTE, 0xFE);
    assert_eq!(ROW_TERM_BYTE, 0xFD);
    assert_eq!(VALUE_TERM_BYTE, 0xFF);
}
