use rsv_core::decimal::{signed_text, unsigned_text};
use rsv_core::deserializer::DeRecord;
use rsv_core::error::{Error, ErrorKind};
use rsv_core::reader::{read_outcome, Reader};
use rsv_core::utils::{NULL_BYTE, ROW_TERM_BYTE, VALUE_TERM_BYTE};
use rsv_core::writer::Writer;

fn new_writer() -> Writer {
    Writer::from_writer_unbuffered(Vec::new())
}

fn is_encode_error(r: Result<(), Error>) -> bool {
    match r {
        Err(e) => matches!(e.0, ErrorKind::Serialize(_)),
        Ok(_) => false,
    }
}

#[test]
fn decimal_text_of_numbers() {
    assert_eq!(unsigned_text(0), b"0".to_vec());
    assert_eq!(unsigned_text(9), b"9".to_vec());
    assert_eq!(unsigned_text(10), b"10".to_vec());
    assert_eq!(unsigned_text(30202), b"30202".to_vec());
    assert_eq!(unsigned_text(u64::MAX), b"18446744073709551615".to_vec());
    assert_eq!(signed_text(0), b"0".to_vec());
    assert_eq!(signed_text(-1), b"-1".to_vec());
    assert_eq!(signed_text(-30202), b"-30202".to_vec());
    assert_eq!(signed_text(i64::MIN), b"-9223372036854775808".to_vec());
    assert_eq!(signed_text(i64::MAX), b"9223372036854775807".to_vec());
}

#[test]
fn decimal_text_agrees_with_std_to_string() {
    for v in [0u64, 1, 9, 10, 99, 100, 12345, u32::MAX as u64, u64::MAX - 1, u64::MAX] {
        assert_eq!(unsigned_text(v), v.to_string().into_bytes());
    }
    for v in [0i64, 1, -1, 9, -9, 10, -10, 127, -128, i32::MIN as i64, i64::MIN, i64::MAX] {
        assert_eq!(signed_text(v), v.to_string().into_bytes());
    }
}

#[test]
fn from_writer_unbuffered_keeps_what_the_sink_holds() {
    let mut w = Writer::from_writer_unbuffered(vec![1, 2, 3]);
    assert_eq!(w.get_ref(), &vec![1, 2, 3]);
    w.write_row_term().unwrap();
    assert_eq!(w.get_ref(), &vec![1, 2, 3, ROW_TERM_BYTE]);
}

#[test]
fn flush_changes_nothing() {
    let mut w = new_writer();
    w.write_value(b"a").unwrap();
    let before = w.get_ref().clone();
    assert!(w.flush().is_ok());
    assert_eq!(w.get_ref(), &before);
}

#[test]
fn write_value_null_and_row_term() {
    let mut w = new_writer();
    w.write_value(b"ab").unwrap();
    w.write_null().unwrap();
    w.write_value(b"").unwrap();
    w.write_row_term().unwrap();
    assert_eq!(
        w.get_ref(),
        &vec![b'a', b'b', VALUE_TERM_BYTE, NULL_BYTE, VALUE_TERM_BYTE, VALUE_TERM_BYTE, ROW_TERM_BYTE]
    );
}

#[test]
fn write_record_writes_fields_then_row_terminator() {
    let mut w = new_writer();
    let rec: Vec<Option<&[u8]>> = vec![Some(b"Hello"), None, Some(b""), Some(b"x")];
    w.write_record(&rec).unwrap();
    let empty: Vec<Option<&[u8]>> = vec![];
    w.write_record(&empty).unwrap();
    let mut expected = b"Hello".to_vec();
    expected.push(VALUE_TERM_BYTE);
    expected.extend_from_slice(&[NULL_BYTE, VALUE_TERM_BYTE]);
    expected.push(VALUE_TERM_BYTE);
    expected.extend_from_slice(&[b'x', VALUE_TERM_BYTE, ROW_TERM_BYTE]);
    expected.push(ROW_TERM_BYTE);
    assert_eq!(w.get_ref(), &expected);
}

#[test]
fn serialize_scalars_as_text_fields() {
    let mut w = new_writer();
    w.serialize_bool(true).unwrap();
    w.serialize_bool(false).unwrap();
    w.serialize_i8(-8).unwrap();
    w.serialize_i16(-16).unwrap();
    w.serialize_i32(-32).unwrap();
    w.serialize_i64(-64).unwrap();
    w.serialize_u8(8).unwrap();
    w.serialize_u16(16).unwrap();
    w.serialize_u32(32).unwrap();
    w.serialize_u64(64).unwrap();
    w.serialize_str("Four").unwrap();
    w.serialize_bytes(&[1, 2]).unwrap();
    w.serialize_none().unwrap();
    w.serialize_unit_struct("Marker").unwrap();
    let mut expected: Vec<u8> = Vec::new();
    for text in ["true", "false", "-8", "-16", "-32", "-64", "8", "16", "32", "64", "Four"] {
        expected.extend_from_slice(text.as_bytes());
        expected.push(VALUE_TERM_BYTE);
    }
    expected.extend_from_slice(&[1, 2, VALUE_TERM_BYTE]);
    expected.extend_from_slice(&[NULL_BYTE, VALUE_TERM_BYTE]);
    expected.extend_from_slice(b"Marker");
    expected.push(VALUE_TERM_BYTE);
    assert_eq!(w.get_ref(), &expected);
}

#[test]
fn serialize_char_writes_low_byte() {
    let mut w = new_writer();
    w.serialize_char('a').unwrap();
    w.serialize_char('é').unwrap();
    w.serialize_char('€').unwrap();
    assert_eq!(
        w.get_ref(),
        &vec![b'a', VALUE_TERM_BYTE, 0xE9, VALUE_TERM_BYTE, 0xAC, VALUE_TERM_BYTE]
    );
}

#[test]
fn aggregates_and_present_options_leave_no_mark() {
    let mut w = new_writer();
    w.serialize_some().unwrap();
    w.serialize_seq(Some(2)).unwrap();
    w.serialize_seq(None).unwrap();
    w.serialize_tuple(2).unwrap();
    w.serialize_tuple_struct("T", 2).unwrap();
    w.serialize_struct("S", 2).unwrap();
    w.end().unwrap();
    assert!(w.get_ref().is_empty());
}

#[test]
fn unsupported_shapes_are_encode_errors() {
    let mut w = new_writer();
    assert!(is_encode_error(w.serialize_i128(1)));
    assert!(is_encode_error(w.serialize_u128(1)));
    assert!(is_encode_error(w.serialize_unit()));
    assert!(is_encode_error(w.serialize_unit_variant("E", 0, "A")));
    assert!(is_encode_error(w.serialize_newtype_struct("N")));
    assert!(is_encode_error(w.serialize_newtype_variant("E", 0, "A")));
    assert!(is_encode_error(w.serialize_tuple_variant("E", 0, "A", 2)));
    assert!(is_encode_error(w.serialize_map(None)));
    assert!(is_encode_error(w.serialize_struct_variant("E", 0, "A", 2)));
    assert!(w.get_ref().is_empty());
}

#[test]
fn error_constructors_set_kind_and_message() {
    match Error::serialize("a").0 {
        ErrorKind::Serialize(m) => assert_eq!(m, "a"),
        _ => panic!("wrong kind"),
    }
    match Error::deserialize("b").0 {
        ErrorKind::Deserialize(m) => assert_eq!(m, "b"),
        _ => panic!("wrong kind"),
    }
    match Error::io("c").0 {
        ErrorKind::IO(m) => assert_eq!(m, "c"),
        _ => panic!("wrong kind"),
    }
}

#[test]
fn scalars_round_trip() {
    let mut w = new_writer();
    w.serialize_bool(true).unwrap();
    w.serialize_bool(false).unwrap();
    w.serialize_i8(i8::MIN).unwrap();
    w.serialize_i16(i16::MIN).unwrap();
    w.serialize_i32(i32::MIN).unwrap();
    w.serialize_i64(i64::MIN).unwrap();
    w.serialize_u8(u8::MAX).unwrap();
    w.serialize_u16(u16::MAX).unwrap();
    w.serialize_u32(u32::MAX).unwrap();
    w.serialize_u64(u64::MAX).unwrap();
    w.serialize_i32(0).unwrap();
    w.serialize_str("Hello Stenway! ✓").unwrap();
    w.serialize_str("").unwrap();
    w.write_row_term().unwrap();
    let mut de = DeRecord::from_ref(w.get_ref());
    assert_eq!(de.deserialize_bool().unwrap(), true);
    assert_eq!(de.deserialize_bool().unwrap(), false);
    assert_eq!(de.deserialize_i8().unwrap(), i8::MIN);
    assert_eq!(de.deserialize_i16().unwrap(), i16::MIN);
    assert_eq!(de.deserialize_i32().unwrap(), i32::MIN);
    assert_eq!(de.deserialize_i64().unwrap(), i64::MIN);
    assert_eq!(de.deserialize_u8().unwrap(), u8::MAX);
    assert_eq!(de.deserialize_u16().unwrap(), u16::MAX);
    assert_eq!(de.deserialize_u32().unwrap(), u32::MAX);
    assert_eq!(de.deserialize_u64().unwrap(), u64::MAX);
    assert_eq!(de.deserialize_i32().unwrap(), 0);
    assert_eq!(de.deserialize_string().unwrap(), "Hello Stenway! ✓");
    assert_eq!(de.deserialize_str().unwrap(), "");
    assert!(!de.has_next_element());
}

#[test]
fn null_and_empty_string_round_trip_apart() {
    let mut w = new_writer();
    w.serialize_none().unwrap();
    w.serialize_str("").unwrap();
    w.serialize_str("x").unwrap();
    w.write_row_term().unwrap();
    let mut de = DeRecord::from_ref(w.get_ref());
    assert_eq!(de.next_value().unwrap(), None);
    assert_eq!(de.next_value().unwrap(), Some(""));
    assert_eq!(de.next_value().unwrap(), Some("x"));
}

#[test]
fn float_text_round_trips_through_string_fields() {
    let mut w = new_writer();
    w.serialize_str(&3.14f64.to_string()).unwrap();
    w.serialize_str(&(-0.5f32).to_string()).unwrap();
    w.write_row_term().unwrap();
    let mut de = DeRecord::from_ref(w.get_ref());
    assert_eq!(de.deserialize_str().unwrap().parse::<f64>().unwrap(), 3.14);
    assert_eq!(de.deserialize_str().unwrap().parse::<f32>().unwrap(), -0.5);
}

#[test]
fn read_record_splits_at_row_terminators() {
    let src: Vec<u8> = vec![b'a', VALUE_TERM_BYTE, ROW_TERM_BYTE, ROW_TERM_BYTE, b'b', VALUE_TERM_BYTE];
    let mut reader = Reader::from_reader(&src);
    let mut buf = vec![9u8];
    assert!(matches!(reader.read_record(&mut buf), Some(Ok(()))));
    assert_eq!(buf, vec![9, b'a', VALUE_TERM_BYTE, ROW_TERM_BYTE]);
    let mut buf = Vec::new();
    assert!(matches!(reader.read_record(&mut buf), Some(Ok(()))));
    assert_eq!(buf, vec![ROW_TERM_BYTE]);
    let mut buf = Vec::new();
    assert!(matches!(reader.read_record(&mut buf), Some(Ok(()))));
    assert_eq!(buf, vec![b'b', VALUE_TERM_BYTE]);
    let mut buf = Vec::new();
    assert!(reader.read_record(&mut buf).is_none());
    assert!(buf.is_empty());
    assert!(reader.read_record(&mut buf).is_none());
}

#[test]
fn empty_source_has_no_rows() {
    let src: Vec<u8> = vec![];
    let mut reader = Reader::from_reader(&src);
    assert!(reader.deserialize().next().is_none());
    assert!(reader.deserialize().collect().is_empty());
}

#[test]
fn bare_row_terminators_give_empty_rows() {
    for k in [1usize, 2, 7] {
        let src = vec![ROW_TERM_BYTE; k];
        let mut reader = Reader::from_reader(&src);
        let rows = reader.deserialize().collect();
        assert_eq!(rows.len(), k);
        for row in rows {
            assert_eq!(row.unwrap(), Vec::<String>::new());
        }
    }
}

#[test]
fn three_rows_with_an_empty_one_in_the_middle() {
    let mut w = new_writer();
    let first: Vec<Option<&[u8]>> = vec![Some(b"a"), Some(b"abc"), Some(b"x")];
    let second: Vec<Option<&[u8]>> = vec![];
    let third: Vec<Option<&[u8]>> = vec![Some(b"y"), Some(b"xz")];
    w.write_record(&first).unwrap();
    w.write_record(&second).unwrap();
    w.write_record(&third).unwrap();
    let mut reader = Reader::from_reader(w.get_ref());
    let rows = reader.deserialize().collect();
    assert_eq!(rows.len(), 3);
    let rows: Vec<Vec<String>> = rows.into_iter().map(|r| r.unwrap()).collect();
    assert_eq!(rows[0], vec!["a", "abc", "x"]);
    assert_eq!(rows[1], Vec::<String>::new());
    assert_eq!(rows[2], vec!["y", "xz"]);
}

#[test]
fn row_with_unterminated_last_field_is_decode_error() {
    let src: Vec<u8> = vec![
        b'a', VALUE_TERM_BYTE, b'b', ROW_TERM_BYTE,
        b'c', VALUE_TERM_BYTE, ROW_TERM_BYTE,
    ];
    let mut reader = Reader::from_reader(&src);
    let mut rows = reader.deserialize();
    match rows.next() {
        Some(Err(e)) => assert!(matches!(e.0, ErrorKind::Deserialize(_))),
        _ => panic!("expected a decode error"),
    }
    // the next row is still there to be pulled
    assert_eq!(rows.next().unwrap().unwrap(), vec!["c"]);
    assert!(rows.next().is_none());
}

#[test]
fn last_row_without_row_terminator_is_decode_error() {
    let src: Vec<u8> = vec![b'a', VALUE_TERM_BYTE];
    let mut reader = Reader::from_reader(&src);
    let rows = reader.deserialize().collect();
    assert_eq!(rows.len(), 1);
    match &rows[0] {
        Err(e) => assert!(matches!(e.0, ErrorKind::Deserialize(_))),
        Ok(_) => panic!("expected a decode error"),
    }
}

#[test]
fn serialize_writes_a_row_of_strings() {
    let mut w = new_writer();
    w.serialize(&["a".to_string(), "".to_string(), "bc".to_string()]).unwrap();
    w.serialize(&[]).unwrap();
    assert_eq!(
        w.get_ref(),
        &vec![
            b'a', VALUE_TERM_BYTE, VALUE_TERM_BYTE, b'b', b'c', VALUE_TERM_BYTE, ROW_TERM_BYTE,
            ROW_TERM_BYTE,
        ]
    );
}

#[test]
fn rows_of_strings_round_trip_through_a_stream() {
    let rows: Vec<Vec<String>> = vec![
        vec!["30202".to_string(), "Hello Stenway!".to_string()],
        vec![],
        vec!["".to_string()],
        vec!["ünïcödé".to_string(), "日本語".to_string(), "x".to_string()],
    ];
    let mut w = new_writer();
    for row in &rows {
        w.serialize(row).unwrap();
    }
    let mut reader = Reader::from_reader(w.get_ref());
    let read: Vec<Vec<String>> = reader.deserialize().collect().into_iter().map(|r| r.unwrap()).collect();
    assert_eq!(read, rows);
}

#[test]
fn optional_fields_round_trip_through_a_row() {
    let mut w = new_writer();
    let rec: Vec<Option<&[u8]>> = vec![Some("a".as_bytes()), None, Some("".as_bytes()), Some("日本".as_bytes()), None];
    w.write_record(&rec).unwrap();
    let mut de = DeRecord::from_ref(w.get_ref());
    assert_eq!(
        de.deserialize_fields().unwrap(),
        vec![Some("a".to_string()), None, Some("".to_string()), Some("日本".to_string()), None]
    );
}

#[test]
fn serialize_all_writes_the_rows_one_after_the_other() {
    let rows: Vec<Vec<String>> = vec![
        vec!["a".to_string(), "b".to_string()],
        vec![],
        vec!["c".to_string()],
    ];
    let mut w = Writer::from_writer_unbuffered(vec![7]);
    w.serialize_all(&rows).unwrap();
    assert_eq!(
        w.get_ref(),
        &vec![
            7, b'a', VALUE_TERM_BYTE, b'b', VALUE_TERM_BYTE, ROW_TERM_BYTE, ROW_TERM_BYTE, b'c',
            VALUE_TERM_BYTE, ROW_TERM_BYTE,
        ]
    );
    let mut one_by_one = Writer::from_writer_unbuffered(vec![7]);
    for row in &rows {
        one_by_one.serialize(row).unwrap();
    }
    assert_eq!(w.get_ref(), one_by_one.get_ref());
    let mut reader = Reader::from_reader(&w.get_ref()[1..]);
    let read: Vec<Vec<String>> = reader.deserialize().collect().into_iter().map(|r| r.unwrap()).collect();
    assert_eq!(read, rows);
    let mut none = new_writer();
    none.serialize_all(&[]).unwrap();
    assert!(none.get_ref().is_empty());
}

#[test]
fn written_char_reads_back_where_it_is_ascii() {
    let mut w = new_writer();
    w.serialize_char('a').unwrap();
    w.serialize_char('~').unwrap();
    w.write_row_term().unwrap();
    let mut de = DeRecord::from_ref(w.get_ref());
    assert_eq!(de.deserialize_char().unwrap(), 'a');
    assert_eq!(de.deserialize_char().unwrap(), '~');
    assert!(!de.has_next_element());
}

#[test]
fn read_outcome_tells_end_row_and_failure_apart() {
    assert!(read_outcome(Ok(0)).is_none());
    assert!(matches!(read_outcome(Ok(1)), Some(Ok(()))));
    assert!(matches!(read_outcome(Ok(usize::MAX)), Some(Ok(()))));
    match read_outcome(Err(Error::io("broken pipe"))) {
        Some(Err(Error(ErrorKind::IO(m)))) => assert_eq!(m, "broken pipe"),
        _ => panic!("expected the failure to be handed on"),
    }
}
