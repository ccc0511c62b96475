use pac_windows::column::{
    buffer_size, is_answer, retrieve_column_value, CellText, ColumnValue, RawFloat, Retrieved,
    BINARY_BUFFER, TEXT_BUFFER,
};

fn answer(size: usize, actual: u32, data: &[u8]) -> Retrieved {
    let mut buf = vec![0u8; size];
    buf[..data.len()].copy_from_slice(data);
    Retrieved { err: 0, actual, buf }
}

fn value(col_type: u32, data: &[u8]) -> ColumnValue {
    let r = answer(buffer_size(col_type), data.len() as u32, data);
    assert!(is_answer(&r, col_type));
    retrieve_column_value(&r, col_type)
}

fn ready(v: &ColumnValue) -> String {
    match v.to_text() {
        CellText::Ready(text) => text,
        other => panic!("{:?}", other),
    }
}

#[test]
fn buffers_follow_the_type() {
    assert_eq!(buffer_size(1), 4);
    assert_eq!(buffer_size(3), 2);
    assert_eq!(buffer_size(6), 4);
    assert_eq!(buffer_size(8), 8);
    assert_eq!(buffer_size(10), TEXT_BUFFER);
    assert_eq!(buffer_size(12), 512);
    assert_eq!(buffer_size(9), BINARY_BUFFER);
    assert_eq!(buffer_size(16), 4096);
    assert_eq!(buffer_size(99), 4096);
}

#[test]
fn integers_of_all_sizes() {
    assert!(matches!(value(1, &[1, 0, 0, 0]), ColumnValue::Long(1)));
    assert!(matches!(value(2, &[0xFF, 0xFF, 0xFF, 0xFF]), ColumnValue::Long(-1)));
    assert!(matches!(value(3, &[0xFE, 0xFF]), ColumnValue::Short(-2)));
    assert!(matches!(value(4, &[0, 0, 0, 0x80]), ColumnValue::Long(i32::MIN)));
    assert!(matches!(value(14, &[0xFF, 0xFF, 0xFF, 0xFF]), ColumnValue::UnsignedLong(u32::MAX)));
    assert!(matches!(
        value(15, &[0xFF, 0xFF, 0xFF, 0xFF, 0xFF, 0xFF, 0xFF, 0xFF]),
        ColumnValue::LongLong(-1)
    ));
}

#[test]
fn numbers_keep_their_bits() {
    let single = 1.5f32;
    assert!(matches!(
        value(6, &single.to_le_bytes()),
        ColumnValue::Float(RawFloat::Single(bits)) if bits == single.to_bits()
    ));
    let double = -2.25f64;
    for col_type in [5, 7] {
        assert!(matches!(
            value(col_type, &double.to_le_bytes()),
            ColumnValue::Float(RawFloat::Double(bits)) if bits == double.to_bits()
        ));
    }
    let date = 45000.5f64;
    assert!(matches!(
        value(8, &date.to_le_bytes()),
        ColumnValue::DateTime(bits) if bits == date.to_bits()
    ));
}

#[test]
fn text_and_bytes() {
    assert!(matches!(value(10, b"a\0b\0"), ColumnValue::Text(t) if t == "ab"));
    assert!(matches!(value(12, b"plain"), ColumnValue::Text(t) if t == "plain"));
    for col_type in [9, 11, 16, 0, 13, 17] {
        assert!(matches!(value(col_type, &[1, 2]), ColumnValue::Binary(b) if b == [1, 2]));
    }
}

#[test]
fn failures_and_wrong_sizes_are_null() {
    for col_type in 0..20u32 {
        let size = buffer_size(col_type);
        let failed = Retrieved { err: -1, actual: size as u32, buf: vec![7; size] };
        assert!(retrieve_column_value(&failed, col_type).is_null());
        let empty = Retrieved { err: 0, actual: 0, buf: vec![7; size] };
        assert!(retrieve_column_value(&empty, col_type).is_null());
    }
    for col_type in [1, 2, 4, 6, 14] {
        assert!(retrieve_column_value(&answer(4, 1, &[1]), col_type).is_null());
    }
    assert!(retrieve_column_value(&answer(2, 4, &[1]), 3).is_null());
    assert!(retrieve_column_value(&answer(8, 4, &[1]), 15).is_null());
}

#[test]
fn warnings_still_give_a_value() {
    let warned = Retrieved { err: 1006, actual: 4, buf: vec![9, 0, 0, 0] };
    assert!(matches!(retrieve_column_value(&warned, 4), ColumnValue::Long(9)));
}

#[test]
fn answers_must_fit_their_buffer() {
    assert!(is_answer(&answer(TEXT_BUFFER, 512, &[]), 10));
    assert!(!is_answer(&answer(TEXT_BUFFER, 513, &[]), 10));
    assert!(!is_answer(&answer(BINARY_BUFFER, 4097, &[]), 9));
    assert!(is_answer(&Retrieved { err: -1, actual: 9999, buf: vec![0; TEXT_BUFFER] }, 12));
    assert!(is_answer(&answer(4, 8, &[]), 4));
    assert!(!is_answer(&answer(8, 4, &[]), 4));
}

#[test]
fn retrieved_cells() {
    assert_eq!(answer(4, 4, &[1, 2, 3, 4]).retrieve_u32(), Some(0x04030201));
    assert_eq!(answer(4, 2, &[1, 2]).retrieve_u32(), None);
    assert_eq!(answer(8, 3, &[1, 2, 3]).retrieve_bytes(), Some(vec![1, 2, 3]));
    assert_eq!(answer(8, 0, &[]).retrieve_bytes(), None);
    assert_eq!(answer(8, 4, b"a\0b\0").retrieve_string(), Some("ab".to_string()));
    assert_eq!(Retrieved { err: -5, actual: 4, buf: vec![0; 8] }.retrieve_string(), None);
}

#[test]
fn values_as_text() {
    assert_eq!(ready(&ColumnValue::Long(-42)), "-42");
    assert_eq!(ready(&ColumnValue::LongLong(i64::MIN)), "-9223372036854775808");
    assert_eq!(ready(&ColumnValue::UnsignedLong(u32::MAX)), "4294967295");
    assert_eq!(ready(&ColumnValue::Short(-7)), "-7");
    assert_eq!(ready(&ColumnValue::Text("DRAM".to_string())), "DRAM");
    assert_eq!(ready(&ColumnValue::Binary(vec![1, 0xab])), "[01, ab]");
    assert_eq!(ready(&ColumnValue::Null), "NULL");
}

#[test]
fn numbers_and_dates_hand_on_their_bits() {
    let number = ColumnValue::Float(RawFloat::Double(5)).to_text();
    assert!(matches!(number, CellText::Float(RawFloat::Double(5))));
    assert!(matches!(ColumnValue::DateTime(6).to_text(), CellText::Date(6)));
}

#[test]
fn identifiers_ignore_the_sign() {
    let bytes = [0xFFu8, 0xFF, 0xFF, 0xFF];
    assert_eq!(value(4, &bytes).numeric_id(), Some(u32::MAX));
    assert_eq!(value(14, &bytes).numeric_id(), Some(u32::MAX));
    assert_eq!(ColumnValue::Short(-1).numeric_id(), Some(u32::MAX));
    assert_eq!(ColumnValue::LongLong(0x1_0000_0007).numeric_id(), Some(7));
    assert_eq!(ColumnValue::Text("7".to_string()).numeric_id(), None);
    assert_eq!(ColumnValue::Null.numeric_id(), None);
}
