use mysql_core::consts::{MYSQL_TYPE_DATE, MYSQL_TYPE_DOUBLE, MYSQL_TYPE_FLOAT, MYSQL_TYPE_LONG, MYSQL_TYPE_LONGLONG};
use mysql_core::consts::{MYSQL_TYPE_NULL, MYSQL_TYPE_TIME, MYSQL_TYPE_TINY, MYSQL_TYPE_VAR_STRING, UNSIGNED_FLAG};
use mysql_core::packets::Column;
use mysql_core::value::{read_bin_value, widen_float, Value};

fn param_type(v: &Value) -> (u8, bool) {
    match v {
        Value::NULL => (MYSQL_TYPE_NULL, false),
        Value::Bytes(_) => (MYSQL_TYPE_VAR_STRING, false),
        Value::Int(_) => (MYSQL_TYPE_LONGLONG, false),
        Value::UInt(_) => (MYSQL_TYPE_LONGLONG, true),
        Value::Float(_) => (MYSQL_TYPE_DOUBLE, false),
        Value::Date(..) => (MYSQL_TYPE_DATE, false),
        Value::Time(..) => (MYSQL_TYPE_TIME, false),
    }
}

#[test]
fn binary_round_trip_every_variant() {
    let values = vec![
        Value::NULL,
        Value::Bytes(b"hello".to_vec()),
        Value::Bytes(vec![]),
        Value::Int(-123),
        Value::Int(i64::MIN),
        Value::UInt(u64::MAX),
        Value::Float(1.5f64.to_bits()),
        Value::Date(0, 0, 0, 0, 0, 0, 0),
        Value::Date(2014, 5, 5, 0, 0, 0, 0),
        Value::Date(2014, 5, 5, 22, 1, 2, 0),
        Value::Date(2014, 5, 5, 22, 1, 2, 999999),
        Value::Time(false, 0, 0, 0, 0, 0),
        Value::Time(true, 34, 3, 2, 1, 0),
        Value::Time(false, 10, 100, 20, 30, 40),
    ];
    for v in values {
        let bytes = v.to_bin();
        let (t, unsigned) = param_type(&v);
        let (back, end) = read_bin_value(&bytes, 0, t, unsigned).unwrap();
        assert!(back == v);
        assert_eq!(end, bytes.len());
    }
}

#[test]
fn binary_encoding_lengths() {
    assert_eq!(Value::Date(0, 0, 0, 0, 0, 0, 0).to_bin(), vec![0]);
    assert_eq!(Value::Date(2014, 5, 5, 0, 0, 0, 0).to_bin(), vec![4, 0xde, 0x07, 5, 5]);
    assert_eq!(Value::Date(2014, 5, 5, 1, 2, 3, 0).to_bin().len(), 8);
    assert_eq!(Value::Date(2014, 5, 5, 1, 2, 3, 4).to_bin().len(), 12);
    assert_eq!(Value::Time(true, 1, 2, 3, 4, 0).to_bin(), vec![8, 1, 1, 0, 0, 0, 2, 3, 4]);
    assert_eq!(Value::Time(false, 1, 2, 3, 4, 5).to_bin().len(), 13);
    assert_eq!(Value::Int(-1).to_bin(), vec![0xff; 8]);
    assert!(Value::NULL.to_bin().is_empty());
}

#[test]
fn negative_zero_time_comes_back_as_zero_time() {
    let bytes = Value::Time(true, 0, 0, 0, 0, 0).to_bin();
    let (back, _) = read_bin_value(&bytes, 0, MYSQL_TYPE_TIME, false).unwrap();
    assert!(back == Value::Time(false, 0, 0, 0, 0, 0));
}

#[test]
fn narrow_integers_sign_extend_unless_unsigned() {
    assert!(read_bin_value(&[0xff], 0, MYSQL_TYPE_TINY, false).unwrap().0 == Value::Int(-1));
    assert!(read_bin_value(&[0xff], 0, MYSQL_TYPE_TINY, true).unwrap().0 == Value::Int(255));
    assert!(read_bin_value(&[0x85, 0xff, 0xff, 0xff], 0, MYSQL_TYPE_LONG, false).unwrap().0 == Value::Int(-123));
    assert!(read_bin_value(&[123, 0, 0, 0], 0, MYSQL_TYPE_LONG, true).unwrap().0 == Value::Int(123));
    assert!(read_bin_value(&[1, 2], 0, MYSQL_TYPE_LONG, true).is_none());
}

#[test]
fn float_columns_widen_to_double() {
    let cases: [f32; 7] = [1.5, -0.0, 0.0, 123.123, f32::INFINITY, f32::MIN_POSITIVE / 4.0, -f32::MAX];
    for f in cases.iter() {
        assert_eq!(widen_float(f.to_bits()), (*f as f64).to_bits());
        let bytes = f.to_bits().to_le_bytes();
        let v = read_bin_value(&bytes, 0, MYSQL_TYPE_FLOAT, false).unwrap().0;
        assert!(v == Value::Float((*f as f64).to_bits()));
    }
    assert!(f64::from_bits(widen_float(f32::NAN.to_bits())).is_nan());
}

#[test]
fn text_row_with_null() {
    let pld = [3u8, b'f', b'o', b'o', 0xfb, 2, b'4', b'2'];
    let row = Value::from_payload(&pld, 3).unwrap();
    assert!(row == vec![Value::Bytes(b"foo".to_vec()), Value::NULL, Value::Bytes(b"42".to_vec())]);
    assert!(Value::from_payload(&[5, 1, 2], 1).is_err());
}

fn column(column_type: u8, flags: u16) -> Column {
    Column {
        catalog: vec![],
        schema: vec![],
        table: vec![],
        org_table: vec![],
        name: vec![],
        org_name: vec![],
        default_values: vec![],
        column_length: 0,
        character_set: 0,
        flags,
        column_type,
        decimals: 0,
    }
}

#[test]
fn binary_row_with_null_bitmap() {
    let columns = vec![
        column(MYSQL_TYPE_VAR_STRING, 0),
        column(MYSQL_TYPE_LONG, 0),
        column(MYSQL_TYPE_LONG, UNSIGNED_FLAG),
        column(MYSQL_TYPE_DATE, 0),
    ];
    let mut pld = vec![0u8, 0b0001_0000];
    pld.extend_from_slice(&[5, b'h', b'e', b'l', b'l', b'o']);
    pld.extend_from_slice(&[0x85, 0xff, 0xff, 0xff]);
    pld.extend_from_slice(&[4, 0xde, 0x07, 5, 5]);
    let row = Value::from_bin_payload(&pld, &columns).unwrap();
    assert!(
        row == vec![
            Value::Bytes(b"hello".to_vec()),
            Value::Int(-123),
            Value::NULL,
            Value::Date(2014, 5, 5, 0, 0, 0, 0)
        ]
    );
    assert!(Value::from_bin_payload(&[0u8], &columns).is_err());
}

#[test]
fn parameter_block_bitmap_and_long_data() {
    let values = vec![Value::Int(1), Value::NULL, Value::Bytes(vec![7u8; 100]), Value::NULL, Value::Bytes(vec![1, 2])];
    let (bitmap, inline, ids) = Value::to_bin_payload(&values, 1000);
    assert_eq!(bitmap, vec![0b0000_1010]);
    assert!(ids.is_empty());
    assert_eq!(inline.len(), 8 + 101 + 3);
    let (bitmap, inline, ids) = Value::to_bin_payload(&values, 100);
    assert_eq!(bitmap, vec![0b0000_1010]);
    assert_eq!(ids, vec![2]);
    assert_eq!(inline.len(), 8 + 3);
    let many = vec![Value::NULL; 9];
    let (bitmap, _, _) = Value::to_bin_payload(&many, 1000);
    assert_eq!(bitmap, vec![0xff, 0x01]);
}

#[test]
fn accessors() {
    let v = Value::Date(2014, 2, 20, 22, 1, 2, 3);
    assert!(v.is_date() && !v.is_time());
    assert_eq!(v.get_year(), Some(2014));
    assert_eq!(v.get_month(), Some(2));
    assert_eq!(v.get_day(), Some(20));
    assert_eq!(v.get_hour(), Some(22));
    assert_eq!(v.get_min(), Some(1));
    assert_eq!(v.get_sec(), Some(2));
    assert_eq!(v.get_usec(), Some(3));
    let t = Value::Time(true, 5, 6, 7, 8, 9);
    assert_eq!(t.is_neg(), Some(true));
    assert_eq!(t.get_days(), Some(5));
    assert_eq!(t.get_hour(), Some(6));
    assert_eq!(t.get_year(), None);
    assert_eq!(Value::Int(3).get_int(), Some(3));
    assert_eq!(Value::UInt(3).get_int(), None);
    assert_eq!(Value::UInt(3).get_int_or(9), 9);
    assert_eq!(Value::UInt(3).get_uint_or(9), 3);
    assert_eq!(Value::Float(5).get_float_or(1), 5);
    assert!(Value::Bytes(vec![1]).is_bytes());
    assert_eq!(Value::Bytes(vec![1]).bytes_ref(), Some(&[1u8][..]));
    assert_eq!(Value::Bytes(vec![1]).unwrap_bytes(), Some(vec![1]));
    assert_eq!(Value::NULL.unwrap_bytes_or(vec![2]), vec![2]);
    assert!(Value::UInt(1).is_uint() && Value::Int(1).is_int() && Value::Float(0).is_float());
}
