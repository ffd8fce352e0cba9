use mysql_core::value::Value;

fn text(v: Value) -> String {
    v.into_str().unwrap()
}

#[test]
fn test_value_into_str() {
    let v = Value::NULL;
    assert!(text(v) == "NULL");
    let v = Value::Bytes("hello".as_bytes().to_vec());
    assert!(text(v) == "'hello'");
    let v = Value::Bytes("h'e'l'l'o".as_bytes().to_vec());
    assert!(text(v) == "'h\\'e\\'l\\'l\\'o'");
    let v = Value::Bytes(vec![0, 1, 2, 3, 4, 255]);
    assert!(text(v) == "0x0001020304FF");
    let v = Value::Int(-65536);
    assert!(text(v) == "-65536");
    let v = Value::UInt(4294967296);
    assert!(text(v) == "4294967296");
    let v = Value::Float(686.868f64.to_bits());
    assert!(v.into_str().is_none());
    assert!(f64::from_bits(v.get_float().unwrap()).to_string() == "686.868");
    let v = Value::Date(0, 0, 0, 0, 0, 0, 0);
    assert!(text(v) == "''");
    let v = Value::Date(2014, 2, 20, 0, 0, 0, 0);
    assert!(text(v) == "'2014-02-20'");
    let v = Value::Date(2014, 2, 20, 22, 0, 0, 0);
    assert!(text(v) == "'2014-02-20 22:00:00'");
    let v = Value::Date(2014, 2, 20, 22, 0, 0, 1);
    assert!(text(v) == "'2014-02-20 22:00:00.000001'");
    let v = Value::Time(false, 0, 0, 0, 0, 0);
    assert!(text(v) == "''");
    let v = Value::Time(true, 34, 3, 2, 1, 0);
    assert!(text(v) == "'-34 003:02:01'");
    let v = Value::Time(false, 10, 100, 20, 30, 40);
    assert!(text(v) == "'10 100:20:30.000040'");
}

#[test]
fn utf8_text_is_quoted_and_escaped() {
    let v = Value::Bytes("é'x".as_bytes().to_vec());
    assert!(text(v) == "'é\\'x'");
    let v = Value::Bytes(vec![0xc3, b'\'']);
    assert!(text(v) == "0xC327");
    let v = Value::Bytes(vec![]);
    assert!(text(v) == "''");
    let v = Value::Int(i64::MIN);
    assert!(text(v) == "-9223372036854775808");
    let v = Value::UInt(0);
    assert!(text(v) == "0");
    let v = Value::Date(5, 1, 2, 0, 0, 0, 7);
    assert!(text(v) == "'0005-01-02 00:00:00.000007'");
}
