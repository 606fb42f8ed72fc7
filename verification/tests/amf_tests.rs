use rtmp::amf::DecodeError;
use rtmp::amf::Value;
use rtmp::util::bytes_from_hex_string;

fn object_from_entries(entries: Vec<(&str, Value)>) -> Value {
    let mut obj = Value::Object(Vec::new());
    for (key, val) in entries {
        obj.object_insert(key.to_string(), val);
    }
    obj
}

#[test]
fn can_read_null() {
    let bytes = bytes_from_hex_string("05");
    let (value, _pos) = Value::read(&bytes, 0).expect("read");
    assert_eq!(value, Value::Null)
}

#[test]
fn can_write_null() {
    let expected = bytes_from_hex_string("05");
    let mut buf = Vec::new();
    Value::Null.write(&mut buf).expect("write");
    assert_eq!(buf, expected);
}

// 02                       String type marker
// 00 07                    7 bytes long
// 63 6f 6e 6e 65 63 74     "connect"
#[test]
fn can_read_string() {
    let bytes = bytes_from_hex_string("02 00 07 63 6f 6e 6e 65 63 74");
    let (value, _pos) = Value::read(&bytes, 0).expect("read");
    match value {
        Value::Utf8(s) => assert_eq!(s, "connect"),
        _ => panic!("expected Utf8, got {:?}", value),
    }
}

#[test]
fn can_write_string() {
    let expected = bytes_from_hex_string("02 00 07 63 6f 6e 6e 65 63 74");
    let mut buf = Vec::new();
    Value::Utf8("connect".to_string()).write(&mut buf).expect("write");
    assert_eq!(buf, expected);
}

#[test]
fn can_read_number_zero() {
    let num: f64 = 0.0;
    let bytes: Vec<u8> = vec![0x00; 9];
    let (value, _pos) = Value::read(&bytes, 0).expect("read");
    match value {
        Value::Number(bits) => assert_eq!(bits, num.to_bits()),
        _ => panic!("expected Number, got {:?}", value),
    }
}

#[test]
fn can_write_number_zero() {
    let expected: Vec<u8> = vec![0x00; 9];
    let mut buf = Vec::new();
    Value::Number(0.0f64.to_bits()).write(&mut buf).expect("write");
    assert_eq!(buf, expected);
}

#[test]
fn can_read_bool_false() {
    let bytes = bytes_from_hex_string("01 00");
    let (value, _pos) = Value::read(&bytes, 0).expect("read");
    match value {
        Value::Boolean(b) => assert_eq!(b, false),
        _ => panic!("expected Boolean, got {:?}", value),
    }
}

#[test]
fn can_read_bool_true() {
    let bytes = bytes_from_hex_string("01 01");
    let (value, _pos) = Value::read(&bytes, 0).expect("read");
    match value {
        Value::Boolean(b) => assert_eq!(b, true),
        _ => panic!("expected Boolean, got {:?}", value),
    }
}

#[test]
fn can_write_bool_true() {
    let expected = bytes_from_hex_string("01 01");
    let mut buf = Vec::new();
    Value::Boolean(true).write(&mut buf).expect("write");
    assert_eq!(buf, expected);
}

#[test]
fn can_read_object_simple() {
    // 03                              Object marker
    //    00 06 66 6d 73 56 65 72                                  label: "fmsVer"
    //    02 00 0f 46 4d 53 2f 35 2c 30 2c 31 35 2c 35 30 30 34    value: Utf8("FMS/5,0,15,5004")
    //    00 0c 63 61 70 61 62 69 6c 69 74 69 65 73                label: "capabilities"
    //    00 40 6f e0 00 00 00 00 00                               value: Number(255.0)
    //    00 04 6d 6f 64 65                                        label: "mode"
    //    00 3f f0 00 00 00 00 00 00                               value: Number(1.0)
    //    00 00 09                     ObjectEnd
    let bytes = bytes_from_hex_string(
        "03 00 06 66 6d 73 56 65 72 02 00 0f 46 4d 53 2f 35 2c 30 2c 31 35 2c 35 30 30 34 00 0c 63 61 70 61 62 69 6c 69 74 69 65 73 00 40 6f e0 00 00 00 00 00 00 04 6d 6f 64 65 00 3f f0 00 00 00 00 00 00 00 00 09",
    );
    let (value, _pos) = Value::read(&bytes, 0).expect("read");
    let expected = object_from_entries(vec![
        ("capabilities", Value::Number(255.0f64.to_bits())),
        ("fmsVer", Value::Utf8("FMS/5,0,15,5004".to_string())),
        ("mode", Value::Number(1.0f64.to_bits())),
    ]);
    match value {
        Value::Object(_) => assert_eq!(value, expected),
        _ => panic!("expected Object, got {:?}", value),
    }
}

#[test]
fn can_write_object_simple() {
    // Keys are written in sorted order: capabilities, fmsVer, mode.
    let expected = bytes_from_hex_string(
        "03 00 0c 63 61 70 61 62 69 6c 69 74 69 65 73 00 40 6f e0 00 00 00 00 00 00 06 66 6d 73 56 65 72 02 00 0f 46 4d 53 2f 35 2c 30 2c 31 35 2c 35 30 30 34 00 04 6d 6f 64 65 00 3f f0 00 00 00 00 00 00 00 00 09",
    );
    let obj = object_from_entries(vec![
        ("capabilities", Value::Number(255.0f64.to_bits())),
        ("fmsVer", Value::Utf8("FMS/5,0,15,5004".to_string())),
        ("mode", Value::Number(1.0f64.to_bits())),
    ]);
    let mut buf = Vec::new();
    obj.write(&mut buf).expect("write");
    assert_eq!(buf, expected);
}

#[test]
fn can_write_empty_string() {
    // Boundary: the empty string encodes as marker plus a zero length.
    let expected = bytes_from_hex_string("02 00 00");
    let mut buf = Vec::new();
    Value::Utf8(String::new()).write(&mut buf).expect("write");
    assert_eq!(buf, expected);
    let (value, pos) = Value::read(&buf, 0).expect("read");
    assert_eq!(value, Value::Utf8(String::new()));
    assert_eq!(pos, 3);
}

#[test]
fn object_encoding_ends_with_terminator() {
    // Boundary: every encoded object ends with exactly 00 00 09.
    let obj = object_from_entries(vec![("k", Value::Null)]);
    let mut buf = Vec::new();
    obj.write(&mut buf).expect("write");
    assert_eq!(&buf[buf.len() - 3..], &[0x00, 0x00, 0x09]);
    let empty = Value::Object(Vec::new());
    let mut buf2 = Vec::new();
    empty.write(&mut buf2).expect("write");
    assert_eq!(buf2, vec![0x03, 0x00, 0x00, 0x09]);
}

#[test]
fn nested_object_round_trip() {
    // Round trip: decode(encode(v)) == v for a nested object value.
    let inner = object_from_entries(vec![
        ("data", Value::Utf8("x".to_string())),
        ("num", Value::Number(2.5f64.to_bits())),
    ]);
    let v = object_from_entries(vec![
        ("flag", Value::Boolean(true)),
        ("inner", inner),
        ("nothing", Value::Null),
    ]);
    let mut buf = Vec::new();
    v.write(&mut buf).expect("write");
    let (decoded, pos) = Value::read(&buf, 0).expect("read");
    assert_eq!(decoded, v);
    assert_eq!(pos, buf.len());
}

#[test]
fn object_equality_ignores_wire_order() {
    // The same entries in a different wire order decode to the same object.
    let forward = bytes_from_hex_string("03 00 01 61 05 00 01 62 01 01 00 00 09");
    let backward = bytes_from_hex_string("03 00 01 62 01 01 00 01 61 05 00 00 09");
    let (v1, _) = Value::read(&forward, 0).expect("read");
    let (v2, _) = Value::read(&backward, 0).expect("read");
    assert_eq!(v1, v2);
}

#[test]
fn can_read_ecma_array_as_object() {
    // 08, a four-byte (ignored) count, then object entries.
    let bytes = bytes_from_hex_string("08 00 00 00 01 00 01 61 05 00 00 09");
    let (value, pos) = Value::read(&bytes, 0).expect("read");
    let expected = object_from_entries(vec![("a", Value::Null)]);
    assert_eq!(value, expected);
    assert_eq!(pos, bytes.len());
}

#[test]
fn can_read_string_multibyte() {
    // "é" is the two UTF-8 bytes c3 a9; decoding must interpret them, not
    // pass them through.
    let bytes = bytes_from_hex_string("02 00 02 c3 a9");
    let (value, _pos) = Value::read(&bytes, 0).expect("read");
    assert_eq!(value, Value::Utf8("\u{e9}".to_string()));
}

#[test]
fn unknown_marker_is_rejected() {
    let bytes = bytes_from_hex_string("07");
    let err = Value::read(&bytes, 0).expect_err("marker 7 is unsupported");
    assert_eq!(err, DecodeError::UnknownMarker { byte: 7 });
}

#[test]
fn truncated_string_is_rejected() {
    let bytes = bytes_from_hex_string("02 00 07 63 6f");
    let err = Value::read(&bytes, 0).expect_err("short string");
    assert_eq!(err, DecodeError::Truncated);
}

#[test]
fn invalid_utf8_is_rejected() {
    let bytes = bytes_from_hex_string("02 00 02 ff fe");
    let err = Value::read(&bytes, 0).expect_err("bad utf8");
    assert_eq!(err, DecodeError::InvalidUtf8);
}

#[test]
fn write_string_body_with_and_without_marker() {
    let mut with_marker = Vec::new();
    Value::write_string(&mut with_marker, "ab", true).expect("write");
    assert_eq!(with_marker, vec![0x02, 0x00, 0x02, 0x61, 0x62]);
    let mut bare = Vec::new();
    Value::write_string(&mut bare, "ab", false).expect("write");
    assert_eq!(bare, vec![0x00, 0x02, 0x61, 0x62]);
}

#[test]
fn write_number_emits_big_endian_bits() {
    let mut with_marker = Vec::new();
    Value::write_number(&mut with_marker, 1.0f64.to_bits(), true);
    assert_eq!(with_marker, bytes_from_hex_string("00 3f f0 00 00 00 00 00 00"));
    let mut bare = Vec::new();
    Value::write_number(&mut bare, 1.0f64.to_bits(), false);
    assert_eq!(bare, bytes_from_hex_string("3f f0 00 00 00 00 00 00"));
}

#[test]
fn object_get_finds_entries() {
    let obj = object_from_entries(vec![
        ("a", Value::Null),
        ("b", Value::Boolean(true)),
    ]);
    assert_eq!(obj.object_get("b"), Some(&Value::Boolean(true)));
    assert_eq!(obj.object_get("c"), None);
    assert_eq!(Value::Null.object_get("a"), None);
}
