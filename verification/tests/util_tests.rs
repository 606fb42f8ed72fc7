use rtmp::util::bytes_from_hex_string;

#[test]
fn test_one() {
    assert_eq!(bytes_from_hex_string("01"), [0x1])
}

#[test]
fn test_two() {
    assert_eq!(bytes_from_hex_string("01 0a"), [0x1, 0xa])
}

#[test]
fn single_digit_tokens() {
    assert_eq!(bytes_from_hex_string("1 a F"), [0x1, 0xa, 0xf])
}
