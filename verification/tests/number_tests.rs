use rtmp::number::f64_bits_of_u32;
use rtmp::number::u32_of_f64_bits;

#[test]
fn integer_bits_match_the_double_encoding() {
    for n in [0u32, 1, 2, 3, 7, 255, 256, 1000, 65535, 1 << 20, u32::MAX] {
        assert_eq!(f64_bits_of_u32(n), (n as f64).to_bits(), "bits of {}", n);
    }
}

#[test]
fn integer_bits_round_trip() {
    for n in [0u32, 1, 2, 5, 100, 4096, u32::MAX - 1, u32::MAX] {
        assert_eq!(u32_of_f64_bits(f64_bits_of_u32(n)), Some(n));
    }
}

#[test]
fn fractional_and_out_of_range_doubles_are_refused() {
    assert_eq!(u32_of_f64_bits(0.5f64.to_bits()), None);
    assert_eq!(u32_of_f64_bits((-1.0f64).to_bits()), None);
    assert_eq!(u32_of_f64_bits(4294967296.0f64.to_bits()), None);
    assert_eq!(u32_of_f64_bits(f64::NAN.to_bits()), None);
    assert_eq!(u32_of_f64_bits(f64::INFINITY.to_bits()), None);
}

#[test]
fn exact_integer_doubles_are_recovered() {
    assert_eq!(u32_of_f64_bits(3.0f64.to_bits()), Some(3));
    assert_eq!(u32_of_f64_bits(0.0f64.to_bits()), Some(0));
}
