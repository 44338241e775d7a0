use pajamax::error::Error;
use pajamax::hpack_decoder::decode_int;
use pajamax::hpack_encoder::{encode_int, encode_int_one_byte};

fn round_trip(n: usize, prefix: usize, first_byte: u8) {
    let mut buf = Vec::new();
    encode_int(n, prefix, first_byte, &mut buf);
    let (value, consumed) = decode_int(&buf, prefix as u8).unwrap();
    assert_eq!(value, n, "value for n={} p={}", n, prefix);
    assert_eq!(consumed, buf.len(), "consumed for n={} p={}", n, prefix);
}

#[test]
fn int_round_trip_over_values_and_prefixes() {
    let values = [
        0usize, 1, 9, 14, 15, 16, 30, 31, 62, 63, 126, 127, 128, 254, 255, 256, 300, 16382,
        16383, 16384, 2097151, 0x0fff_ffff - 1,
    ];
    for prefix in 1..=8usize {
        for &n in values.iter() {
            round_trip(n, prefix, 0);
        }
    }
}

#[test]
fn int_round_trip_with_pattern_bits() {
    round_trip(8, 7, 0x80); // an indexed header field
    round_trip(1000, 7, 0x80);
    round_trip(0, 6, 0x40); // literal with indexing
    round_trip(62, 4, 0x00); // indexed name under a 4-bit prefix
    round_trip(31, 5, 0x20); // dynamic table size update
}

#[test]
fn one_byte_predicate_matches_the_boundary() {
    assert!(encode_int_one_byte(126, 7));
    assert!(!encode_int_one_byte(127, 7));
    assert!(encode_int_one_byte(14, 4));
    assert!(!encode_int_one_byte(15, 4));
}

#[test]
fn two_byte_boundary_bytes_are_exact() {
    // 127 under a 7-bit prefix saturates the prefix and adds a zero octet
    let mut buf = Vec::new();
    encode_int(127, 7, 0, &mut buf);
    assert_eq!(buf, vec![0x7f, 0x00]);
    // RFC example: 1337 under a 5-bit prefix
    let mut buf2 = Vec::new();
    encode_int(1337, 5, 0, &mut buf2);
    assert_eq!(buf2, vec![0x1f, 0x9a, 0x0a]);
    let (v, k) = decode_int(&buf2, 5).unwrap();
    assert_eq!((v, k), (1337, 3));
}

#[test]
fn decode_int_rejects_bad_input() {
    // empty input
    assert!(decode_int(&[], 7).is_err());
    // prefix size out of range
    assert!(decode_int(&[0x00], 0).is_err());
    assert!(decode_int(&[0x00], 9).is_err());
    // integer cut off after the saturated prefix
    assert!(decode_int(&[0x7f], 7).is_err());
    // continuation cut off half way
    assert!(decode_int(&[0x7f, 0x80], 7).is_err());
    // a fifth octet would be needed
    assert!(decode_int(&[0xff, 0x80, 0x80, 0x80, 0x80, 0x01], 8).is_err());
}

#[test]
fn decode_int_ignores_pattern_bits_above_the_prefix() {
    let (v, k) = decode_int(&[0x8a], 7).unwrap();
    assert_eq!((v, k), (10, 1));
    let (v, k) = decode_int(&[0x6a], 6).unwrap();
    assert_eq!((v, k), (42, 1));
}

#[test]
fn error_reasons_name_their_cause() {
    assert!(matches!(decode_int(&[], 7), Err(Error::InvalidHpack("need more"))));
    assert!(matches!(decode_int(&[0x7f], 7), Err(Error::InvalidHpack("need more"))));
    assert!(matches!(
        decode_int(&[0xff, 0x80, 0x80, 0x80, 0x80], 8),
        Err(Error::InvalidHpack("integer overflow"))
    ));
    assert!(matches!(decode_int(&[0x00], 0), Err(Error::InvalidHpack("invalid integer"))));
}
