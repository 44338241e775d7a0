use pajamax::hpack_encoder::{encode_header, encode_str, push_decimal, Encoder};

#[test]
fn status_200_is_the_indexed_static_entry() {
    let mut enc = Encoder::new();
    let mut out = Vec::new();
    enc.encode_status_200(&mut out);
    assert_eq!(out, vec![0x88]);
}

#[test]
fn content_type_warms_up_to_one_byte() {
    let mut enc = Encoder::new();
    let mut out = Vec::new();
    enc.encode_content_type(&mut out);
    let mut expect = vec![0x40, 0x0c];
    expect.extend_from_slice(b"content-type");
    expect.push(0x10);
    expect.extend_from_slice(b"application/grpc");
    assert_eq!(out, expect);
    // the second emission is a single dynamic-table reference: index 62
    let mut out2 = Vec::new();
    enc.encode_content_type(&mut out2);
    assert_eq!(out2, vec![0xbe]);
}

#[test]
fn grpc_status_zero_warms_up_and_indexes_shift() {
    let mut enc = Encoder::new();
    let mut out = Vec::new();
    enc.encode_content_type(&mut out);
    let mut zero = Vec::new();
    enc.encode_grpc_status_zero(&mut zero);
    let mut expect = vec![0x40, 0x0b];
    expect.extend_from_slice(b"grpc-status");
    expect.push(0x01);
    expect.push(b'0');
    assert_eq!(zero, expect);
    // now grpc-status:0 is the newest entry (62); content-type moved to 63
    let mut zero2 = Vec::new();
    enc.encode_grpc_status_zero(&mut zero2);
    assert_eq!(zero2, vec![0xbe]);
    let mut ct = Vec::new();
    enc.encode_content_type(&mut ct);
    assert_eq!(ct, vec![0xbf]);
}

#[test]
fn nonzero_status_cold_is_a_full_literal() {
    let mut enc = Encoder::new();
    let mut out = Vec::new();
    enc.encode_grpc_status_nonzero(5, &mut out);
    let mut expect = vec![0x00, 0x0b];
    expect.extend_from_slice(b"grpc-status");
    expect.push(0x01);
    expect.push(b'5');
    assert_eq!(out, expect);
}

#[test]
fn nonzero_status_warm_references_the_warmed_name() {
    let mut enc = Encoder::new();
    let mut warm = Vec::new();
    enc.encode_grpc_status_zero(&mut warm);
    // the grpc-status entry is at index 62; under a 4-bit prefix that is
    // 15 + 47
    let mut out = Vec::new();
    enc.encode_grpc_status_nonzero(14, &mut out);
    assert_eq!(out, vec![0x0f, 0x2f, 0x02, b'1', b'4']);
}

#[test]
fn grpc_message_is_a_plain_literal() {
    let mut enc = Encoder::new();
    let mut out = Vec::new();
    enc.encode_grpc_message("key: missing", &mut out);
    let mut expect = vec![0x00, 0x0c];
    expect.extend_from_slice(b"grpc-message");
    expect.push(0x0c);
    expect.extend_from_slice(b"key: missing");
    assert_eq!(out, expect);
}

#[test]
fn decimal_digits_are_exact() {
    let cases: [(u32, &[u8]); 5] = [
        (0, b"0"),
        (9, b"9"),
        (16, b"16"),
        (105, b"105"),
        (4294967295, b"4294967295"),
    ];
    for (n, digits) in cases.iter() {
        let mut out = Vec::new();
        push_decimal(*n, &mut out);
        assert_eq!(&out[..], *digits, "digits of {}", n);
    }
}

#[test]
fn long_string_length_crosses_the_prefix() {
    // a 127-byte value needs the two-byte length form
    let value = [b'a'; 127];
    let mut out = Vec::new();
    encode_str(&value, &mut out);
    assert_eq!(out[0], 0x7f);
    assert_eq!(out[1], 0x00);
    assert_eq!(&out[2..], &value[..]);
}

#[test]
fn header_literal_layout() {
    let mut out = Vec::new();
    encode_header(b"k", b"v", &mut out);
    assert_eq!(out, vec![0x00, 0x01, b'k', 0x01, b'v']);
}
