use pajamax::huffman::{decode, encode, huff_entry};

fn enc(src: &[u8]) -> Vec<u8> {
    let mut out = Vec::new();
    encode(src, &mut out);
    out
}

fn dec(src: &[u8]) -> Result<Vec<u8>, pajamax::error::Error> {
    let mut out = Vec::new();
    decode(src, &mut out)?;
    Ok(out)
}

#[test]
fn known_vector_www_example_com() {
    let coded = enc(b"www.example.com");
    assert_eq!(
        coded,
        vec![0xf1, 0xe3, 0xc2, 0xe5, 0xf2, 0x3a, 0x6b, 0xa0, 0xab, 0x90, 0xf4, 0xff]
    );
    assert_eq!(dec(&coded).unwrap(), b"www.example.com");
}

#[test]
fn known_vector_no_cache() {
    let coded = enc(b"no-cache");
    assert_eq!(coded, vec![0xa8, 0xeb, 0x10, 0x64, 0x9c, 0xbf]);
    assert_eq!(dec(&coded).unwrap(), b"no-cache");
}

#[test]
fn known_vector_custom_key_value() {
    assert_eq!(
        enc(b"custom-key"),
        vec![0x25, 0xa8, 0x49, 0xe9, 0x5b, 0xa9, 0x7d, 0x7f]
    );
    assert_eq!(
        enc(b"custom-value"),
        vec![0x25, 0xa8, 0x49, 0xe9, 0x5b, 0xb8, 0xe8, 0xb4, 0xbf]
    );
}

#[test]
fn every_octet_round_trips_alone() {
    for b in 0..=255u8 {
        let coded = enc(&[b]);
        assert_eq!(dec(&coded).unwrap(), vec![b], "octet {}", b);
    }
}

#[test]
fn longer_strings_round_trip() {
    let inputs: [&[u8]; 5] = [
        b"",
        b"/helloworld.Greeter/SayHello",
        b"a",
        b"!#$%&'()*+,-./0123456789:;<=>?@",
        &[0u8, 1, 2, 3, 250, 251, 252, 253, 254, 255],
    ];
    for input in inputs.iter() {
        let coded = enc(input);
        assert_eq!(&dec(&coded).unwrap()[..], *input);
    }
}

#[test]
fn empty_input_encodes_to_nothing() {
    assert_eq!(enc(b""), Vec::<u8>::new());
    assert_eq!(dec(&[]).unwrap(), Vec::<u8>::new());
}

#[test]
fn decoder_accepts_only_eos_padding() {
    // '0' has the 5-bit code 00000; three one bits pad the byte
    assert_eq!(dec(&[0x07]).unwrap(), b"0");
    // zero padding is not a prefix of the EOS code
    assert!(dec(&[0x00]).is_err());
    // 8 or more leftover one bits exceed the permitted padding
    assert!(dec(&[0xff, 0xff, 0xff, 0xff]).is_err());
}

#[test]
fn table_entries_match_the_rfc_sample() {
    // a handful of fixed points of the static code
    assert_eq!(huff_entry(b'0'), (5, 0x0));
    assert_eq!(huff_entry(b'a'), (5, 0x3));
    assert_eq!(huff_entry(b'w'), (7, 0x78));
    assert_eq!(huff_entry(b'.'), (6, 0x17));
    assert_eq!(huff_entry(0), (13, 0x1ff8));
    assert_eq!(huff_entry(255), (26, 0x3ffffee));
}
