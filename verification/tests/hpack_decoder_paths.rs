use pajamax::hpack_decoder::{
    decode_literal_path, decode_string, Decoder, OutStr, PathKind, Representation,
};
use pajamax::huffman::encode as huffman_encode;

const PATH: &[u8] = b"/helloworld.Greeter/SayHello";

fn plain_path_block(path: &[u8]) -> Vec<u8> {
    // literal field without indexing, literal name ":path"
    let mut block = vec![0x00, 0x05];
    block.extend_from_slice(b":path");
    block.push(path.len() as u8);
    block.extend_from_slice(path);
    block
}

fn huffman_path_block(path: &[u8]) -> Vec<u8> {
    let mut coded = Vec::new();
    huffman_encode(path, &mut coded);
    let mut block = vec![0x00, 0x05];
    block.extend_from_slice(b":path");
    block.push(0x80 | coded.len() as u8);
    block.extend_from_slice(&coded);
    block
}

#[test]
fn representation_classes_cover_the_first_byte() {
    assert!(matches!(
        Representation::load(0x82),
        Ok(Representation::Indexed)
    ));
    assert!(matches!(
        Representation::load(0x40),
        Ok(Representation::LiteralWithIndexing)
    ));
    assert!(matches!(
        Representation::load(0x00),
        Ok(Representation::LiteralWithoutIndexing)
    ));
    assert!(matches!(
        Representation::load(0x10),
        Ok(Representation::LiteralNeverIndexed)
    ));
    assert!(matches!(
        Representation::load(0x25),
        Ok(Representation::SizeUpdate)
    ));
}

#[test]
fn decode_string_reads_length_and_flag() {
    let buf = [0x03, b'a', b'b', b'c', 0xff];
    let (s, adv) = decode_string(&buf).unwrap();
    assert_eq!(adv, 4);
    assert!(matches!(s, OutStr::Plain(b"abc")));
    let huff = [0x82, 0x00, 0x00];
    let (s, adv) = decode_string(&huff).unwrap();
    assert_eq!(adv, 3);
    assert!(matches!(s, OutStr::Huffman(&[0x00, 0x00])));
    // length runs past the input
    assert!(decode_string(&[0x05, b'a']).is_err());
    assert!(decode_string(&[]).is_err());
}

#[test]
fn literal_path_by_name_and_by_static_index() {
    // literal ":path" name
    let block = plain_path_block(b"/x");
    let (path, adv) = decode_literal_path(&block, false).unwrap();
    assert_eq!(adv, block.len());
    assert!(matches!(path, Some(OutStr::Plain(b"/x"))));
    // static-table name index 4 is :path
    let mut by_index = vec![0x04, 0x02];
    by_index.extend_from_slice(b"/y");
    let (path, adv) = decode_literal_path(&by_index, false).unwrap();
    assert_eq!(adv, by_index.len());
    assert!(matches!(path, Some(OutStr::Plain(b"/y"))));
    // another header name is skipped but consumed
    let mut other = vec![0x00, 0x02];
    other.extend_from_slice(b"te");
    other.push(0x08);
    other.extend_from_slice(b"trailers");
    let (path, adv) = decode_literal_path(&other, false).unwrap();
    assert_eq!(adv, other.len());
    assert!(path.is_none());
}

#[test]
fn huffman_coded_name_is_recognized_by_reencoding() {
    // the decoder compares a Huffman-coded name by encoding ":path"
    // itself, relying on the canonical code
    let mut coded_name = Vec::new();
    huffman_encode(b":path", &mut coded_name);
    let mut block = vec![0x00];
    block.push(0x80 | coded_name.len() as u8);
    block.extend_from_slice(&coded_name);
    block.push(0x02);
    block.extend_from_slice(b"/z");
    let (path, adv) = decode_literal_path(&block, false).unwrap();
    assert_eq!(adv, block.len());
    assert!(matches!(path, Some(OutStr::Plain(b"/z"))));
}

#[test]
fn a_repeated_plain_path_hits_the_cache() {
    let mut decoder = Decoder::new();
    let block = plain_path_block(PATH);
    match decoder.find_path(&block).unwrap() {
        PathKind::Plain(p) => assert_eq!(&p[..], PATH),
        PathKind::Cached(_) => panic!("first sight must be plain"),
    }
    assert_eq!(decoder.next_cache_index, 1);
    // the same block again: same index, no new allocation
    match decoder.find_path(&block).unwrap() {
        PathKind::Cached(i) => assert_eq!(i, 0),
        PathKind::Plain(_) => panic!("second sight must be cached"),
    }
    assert_eq!(decoder.next_cache_index, 1);
}

#[test]
fn a_repeated_huffman_path_skips_even_the_decode() {
    let mut decoder = Decoder::new();
    let block = huffman_path_block(PATH);
    match decoder.find_path(&block).unwrap() {
        PathKind::Plain(p) => assert_eq!(&p[..], PATH),
        PathKind::Cached(_) => panic!("first sight must be plain"),
    }
    match decoder.find_path(&block).unwrap() {
        PathKind::Cached(i) => assert_eq!(i, 0),
        PathKind::Plain(_) => panic!("second sight must be cached"),
    }
    // plain and huffman forms are cached separately, but each stays
    // stable
    match decoder.find_path(&plain_path_block(PATH)).unwrap() {
        PathKind::Plain(p) => assert_eq!(&p[..], PATH),
        PathKind::Cached(_) => panic!("a new wire form is a new sight"),
    }
    assert_eq!(decoder.next_cache_index, 2);
}

#[test]
fn incremental_indexing_feeds_the_dynamic_table() {
    let mut decoder = Decoder::new();
    // literal with indexing, literal name ":path"
    let mut block = vec![0x40, 0x05];
    block.extend_from_slice(b":path");
    block.push(PATH.len() as u8);
    block.extend_from_slice(PATH);
    match decoder.find_path(&block).unwrap() {
        PathKind::Plain(p) => assert_eq!(&p[..], PATH),
        PathKind::Cached(_) => panic!("first sight must be plain"),
    }
    // an indexed field referencing the newest dynamic entry (62)
    match decoder.find_path(&[0xbe]).unwrap() {
        PathKind::Cached(i) => assert_eq!(i, 0),
        PathKind::Plain(_) => panic!("dynamic reference must be cached"),
    }
    // an out-of-range dynamic index is fatal
    assert!(decoder.find_path(&[0xbf]).is_err());
}

#[test]
fn non_path_dynamic_entries_carry_no_route() {
    let mut decoder = Decoder::new();
    // insert a non-path header with incremental indexing, then reference
    // it: no path comes out of either block
    let mut block = vec![0x40, 0x02];
    block.extend_from_slice(b"te");
    block.push(0x08);
    block.extend_from_slice(b"trailers");
    assert!(decoder.find_path(&block).is_err()); // NoPathSet
    assert!(decoder.find_path(&[0xbe]).is_err()); // still no path
}

#[test]
fn size_update_is_skipped() {
    let mut decoder = Decoder::new();
    let mut block = vec![0x21];
    block.extend_from_slice(&plain_path_block(b"/a"));
    match decoder.find_path(&block).unwrap() {
        PathKind::Plain(p) => assert_eq!(&p[..], b"/a"),
        PathKind::Cached(_) => panic!("first sight must be plain"),
    }
}

#[test]
fn truncated_blocks_are_fatal() {
    let mut decoder = Decoder::new();
    // string literal cut off
    assert!(decoder.find_path(&[0x00, 0x05, b':']).is_err());
    // varint cut off
    assert!(decoder.find_path(&[0x7f]).is_err());
}

#[test]
fn long_paths_use_the_two_byte_length() {
    // a 127-octet path forces the two-byte string-length form
    let long_path: Vec<u8> = std::iter::once(b'/')
        .chain(std::iter::repeat(b'a').take(126))
        .collect();
    let mut block = vec![0x00, 0x05];
    block.extend_from_slice(b":path");
    block.push(0x7f);
    block.push(0x00);
    block.extend_from_slice(&long_path);
    let mut decoder = Decoder::new();
    match decoder.find_path(&block).unwrap() {
        PathKind::Plain(p) => assert_eq!(p, long_path),
        PathKind::Cached(_) => panic!("first sight must be plain"),
    }
    match decoder.find_path(&block).unwrap() {
        PathKind::Cached(i) => assert_eq!(i, 0),
        PathKind::Plain(_) => panic!("second sight must be cached"),
    }
}

#[test]
fn incremental_indexing_also_feeds_the_lookaside_cache() {
    // a path first seen with incremental indexing is recorded in the
    // lookaside cache too, so a later plain literal of the same path
    // hits instead of allocating
    let mut decoder = Decoder::new();
    let mut lwi = vec![0x40, 0x05];
    lwi.extend_from_slice(b":path");
    lwi.push(PATH.len() as u8);
    lwi.extend_from_slice(PATH);
    match decoder.find_path(&lwi).unwrap() {
        PathKind::Plain(p) => assert_eq!(&p[..], PATH),
        PathKind::Cached(_) => panic!("first sight must be plain"),
    }
    assert_eq!(decoder.next_cache_index, 1);
    match decoder.find_path(&plain_path_block(PATH)).unwrap() {
        PathKind::Cached(i) => assert_eq!(i, 0),
        PathKind::Plain(_) => panic!("the recorded path must hit"),
    }
    assert_eq!(decoder.next_cache_index, 1, "no second allocation");
}
