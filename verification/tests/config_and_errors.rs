use pajamax::error::Error;
use pajamax::status::{Code, Status};
use pajamax::Config;

#[test]
fn config_defaults_match_the_documentation() {
    let c = Config::new();
    assert_eq!(c.max_concurrent_connections, 100);
    assert_eq!(c.max_concurrent_streams, 1000);
    assert_eq!(c.max_frame_size, 16 * 1024);
    assert_eq!(c.max_flush_requests, 50);
    assert_eq!(c.max_flush_size, 15000);
    assert_eq!(c.idle_timeout_secs, 60);
    assert_eq!(c.write_timeout_secs, 10);
}

#[test]
fn config_setters_replace_one_field_each() {
    let c = Config::new()
        .max_concurrent_connections(7)
        .max_concurrent_streams(8)
        .max_frame_size(4096)
        .max_flush_requests(9)
        .max_flush_size(10)
        .idle_timeout(11)
        .write_timeout(12);
    assert_eq!(c.max_concurrent_connections, 7);
    assert_eq!(c.max_concurrent_streams, 8);
    assert_eq!(c.max_frame_size, 4096);
    assert_eq!(c.max_flush_requests, 9);
    assert_eq!(c.max_flush_size, 10);
    assert_eq!(c.idle_timeout_secs, 11);
    assert_eq!(c.write_timeout_secs, 12);
}

#[test]
fn error_descriptions_name_their_variant() {
    assert_eq!(Error::InvalidHttp2("x").describe(), "invalid http2");
    assert_eq!(Error::InvalidHpack("y").describe(), "invalid hpack");
    assert_eq!(Error::InvalidHuffman.describe(), "invalid huffman");
    assert_eq!(Error::InvalidProtobuf.describe(), "invalid protobuf");
    assert_eq!(Error::ChannelClosed.describe(), "channel closed");
    assert_eq!(Error::UnknownMethod(vec![47]).describe(), "unknown method");
    assert_eq!(Error::NoPathSet.describe(), "no :path set");
}

#[test]
fn grpc_codes_carry_their_wire_numbers() {
    assert_eq!(Code::Okay.num(), 0);
    assert_eq!(Code::Cancelled.num(), 1);
    assert_eq!(Code::NotFound.num(), 5);
    assert_eq!(Code::Internal.num(), 13);
    assert_eq!(Code::Unavailable.num(), 14);
    assert_eq!(Code::Unauthenticated.num(), 16);
    let st = Status { code: Code::NotFound, message: String::from("missing") };
    assert_eq!(st.code.num(), 5);
}
