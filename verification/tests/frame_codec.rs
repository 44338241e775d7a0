use pajamax::http2::{
    build_head, build_settings, build_u16, build_u32, build_window_update, check_preface,
    handshake_settings, parse_u32, Frame, FrameKind, HEAD_SIZE,
};
use pajamax::Config;

fn head_bytes(len: usize, kind: FrameKind, flags: u8, stream_id: u32) -> Vec<u8> {
    let mut out = Vec::new();
    build_head(len, kind, flags, stream_id, &mut out);
    out
}

#[test]
fn frame_kind_from_covers_all_bytes() {
    assert_eq!(FrameKind::from(0), FrameKind::Data);
    assert_eq!(FrameKind::from(1), FrameKind::Headers);
    assert_eq!(FrameKind::from(2), FrameKind::Priority);
    assert_eq!(FrameKind::from(3), FrameKind::Reset);
    assert_eq!(FrameKind::from(4), FrameKind::Settings);
    assert_eq!(FrameKind::from(5), FrameKind::PushPromise);
    assert_eq!(FrameKind::from(6), FrameKind::Ping);
    assert_eq!(FrameKind::from(7), FrameKind::GoAway);
    assert_eq!(FrameKind::from(8), FrameKind::WindowUpdate);
    assert_eq!(FrameKind::from(9), FrameKind::Continuation);
    assert_eq!(FrameKind::from(10), FrameKind::Unknown);
    assert_eq!(FrameKind::from(255), FrameKind::Unknown);
}

#[test]
fn parse_returns_none_until_whole_frame_arrived() {
    assert!(Frame::parse(&[]).is_none());
    assert!(Frame::parse(&[0u8; 8]).is_none());
    // head promises 3 payload bytes but only 2 arrived
    let mut buf = head_bytes(3, FrameKind::Data, 0, 1);
    buf.push(0xaa);
    buf.push(0xbb);
    assert!(Frame::parse(&buf).is_none());
    buf.push(0xcc);
    let frame = Frame::parse(&buf).unwrap();
    assert_eq!(frame.len, 3);
    assert_eq!(frame.payload, &[0xaa, 0xbb, 0xcc]);
}

#[test]
fn parse_then_rebuild_gives_the_same_bytes() {
    // the frame-head round trip on a concrete frame
    let mut buf = head_bytes(5, FrameKind::Headers, 0x05, 0x01020304);
    buf.extend_from_slice(&[9, 8, 7, 6, 5]);
    buf.extend_from_slice(&[0xff, 0xee]); // trailing bytes of a next frame
    let frame = Frame::parse(&buf).unwrap();
    assert_eq!(frame.len, 5);
    assert_eq!(frame.kind, FrameKind::Headers);
    assert_eq!(frame.flags.0, 0x05);
    assert_eq!(frame.stream_id, 0x01020304);
    assert_eq!(frame.payload, &[9, 8, 7, 6, 5]);
    let rebuilt = head_bytes(frame.len, frame.kind, frame.flags.0, frame.stream_id);
    assert_eq!(&rebuilt[..], &buf[..HEAD_SIZE]);
}

#[test]
fn process_headers_strips_padding_and_priority() {
    // PADDED | PRIORITY | END_HEADERS: 1 pad-length byte, 5 priority
    // bytes, block, then 2 pad bytes
    let payload = [2u8, 9, 9, 9, 9, 9, 0x82, 0x87, 0, 0];
    let mut buf = head_bytes(payload.len(), FrameKind::Headers, 0x04 | 0x08 | 0x20, 1);
    buf.extend_from_slice(&payload);
    let frame = Frame::parse(&buf).unwrap();
    let block = frame.process_headers().unwrap();
    assert_eq!(block, &[0x82, 0x87]);
}

#[test]
fn process_headers_rejects_missing_end_headers() {
    let mut buf = head_bytes(1, FrameKind::Headers, 0x00, 1);
    buf.push(0x82);
    let frame = Frame::parse(&buf).unwrap();
    assert!(frame.process_headers().is_err());
}

#[test]
fn process_headers_rejects_end_stream() {
    let mut buf = head_bytes(1, FrameKind::Headers, 0x04 | 0x01, 1);
    buf.push(0x82);
    let frame = Frame::parse(&buf).unwrap();
    assert!(frame.process_headers().is_err());
}

#[test]
fn process_data_rejects_bad_padding() {
    // pad length runs past the payload
    let payload = [7u8, 1, 2];
    let mut buf = head_bytes(payload.len(), FrameKind::Data, 0x08, 1);
    buf.extend_from_slice(&payload);
    let frame = Frame::parse(&buf).unwrap();
    assert!(frame.process_data().is_err());
}

#[test]
fn window_update_bytes_are_exact() {
    let mut out = Vec::new();
    build_window_update(0x1234, &mut out);
    assert_eq!(
        out,
        vec![0, 0, 4, 8, 0, 0, 0, 0, 0, 0x00, 0x00, 0x12, 0x34]
    );
}

#[test]
fn settings_bytes_are_exact() {
    let mut out = Vec::new();
    build_settings(3, 1000, &mut out);
    assert_eq!(
        out,
        vec![0, 0, 6, 4, 0, 0, 0, 0, 0, 0x00, 0x03, 0x00, 0x00, 0x03, 0xe8]
    );
}

#[test]
fn handshake_settings_advertise_streams_and_frame_size() {
    let config = Config::new();
    let out = handshake_settings(&config);
    let mut expect = Vec::new();
    build_settings(3, 1000, &mut expect);
    build_settings(5, 16 * 1024, &mut expect);
    assert_eq!(out, expect);
}

#[test]
fn preface_is_checked_byte_for_byte() {
    let good = b"PRI * HTTP/2.0\r\n\r\nSM\r\n\r\n";
    assert!(check_preface(good));
    let mut bad = *good;
    bad[0] = b'X';
    assert!(!check_preface(&bad));
    assert!(!check_preface(&good[..23]));
    assert!(!check_preface(b"GET / HTTP/1.1\r\nHost: x\r"));
}

#[test]
fn u32_round_trip() {
    let mut out = Vec::new();
    build_u32(0xdeadbeef, &mut out);
    assert_eq!(out, vec![0xde, 0xad, 0xbe, 0xef]);
    assert_eq!(parse_u32(&out), 0xdeadbeef);
    let mut out16 = Vec::new();
    build_u16(0x0102, &mut out16);
    assert_eq!(out16, vec![1, 2]);
}

#[test]
fn reserved_stream_id_bit_is_masked() {
    let buf = [0u8, 0, 0, 0, 0, 0x80, 0, 0, 7];
    let frame = Frame::parse(&buf).unwrap();
    assert_eq!(frame.stream_id, 7, "the reserved bit is ignored");
    let full = [0u8, 0, 0, 0, 0, 0xff, 0xff, 0xff, 0xff];
    let frame = Frame::parse(&full).unwrap();
    assert_eq!(frame.stream_id, 0x7fffffff);
}
