use pajamax::connection::{check_progress, LocalConnection};
use pajamax::http2::{build_head, Frame, FrameKind, RawReply, HEAD_SIZE};
use pajamax::status::{Code, Status};
use pajamax::{Config, PajamaxService, Response};

const HELLO_PATH: &[u8] = b"/helloworld.Greeter/SayHello";

struct Greeter;

impl PajamaxService for Greeter {
    type Request = String;
    type Reply = RawReply;

    fn route(path: &[u8]) -> Option<usize> {
        if path == HELLO_PATH {
            Some(0)
        } else {
            None
        }
    }

    fn parse(_disc: usize, buf: &[u8]) -> Option<String> {
        // HelloRequest { name: string } as field 1
        if buf.len() >= 2 && buf[0] == 0x0a && buf[1] as usize == buf.len() - 2 {
            String::from_utf8(buf[2..].to_vec()).ok()
        } else {
            None
        }
    }

    fn call(&mut self, request: String) -> Response<RawReply> {
        let message = format!("Hello {}!", request);
        let mut body = vec![0x0a, message.len() as u8];
        body.extend_from_slice(message.as_bytes());
        Ok(RawReply(body))
    }
}

fn headers_frame(stream_id: u32, path: &[u8]) -> Vec<u8> {
    let mut block = vec![0x00, 0x05];
    block.extend_from_slice(b":path");
    block.push(path.len() as u8);
    block.extend_from_slice(path);
    let mut frame = Vec::new();
    build_head(block.len(), FrameKind::Headers, 0x04, stream_id, &mut frame);
    frame.extend_from_slice(&block);
    frame
}

fn data_frame(stream_id: u32, body: &[u8]) -> Vec<u8> {
    let mut payload = vec![0x00, 0, 0, 0, body.len() as u8];
    payload.extend_from_slice(body);
    let mut frame = Vec::new();
    build_head(payload.len(), FrameKind::Data, 0x00, stream_id, &mut frame);
    frame.extend_from_slice(&payload);
    frame
}

fn hello_request(stream_id: u32, name: &str) -> Vec<u8> {
    let mut body = vec![0x0a, name.len() as u8];
    body.extend_from_slice(name.as_bytes());
    let mut burst = headers_frame(stream_id, HELLO_PATH);
    burst.extend_from_slice(&data_frame(stream_id, &body));
    burst
}

fn parse_frames(mut bytes: &[u8]) -> Vec<(FrameKind, u8, u32, Vec<u8>)> {
    let mut frames = Vec::new();
    while let Some(frame) = Frame::parse(bytes) {
        frames.push((frame.kind, frame.flags.0, frame.stream_id, frame.payload.to_vec()));
        bytes = &bytes[HEAD_SIZE + frame.len..];
    }
    assert!(bytes.is_empty(), "stray bytes after the last frame");
    frames
}

#[test]
fn greeter_round_trip_and_window_update() {
    let mut conn = LocalConnection::new(Greeter, &Config::new());
    let burst = hello_request(1, "World");
    let (consumed, writes) = conn.process_burst(&burst).unwrap();
    assert_eq!(consumed, burst.len());
    assert!(writes.is_empty(), "thresholds were not crossed");
    let out = conn.defer_flush().expect("a response is buffered");
    let frames = parse_frames(&out);
    assert_eq!(frames.len(), 4);
    // HEADERS with :status 200 and content-type
    assert_eq!(frames[0].0, FrameKind::Headers);
    assert_eq!(frames[0].2, 1);
    assert_eq!(frames[0].1, 0x04);
    assert_eq!(frames[0].3[0], 0x88);
    // DATA: gRPC prefix plus HelloReply { message: "Hello World!" }
    assert_eq!(frames[1].0, FrameKind::Data);
    assert_eq!(frames[1].2, 1);
    let mut reply_body = vec![0x0a, 12];
    reply_body.extend_from_slice(b"Hello World!");
    let mut data_payload = vec![0x00, 0, 0, 0, reply_body.len() as u8];
    data_payload.extend_from_slice(&reply_body);
    assert_eq!(frames[1].3, data_payload);
    // trailing HEADERS with END_STREAM carrying grpc-status: 0
    assert_eq!(frames[2].0, FrameKind::Headers);
    assert_eq!(frames[2].1, 0x05);
    assert_eq!(frames[2].2, 1);
    // WINDOW_UPDATE on stream 0 returning exactly the DATA payload bytes
    assert_eq!(frames[3].0, FrameKind::WindowUpdate);
    assert_eq!(frames[3].2, 0);
    let request_data_len = data_frame(1, b"\x0a\x05World").len() - HEAD_SIZE;
    assert_eq!(
        frames[3].3,
        vec![0, 0, 0, request_data_len as u8],
        "window credit equals the request DATA payload length"
    );
}

#[test]
fn second_call_routes_through_the_path_cache() {
    let mut conn = LocalConnection::new(Greeter, &Config::new());
    let (_, _) = conn.process_burst(&hello_request(1, "World")).unwrap();
    conn.defer_flush().unwrap();
    assert_eq!(conn.route.hpack_decoder.next_cache_index, 1);
    assert_eq!(conn.route.route_cache.len(), 1);
    let (_, _) = conn.process_burst(&hello_request(3, "again")).unwrap();
    // the second occurrence allocated nothing new
    assert_eq!(conn.route.hpack_decoder.next_cache_index, 1);
    assert_eq!(conn.route.route_cache.len(), 1);
    let out = conn.defer_flush().unwrap();
    let frames = parse_frames(&out);
    assert!(frames.iter().any(|f| f.0 == FrameKind::Data && f.2 == 3));
}

#[test]
fn out_of_order_data_answers_each_stream_once() {
    let mut conn = LocalConnection::new(Greeter, &Config::new());
    let mut burst = headers_frame(1, HELLO_PATH);
    burst.extend_from_slice(&headers_frame(3, HELLO_PATH));
    // DATA for stream 3 arrives before DATA for stream 1
    burst.extend_from_slice(&data_frame(3, b"\x0a\x01b"));
    burst.extend_from_slice(&data_frame(1, b"\x0a\x01a"));
    let (consumed, writes) = conn.process_burst(&burst).unwrap();
    assert_eq!(consumed, burst.len());
    assert!(writes.is_empty());
    let out = conn.defer_flush().unwrap();
    let frames = parse_frames(&out);
    let data_ids: Vec<u32> = frames
        .iter()
        .filter(|f| f.0 == FrameKind::Data)
        .map(|f| f.2)
        .collect();
    assert_eq!(data_ids, vec![3, 1], "one response per stream, completion order");
    // window credit equals the sum of both DATA payload lengths
    let wu = frames.last().unwrap();
    assert_eq!(wu.0, FrameKind::WindowUpdate);
    let each = data_frame(1, b"\x0a\x01a").len() - HEAD_SIZE;
    assert_eq!(wu.3, vec![0, 0, 0, (2 * each) as u8]);
}

#[test]
fn data_without_headers_is_fatal() {
    let mut conn = LocalConnection::new(Greeter, &Config::new());
    let burst = data_frame(1, b"\x0a\x01a");
    assert!(conn.process_burst(&burst).is_err());
}

#[test]
fn duplicate_headers_for_a_stream_are_fatal() {
    let mut conn = LocalConnection::new(Greeter, &Config::new());
    let mut burst = headers_frame(1, HELLO_PATH);
    burst.extend_from_slice(&headers_frame(1, HELLO_PATH));
    assert!(conn.process_burst(&burst).is_err());
}

#[test]
fn unknown_path_is_fatal() {
    let mut conn = LocalConnection::new(Greeter, &Config::new());
    let burst = headers_frame(1, b"/helloworld.Greeter/NoSuch");
    assert!(conn.process_burst(&burst).is_err());
}

#[test]
fn truncated_headers_leave_no_partial_response() {
    // HEADERS without END_HEADERS announces a CONTINUATION, which the
    // framework rejects with nothing written
    let mut conn = LocalConnection::new(Greeter, &Config::new());
    let mut block = vec![0x00, 0x05];
    block.extend_from_slice(b":path");
    block.push(HELLO_PATH.len() as u8);
    block.extend_from_slice(HELLO_PATH);
    let mut burst = Vec::new();
    build_head(block.len(), FrameKind::Headers, 0x00, 1, &mut burst);
    burst.extend_from_slice(&block);
    assert!(conn.process_burst(&burst).is_err());
    assert_eq!(conn.resp_end.output.len(), 0, "no partial response");
    assert!(conn.defer_flush().is_none());
}

#[test]
fn bad_protobuf_body_is_fatal() {
    let mut conn = LocalConnection::new(Greeter, &Config::new());
    let mut burst = headers_frame(1, HELLO_PATH);
    burst.extend_from_slice(&data_frame(1, b"\xff\xff"));
    assert!(conn.process_burst(&burst).is_err());
}

#[test]
fn empty_data_payload_is_tolerated() {
    let mut conn = LocalConnection::new(Greeter, &Config::new());
    let mut burst = headers_frame(1, HELLO_PATH);
    let mut empty_data = Vec::new();
    build_head(0, FrameKind::Data, 0x01, 1, &mut empty_data);
    burst.extend_from_slice(&empty_data);
    let (consumed, _) = conn.process_burst(&burst).unwrap();
    assert_eq!(consumed, burst.len());
    // the slot is still queued; nothing was answered
    assert!(conn.defer_flush().is_none());
}

#[test]
fn short_grpc_prefix_is_fatal() {
    let mut conn = LocalConnection::new(Greeter, &Config::new());
    let mut burst = headers_frame(1, HELLO_PATH);
    let mut short = Vec::new();
    build_head(3, FrameKind::Data, 0x00, 1, &mut short);
    short.extend_from_slice(&[0, 0, 0]);
    burst.extend_from_slice(&short);
    assert!(conn.process_burst(&burst).is_err());
}

#[test]
fn other_frame_kinds_are_ignored() {
    let mut conn = LocalConnection::new(Greeter, &Config::new());
    let mut burst = Vec::new();
    build_head(8, FrameKind::Ping, 0x00, 0, &mut burst);
    burst.extend_from_slice(&[0; 8]);
    build_head(4, FrameKind::WindowUpdate, 0x00, 0, &mut burst);
    burst.extend_from_slice(&[0, 0, 1, 0]);
    burst.extend_from_slice(&hello_request(1, "x"));
    let (consumed, _) = conn.process_burst(&burst).unwrap();
    assert_eq!(consumed, burst.len());
    assert!(conn.defer_flush().is_some());
}

#[test]
fn partial_trailing_frame_is_carried_over() {
    let mut conn = LocalConnection::new(Greeter, &Config::new());
    let mut burst = hello_request(1, "World");
    let whole = burst.len();
    burst.extend_from_slice(&headers_frame(3, HELLO_PATH)[..7]);
    let (consumed, _) = conn.process_burst(&burst).unwrap();
    assert_eq!(consumed, whole, "the engine stops at the partial frame");
}

#[test]
fn progress_check_closes_on_oversized_frame() {
    assert!(check_progress(0, 64, 64).is_err());
    assert!(check_progress(0, 10, 64).is_ok());
    assert!(check_progress(32, 64, 64).is_ok());
}

struct Dict {
    entries: Vec<(String, u64)>,
}

enum DictRequest {
    Put(String, u64),
    Fetch(String),
}

impl PajamaxService for Dict {
    type Request = DictRequest;
    type Reply = RawReply;

    fn route(path: &[u8]) -> Option<usize> {
        match path {
            b"/dict.DictStore/Set" => Some(0),
            b"/dict.DictStore/Get" => Some(1),
            _ => None,
        }
    }

    fn parse(disc: usize, buf: &[u8]) -> Option<DictRequest> {
        // field 1: key as a length-prefixed string; Set carries the value
        // in a trailing byte
        if buf.len() < 2 || buf[0] != 0x0a {
            return None;
        }
        let key_len = buf[1] as usize;
        if buf.len() < 2 + key_len {
            return None;
        }
        let key = String::from_utf8(buf[2..2 + key_len].to_vec()).ok()?;
        if disc == 0 {
            let value = *buf.get(2 + key_len)? as u64;
            Some(DictRequest::Put(key, value))
        } else {
            Some(DictRequest::Fetch(key))
        }
    }

    fn call(&mut self, request: DictRequest) -> Response<RawReply> {
        match request {
            DictRequest::Put(key, value) => {
                self.entries.push((key, value));
                Ok(RawReply(vec![0x08, 0x01]))
            }
            DictRequest::Fetch(key) => {
                for (k, v) in self.entries.iter() {
                    if *k == key {
                        return Ok(RawReply(vec![0x08, *v as u8]));
                    }
                }
                Err(Status {
                    code: Code::NotFound,
                    message: format!("key: {}", key),
                })
            }
        }
    }
}

fn dict_request(stream_id: u32, path: &[u8], body: &[u8]) -> Vec<u8> {
    let mut burst = headers_frame(stream_id, path);
    burst.extend_from_slice(&data_frame(stream_id, body));
    burst
}

#[test]
fn status_path_keeps_the_connection_open() {
    let mut conn = LocalConnection::new(Dict { entries: Vec::new() }, &Config::new());
    // Get{key:"missing"} answers NotFound with the key in the message
    let get = dict_request(1, b"/dict.DictStore/Get", b"\x0a\x07missing");
    let (consumed, _) = conn.process_burst(&get).unwrap();
    assert_eq!(consumed, get.len());
    let out = conn.defer_flush().unwrap();
    let frames = parse_frames(&out);
    assert_eq!(frames[0].0, FrameKind::Headers);
    assert_eq!(frames[0].1, 0x05, "a status is one HEADERS with END_STREAM");
    assert_eq!(frames[0].2, 1);
    let payload = &frames[0].3;
    let needle = b"grpc-message";
    assert!(payload.windows(needle.len()).any(|w| w == needle));
    let code5 = [0x01, b'5'];
    assert!(payload.windows(2).any(|w| w == code5));
    let msg = b"key: missing";
    assert!(payload.windows(msg.len()).any(|w| w == msg));
    // a later Set on the same connection still succeeds
    let set = dict_request(3, b"/dict.DictStore/Set", b"\x0a\x02k1\x07");
    let (consumed, _) = conn.process_burst(&set).unwrap();
    assert_eq!(consumed, set.len());
    let out = conn.defer_flush().unwrap();
    let frames = parse_frames(&out);
    assert!(frames.iter().any(|f| f.0 == FrameKind::Data && f.2 == 3));
}

#[test]
fn flush_threshold_on_request_count() {
    let config = Config::new().max_flush_requests(2);
    let mut conn = LocalConnection::new(Greeter, &config);
    let mut burst = hello_request(1, "a");
    burst.extend_from_slice(&hello_request(3, "b"));
    let (_, writes) = conn.process_burst(&burst).unwrap();
    assert_eq!(writes.len(), 1, "the second response crossed the threshold");
    assert!(conn.defer_flush().is_none(), "nothing left after the flush");
    let frames = parse_frames(&writes[0]);
    assert_eq!(frames.last().unwrap().0, FrameKind::WindowUpdate);
}

#[test]
fn an_oversized_reply_cannot_be_framed() {
    struct Huge;
    impl PajamaxService for Huge {
        type Request = ();
        type Reply = RawReply;
        fn route(path: &[u8]) -> Option<usize> {
            if path == HELLO_PATH {
                Some(0)
            } else {
                None
            }
        }
        fn parse(_disc: usize, _buf: &[u8]) -> Option<()> {
            Some(())
        }
        fn call(&mut self, _request: ()) -> Response<RawReply> {
            // one byte past what fits a single DATA frame with its prefix
            Ok(RawReply(vec![0u8; 0xfffffb]))
        }
    }
    let mut conn = LocalConnection::new(Huge, &Config::new());
    let burst = hello_request(1, "x");
    assert!(conn.process_burst(&burst).is_err());
}
