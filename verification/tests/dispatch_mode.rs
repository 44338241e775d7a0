use std::collections::HashMap;
use std::sync::mpsc;

use pajamax::dispatch::{
    dispatch, dispatch_failure_status, DispatchConnection, DispatchRequest, DispatchResponse,
    PajamaxDispatchService, RequestTx,
};
use pajamax::http2::{build_head, Frame, FrameKind, RawReply, HEAD_SIZE};
use pajamax::response_end::ResponseEnd;
use pajamax::status::{Code, Status};
use pajamax::{Config, PajamaxService, Response};

const WORKERS: usize = 8;

#[derive(Clone)]
enum DictRequest {
    Put(String, f64),
    Fetch(String),
}

fn key_of(req: &DictRequest) -> &str {
    match req {
        DictRequest::Put(k, _) => k,
        DictRequest::Fetch(k) => k,
    }
}

fn shard_of(key: &str) -> usize {
    let mut sum = 0usize;
    for b in key.as_bytes() {
        sum += *b as usize;
    }
    sum % WORKERS
}

struct DictDispatch {
    txs: Vec<RequestTx<DictRequest, RawReply>>,
}

impl PajamaxService for DictDispatch {
    type Request = DictRequest;
    type Reply = RawReply;

    fn route(path: &[u8]) -> Option<usize> {
        match path {
            b"/dict.DictStore/Set" => Some(0),
            b"/dict.DictStore/Get" => Some(1),
            _ => None,
        }
    }

    fn parse(disc: usize, buf: &[u8]) -> Option<DictRequest> {
        if buf.len() < 2 || buf[0] != 0x0a {
            return None;
        }
        let key_len = buf[1] as usize;
        if buf.len() < 2 + key_len {
            return None;
        }
        let key = String::from_utf8(buf[2..2 + key_len].to_vec()).ok()?;
        if disc == 0 {
            let value = *buf.get(2 + key_len)? as f64;
            Some(DictRequest::Put(key, value))
        } else {
            Some(DictRequest::Fetch(key))
        }
    }

    fn call(&mut self, _request: DictRequest) -> Response<RawReply> {
        unreachable!("every request of this service is dispatched")
    }
}

impl PajamaxDispatchService for DictDispatch {
    fn dispatch_to<'a>(
        &'a self,
        request: &DictRequest,
    ) -> Option<&'a RequestTx<DictRequest, RawReply>> {
        Some(&self.txs[shard_of(key_of(request))])
    }
}

struct Shard {
    map: HashMap<String, f64>,
}

impl PajamaxService for Shard {
    type Request = DictRequest;
    type Reply = RawReply;

    fn route(_path: &[u8]) -> Option<usize> {
        None
    }

    fn parse(_disc: usize, _buf: &[u8]) -> Option<DictRequest> {
        None
    }

    fn call(&mut self, request: DictRequest) -> Response<RawReply> {
        match request {
            DictRequest::Put(key, value) => {
                self.map.insert(key, value);
                Ok(RawReply(vec![0x08, 0x01]))
            }
            DictRequest::Fetch(key) => match self.map.get(&key) {
                Some(v) => Ok(RawReply(vec![0x08, *v as u8])),
                None => Err(Status {
                    code: Code::NotFound,
                    message: format!("key: {}", key),
                }),
            },
        }
    }
}

fn headers_frame(stream_id: u32, path: &[u8]) -> Vec<u8> {
    let mut block = vec![0x00, 0x05];
    block.extend_from_slice(b":path");
    block.push(path.len() as u8);
    block.extend_from_slice(path);
    let mut frame = Vec::new();
    build_head(block.len(), FrameKind::Headers, 0x04, stream_id, &mut frame);
    frame.extend_from_slice(&block);
    frame
}

fn data_frame(stream_id: u32, body: &[u8]) -> Vec<u8> {
    let mut payload = vec![0x00, 0, 0, 0, body.len() as u8];
    payload.extend_from_slice(body);
    let mut frame = Vec::new();
    build_head(payload.len(), FrameKind::Data, 0x00, stream_id, &mut frame);
    frame.extend_from_slice(&payload);
    frame
}

fn request(stream_id: u32, path: &[u8], body: &[u8]) -> Vec<u8> {
    let mut burst = headers_frame(stream_id, path);
    burst.extend_from_slice(&data_frame(stream_id, body));
    burst
}

fn parse_frames(mut bytes: &[u8]) -> Vec<(FrameKind, u8, u32, Vec<u8>)> {
    let mut frames = Vec::new();
    while let Some(frame) = Frame::parse(bytes) {
        frames.push((frame.kind, frame.flags.0, frame.stream_id, frame.payload.to_vec()));
        bytes = &bytes[HEAD_SIZE + frame.len..];
    }
    frames
}

#[test]
fn requests_shard_by_key_and_answers_carry_their_stream_id() {
    let mut txs = Vec::new();
    let mut rxs = Vec::new();
    for _ in 0..WORKERS {
        let (tx, rx) = mpsc::sync_channel(1000);
        txs.push(tx);
        rxs.push(rx);
    }
    let (resp_tx, resp_rx) = mpsc::sync_channel(1000);
    let mut conn = DispatchConnection::new(DictDispatch { txs }, resp_tx);

    let mut burst = request(1, b"/dict.DictStore/Set", b"\x0a\x02k1\x01");
    burst.extend_from_slice(&request(3, b"/dict.DictStore/Set", b"\x0a\x02k2\x02"));
    burst.extend_from_slice(&request(5, b"/dict.DictStore/Get", b"\x0a\x02k1"));
    let consumed = conn.process_burst(&burst).unwrap();
    assert_eq!(consumed, burst.len());

    // the three requests landed on the workers their keys hash to
    let mut shards: Vec<Shard> = (0..WORKERS).map(|_| Shard { map: HashMap::new() }).collect();
    let mut routed = vec![0usize; WORKERS];
    for (i, rx) in rxs.iter().enumerate() {
        while let Ok(req) = rx.try_recv() {
            routed[i] += 1;
            assert_eq!(shard_of(key_of(&req.request)), i);
            assert!(req.handle(&mut shards[i]), "output end is open");
        }
    }
    assert_eq!(routed[shard_of("k1")], 2);
    assert_eq!(routed[shard_of("k2")], 1);

    // the output thread may see responses in any order; each still
    // carries its own stream id
    let mut responses: Vec<DispatchResponse<RawReply>> = Vec::new();
    while let Ok(resp) = resp_rx.try_recv() {
        responses.push(resp);
    }
    assert_eq!(responses.len(), 3);
    responses.reverse();
    let mut resp_end = ResponseEnd::new(&Config::new());
    for resp in responses.iter() {
        let flushed = resp_end
            .build(resp.stream_id, &resp.response, resp.req_data_len)
            .unwrap();
        assert!(flushed.is_none());
    }
    let out = resp_end.flush().unwrap();
    let frames = parse_frames(&out);
    let data_ids: Vec<u32> = frames
        .iter()
        .filter(|f| f.0 == FrameKind::Data)
        .map(|f| f.2)
        .collect();
    let mut sorted_ids = data_ids.clone();
    sorted_ids.sort();
    assert_eq!(sorted_ids, vec![1, 3, 5], "each stream answered exactly once");
    // the Get of k1 sees the value the Set stored
    let get_data = frames.iter().find(|f| f.0 == FrameKind::Data && f.2 == 5).unwrap();
    assert_eq!(&get_data.3[5..], &[0x08, 0x01]);
}

#[test]
fn a_full_worker_queue_answers_unavailable() {
    let (tx, _rx) = mpsc::sync_channel::<DispatchRequest<DictRequest, RawReply>>(1);
    let (resp_tx, resp_rx) = mpsc::sync_channel(16);
    // saturate the single-slot queue: the first dispatch is accepted
    dispatch(&tx, &resp_tx, DictRequest::Fetch("k".to_owned()), 1, 10).unwrap();
    // the next request routed there is rejected and answered in place
    dispatch(&tx, &resp_tx, DictRequest::Fetch("k".to_owned()), 3, 11).unwrap();
    let resp = resp_rx.try_recv().unwrap();
    assert_eq!(resp.stream_id, 3);
    assert_eq!(resp.req_data_len, 11);
    match &resp.response {
        Err(status) => {
            assert_eq!(status.code, Code::Unavailable);
            assert_eq!(status.code.num(), 14);
            assert_eq!(status.message, "dispatch channel is full");
        }
        Ok(_) => panic!("overflow must synthesize a status"),
    }
    // through the response end it becomes a grpc-status: 14 trailer
    let mut resp_end = ResponseEnd::new(&Config::new());
    resp_end.build(resp.stream_id, &resp.response, resp.req_data_len).unwrap();
    let out = resp_end.flush().unwrap();
    let frames = parse_frames(&out);
    assert_eq!(frames[0].1, 0x05);
    let fourteen = [0x02, b'1', b'4'];
    assert!(frames[0].3.windows(3).any(|w| w == fourteen));
}

#[test]
fn a_closed_worker_queue_answers_internal() {
    let (tx, rx) = mpsc::sync_channel::<DispatchRequest<DictRequest, RawReply>>(1);
    drop(rx);
    let (resp_tx, resp_rx) = mpsc::sync_channel(16);
    dispatch(&tx, &resp_tx, DictRequest::Fetch("k".to_owned()), 7, 9).unwrap();
    let resp = resp_rx.try_recv().unwrap();
    assert_eq!(resp.stream_id, 7);
    match &resp.response {
        Err(status) => {
            assert_eq!(status.code, Code::Internal);
            assert_eq!(status.code.num(), 13);
        }
        Ok(_) => panic!("a closed queue must synthesize a status"),
    }
}

#[test]
fn failure_statuses_are_fixed() {
    let full = dispatch_failure_status(true);
    assert_eq!(full.code, Code::Unavailable);
    assert_eq!(full.message, "dispatch channel is full");
    let closed = dispatch_failure_status(false);
    assert_eq!(closed.code, Code::Internal);
    assert_eq!(closed.message, "dispatch channel is closed");
}

struct AllLocal;

impl PajamaxService for AllLocal {
    type Request = u8;
    type Reply = RawReply;

    fn route(path: &[u8]) -> Option<usize> {
        if path == b"/t.T/M" {
            Some(0)
        } else {
            None
        }
    }

    fn parse(_disc: usize, buf: &[u8]) -> Option<u8> {
        buf.first().copied()
    }

    fn call(&mut self, request: u8) -> Response<RawReply> {
        Ok(RawReply(vec![0x08, request]))
    }
}

impl PajamaxDispatchService for AllLocal {
    fn dispatch_to<'a>(&'a self, _request: &u8) -> Option<&'a RequestTx<u8, RawReply>> {
        None
    }
}

#[test]
fn undispatched_requests_run_on_the_connection_thread() {
    let (resp_tx, resp_rx) = mpsc::sync_channel(16);
    let mut conn = DispatchConnection::new(AllLocal, resp_tx);
    let burst = request(9, b"/t.T/M", &[0x2a]);
    let consumed = conn.process_burst(&burst).unwrap();
    assert_eq!(consumed, burst.len());
    let resp = resp_rx.try_recv().unwrap();
    assert_eq!(resp.stream_id, 9);
    match &resp.response {
        Ok(reply) => assert_eq!(reply.0, vec![0x08, 0x2a]),
        Err(_) => panic!("the local handler succeeds"),
    }
}

#[test]
fn a_closed_response_channel_is_fatal() {
    let (tx, _rx) = mpsc::sync_channel::<DispatchRequest<DictRequest, RawReply>>(1);
    let (resp_tx, resp_rx) = mpsc::sync_channel(16);
    drop(resp_rx);
    // fill the worker queue so the failure path must use the response
    // channel, which is gone
    dispatch(&tx, &resp_tx, DictRequest::Fetch("k".to_owned()), 1, 10).unwrap();
    let r = dispatch(&tx, &resp_tx, DictRequest::Fetch("k".to_owned()), 3, 11);
    assert!(matches!(r, Err(pajamax::error::Error::ChannelClosed)));
}
