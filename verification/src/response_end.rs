//! The write side of a connection: responses accumulate in an output
//! buffer and are flushed in batches. On every flush a single
//! WINDOW_UPDATE on stream 0 returns exactly the request bytes consumed
//! since the previous flush. The caller that owns the socket writes the
//! returned bytes; nothing here does I/O.

use vstd::prelude::*;

use crate::config::Config;
use crate::error::Error;
use crate::hpack_encoder::Encoder;
use crate::http2;
use crate::http2::RespEncode;
use crate::Response;

verus! {

/// The sum of a sequence of byte counts.
pub open spec fn spec_sum(s: Seq<usize>) -> int
    decreases s.len(),
{
    if s.len() == 0 {
        0
    } else {
        spec_sum(s.drop_last()) + s.last()
    }
}

/// The bytes one response appends: three frames for a reply, one HEADERS
/// frame for a status.
pub open spec fn spec_entry_bytes<Reply: RespEncode>(
    enc: Encoder,
    stream_id: u32,
    response: Response<Reply>,
) -> Seq<u8> {
    match response {
        Ok(reply) => http2::spec_response_bytes(enc, stream_id, reply.spec_encoding()),
        Err(status) => http2::spec_status_bytes(
            enc,
            stream_id,
            status.code.spec_num(),
            crate::status::spec_message_bytes(status.message),
        ),
    }
}

/// Whether one response is too large to frame: a reply must leave room
/// for the 5-byte gRPC prefix in one DATA frame, a status message for
/// the other headers of its HEADERS frame.
pub open spec fn spec_entry_oversized<Reply: RespEncode>(response: Response<Reply>) -> bool {
    match response {
        Ok(reply) => reply.spec_encoding().len() >= 0xfffffb,
        Err(status) => crate::status::spec_message_bytes(status.message).len() >= 0xffff00,
    }
}

/// The encoder state after one response.
pub open spec fn spec_entry_encoder<Reply: RespEncode>(
    enc: Encoder,
    response: Response<Reply>,
) -> Encoder {
    match response {
        Ok(reply) => http2::spec_response_encoder(enc),
        Err(status) => http2::spec_status_encoder(enc),
    }
}

/// The exact effect of building one response for `response`: the error
/// condition, the flush decision, the appended entry bytes and the
/// encoder transition, relating the write side before (`pre`) and after
/// (`post`).
pub open spec fn spec_one_response<Reply: RespEncode>(
    pre: ResponseEnd,
    post: ResponseEnd,
    r: Result<Option<Vec<u8>>, Error>,
    stream_id: u32,
    req_data_len: usize,
    response: Response<Reply>,
) -> bool {
    &&& (r is Err <==> (pre.req_data_len + req_data_len > 0x7fffffff || spec_entry_oversized(
        response,
    )))
    &&& match r {
        Ok(flushed) => {
            let entry = spec_entry_bytes(pre.hpack_encoder, stream_id, response);
            &&& (flushed is Some <==> (pre.req_count + 1 >= pre.max_flush_requests || (pre.output@
                + entry).len() >= pre.max_flush_size))
            &&& post.responded@ == pre.responded@.push(stream_id)
            &&& post.hpack_encoder == spec_entry_encoder(pre.hpack_encoder, response)
            &&& post.max_flush_requests == pre.max_flush_requests
            &&& post.max_flush_size == pre.max_flush_size
            &&& match flushed {
                None => {
                    &&& post.output@ == pre.output@ + entry
                    &&& post.req_count == pre.req_count + 1
                    &&& post.pending_data@ == pre.pending_data@.push(req_data_len)
                },
                Some(bytes) => {
                    &&& bytes@ == pre.output@ + entry + http2::spec_window_update_bytes(
                        pre.req_data_len + req_data_len,
                    )
                    &&& pre.req_data_len + req_data_len == spec_sum(
                        pre.pending_data@.push(req_data_len),
                    )
                    &&& post.output@.len() == 0
                    &&& post.req_count == 0
                    &&& post.req_data_len == 0
                    &&& post.pending_data@.len() == 0
                },
            }
        },
        Err(e) => {
            &&& post.req_count == pre.req_count
            &&& post.req_data_len == pre.req_data_len
            &&& post.hpack_encoder == pre.hpack_encoder
            &&& post.output@ == pre.output@
            &&& post.responded@ == pre.responded@
            &&& post.pending_data@ == pre.pending_data@
            &&& post.max_flush_requests == pre.max_flush_requests
            &&& post.max_flush_size == pre.max_flush_size
            &&& e is InvalidHttp2
        },
    }
}

pub struct ResponseEnd {
    pub req_count: usize,
    pub req_data_len: usize,
    pub hpack_encoder: Encoder,
    pub output: Vec<u8>,
    pub max_flush_requests: usize,
    pub max_flush_size: usize,
    /// Every stream id responded on this connection, in emission order.
    pub responded: Ghost<Seq<u32>>,
    /// The request DATA lengths accounted since the last flush; their sum
    /// is the credit the next WINDOW_UPDATE returns.
    pub pending_data: Ghost<Seq<usize>>,
}

impl ResponseEnd {
    /// The window credit owed equals the sum of the recorded DATA
    /// lengths, stays within the 31-bit flow-control range, and there is
    /// nothing pending when the buffer is empty.
    pub open spec fn wf(self) -> bool {
        &&& self.hpack_encoder.wf()
        &&& self.req_data_len == spec_sum(self.pending_data@)
        &&& self.req_data_len <= 0x7fffffff
        &&& self.req_count <= self.output@.len()
        &&& (self.output@.len() == 0 ==> self.pending_data@.len() == 0 && self.req_count == 0)
    }

    pub fn new(config: &Config) -> (r: Self)
        ensures
            r.wf(),
            r.output@.len() == 0,
            r.req_count == 0,
            r.req_data_len == 0,
            r.responded@ == Seq::<u32>::empty(),
            r.pending_data@ == Seq::<usize>::empty(),
            r.max_flush_requests == config.max_flush_requests,
            r.max_flush_size == config.max_flush_size,
            r.hpack_encoder.spec_rank_grpc_status_zero() is None,
            r.hpack_encoder.spec_rank_content_type() is None,
    {
        ResponseEnd {
            req_count: 0,
            req_data_len: 0,
            hpack_encoder: Encoder::new(),
            output: Vec::new(),
            max_flush_requests: config.max_flush_requests,
            max_flush_size: config.max_flush_size,
            responded: Ghost(Seq::empty()),
            pending_data: Ghost(Seq::empty()),
        }
    }

    /// Builds one response into the buffer and accounts `req_data_len`
    /// bytes of consumed request data. Returns the bytes to write now
    /// when a flush threshold was crossed, `None` when the response only
    /// accumulated. Exactly one response is emitted per call, carrying
    /// `stream_id`.
    #[verifier::rlimit(80)]
    pub fn build<Reply: RespEncode>(
        &mut self,
        stream_id: u32,
        response: &Response<Reply>,
        req_data_len: usize,
    ) -> (r: Result<Option<Vec<u8>>, Error>)
        requires
            old(self).wf(),
        ensures
            final(self).wf(),
            spec_one_response(*old(self), *final(self), r, stream_id, req_data_len, *response),
            r is Err <==> (old(self).req_data_len + req_data_len > 0x7fffffff
                || spec_entry_oversized(*response)),
            match r {
                Ok(flushed) => {
                    let entry = spec_entry_bytes(
                        old(self).hpack_encoder,
                        stream_id,
                        *response,
                    );
                    &&& (flushed is Some <==> (old(self).req_count + 1
                        >= old(self).max_flush_requests || (old(self).output@ + entry).len()
                        >= old(self).max_flush_size))
                    &&& final(self).responded@ == old(self).responded@.push(stream_id)
                    &&& final(self).hpack_encoder == spec_entry_encoder(
                        old(self).hpack_encoder,
                        *response,
                    )
                    &&& final(self).max_flush_requests == old(self).max_flush_requests
                    &&& final(self).max_flush_size == old(self).max_flush_size
                    &&& match flushed {
                        None => {
                            &&& final(self).output@ == old(self).output@ + entry
                            &&& final(self).req_count == old(self).req_count + 1
                            &&& final(self).pending_data@ == old(self).pending_data@.push(
                                req_data_len,
                            )
                        },
                        Some(bytes) => {
                            &&& bytes@ == old(self).output@ + entry
                                + http2::spec_window_update_bytes(
                                old(self).req_data_len + req_data_len,
                            )
                            &&& old(self).req_data_len + req_data_len == spec_sum(
                                old(self).pending_data@.push(req_data_len),
                            )
                            &&& final(self).output@.len() == 0
                            &&& final(self).req_count == 0
                            &&& final(self).req_data_len == 0
                            &&& final(self).pending_data@.len() == 0
                        },
                    }
                },
                Err(e) => {
                    &&& final(self).req_count == old(self).req_count
                    &&& final(self).req_data_len == old(self).req_data_len
                    &&& final(self).hpack_encoder == old(self).hpack_encoder
                    &&& final(self).output@ == old(self).output@
                    &&& final(self).responded@ == old(self).responded@
                    &&& final(self).pending_data@ == old(self).pending_data@
                    &&& final(self).max_flush_requests == old(self).max_flush_requests
                    &&& final(self).max_flush_size == old(self).max_flush_size
                    &&& e is InvalidHttp2
                },
            },
    {
        if req_data_len > 0x7fffffff - self.req_data_len {
            return Err(Error::InvalidHttp2("window credit overflow"));
        }
        let sid = stream_id;
        match response {
            Ok(reply) => {
                match http2::build_response(sid, reply, &mut self.hpack_encoder, &mut self.output) {
                    Ok(()) => (),
                    Err(e) => {
                        return Err(e);
                    },
                }
            },
            Err(status) => {
                match http2::build_status(sid, status, &mut self.hpack_encoder, &mut self.output) {
                    Ok(()) => (),
                    Err(e) => {
                        return Err(e);
                    },
                }
            },
        }
        let cur_len = self.output.len();
        proof {
            self.responded@ = self.responded@.push(stream_id);
            self.pending_data@ = self.pending_data@.push(req_data_len);
            assert(cur_len >= old(self).output@.len() + 9);
            assert(self.req_count < cur_len);
        }
        self.req_count = self.req_count + 1;
        self.req_data_len = self.req_data_len + req_data_len;
        proof {
            assert(self.pending_data@.drop_last() =~= old(self).pending_data@);
        }
        if self.req_count >= self.max_flush_requests || self.output.len() >= self.max_flush_size {
            let bytes = self.take_flush();
            Ok(Some(bytes))
        } else {
            Ok(None)
        }
    }

    /// Takes everything buffered plus the WINDOW_UPDATE returning the
    /// accounted credit, and resets the counters.
    fn take_flush(&mut self) -> (bytes: Vec<u8>)
        requires
            old(self).wf(),
        ensures
            final(self).wf(),
            bytes@ == old(self).output@ + http2::spec_window_update_bytes(
                old(self).req_data_len as int,
            ),
            old(self).req_data_len == spec_sum(old(self).pending_data@),
            final(self).output@.len() == 0,
            final(self).req_count == 0,
            final(self).req_data_len == 0,
            final(self).pending_data@.len() == 0,
            final(self).responded@ == old(self).responded@,
            final(self).hpack_encoder == old(self).hpack_encoder,
            final(self).max_flush_requests == old(self).max_flush_requests,
            final(self).max_flush_size == old(self).max_flush_size,
    {
        http2::build_window_update(self.req_data_len, &mut self.output);
        let mut bytes: Vec<u8> = Vec::new();
        std::mem::swap(&mut bytes, &mut self.output);
        self.req_count = 0;
        self.req_data_len = 0;
        proof {
            self.pending_data@ = Seq::empty();
        }
        bytes
    }

    /// The end-of-burst flush: returns the buffered bytes (closed by one
    /// WINDOW_UPDATE whose increment is exactly the sum of the DATA
    /// lengths accounted since the last flush) or `None` when nothing is
    /// buffered.
    pub fn flush(&mut self) -> (r: Option<Vec<u8>>)
        requires
            old(self).wf(),
        ensures
            final(self).wf(),
            final(self).responded@ == old(self).responded@,
            final(self).hpack_encoder == old(self).hpack_encoder,
            final(self).max_flush_requests == old(self).max_flush_requests,
            final(self).max_flush_size == old(self).max_flush_size,
            match r {
                None => *final(self) == *old(self) && old(self).output@.len() == 0,
                Some(bytes) => {
                    &&& old(self).output@.len() > 0
                    &&& bytes@ == old(self).output@ + http2::spec_window_update_bytes(
                        old(self).req_data_len as int,
                    )
                    &&& old(self).req_data_len == spec_sum(old(self).pending_data@)
                    &&& final(self).output@.len() == 0
                    &&& final(self).req_count == 0
                    &&& final(self).req_data_len == 0
                    &&& final(self).pending_data@.len() == 0
                },
            },
    {
        if self.output.len() == 0 {
            return None;
        }
        Some(self.take_flush())
    }
}

} // verus!
