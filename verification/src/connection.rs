//! The per-connection protocol engine: frame dispatch, the route cache,
//! the pending-stream queue, and the local-mode request cycle. The
//! caller owns the socket: it reads bytes, hands each burst to
//! [`LocalConnection::process_burst`], writes the byte batches the engine
//! returns, and closes the connection on any `Err`.

use vstd::prelude::*;

use crate::error::Error;
use crate::hpack_decoder::{Decoder, PathKind};
use crate::http2::{Frame, FrameKind, HEAD_SIZE};
use crate::response_end::ResponseEnd;
use crate::{PajamaxService, Response};

verus! {

use vstd::slice::slice_subrange;

/// How often `x` occurs in `s`.
pub open spec fn count(s: Seq<u32>, x: u32) -> nat
    decreases s.len(),
{
    if s.len() == 0 {
        0
    } else {
        count(s.drop_last(), x) + (if s.last() == x {
            1nat
        } else {
            0nat
        })
    }
}

proof fn lemma_count_concat(a: Seq<u32>, b: Seq<u32>, x: u32)
    ensures
        count(a + b, x) == count(a, x) + count(b, x),
    decreases b.len(),
{
    if b.len() == 0 {
        assert(a + b =~= a);
    } else {
        assert((a + b).drop_last() =~= a + b.drop_last());
        lemma_count_concat(a, b.drop_last(), x);
    }
}

pub(crate) proof fn lemma_prefix_push<T>(a: Seq<T>, b: Seq<T>, x: T)
    requires
        a.is_prefix_of(b),
    ensures
        a.is_prefix_of(b.push(x)),
{
    assert(b.push(x).subrange(0, a.len() as int) =~= b.subrange(0, a.len() as int));
}

/// A pending request: a stream whose HEADERS arrived and whose DATA is
/// awaited.
pub struct StreamSlot {
    pub id: u32,
    pub disc: usize,
}

/// The stream ids of the queued slots.
pub open spec fn slots_ids(s: Seq<StreamSlot>) -> Seq<u32> {
    s.map_values(|slot: StreamSlot| slot.id)
}

/// The routing state a connection keeps across bursts: the HPACK
/// decoder, the route cache mapping each path cache index to a method
/// ordinal, and the queue of streams awaiting their DATA.
pub struct RouteState {
    pub hpack_decoder: Decoder,
    pub route_cache: Vec<usize>,
    pub streams: Vec<StreamSlot>,
    /// Every stream id whose HEADERS was accepted, in arrival order.
    pub opened: Ghost<Seq<u32>>,
    /// Every stream id whose DATA was matched and handed to a handler,
    /// in completion order.
    pub completed: Ghost<Seq<u32>>,
}

impl RouteState {
    /// Queued ids are distinct, and every opened stream is accounted as
    /// either still queued or completed, exactly once.
    pub open spec fn wf(self) -> bool {
        &&& self.hpack_decoder.wf()
        &&& forall|i: int, j: int|
            0 <= i < j < self.streams@.len() ==> (#[trigger] self.streams@[i]).id != (
            #[trigger] self.streams@[j]).id
        &&& forall|x: u32|
            #[trigger] count(self.completed@, x) + count(slots_ids(self.streams@), x) == count(
                self.opened@,
                x,
            )
    }

    pub fn new() -> (r: Self)
        ensures
            r.wf(),
            r.opened@ == Seq::<u32>::empty(),
            r.completed@ == Seq::<u32>::empty(),
            r.streams@.len() == 0,
            r.route_cache@.len() == 0,
    {
        let r = RouteState {
            hpack_decoder: Decoder::new(),
            route_cache: Vec::new(),
            streams: Vec::new(),
            opened: Ghost(Seq::empty()),
            completed: Ghost(Seq::empty()),
        };
        proof {
            assert(slots_ids(r.streams@) =~= Seq::<u32>::empty());
        }
        r
    }

    /// Handles one HEADERS frame: extracts the `:path`, resolves it to a
    /// method ordinal (through the route cache, or by asking the service
    /// and recording the answer), and queues the stream. Fatal on any
    /// malformed block, unknown path, unresolvable cache index, or a
    /// HEADERS for a stream that is already queued. On success exactly
    /// one slot carrying this frame's stream id is queued, the id was
    /// fresh, and the route cache either stayed as it was (the slot's
    /// ordinal comes from one of its entries) or gained exactly the
    /// slot's ordinal at its end. For the canonical block shape (one
    /// plain literal `:path`) the contract is exact: a cached path keeps
    /// cache and counter unchanged and success is owed; a fresh path
    /// appends the routed ordinal at the position of the freshly minted
    /// cache index, keeping the cache and the counter in step.
    pub fn on_headers<S: PajamaxService>(&mut self, frame: &Frame<'_>) -> (r: Result<(), Error>)
        requires
            old(self).wf(),
        ensures
            final(self).wf(),
            final(self).completed@ == old(self).completed@,
            old(self).route_cache@.is_prefix_of(final(self).route_cache@),
            final(self).route_cache@.len() <= old(self).route_cache@.len() + 1,
            frame.spec_process_headers() matches Err(e0) ==> r == Err::<(), Error>(e0),
            match r {
                Ok(()) => {
                    &&& final(self).opened@ == old(self).opened@.push(frame.stream_id)
                    &&& frame.spec_process_headers() is Ok
                    &&& final(self).streams@.len() == old(self).streams@.len() + 1
                    &&& final(self).streams@.drop_last() == old(self).streams@
                    &&& final(self).streams@.last().id == frame.stream_id
                    &&& forall|j: int|
                        0 <= j < old(self).streams@.len() ==> (#[trigger] old(self).streams@[j]).id != frame.stream_id
                    &&& (final(self).route_cache@.len() == old(self).route_cache@.len()
                        ==> exists|c: int|
                        0 <= c < old(self).route_cache@.len() && final(self).streams@.last().disc
                            == #[trigger] old(self).route_cache@[c])
                    &&& (final(self).route_cache@.len() == old(self).route_cache@.len() + 1
                        ==> final(self).route_cache@ == old(self).route_cache@.push(
                        final(self).streams@.last().disc,
                    ))
                },
                Err(e) => {
                    &&& final(self).opened@ == old(self).opened@
                    &&& final(self).streams@ == old(self).streams@
                },
            },
            frame.spec_process_headers() matches Ok(hb) ==> (
            crate::hpack_decoder::spec_one_plain_path(hb) matches Some(p) ==> {
                let cached = crate::hpack_decoder::assoc_find(
                    old(self).hpack_decoder.plain_paths@,
                    p,
                );
                &&& (cached matches Some(i) ==> {
                    &&& (r is Ok ==> {
                        &&& final(self).route_cache@ == old(self).route_cache@
                        &&& final(self).hpack_decoder.next_cache_index == old(
                            self,
                        ).hpack_decoder.next_cache_index
                        &&& i < old(self).route_cache@.len()
                        &&& final(self).streams@.last().disc == old(self).route_cache@[i as int]
                    })
                    &&& (i < old(self).route_cache@.len() && (forall|j: int|
                        0 <= j < old(self).streams@.len() ==> (#[trigger] old(
                            self,
                        ).streams@[j]).id != frame.stream_id) ==> r is Ok)
                })
                &&& (cached is None && r is Ok ==> {
                    &&& final(self).hpack_decoder.next_cache_index == old(
                        self,
                    ).hpack_decoder.next_cache_index + 1
                    &&& final(self).route_cache@ == old(self).route_cache@.push(
                        final(self).streams@.last().disc,
                    )
                })
            }),
    {
        let headers_buf = match frame.process_headers() {
            Ok(b) => b,
            Err(e) => {
                return Err(e);
            },
        };
        // no stream may be queued twice
        let mut i: usize = 0;
        let n = self.streams.len();
        while i < n
            invariant
                i <= n,
                n == self.streams@.len(),
                self.wf(),
                self.streams@ == old(self).streams@,
                self.completed@ == old(self).completed@,
                self.opened@ == old(self).opened@,
                self.route_cache@ == old(self).route_cache@,
                self.hpack_decoder == old(self).hpack_decoder,
                frame.spec_process_headers() == Ok::<Seq<u8>, Error>(headers_buf@),
                forall|j: int| 0 <= j < i ==> (#[trigger] self.streams@[j]).id != frame.stream_id,
            decreases n - i,
        {
            if self.streams[i].id == frame.stream_id {
                return Err(Error::InvalidHttp2("duplicate HEADERS for stream"));
            }
            i = i + 1;
        }
        let disc: usize = match self.hpack_decoder.find_path(headers_buf) {
            Ok(PathKind::Cached(cached)) => {
                if cached >= self.route_cache.len() {
                    return Err(Error::InvalidHpack("unresolved cache index"));
                }
                self.route_cache[cached]
            },
            Ok(PathKind::Plain(path)) => {
                match S::route(path.as_slice()) {
                    Some(disc) => {
                        self.route_cache.push(disc);
                        disc
                    },
                    None => {
                        return Err(Error::UnknownMethod(path));
                    },
                }
            },
            Err(e) => {
                return Err(e);
            },
        };
        self.streams.push(StreamSlot { id: frame.stream_id, disc });
        proof {
            self.opened@ = self.opened@.push(frame.stream_id);
            assert(slots_ids(self.streams@) =~= slots_ids(old(self).streams@).push(
                frame.stream_id,
            ));
            assert forall|x: u32|
                #[trigger] count(self.completed@, x) + count(slots_ids(self.streams@), x) == count(
                    self.opened@,
                    x,
                ) by {
                assert(slots_ids(self.streams@).drop_last() =~= slots_ids(old(self).streams@));
                assert(self.opened@.drop_last() =~= old(self).opened@);
            }
        }
        Ok(())
    }

    /// Removes the queued slot for `stream_id` and returns its method
    /// ordinal, recording the stream as completed. Fatal exactly when no
    /// queued slot carries `stream_id`: a DATA frame without its HEADERS.
    pub fn take_slot(&mut self, stream_id: u32) -> (r: Result<usize, Error>)
        requires
            old(self).wf(),
        ensures
            final(self).wf(),
            final(self).opened@ == old(self).opened@,
            final(self).route_cache@ == old(self).route_cache@,
            final(self).hpack_decoder == old(self).hpack_decoder,
            match r {
                Ok(disc) => {
                    &&& final(self).completed@ == old(self).completed@.push(stream_id)
                    &&& exists|j: int|
                        0 <= j < old(self).streams@.len() && (#[trigger] old(self).streams@[j]).id
                            == stream_id && disc == old(self).streams@[j].disc
                            && final(self).streams@ == old(self).streams@.remove(j)
                },
                Err(e) => {
                    &&& final(self).completed@ == old(self).completed@
                    &&& final(self).streams@ == old(self).streams@
                    &&& forall|j: int|
                        0 <= j < old(self).streams@.len() ==> (#[trigger] old(self).streams@[j]).id != stream_id
                    &&& e is InvalidHttp2
                },
            },
    {
        let n = self.streams.len();
        let mut i: usize = 0;
        while i < n
            invariant
                i <= n,
                n == self.streams@.len(),
                self.wf(),
                self.streams@ == old(self).streams@,
                self.completed@ == old(self).completed@,
                self.opened@ == old(self).opened@,
                self.hpack_decoder == old(self).hpack_decoder,
                self.route_cache@ == old(self).route_cache@,
                forall|j: int| 0 <= j < i ==> (#[trigger] self.streams@[j]).id != stream_id,
            decreases n - i,
        {
            if self.streams[i].id == stream_id {
                let slot = self.streams.remove(i);
                proof {
                    self.completed@ = self.completed@.push(stream_id);
                    let olds = slots_ids(old(self).streams@);
                    let news = slots_ids(self.streams@);
                    assert(olds[i as int] == old(self).streams@[i as int].id);
                    assert(olds[i as int] == stream_id);
                    assert(news =~= olds.subrange(0, i as int) + olds.subrange(
                        i + 1,
                        olds.len() as int,
                    ));
                    assert(olds =~= olds.subrange(0, i as int) + (seq![olds[i as int]]
                        + olds.subrange(i + 1, olds.len() as int)));
                    assert forall|x: u32|
                        #[trigger] count(self.completed@, x) + count(news, x) == count(
                            self.opened@,
                            x,
                        ) by {
                        lemma_count_concat(
                            olds.subrange(0, i as int),
                            olds.subrange(i + 1, olds.len() as int),
                            x,
                        );
                        lemma_count_concat(
                            olds.subrange(0, i as int),
                            seq![olds[i as int]] + olds.subrange(i + 1, olds.len() as int),
                            x,
                        );
                        lemma_count_concat(
                            seq![olds[i as int]],
                            olds.subrange(i + 1, olds.len() as int),
                            x,
                        );
                        assert(count(seq![olds[i as int]], x) == (if olds[i as int] == x {
                            1nat
                        } else {
                            0nat
                        })) by {
                            assert(seq![olds[i as int]].drop_last() =~= Seq::<u32>::empty());
                            assert(seq![olds[i as int]].last() == olds[i as int]);
                            assert(count(Seq::<u32>::empty(), x) == 0);
                        }
                        assert(self.completed@.drop_last() =~= old(self).completed@);
                        assert(self.completed@.last() == stream_id);
                        assert(count(self.completed@, x) == count(old(self).completed@, x) + (
                        if stream_id == x {
                            1nat
                        } else {
                            0nat
                        }));
                        assert(count(old(self).completed@, x) + count(olds, x) == count(
                            old(self).opened@,
                            x,
                        ));
                        assert(self.opened@ == old(self).opened@);
                    }
                }
                proof {
                    assert(0 <= i < old(self).streams@.len() && old(self).streams@[i as int].id
                        == stream_id && slot.disc == old(self).streams@[i as int].disc
                        && self.streams@ == old(self).streams@.remove(i as int));
                }
                return Ok(slot.disc);
            }
            i = i + 1;
        }
        Err(Error::InvalidHttp2("DATA frame without HEADERS"))
    }
}

/// Whether a read burst made progress: a burst that parsed nothing out
/// of a full input buffer means one frame is larger than the buffer, and
/// the connection must close.
pub fn check_progress(consumed: usize, end: usize, capacity: usize) -> (r: Result<(), Error>)
    ensures
        match r {
            Ok(()) => !(consumed == 0 && end == capacity),
            Err(e) => consumed == 0 && end == capacity && e is InvalidHttp2,
        },
{
    if consumed == 0 && end == capacity {
        Err(Error::InvalidHttp2("too long frame"))
    } else {
        Ok(())
    }
}

/// A local-mode connection: the handler runs on the reading thread and
/// its response is built straight into this connection's output buffer.
pub struct LocalConnection<S: PajamaxService> {
    pub srv: S,
    pub route: RouteState,
    pub resp_end: ResponseEnd,
}

impl<S: PajamaxService> LocalConnection<S> {
    /// The responses emitted are exactly the completed requests.
    pub open spec fn wf(self) -> bool {
        &&& self.route.wf()
        &&& self.resp_end.wf()
        &&& self.resp_end.responded@ == self.route.completed@
    }

    pub fn new(srv: S, config: &crate::config::Config) -> (r: Self)
        ensures
            r.wf(),
            r.route.opened@ == Seq::<u32>::empty(),
            r.resp_end.responded@ == Seq::<u32>::empty(),
            r.resp_end.output@.len() == 0,
    {
        LocalConnection { srv, route: RouteState::new(), resp_end: ResponseEnd::new(config) }
    }

    /// Runs one request: the handler produces a reply or a status, and
    /// exactly one response carrying `stream_id` is built, with the byte
    /// and flush effect of [`ResponseEnd::build`] for that response.
    /// Returns bytes to write when the flush thresholds were crossed.
    pub fn handle_call(&mut self, request: S::Request, stream_id: u32, req_data_len: usize) -> (r:
        Result<Option<Vec<u8>>, Error>)
        requires
            old(self).route.wf(),
            old(self).resp_end.wf(),
        ensures
            final(self).route.wf(),
            final(self).resp_end.wf(),
            final(self).route == old(self).route,
            exists|response: Response<S::Reply>|
                #[trigger] crate::response_end::spec_one_response(
                    old(self).resp_end,
                    final(self).resp_end,
                    r,
                    stream_id,
                    req_data_len,
                    response,
                ),
            match r {
                Ok(_) => final(self).resp_end.responded@ == old(self).resp_end.responded@.push(
                    stream_id,
                ),
                Err(e) => final(self).resp_end.responded@ == old(self).resp_end.responded@ && e
                    is InvalidHttp2,
            },
    {
        let response = self.srv.call(request);
        let r = self.resp_end.build(stream_id, &response, req_data_len);
        proof {
            assert(crate::response_end::spec_one_response(
                old(self).resp_end,
                self.resp_end,
                r,
                stream_id,
                req_data_len,
                response,
            ));
        }
        r
    }

    /// Processes every complete frame at the head of `input`: HEADERS
    /// frames queue a routed stream, DATA frames complete one and build
    /// its response, every other kind is ignored. On success the count
    /// of consumed bytes is exactly the bytes the complete frames at the
    /// head of the input span, so the caller's carry-over of the partial
    /// tail is sound; the returned byte batches are the flushes that
    /// crossed a threshold mid-burst, in write order. The ghost records
    /// of opened, completed and responded streams only ever grow. Any
    /// `Err` is connection-fatal and the caller must close the socket
    /// without writing anything further.
    pub fn process_burst(&mut self, input: &[u8]) -> (r: Result<(usize, Vec<Vec<u8>>), Error>)
        requires
            old(self).wf(),
        ensures
            final(self).route.wf(),
            final(self).resp_end.wf(),
            old(self).route.opened@.is_prefix_of(final(self).route.opened@),
            old(self).route.completed@.is_prefix_of(final(self).route.completed@),
            old(self).resp_end.responded@.is_prefix_of(final(self).resp_end.responded@),
            crate::http2::spec_frames_len(input@) == 0 ==> r is Ok,
            match r {
                Ok((consumed, writes)) => {
                    &&& consumed == crate::http2::spec_frames_len(input@)
                    &&& consumed <= input@.len()
                    &&& final(self).wf()
                },
                Err(e) => true,
            },
    {
        let mut pos: usize = 0;
        let mut writes: Vec<Vec<u8>> = Vec::new();
        proof {
            assert(input@.skip(0) =~= input@);
            assert(self.route.opened@.subrange(0, self.route.opened@.len() as int)
                =~= self.route.opened@);
            assert(self.route.completed@.subrange(0, self.route.completed@.len() as int)
                =~= self.route.completed@);
            assert(self.resp_end.responded@.subrange(0, self.resp_end.responded@.len() as int)
                =~= self.resp_end.responded@);
        }
        loop
            invariant
                pos <= input@.len(),
                self.wf(),
                pos + crate::http2::spec_frames_len(input@.skip(pos as int))
                    == crate::http2::spec_frames_len(input@),
                old(self).route.opened@.is_prefix_of(self.route.opened@),
                old(self).route.completed@.is_prefix_of(self.route.completed@),
                old(self).resp_end.responded@.is_prefix_of(self.resp_end.responded@),
            ensures
                pos <= input@.len(),
                self.wf(),
                pos == crate::http2::spec_frames_len(input@),
                old(self).route.opened@.is_prefix_of(self.route.opened@),
                old(self).route.completed@.is_prefix_of(self.route.completed@),
                old(self).resp_end.responded@.is_prefix_of(self.resp_end.responded@),
            decreases input@.len() - pos,
        {
            let tail = slice_subrange(input, pos, input.len());
            let frame = match Frame::parse(tail) {
                Some(frame) => frame,
                None => {
                    break ;
                },
            };
            let frame_size = HEAD_SIZE + frame.len;
            proof {
                assert(input@.skip(pos as int).skip(frame_size as int) =~= input@.skip(
                    pos + frame_size,
                ));
                crate::http2::lemma_frames_len_nonneg(input@.skip(pos + frame_size));
            }
            match frame.kind {
                FrameKind::Headers => {
                    let ghost pre_opened = self.route.opened@;
                    match self.route.on_headers::<S>(&frame) {
                        Ok(()) => {
                            proof {
                                lemma_prefix_push(
                                    old(self).route.opened@,
                                    pre_opened,
                                    frame.stream_id,
                                );
                            }
                        },
                        Err(e) => {
                            return Err(e);
                        },
                    }
                },
                FrameKind::Data => {
                    let req_buf = match frame.process_data() {
                        Ok(b) => b,
                        Err(e) => {
                            return Err(e);
                        },
                    };
                    if req_buf.len() != 0 {
                        if req_buf.len() < 5 {
                            return Err(Error::InvalidHttp2("DATA frame too short for grpc"));
                        }
                        let body = slice_subrange(req_buf, 5, req_buf.len());
                        let ghost pre_completed = self.route.completed@;
                        let disc = match self.route.take_slot(frame.stream_id) {
                            Ok(disc) => disc,
                            Err(e) => {
                                return Err(e);
                            },
                        };
                        proof {
                            lemma_prefix_push(
                                old(self).route.completed@,
                                pre_completed,
                                frame.stream_id,
                            );
                        }
                        let request = match S::parse(disc, body) {
                            Some(request) => request,
                            None => {
                                return Err(Error::InvalidProtobuf);
                            },
                        };
                        let ghost pre_responded = self.resp_end.responded@;
                        let flushed = match self.handle_call(
                            request,
                            frame.stream_id,
                            frame.len,
                        ) {
                            Ok(flushed) => flushed,
                            Err(e) => {
                                return Err(e);
                            },
                        };
                        proof {
                            lemma_prefix_push(
                                old(self).resp_end.responded@,
                                pre_responded,
                                frame.stream_id,
                            );
                        }
                        match flushed {
                            Some(bytes) => writes.push(bytes),
                            None => (),
                        }
                    }
                },
                _ => (),
            }
            pos = pos + frame_size;
        }
        Ok((pos, writes))
    }

    /// The end-of-burst soft flush: whatever is buffered, closed by one
    /// WINDOW_UPDATE whose increment is exactly the sum of the DATA
    /// lengths accounted since the last flush.
    pub fn defer_flush(&mut self) -> (r: Option<Vec<u8>>)
        requires
            old(self).wf(),
        ensures
            final(self).wf(),
            final(self).route == old(self).route,
            final(self).resp_end.responded@ == old(self).resp_end.responded@,
            match r {
                None => final(self).resp_end == old(self).resp_end && old(
                    self,
                ).resp_end.output@.len() == 0,
                Some(bytes) => {
                    &&& old(self).resp_end.output@.len() > 0
                    &&& bytes@ == old(self).resp_end.output@
                        + crate::http2::spec_window_update_bytes(
                        old(self).resp_end.req_data_len as int,
                    )
                    &&& old(self).resp_end.req_data_len == crate::response_end::spec_sum(
                        old(self).resp_end.pending_data@,
                    )
                    &&& final(self).resp_end.output@.len() == 0
                    &&& final(self).resp_end.req_count == 0
                    &&& final(self).resp_end.req_data_len == 0
                    &&& final(self).resp_end.pending_data@.len() == 0
                },
            },
    {
        self.resp_end.flush()
    }
}

/// One response per request: on a well-formed connection every stream id
/// is answered at most as often as a HEADERS opened it, and the
/// difference is exactly the requests still queued -- no response is
/// emitted for a stream without a prior successful HEADERS and DATA.
pub proof fn lemma_response_per_request<S: PajamaxService>(c: LocalConnection<S>, id: u32)
    requires
        c.wf(),
    ensures
        count(c.resp_end.responded@, id) + count(slots_ids(c.route.streams@), id) == count(
            c.route.opened@,
            id,
        ),
        count(c.resp_end.responded@, id) <= count(c.route.opened@, id),
{
}

} // verus!
