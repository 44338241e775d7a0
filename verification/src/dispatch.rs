//! Dispatch mode: the connection thread parses requests and ships them
//! over bounded channels to user-owned worker threads; one output thread
//! per connection drains the response channel and owns all writing. A
//! full or closed worker queue synthesizes a failure status which
//! travels the same response channel, so no request is silently lost.

use vstd::prelude::*;

use std::sync::mpsc::SyncSender;

use crate::connection::RouteState;
use crate::error::Error;
use crate::http2::{Frame, FrameKind, HEAD_SIZE};
use crate::status::{Code, Status};
use crate::{PajamaxService, Response};

verus! {

use vstd::slice::slice_subrange;

#[verifier::external_type_specification]
#[verifier::external_body]
#[verifier::reject_recursive_types(T)]
pub struct ExSyncSender<T>(SyncSender<T>);

/// Send end of a worker's request channel.
pub type RequestTx<Req, Reply> = SyncSender<DispatchRequest<Req, Reply>>;

/// Send end of a connection's response channel.
pub type ResponseTx<Reply> = SyncSender<DispatchResponse<Reply>>;

/// A request shipped to a worker: the parsed message plus everything the
/// output thread needs to answer it.
#[verifier::reject_recursive_types(Reply)]
pub struct DispatchRequest<Req, Reply> {
    pub stream_id: u32,
    pub req_data_len: usize,
    pub request: Req,
    pub resp_tx: ResponseTx<Reply>,
}

/// A response traveling from a worker (or the connection thread) to the
/// output thread.
pub struct DispatchResponse<Reply> {
    pub stream_id: u32,
    pub req_data_len: usize,
    pub response: Response<Reply>,
}

/// What a non-blocking channel send did.
pub enum SendOutcome<T> {
    Sent,
    Full(T),
    Closed(T),
}

/// Relies on `mpsc::SyncSender::try_send`: a rejected value comes back
/// unchanged, `Full` for a full queue and `Closed` for a hung-up
/// receiver. Whether a value is accepted depends on the other threads,
/// so nothing is promised about which outcome occurs.
#[verifier::external_body]
fn chan_try_send<T>(tx: &SyncSender<T>, value: T) -> (r: SendOutcome<T>)
    ensures
        r matches SendOutcome::Full(v) ==> v == value,
        r matches SendOutcome::Closed(v) ==> v == value,
{
    match tx.try_send(value) {
        Ok(()) => SendOutcome::Sent,
        Err(std::sync::mpsc::TrySendError::Full(v)) => SendOutcome::Full(v),
        Err(std::sync::mpsc::TrySendError::Disconnected(v)) => SendOutcome::Closed(v),
    }
}

/// Relies on `mpsc::SyncSender::send`: blocks until the value is
/// accepted; `false` reports a hung-up receiver (the value is then
/// gone). Which outcome occurs depends on the other threads.
#[verifier::external_body]
fn chan_send<T>(tx: &SyncSender<T>, value: T) -> (r: bool) {
    tx.send(value).is_ok()
}

/// Relies on `mpsc::SyncSender::clone`: another send end of the same
/// channel.
#[verifier::external_body]
fn clone_sender<T>(tx: &SyncSender<T>) -> (r: SyncSender<T>) {
    tx.clone()
}

/// The status a failed dispatch synthesizes: `Unavailable` for a full
/// worker queue, `Internal` for a closed one.
pub fn dispatch_failure_status(full: bool) -> (st: Status)
    ensures
        st.code == (if full {
            Code::Unavailable
        } else {
            Code::Internal
        }),
        full ==> st.message@ == "dispatch channel is full"@,
        !full ==> st.message@ == "dispatch channel is closed"@,
{
    if full {
        Status { code: Code::Unavailable, message: "dispatch channel is full".to_owned() }
    } else {
        Status { code: Code::Internal, message: "dispatch channel is closed".to_owned() }
    }
}

/// Sends the synthesized failure status for a stream into the response
/// channel, so the output thread answers it like any other response.
fn send_failure<Reply>(
    resp_tx: &ResponseTx<Reply>,
    stream_id: u32,
    req_data_len: usize,
    full: bool,
) -> (r: Result<(), Error>)
    ensures
        r matches Err(e) ==> e is ChannelClosed,
{
    let status = dispatch_failure_status(full);
    let resp = DispatchResponse { stream_id, req_data_len, response: Err(status) };
    if chan_send(resp_tx, resp) {
        Ok(())
    } else {
        Err(Error::ChannelClosed)
    }
}

/// Ships one parsed request to its worker without blocking. A full or
/// closed worker queue turns into a failure status sent down the
/// response channel instead; only a closed response channel is fatal.
pub fn dispatch<Req, Reply>(
    req_tx: &RequestTx<Req, Reply>,
    resp_tx: &ResponseTx<Reply>,
    request: Req,
    stream_id: u32,
    req_data_len: usize,
) -> (r: Result<(), Error>)
    ensures
        r matches Err(e) ==> e is ChannelClosed,
{
    let disp_req = DispatchRequest {
        request,
        stream_id,
        req_data_len,
        resp_tx: clone_sender(resp_tx),
    };
    match chan_try_send(req_tx, disp_req) {
        SendOutcome::Sent => Ok(()),
        SendOutcome::Full(v) => send_failure(resp_tx, v.stream_id, v.req_data_len, true),
        SendOutcome::Closed(v) => send_failure(resp_tx, v.stream_id, v.req_data_len, false),
    }
}

impl<Req, Reply> DispatchRequest<Req, Reply> {
    /// Runs the method handler on the worker's own state and forwards
    /// the response to the connection's output thread; `false` reports a
    /// hung-up output thread, on which the worker should stop.
    pub fn handle<S: PajamaxService<Request = Req, Reply = Reply>>(self, ctx: &mut S) -> (r: bool) {
        let DispatchRequest { stream_id, req_data_len, request, resp_tx } = self;
        let response = ctx.call(request);
        chan_send(&resp_tx, DispatchResponse { stream_id, req_data_len, response })
    }
}

/// A service whose requests may be dispatched to worker threads over
/// bounded channels.
pub trait PajamaxDispatchService: PajamaxService {
    /// Picks the worker a request goes to; `None` runs the handler on
    /// the connection thread instead (its response still travels through
    /// the output thread, which alone touches the socket and the HPACK
    /// encoder).
    fn dispatch_to<'a>(&'a self, request: &Self::Request) -> Option<
        &'a RequestTx<Self::Request, Self::Reply>,
    >;
}

/// A dispatch-mode connection: the frame engine of the reading thread.
/// All responses, including synthesized failures, leave through the
/// response channel; this side never writes the socket.
pub struct DispatchConnection<S: PajamaxDispatchService> {
    pub srv: S,
    pub route: RouteState,
    pub resp_tx: ResponseTx<S::Reply>,
}

impl<S: PajamaxDispatchService> DispatchConnection<S> {
    pub open spec fn wf(self) -> bool {
        self.route.wf()
    }

    pub fn new(srv: S, resp_tx: ResponseTx<S::Reply>) -> (r: Self)
        ensures
            r.wf(),
            r.route.opened@ == Seq::<u32>::empty(),
            r.route.completed@ == Seq::<u32>::empty(),
    {
        DispatchConnection { srv, route: RouteState::new(), resp_tx }
    }

    /// Routes one parsed request: to its worker's channel, or through
    /// the handler right here when the service keeps it local. Either
    /// way the response travels the response channel.
    pub fn handle_call(&mut self, request: S::Request, stream_id: u32, req_data_len: usize) -> (r:
        Result<(), Error>)
        ensures
            final(self).route == old(self).route,
            r matches Err(e) ==> e is ChannelClosed,
    {
        match self.srv.dispatch_to(&request) {
            Some(req_tx) => dispatch(req_tx, &self.resp_tx, request, stream_id, req_data_len),
            None => {
                let response = self.srv.call(request);
                let resp = DispatchResponse { stream_id, req_data_len, response };
                if chan_send(&self.resp_tx, resp) {
                    Ok(())
                } else {
                    Err(Error::ChannelClosed)
                }
            },
        }
    }

    /// Processes every complete frame at the head of `input`, exactly as
    /// the local engine does, but hands each completed request to
    /// [`Self::handle_call`]. On success the count of consumed bytes is
    /// exactly the bytes the complete frames at the head of the input
    /// span, so the caller's carry-over of the partial tail is sound;
    /// the ghost records of opened and completed streams only ever
    /// grow. Any `Err` is connection-fatal.
    pub fn process_burst(&mut self, input: &[u8]) -> (r: Result<usize, Error>)
        requires
            old(self).wf(),
        ensures
            final(self).wf(),
            old(self).route.opened@.is_prefix_of(final(self).route.opened@),
            old(self).route.completed@.is_prefix_of(final(self).route.completed@),
            crate::http2::spec_frames_len(input@) == 0 ==> r is Ok,
            r matches Ok(consumed) ==> consumed == crate::http2::spec_frames_len(input@)
                && consumed <= input@.len(),
    {
        let mut pos: usize = 0;
        proof {
            assert(input@.skip(0) =~= input@);
            assert(self.route.opened@.subrange(0, self.route.opened@.len() as int)
                =~= self.route.opened@);
            assert(self.route.completed@.subrange(0, self.route.completed@.len() as int)
                =~= self.route.completed@);
        }
        loop
            invariant
                pos <= input@.len(),
                self.wf(),
                pos + crate::http2::spec_frames_len(input@.skip(pos as int))
                    == crate::http2::spec_frames_len(input@),
                old(self).route.opened@.is_prefix_of(self.route.opened@),
                old(self).route.completed@.is_prefix_of(self.route.completed@),
            ensures
                pos <= input@.len(),
                self.wf(),
                pos == crate::http2::spec_frames_len(input@),
                old(self).route.opened@.is_prefix_of(self.route.opened@),
                old(self).route.completed@.is_prefix_of(self.route.completed@),
            decreases input@.len() - pos,
        {
            let tail = slice_subrange(input, pos, input.len());
            let frame = match Frame::parse(tail) {
                Some(frame) => frame,
                None => {
                    break ;
                },
            };
            let frame_size = HEAD_SIZE + frame.len;
            proof {
                assert(input@.skip(pos as int).skip(frame_size as int) =~= input@.skip(
                    pos + frame_size,
                ));
                crate::http2::lemma_frames_len_nonneg(input@.skip(pos + frame_size));
            }
            match frame.kind {
                FrameKind::Headers => {
                    let ghost pre_opened = self.route.opened@;
                    match self.route.on_headers::<S>(&frame) {
                        Ok(()) => {
                            proof {
                                crate::connection::lemma_prefix_push(
                                    old(self).route.opened@,
                                    pre_opened,
                                    frame.stream_id,
                                );
                            }
                        },
                        Err(e) => {
                            return Err(e);
                        },
                    }
                },
                FrameKind::Data => {
                    let req_buf = match frame.process_data() {
                        Ok(b) => b,
                        Err(e) => {
                            return Err(e);
                        },
                    };
                    if req_buf.len() != 0 {
                        if req_buf.len() < 5 {
                            return Err(Error::InvalidHttp2("DATA frame too short for grpc"));
                        }
                        let body = slice_subrange(req_buf, 5, req_buf.len());
                        let ghost pre_completed = self.route.completed@;
                        let disc = match self.route.take_slot(frame.stream_id) {
                            Ok(disc) => disc,
                            Err(e) => {
                                return Err(e);
                            },
                        };
                        proof {
                            crate::connection::lemma_prefix_push(
                                old(self).route.completed@,
                                pre_completed,
                                frame.stream_id,
                            );
                        }
                        let request = match S::parse(disc, body) {
                            Some(request) => request,
                            None => {
                                return Err(Error::InvalidProtobuf);
                            },
                        };
                        match self.handle_call(request, frame.stream_id, frame.len) {
                            Ok(()) => (),
                            Err(e) => {
                                return Err(e);
                            },
                        }
                    }
                },
                _ => (),
            }
            pos = pos + frame_size;
        }
        Ok(pos)
    }
}

} // verus!
