//! A synchronous gRPC server core: a specialized HTTP/2 frame codec, a
//! path-only HPACK decoder, a reply-only HPACK encoder, a canonical Huffman
//! codec for HPACK string literals, a response builder with batched flushing,
//! and the per-connection protocol engine, for both the local and the
//! dispatch execution modes.
//!
//! All socket and thread handling lives outside this library: callers read
//! bytes from the wire, hand them to the connection engine, and write back
//! the bytes the engine produces.

use vstd::prelude::*;

pub mod config;
pub mod connection;
pub mod dispatch;
pub mod hpack_decoder;
pub mod hpack_encoder;
pub mod http2;
pub mod huffman;
pub mod response_end;
pub mod error;
pub mod status;

pub use config::Config;

verus! {

/// Wrapper of `Result<Reply, Status>`: what a method handler returns.
pub type Response<Reply> = Result<Reply, crate::status::Status>;

/// The contract between the framework and the glue generated for a
/// service: route a path to a method ordinal, parse a request body, and
/// run the handler. The framework states nothing about these, since the
/// service's behavior is its own.
pub trait PajamaxService: Sized {
    /// The sum of the service's request messages.
    type Request;

    /// The sum of the service's reply messages.
    type Reply: crate::http2::RespEncode;

    /// Locates the method a `:path` of the form
    /// `/<package>.<Service>/<Method>` names; `None` for an unknown path.
    fn route(path: &[u8]) -> Option<usize>;

    /// Parses a request body as the input message of the method `disc`
    /// names; `None` when the body does not decode.
    fn parse(disc: usize, buf: &[u8]) -> Option<Self::Request>;

    /// Runs the method's handler.
    fn call(&mut self, request: Self::Request) -> Response<Self::Reply>;
}

} // verus!
