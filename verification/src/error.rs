//! Connection-fatal errors. Any of these aborts the connection; request
//! level failures travel as [`crate::status::Status`] values instead.

use vstd::prelude::*;

verus! {

#[derive(Debug)]
pub enum Error {
    /// Malformed HTTP/2 framing, with a short reason.
    InvalidHttp2(&'static str),
    /// Malformed HPACK header block, with a short reason.
    InvalidHpack(&'static str),
    /// A Huffman-coded string literal did not decode.
    InvalidHuffman,
    /// The request body did not decode as the method's input message.
    InvalidProtobuf,
    /// A dispatch channel was closed.
    ChannelClosed,
    /// A `:path` resolved to no method of any registered service; holds the
    /// raw path bytes.
    UnknownMethod(Vec<u8>),
    /// A HEADERS block carried no `:path` at all.
    NoPathSet,
}

impl Error {
    /// A short fixed description, one per variant.
    pub fn describe(&self) -> (r: &'static str)
        ensures
            self is InvalidHttp2 ==> r@ == "invalid http2"@,
            self is InvalidHpack ==> r@ == "invalid hpack"@,
            self is InvalidHuffman ==> r@ == "invalid huffman"@,
            self is InvalidProtobuf ==> r@ == "invalid protobuf"@,
            self is ChannelClosed ==> r@ == "channel closed"@,
            self is UnknownMethod ==> r@ == "unknown method"@,
            self is NoPathSet ==> r@ == "no :path set"@,
    {
        proof {
            reveal_strlit("invalid http2");
            reveal_strlit("invalid hpack");
            reveal_strlit("invalid huffman");
            reveal_strlit("invalid protobuf");
            reveal_strlit("channel closed");
            reveal_strlit("unknown method");
            reveal_strlit("no :path set");
        }
        match self {
            Error::InvalidHttp2(_) => "invalid http2",
            Error::InvalidHpack(_) => "invalid hpack",
            Error::InvalidHuffman => "invalid huffman",
            Error::InvalidProtobuf => "invalid protobuf",
            Error::ChannelClosed => "channel closed",
            Error::UnknownMethod(_) => "unknown method",
            Error::NoPathSet => "no :path set",
        }
    }
}

} // verus!
