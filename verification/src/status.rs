//! gRPC status codes and the status value a handler returns on failure.

use vstd::prelude::*;

verus! {

/// The canonical gRPC status codes. `Okay` (numeric value 0) never flows
/// through the error path; it exists so that every wire value 0..=16 has a
/// name.
#[derive(Debug, Clone, Copy, PartialEq, Eq, Structural)]
pub enum Code {
    Okay,
    Cancelled,
    Unknown,
    InvalidArgument,
    DeadlineExceeded,
    NotFound,
    AlreadyExists,
    PermissionDenied,
    ResourceExhausted,
    FailedPrecondition,
    Aborted,
    OutOfRange,
    Unimplemented,
    Internal,
    Unavailable,
    DataLoss,
    Unauthenticated,
}

impl Code {
    /// The numeric value of the code on the wire.
    pub open spec fn spec_num(self) -> u32 {
        match self {
            Code::Okay => 0,
            Code::Cancelled => 1,
            Code::Unknown => 2,
            Code::InvalidArgument => 3,
            Code::DeadlineExceeded => 4,
            Code::NotFound => 5,
            Code::AlreadyExists => 6,
            Code::PermissionDenied => 7,
            Code::ResourceExhausted => 8,
            Code::FailedPrecondition => 9,
            Code::Aborted => 10,
            Code::OutOfRange => 11,
            Code::Unimplemented => 12,
            Code::Internal => 13,
            Code::Unavailable => 14,
            Code::DataLoss => 15,
            Code::Unauthenticated => 16,
        }
    }

    pub fn num(self) -> (r: u32)
        ensures
            r == self.spec_num(),
    {
        match self {
            Code::Okay => 0,
            Code::Cancelled => 1,
            Code::Unknown => 2,
            Code::InvalidArgument => 3,
            Code::DeadlineExceeded => 4,
            Code::NotFound => 5,
            Code::AlreadyExists => 6,
            Code::PermissionDenied => 7,
            Code::ResourceExhausted => 8,
            Code::FailedPrecondition => 9,
            Code::Aborted => 10,
            Code::OutOfRange => 11,
            Code::Unimplemented => 12,
            Code::Internal => 13,
            Code::Unavailable => 14,
            Code::DataLoss => 15,
            Code::Unauthenticated => 16,
        }
    }
}

/// A failed request's completion signal: a code plus a human-readable
/// message, delivered to the client as `grpc-status` and `grpc-message`
/// trailers.
#[derive(Debug)]
pub struct Status {
    pub code: Code,
    pub message: String,
}

/// The UTF-8 octets of a string value: what goes on the wire for the
/// `grpc-message` header.
pub open spec fn spec_message_bytes(s: String) -> Seq<u8> {
    vstd::utf8::encode_utf8(s@)
}

/// The borrowed UTF-8 octets of the string.
pub fn message_bytes(s: &String) -> (r: &[u8])
    ensures
        r@ == spec_message_bytes(*s),
{
    s.as_str().as_bytes()
}

} // verus!
