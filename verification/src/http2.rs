//! The HTTP/2 frame codec, restricted to the subset gRPC needs: parsing
//! frame heads, stripping PADDED/PRIORITY prefixes from HEADERS and DATA
//! payloads, and building the outgoing frames (HEADERS, DATA, SETTINGS,
//! WINDOW_UPDATE).

use vstd::prelude::*;

use crate::error::Error;

verus! {

use vstd::arithmetic::div_mod::lemma_fundamental_div_mod_converse;
use vstd::slice::slice_subrange;
use vstd::string::StringSliceAdditionalSpecFns;
use crate::hpack_encoder::Encoder;
use crate::status::Status;

/// The 9-byte HTTP/2 frame head: 3 bytes length, 1 byte kind, 1 byte
/// flags, 4 bytes stream id.
pub const HEAD_SIZE: usize = 9;

pub const FLAG_END_STREAM: u8 = 0x1;

pub const FLAG_END_HEADERS: u8 = 0x4;

pub const FLAG_PADDED: u8 = 0x8;

pub const FLAG_PRIORITY: u8 = 0x20;

#[derive(Debug, Copy, Clone, PartialEq, Eq, Structural)]
pub enum FrameKind {
    Data,
    Headers,
    Priority,
    Reset,
    Settings,
    PushPromise,
    Ping,
    GoAway,
    WindowUpdate,
    Continuation,
    Unknown,
}

impl FrameKind {
    /// The kind a head byte denotes.
    pub open spec fn spec_from(byte: u8) -> FrameKind {
        match byte {
            0u8 => FrameKind::Data,
            1u8 => FrameKind::Headers,
            2u8 => FrameKind::Priority,
            3u8 => FrameKind::Reset,
            4u8 => FrameKind::Settings,
            5u8 => FrameKind::PushPromise,
            6u8 => FrameKind::Ping,
            7u8 => FrameKind::GoAway,
            8u8 => FrameKind::WindowUpdate,
            9u8 => FrameKind::Continuation,
            _ => FrameKind::Unknown,
        }
    }

    pub fn from(byte: u8) -> (r: Self)
        ensures
            r == FrameKind::spec_from(byte),
    {
        match byte {
            0 => FrameKind::Data,
            1 => FrameKind::Headers,
            2 => FrameKind::Priority,
            3 => FrameKind::Reset,
            4 => FrameKind::Settings,
            5 => FrameKind::PushPromise,
            6 => FrameKind::Ping,
            7 => FrameKind::GoAway,
            8 => FrameKind::WindowUpdate,
            9 => FrameKind::Continuation,
            _ => FrameKind::Unknown,
        }
    }

    /// The byte that denotes this kind on the wire. `Unknown` stands for
    /// every byte above 9; building never emits it, and 10 is its
    /// conventional stand-in here.
    pub open spec fn spec_byte(self) -> u8 {
        match self {
            FrameKind::Data => 0,
            FrameKind::Headers => 1,
            FrameKind::Priority => 2,
            FrameKind::Reset => 3,
            FrameKind::Settings => 4,
            FrameKind::PushPromise => 5,
            FrameKind::Ping => 6,
            FrameKind::GoAway => 7,
            FrameKind::WindowUpdate => 8,
            FrameKind::Continuation => 9,
            FrameKind::Unknown => 10,
        }
    }

    pub fn byte(self) -> (r: u8)
        ensures
            r == self.spec_byte(),
    {
        match self {
            FrameKind::Data => 0,
            FrameKind::Headers => 1,
            FrameKind::Priority => 2,
            FrameKind::Reset => 3,
            FrameKind::Settings => 4,
            FrameKind::PushPromise => 5,
            FrameKind::Ping => 6,
            FrameKind::GoAway => 7,
            FrameKind::WindowUpdate => 8,
            FrameKind::Continuation => 9,
            FrameKind::Unknown => 10,
        }
    }
}

#[derive(Debug, Copy, Clone)]
pub struct HeadFlags(pub u8);

impl HeadFlags {
    pub fn from(flag: u8) -> (r: Self)
        ensures
            r.0 == flag,
    {
        Self(flag)
    }

    pub open spec fn spec_end_stream(self) -> bool {
        self.0 & FLAG_END_STREAM != 0
    }

    pub fn is_end_stream(self) -> (r: bool)
        ensures
            r == self.spec_end_stream(),
    {
        self.0 & FLAG_END_STREAM != 0
    }

    pub open spec fn spec_end_headers(self) -> bool {
        self.0 & FLAG_END_HEADERS != 0
    }

    pub fn is_end_headers(self) -> (r: bool)
        ensures
            r == self.spec_end_headers(),
    {
        self.0 & FLAG_END_HEADERS != 0
    }

    pub open spec fn spec_padded(self) -> bool {
        self.0 & FLAG_PADDED != 0
    }

    pub fn is_padded(self) -> (r: bool)
        ensures
            r == self.spec_padded(),
    {
        self.0 & FLAG_PADDED != 0
    }

    pub open spec fn spec_priority(self) -> bool {
        self.0 & FLAG_PRIORITY != 0
    }

    pub fn is_priority(self) -> (r: bool)
        ensures
            r == self.spec_priority(),
    {
        self.0 & FLAG_PRIORITY != 0
    }
}

/// The big-endian value of three bytes.
pub open spec fn spec_be24(b: Seq<u8>) -> int
    recommends
        b.len() >= 3,
{
    b[0] * 0x10000 + b[1] * 0x100 + b[2]
}

/// The big-endian value of four bytes.
pub open spec fn spec_be32(b: Seq<u8>) -> int
    recommends
        b.len() >= 4,
{
    b[0] * 0x1000000 + b[1] * 0x10000 + b[2] * 0x100 + b[3]
}

/// The four big-endian bytes of a 32-bit value.
pub open spec fn spec_u32_bytes(n: u32) -> Seq<u8> {
    seq![
        (n / 0x1000000) as u8,
        ((n / 0x10000) % 0x100) as u8,
        ((n / 0x100) % 0x100) as u8,
        (n % 0x100) as u8,
    ]
}

/// The two big-endian bytes of a 16-bit value.
pub open spec fn spec_u16_bytes(n: u16) -> Seq<u8> {
    seq![(n / 0x100) as u8, (n % 0x100) as u8]
}

/// The 9 bytes of a frame head.
pub open spec fn spec_head_bytes(len: int, kind: FrameKind, flags: u8, stream_id: u32) -> Seq<u8>
    recommends
        0 <= len < 0x1000000,
{
    seq![
        (len / 0x10000) as u8,
        ((len / 0x100) % 0x100) as u8,
        (len % 0x100) as u8,
        kind.spec_byte(),
        flags,
    ] + spec_u32_bytes(stream_id)
}

pub fn parse_u32(buf: &[u8]) -> (r: u32)
    requires
        buf@.len() >= 4,
    ensures
        r == spec_be32(buf@),
{
    (buf[0] as u32) * 0x1000000 + (buf[1] as u32) * 0x10000 + (buf[2] as u32) * 0x100 + (
    buf[3] as u32)
}

pub fn build_u32(n: u32, buf: &mut Vec<u8>)
    ensures
        final(buf)@ == old(buf)@ + spec_u32_bytes(n),
{
    buf.push((n / 0x1000000) as u8);
    buf.push(((n / 0x10000) % 0x100) as u8);
    buf.push(((n / 0x100) % 0x100) as u8);
    buf.push((n % 0x100) as u8);
    proof {
        assert(buf@ =~= old(buf)@ + spec_u32_bytes(n));
    }
}

pub fn build_u16(n: u16, buf: &mut Vec<u8>)
    ensures
        final(buf)@ == old(buf)@ + spec_u16_bytes(n),
{
    buf.push((n / 0x100) as u8);
    buf.push((n % 0x100) as u8);
    proof {
        assert(buf@ =~= old(buf)@ + spec_u16_bytes(n));
    }
}

#[derive(Debug)]
pub struct Frame<'a> {
    pub len: usize,
    pub flags: HeadFlags,
    pub kind: FrameKind,
    pub stream_id: u32,
    pub payload: &'a [u8],
}

impl<'a> Frame<'a> {
    /// A parsed frame is an exact view of one whole frame at the head of
    /// the buffer.
    pub open spec fn wf_parse_of(self, buf: Seq<u8>) -> bool {
        &&& buf.len() >= HEAD_SIZE
        &&& self.len == spec_be24(buf)
        &&& HEAD_SIZE + self.len <= buf.len()
        &&& self.kind == FrameKind::spec_from(buf[3])
        &&& self.flags.0 == buf[4]
        &&& self.stream_id == spec_be32(buf.subrange(5, 9)) % 0x80000000
        &&& self.payload@ == buf.subrange(HEAD_SIZE as int, HEAD_SIZE + self.len)
    }

    /// Returns `None` exactly when the buffer does not yet hold a full
    /// head plus payload; callers must then refill the buffer.
    pub fn parse(buf: &'a [u8]) -> (r: Option<Self>)
        ensures
            match r {
                Some(frame) => frame.wf_parse_of(buf@),
                None => buf@.len() < HEAD_SIZE || HEAD_SIZE + spec_be24(buf@) > buf@.len(),
            },
    {
        if buf.len() < HEAD_SIZE {
            return None;
        }
        let len: usize = (buf[0] as usize) * 0x10000 + (buf[1] as usize) * 0x100 + (
        buf[2] as usize);
        if buf.len() - HEAD_SIZE < len {
            return None;
        }
        Some(
            Self {
                len,
                kind: FrameKind::from(buf[3]),
                flags: HeadFlags::from(buf[4]),
                stream_id: parse_u32(slice_subrange(buf, 5, 9)) % 0x80000000,
                payload: slice_subrange(buf, HEAD_SIZE, HEAD_SIZE + len),
            },
        )
    }

    /// The payload with the PADDED prefix and trailer stripped, when the
    /// PADDED flag is set.
    pub open spec fn spec_skip_padded(self, b: Seq<u8>) -> Result<Seq<u8>, Error> {
        if self.flags.spec_padded() {
            if b.len() < 1 || b.len() <= 1 + b[0] {
                Err(Error::InvalidHttp2("invalid padded"))
            } else {
                Ok(b.subrange(1, b.len() - b[0]))
            }
        } else {
            Ok(b)
        }
    }

    fn skip_padded<'b>(&self, buf: &'b [u8]) -> (r: Result<&'b [u8], Error>)
        ensures
            match r {
                Ok(out) => self.spec_skip_padded(buf@) == Ok::<Seq<u8>, Error>(out@),
                Err(e) => self.spec_skip_padded(buf@) == Err::<Seq<u8>, Error>(e),
            },
    {
        if self.flags.is_padded() {
            if buf.len() < 1 {
                return Err(Error::InvalidHttp2("invalid padded"));
            }
            let pad_len = buf[0] as usize;
            let buf_len = buf.len();
            if buf_len <= 1 + pad_len {
                return Err(Error::InvalidHttp2("invalid padded"));
            }
            Ok(slice_subrange(buf, 1, buf_len - pad_len))
        } else {
            Ok(buf)
        }
    }

    /// The payload with the 5-byte PRIORITY dependency prefix stripped,
    /// when the PRIORITY flag is set.
    pub open spec fn spec_skip_priority(self, b: Seq<u8>) -> Result<Seq<u8>, Error> {
        if self.flags.spec_priority() {
            if b.len() < 5 {
                Err(Error::InvalidHttp2("invalid priority"))
            } else {
                Ok(b.subrange(5, b.len() as int))
            }
        } else {
            Ok(b)
        }
    }

    fn skip_priority<'b>(&self, buf: &'b [u8]) -> (r: Result<&'b [u8], Error>)
        ensures
            match r {
                Ok(out) => self.spec_skip_priority(buf@) == Ok::<Seq<u8>, Error>(out@),
                Err(e) => self.spec_skip_priority(buf@) == Err::<Seq<u8>, Error>(e),
            },
    {
        if self.flags.is_priority() {
            if buf.len() < 5 {
                return Err(Error::InvalidHttp2("invalid priority"));
            }
            let buf_len = buf.len();
            Ok(slice_subrange(buf, 5, buf_len))
        } else {
            Ok(buf)
        }
    }

    /// The header block a HEADERS frame carries: rejects missing
    /// END_HEADERS (CONTINUATION is unsupported) and END_STREAM (a unary
    /// request always carries a DATA frame), then strips padding and
    /// priority prefixes.
    pub open spec fn spec_process_headers(self) -> Result<Seq<u8>, Error> {
        if !self.flags.spec_end_headers() {
            Err(Error::InvalidHttp2("multiple HEADERS frames"))
        } else if self.flags.spec_end_stream() {
            Err(Error::InvalidHttp2("HEADERS frame with no DATA"))
        } else {
            match self.spec_skip_padded(self.payload@) {
                Ok(b) => self.spec_skip_priority(b),
                Err(e) => Err(e),
            }
        }
    }

    pub fn process_headers(&self) -> (r: Result<&[u8], Error>)
        ensures
            match r {
                Ok(out) => self.spec_process_headers() == Ok::<Seq<u8>, Error>(out@),
                Err(e) => self.spec_process_headers() == Err::<Seq<u8>, Error>(e),
            },
    {
        if !self.flags.is_end_headers() {
            return Err(Error::InvalidHttp2("multiple HEADERS frames"));
        }
        if self.flags.is_end_stream() {
            return Err(Error::InvalidHttp2("HEADERS frame with no DATA"));
        }
        let headers = self.skip_padded(self.payload)?;
        let headers = self.skip_priority(headers)?;
        Ok(headers)
    }

    /// The body a DATA frame carries: the payload with padding stripped.
    pub open spec fn spec_process_data(self) -> Result<Seq<u8>, Error> {
        self.spec_skip_padded(self.payload@)
    }

    pub fn process_data(&self) -> (r: Result<&[u8], Error>)
        ensures
            match r {
                Ok(out) => self.spec_process_data() == Ok::<Seq<u8>, Error>(out@),
                Err(e) => self.spec_process_data() == Err::<Seq<u8>, Error>(e),
            },
    {
        self.skip_padded(self.payload)
    }
}

/// Appends a 9-byte frame head.
pub fn build_head(len: usize, kind: FrameKind, flags: u8, stream_id: u32, output: &mut Vec<u8>)
    requires
        len < 0x1000000,
    ensures
        final(output)@ == old(output)@ + spec_head_bytes(len as int, kind, flags, stream_id),
{
    output.push((len / 0x10000) as u8);
    output.push(((len / 0x100) % 0x100) as u8);
    output.push((len % 0x100) as u8);
    output.push(kind.byte());
    output.push(flags);
    build_u32(stream_id, output);
    proof {
        assert(output@ =~= old(output)@ + spec_head_bytes(len as int, kind, flags, stream_id));
    }
}

/// Appends a WINDOW_UPDATE frame on stream 0 returning `len` bytes of
/// connection-level credit.
pub fn build_window_update(len: usize, output: &mut Vec<u8>)
    requires
        len < 0x100000000,
    ensures
        final(output)@ == old(output)@ + spec_window_update_bytes(len as int),
{
    build_head(4, FrameKind::WindowUpdate, 0, 0, output);
    build_u32(len as u32, output);
    proof {
        assert(output@ =~= old(output)@ + spec_window_update_bytes(len as int));
    }
}

/// The 13 bytes of a WINDOW_UPDATE frame on stream 0 with increment `len`.
pub open spec fn spec_window_update_bytes(len: int) -> Seq<u8>
    recommends
        0 <= len < 0x100000000,
{
    spec_head_bytes(4, FrameKind::WindowUpdate, 0, 0) + spec_u32_bytes(len as u32)
}

/// The 15 bytes of a SETTINGS frame carrying one setting.
pub open spec fn spec_settings_bytes(ident: u16, value: u32) -> Seq<u8> {
    spec_head_bytes(6, FrameKind::Settings, 0, 0) + spec_u16_bytes(ident) + spec_u32_bytes(value)
}

/// Appends a SETTINGS frame carrying a single `(identifier, value)` entry,
/// as sent once at handshake.
pub fn build_settings(ident: u16, value: u32, output: &mut Vec<u8>)
    ensures
        final(output)@ == old(output)@ + spec_settings_bytes(ident, value),
{
    build_head(6, FrameKind::Settings, 0, 0, output);
    build_u16(ident, output);
    build_u32(value, output);
    proof {
        assert(output@ =~= old(output)@ + spec_settings_bytes(ident, value));
    }
}

/// The SETTINGS bytes the server sends right after a valid preface:
/// SETTINGS_MAX_CONCURRENT_STREAMS (identifier 3) and
/// SETTINGS_MAX_FRAME_SIZE (identifier 5).
pub fn handshake_settings(config: &crate::config::Config) -> (r: Vec<u8>)
    ensures
        r@ == spec_settings_bytes(3, config.max_concurrent_streams as u32) + spec_settings_bytes(
            5,
            config.max_frame_size as u32,
        ),
{
    let mut out: Vec<u8> = Vec::new();
    build_settings(3, config.max_concurrent_streams as u32, &mut out);
    build_settings(5, config.max_frame_size as u32, &mut out);
    proof {
        assert(out@ =~= spec_settings_bytes(3, config.max_concurrent_streams as u32)
            + spec_settings_bytes(5, config.max_frame_size as u32));
    }
    out
}

/// The bytes that the complete frames at the head of `b` span: whole
/// frames (head plus payload) are counted until the remainder holds no
/// complete frame.
pub open spec fn spec_frames_len(b: Seq<u8>) -> int
    decreases b.len(),
{
    if b.len() < HEAD_SIZE || HEAD_SIZE + spec_be24(b) > b.len() {
        0
    } else {
        HEAD_SIZE + spec_be24(b) + spec_frames_len(b.skip(HEAD_SIZE + spec_be24(b)))
    }
}

/// Frame spans are never negative.
pub proof fn lemma_frames_len_nonneg(b: Seq<u8>)
    ensures
        spec_frames_len(b) >= 0,
    decreases b.len(),
{
    if !(b.len() < HEAD_SIZE || HEAD_SIZE + spec_be24(b) > b.len()) {
        lemma_frames_len_nonneg(b.skip(HEAD_SIZE + spec_be24(b)));
    }
}

/// The 24-byte connection preface a client must send before any frame.
pub open spec fn spec_preface() -> Seq<u8> {
    seq![
        0x50u8, 0x52, 0x49, 0x20, 0x2a, 0x20, 0x48, 0x54, 0x54, 0x50, 0x2f, 0x32, 0x2e, 0x30,
        0x0d, 0x0a, 0x0d, 0x0a, 0x53, 0x4d, 0x0d, 0x0a, 0x0d, 0x0a,
    ]
}

/// Whether the 24 bytes read at connection start are exactly the HTTP/2
/// preface `PRI * HTTP/2.0\r\n\r\nSM\r\n\r\n`.
pub fn check_preface(buf: &[u8]) -> (r: bool)
    ensures
        r == (buf@ == spec_preface()),
{
    let expect: [u8; 24] = [
        0x50u8, 0x52, 0x49, 0x20, 0x2a, 0x20, 0x48, 0x54, 0x54, 0x50, 0x2f, 0x32, 0x2e, 0x30,
        0x0d, 0x0a, 0x0d, 0x0a, 0x53, 0x4d, 0x0d, 0x0a, 0x0d, 0x0a,
    ];
    if buf.len() != 24 {
        proof {
            assert(spec_preface().len() == 24);
        }
        return false;
    }
    let mut i: usize = 0;
    while i < 24
        invariant
            0 <= i <= 24,
            buf@.len() == 24,
            expect@ == spec_preface(),
            forall|j: int| 0 <= j < i ==> buf@[j] == spec_preface()[j],
        decreases 24 - i,
    {
        if buf[i] != expect[i] {
            proof {
                assert(buf@ != spec_preface());
            }
            return false;
        }
        i += 1;
    }
    proof {
        assert(buf@ =~= spec_preface());
    }
    true
}

/// Re-serializing a parsed frame gives back the bytes it was parsed from:
/// the head bytes built from the frame's fields are exactly the 9 bytes at
/// the head of the buffer, and the payload is the rest of the frame. This
/// holds for every buffer whose kind byte is a defined kind (a byte above
/// 9 parses as `Unknown`, which forgets the byte) and whose reserved
/// stream-id bit is clear (parsing masks that bit away, and building
/// writes it back as zero).
pub proof fn lemma_frame_parse_round_trip(frame: Frame<'_>, buf: Seq<u8>)
    requires
        frame.wf_parse_of(buf),
        buf[3] <= 9,
        buf[5] < 0x80,
    ensures
        spec_head_bytes(frame.len as int, frame.kind, frame.flags.0, frame.stream_id)
            == buf.subrange(0, HEAD_SIZE as int),
        buf.subrange(0, HEAD_SIZE + frame.len) == buf.subrange(0, HEAD_SIZE as int)
            + frame.payload@,
{
    let len = frame.len as int;
    let b0 = buf[0] as int;
    let b1 = buf[1] as int;
    let b2 = buf[2] as int;
    assert(len == b0 * 0x10000 + (b1 * 0x100 + b2));
    lemma_fundamental_div_mod_converse(len, 0x10000, b0, b1 * 0x100 + b2);
    assert(len / 0x10000 == b0);
    assert(len % 0x10000 == b1 * 0x100 + b2);
    lemma_fundamental_div_mod_converse(b1 * 0x100 + b2, 0x100, b1, b2);
    assert((b1 * 0x100 + b2) / 0x100 == b1);
    assert(len / 0x100 % 0x100 == b1) by {
        lemma_fundamental_div_mod_converse(len, 0x100, b0 * 0x100 + b1, b2);
        lemma_fundamental_div_mod_converse(b0 * 0x100 + b1, 0x100, b0, b1);
    }
    assert(len % 0x100 == b2) by {
        lemma_fundamental_div_mod_converse(len, 0x100, b0 * 0x100 + b1, b2);
    }

    let id = frame.stream_id as int;
    let c0 = buf[5] as int;
    assert(id == spec_be32(buf.subrange(5, 9))) by {
        assert(buf.subrange(5, 9)[0] == buf[5]);
        assert(buf.subrange(5, 9)[1] == buf[6]);
        assert(buf.subrange(5, 9)[2] == buf[7]);
        assert(buf.subrange(5, 9)[3] == buf[8]);
        assert(spec_be32(buf.subrange(5, 9)) < 0x80000000);
    }
    let c1 = buf[6] as int;
    let c2 = buf[7] as int;
    let c3 = buf[8] as int;
    assert(buf.subrange(5, 9)[0] == buf[5]);
    assert(buf.subrange(5, 9)[1] == buf[6]);
    assert(buf.subrange(5, 9)[2] == buf[7]);
    assert(buf.subrange(5, 9)[3] == buf[8]);
    assert(id == c0 * 0x1000000 + (c1 * 0x10000 + c2 * 0x100 + c3));
    lemma_fundamental_div_mod_converse(id, 0x1000000, c0, c1 * 0x10000 + c2 * 0x100 + c3);
    assert(id / 0x1000000 == c0);
    assert(id / 0x10000 % 0x100 == c1) by {
        lemma_fundamental_div_mod_converse(id, 0x10000, c0 * 0x100 + c1, c2 * 0x100 + c3);
        lemma_fundamental_div_mod_converse(c0 * 0x100 + c1, 0x100, c0, c1);
    }
    assert(id / 0x100 % 0x100 == c2) by {
        lemma_fundamental_div_mod_converse(id, 0x100, (c0 * 0x10000 + c1 * 0x100 + c2), c3);
        lemma_fundamental_div_mod_converse(c0 * 0x10000 + c1 * 0x100 + c2, 0x100, c0 * 0x100 + c1, c2);
    }
    assert(id % 0x100 == c3) by {
        lemma_fundamental_div_mod_converse(id, 0x100, (c0 * 0x10000 + c1 * 0x100 + c2), c3);
    }

    assert(FrameKind::spec_from(buf[3]).spec_byte() == buf[3]);

    assert(spec_head_bytes(len, frame.kind, frame.flags.0, frame.stream_id) =~= buf.subrange(
        0,
        HEAD_SIZE as int,
    ));
    assert(buf.subrange(0, HEAD_SIZE + frame.len) =~= buf.subrange(0, HEAD_SIZE as int)
        + frame.payload@);
}


/// How a reply writes itself into the output buffer. The glue generated
/// for each service implements this for its reply messages; the library
/// relies only on the declared encoding.
pub trait RespEncode {
    /// The octets this reply encodes to.
    spec fn spec_encoding(&self) -> Seq<u8>;

    /// Appends exactly the declared encoding to `output`.
    fn encode(&self, output: &mut Vec<u8>)
        ensures
            final(output)@ == old(output)@ + self.spec_encoding(),
    ;
}

/// A reply that is already encoded octets, for callers that serialize
/// elsewhere and hand the library the finished bytes.
pub struct RawReply(pub Vec<u8>);

impl RespEncode for RawReply {
    open spec fn spec_encoding(&self) -> Seq<u8> {
        self.0@
    }

    fn encode(&self, output: &mut Vec<u8>)
        ensures
            final(output)@ == old(output)@ + self.spec_encoding(),
    {
        output.extend_from_slice(self.0.as_slice());
    }
}

/// The frames of one successful response: HEADERS (`:status: 200`,
/// `content-type`), DATA (the 5-byte gRPC prefix and the message), and
/// the trailing HEADERS (`grpc-status: 0`, END_STREAM), with the HPACK
/// bytes drawn from the encoder state `enc`.
pub open spec fn spec_response_bytes(enc: Encoder, stream_id: u32, msg: Seq<u8>) -> Seq<u8> {
    let h1 = crate::hpack_encoder::spec_indexed(8) + enc.spec_content_type_bytes();
    let enc1 = enc.spec_after_content_type();
    let data = seq![0u8] + spec_u32_bytes(msg.len() as u32) + msg;
    let h3 = enc1.spec_grpc_status_zero_bytes();
    spec_head_bytes(h1.len() as int, FrameKind::Headers, 0x04, stream_id) + h1 + spec_head_bytes(
        data.len() as int,
        FrameKind::Data,
        0x00,
        stream_id,
    ) + data + spec_head_bytes(h3.len() as int, FrameKind::Headers, 0x05, stream_id) + h3
}

/// The encoder state after one successful response.
pub open spec fn spec_response_encoder(enc: Encoder) -> Encoder {
    enc.spec_after_content_type().spec_after_grpc_status_zero()
}

/// The single HEADERS frame of one error response: `:status: 200`,
/// `content-type`, `grpc-status: <code>`, `grpc-message: <msg>`, with
/// END_HEADERS and END_STREAM set.
pub open spec fn spec_status_bytes(enc: Encoder, stream_id: u32, code: u32, msg: Seq<u8>) -> Seq<
    u8,
> {
    let h = crate::hpack_encoder::spec_indexed(8) + enc.spec_content_type_bytes()
        + enc.spec_after_content_type().spec_grpc_status_nonzero_bytes(code)
        + crate::hpack_encoder::spec_literal_without_indexing(
        crate::hpack_encoder::spec_name_grpc_message(),
        msg,
    );
    spec_head_bytes(h.len() as int, FrameKind::Headers, 0x05, stream_id) + h
}

/// The encoder state after one error response.
pub open spec fn spec_status_encoder(enc: Encoder) -> Encoder {
    enc.spec_after_content_type()
}

/// The emission of `:status: 200` plus `content-type` is at most 32
/// octets, and of `grpc-status: 0` at most 15.
proof fn lemma_header_emission_len(enc: Encoder)
    requires
        enc.wf(),
    ensures
        enc.spec_content_type_bytes().len() <= 31,
        enc.spec_grpc_status_zero_bytes().len() <= 15,
        crate::hpack_encoder::spec_indexed(8).len() == 1,
{
    crate::hpack_encoder::lemma_cont_bytes_len(0);
}

/// The header block of one error response stays far below the 24-bit
/// frame length limit when the message leaves some room.
proof fn lemma_status_block_len(enc0: Encoder, code: u32, msg: Seq<u8>)
    requires
        enc0.wf(),
        code <= 16,
        msg.len() < 0xffff00,
    ensures
        (crate::hpack_encoder::spec_indexed(8) + enc0.spec_content_type_bytes()
            + enc0.spec_after_content_type().spec_grpc_status_nonzero_bytes(code)
            + crate::hpack_encoder::spec_literal_without_indexing(
            crate::hpack_encoder::spec_name_grpc_message(),
            msg,
        )).len() < 0x1000000,
{
    lemma_header_emission_len(enc0);
    let enc1 = enc0.spec_after_content_type();
    assert(enc1.wf());
    let dec = crate::hpack_encoder::spec_decimal(code as nat);
    assert(dec.len() <= 2) by {
        if code >= 10 {
            assert(crate::hpack_encoder::spec_decimal((code as nat) / 10).len() == 1);
        }
    }
    assert(enc1.spec_grpc_status_nonzero_bytes(code).len() <= 16) by {
        assert(crate::hpack_encoder::spec_str_bytes(dec).len() <= 3);
        match enc1.spec_rank_grpc_status_zero() {
            Some(rank) => {
                let idx = enc1.spec_dynamic_index(rank as int) as nat;
                assert(62 <= idx <= 63);
                crate::hpack_encoder::lemma_cont_bytes_len((idx - 15) as nat);
                assert(crate::hpack_encoder::spec_encode_int(idx, 4, 0x00).len() <= 2);
            },
            None => {},
        }
    }
    assert(crate::hpack_encoder::spec_literal_without_indexing(
        crate::hpack_encoder::spec_name_grpc_message(),
        msg,
    ).len() <= 19 + msg.len()) by {
        crate::hpack_encoder::lemma_cont_bytes_len((msg.len() - 127) as nat);
        assert(crate::hpack_encoder::spec_encode_int(msg.len(), 7, 0x00).len() <= 5);
    }
}

/// Builds one successful response onto `output`: the reply must fit one
/// DATA frame, else nothing is emitted and the connection must close.
pub fn build_response<Reply: RespEncode>(
    stream_id: u32,
    reply: &Reply,
    hpack_encoder: &mut Encoder,
    output: &mut Vec<u8>,
) -> (r: Result<(), Error>)
    requires
        old(hpack_encoder).wf(),
    ensures
        final(hpack_encoder).wf(),
        match r {
            Ok(()) => {
                &&& reply.spec_encoding().len() < 0xfffffb
                &&& final(output)@ == old(output)@ + spec_response_bytes(
                    *old(hpack_encoder),
                    stream_id,
                    reply.spec_encoding(),
                )
                &&& *final(hpack_encoder) == spec_response_encoder(*old(hpack_encoder))
            },
            Err(e) => {
                &&& reply.spec_encoding().len() >= 0xfffffb
                &&& e is InvalidHttp2
                &&& final(output)@ == old(output)@
                &&& *final(hpack_encoder) == *old(hpack_encoder)
            },
        },
{
    let mut msg: Vec<u8> = Vec::new();
    reply.encode(&mut msg);
    if msg.len() >= 0xfffffb {
        return Err(Error::InvalidHttp2("reply too long for one DATA frame"));
    }
    proof {
        lemma_header_emission_len(*hpack_encoder);
    }

    // HEADERS
    let mut h1: Vec<u8> = Vec::new();
    hpack_encoder.encode_status_200(&mut h1);
    hpack_encoder.encode_content_type(&mut h1);
    proof {
        lemma_header_emission_len(*hpack_encoder);
        assert(h1@ =~= crate::hpack_encoder::spec_indexed(8) + old(
            hpack_encoder,
        ).spec_content_type_bytes());
        assert(*hpack_encoder == old(hpack_encoder).spec_after_content_type());
    }
    build_head(h1.len(), FrameKind::Headers, 0x04, stream_id, output);
    output.append(&mut h1);

    // DATA: 5-byte gRPC prefix (no compression, big-endian length), then
    // the message octets.
    let payload_len = msg.len() + 5;
    build_head(payload_len, FrameKind::Data, 0x00, stream_id, output);
    output.push(0);
    build_u32(msg.len() as u32, output);
    let ghost msgv = msg@;
    output.append(&mut msg);

    // trailing HEADERS
    let mut h3: Vec<u8> = Vec::new();
    hpack_encoder.encode_grpc_status_zero(&mut h3);
    proof {
        assert(h3@ == old(hpack_encoder).spec_after_content_type().spec_grpc_status_zero_bytes());
        assert(*hpack_encoder == spec_response_encoder(*old(hpack_encoder)));
    }
    build_head(h3.len(), FrameKind::Headers, 0x05, stream_id, output);
    output.append(&mut h3);
    proof {
        let spec = spec_response_bytes(*old(hpack_encoder), stream_id, msgv);
        assert((seq![0u8] + spec_u32_bytes(msgv.len() as u32) + msgv).len() == payload_len);
        assert(output@ =~= old(output)@ + spec);
    }
    Ok(())
}

/// Builds one error response onto `output`: a single HEADERS frame with
/// END_HEADERS and END_STREAM carrying the gRPC status code and message.
/// The message must leave room in one frame, else nothing is emitted.
pub fn build_status(
    stream_id: u32,
    status: &Status,
    hpack_encoder: &mut Encoder,
    output: &mut Vec<u8>,
) -> (r: Result<(), Error>)
    requires
        old(hpack_encoder).wf(),
    ensures
        final(hpack_encoder).wf(),
        match r {
            Ok(()) => {
                &&& crate::status::spec_message_bytes(status.message).len() < 0xffff00
                &&& final(output)@ == old(output)@ + spec_status_bytes(
                    *old(hpack_encoder),
                    stream_id,
                    status.code.spec_num(),
                    crate::status::spec_message_bytes(status.message),
                )
                &&& *final(hpack_encoder) == spec_status_encoder(*old(hpack_encoder))
            },
            Err(e) => {
                &&& crate::status::spec_message_bytes(status.message).len() >= 0xffff00
                &&& e is InvalidHttp2
                &&& final(output)@ == old(output)@
                &&& *final(hpack_encoder) == *old(hpack_encoder)
            },
        },
{
    let msg_bytes = crate::status::message_bytes(&status.message);
    if msg_bytes.len() >= 0xffff00 {
        return Err(Error::InvalidHttp2("status message too long"));
    }
    let code = status.code.num();
    let mut h: Vec<u8> = Vec::new();
    hpack_encoder.encode_status_200(&mut h);
    hpack_encoder.encode_content_type(&mut h);
    let ghost enc0 = *old(hpack_encoder);
    let ghost enc1 = enc0.spec_after_content_type();
    let ghost h_a = h@;
    proof {
        lemma_header_emission_len(enc0);
        assert(*hpack_encoder == enc1);
        assert(h_a =~= crate::hpack_encoder::spec_indexed(8) + enc0.spec_content_type_bytes());
    }
    hpack_encoder.encode_grpc_status_nonzero(code, &mut h);
    let ghost h_b = h@;
    proof {
        assert(h_b == h_a + enc1.spec_grpc_status_nonzero_bytes(code));
    }
    let name_grpc_message: [u8; 12] = [103u8, 114, 112, 99, 45, 109, 101, 115, 115, 97, 103, 101];
    h.push(0);
    crate::hpack_encoder::encode_str(&name_grpc_message, &mut h);
    crate::hpack_encoder::encode_str(msg_bytes, &mut h);
    proof {
        assert(name_grpc_message@ == crate::hpack_encoder::spec_name_grpc_message());
        assert(h@ =~= h_b + crate::hpack_encoder::spec_literal_without_indexing(
            crate::hpack_encoder::spec_name_grpc_message(),
            msg_bytes@,
        ));
        assert(h@ =~= crate::hpack_encoder::spec_indexed(8) + enc0.spec_content_type_bytes()
            + enc1.spec_grpc_status_nonzero_bytes(code)
            + crate::hpack_encoder::spec_literal_without_indexing(
            crate::hpack_encoder::spec_name_grpc_message(),
            msg_bytes@,
        ));
        lemma_status_block_len(enc0, code, msg_bytes@);
    }
    build_head(h.len(), FrameKind::Headers, 0x05, stream_id, output);
    output.append(&mut h);
    proof {
        assert(output@ =~= old(output)@ + spec_status_bytes(
            *old(hpack_encoder),
            stream_id,
            status.code.spec_num(),
            crate::status::spec_message_bytes(status.message),
        ));
    }
    Ok(())
}

} // verus!
