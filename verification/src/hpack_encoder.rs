//! The reply-only HPACK encoder. It emits just the headers a gRPC response
//! needs and keeps a tiny dynamic table of two entries, `grpc-status: 0`
//! and `content-type: application/grpc`, so that a warmed-up response
//! encodes each of them as a single indexed byte.

use vstd::prelude::*;

verus! {

use vstd::string::StringSliceAdditionalSpecFns;

/// The all-ones prefix mask of an HPACK integer with `p` prefix bits.
pub open spec fn spec_prefix_mask(p: int) -> int {
    if p == 1 {
        0x01
    } else if p == 2 {
        0x03
    } else if p == 3 {
        0x07
    } else if p == 4 {
        0x0f
    } else if p == 5 {
        0x1f
    } else if p == 6 {
        0x3f
    } else if p == 7 {
        0x7f
    } else if p == 8 {
        0xff
    } else {
        0
    }
}

/// The continuation octets of an HPACK integer: 7 value bits per octet,
/// least-significant group first, high bit set on every octet but the
/// last.
pub open spec fn spec_cont_bytes(v: nat) -> Seq<u8>
    decreases v,
{
    if v < 128 {
        seq![v as u8]
    } else {
        seq![(128 + v % 128) as u8] + spec_cont_bytes(v / 128)
    }
}

/// The HPACK encoding of an integer under a `p`-bit prefix, added onto
/// `first_byte` (whose low `p` bits must be zero, so that the sum is the
/// bitwise merge).
pub open spec fn spec_encode_int(value: nat, p: int, first_byte: u8) -> Seq<u8>
    recommends
        1 <= p <= 8,
        first_byte + spec_prefix_mask(p) < 256,
{
    let mask = spec_prefix_mask(p) as nat;
    if value < mask {
        seq![(first_byte + value) as u8]
    } else {
        seq![(first_byte + mask) as u8] + spec_cont_bytes((value - mask) as nat)
    }
}

/// An HPACK string literal: length under a 7-bit prefix, then the octets,
/// never Huffman-coded on the reply side.
pub open spec fn spec_str_bytes(b: Seq<u8>) -> Seq<u8> {
    spec_encode_int(b.len(), 7, 0x00) + b
}

/// The ASCII decimal digits of `n`.
pub open spec fn spec_decimal(n: nat) -> Seq<u8>
    decreases n,
{
    if n < 10 {
        seq![(48 + n) as u8]
    } else {
        spec_decimal(n / 10) + seq![(48 + n % 10) as u8]
    }
}

/// The octets of the header name `grpc-status`.
pub open spec fn spec_name_grpc_status() -> Seq<u8> {
    seq![103u8, 114, 112, 99, 45, 115, 116, 97, 116, 117, 115]
}

/// The octets of the header name `grpc-message`.
pub open spec fn spec_name_grpc_message() -> Seq<u8> {
    seq![103u8, 114, 112, 99, 45, 109, 101, 115, 115, 97, 103, 101]
}

/// The octets of the header name `content-type`.
pub open spec fn spec_name_content_type() -> Seq<u8> {
    seq![99u8, 111, 110, 116, 101, 110, 116, 45, 116, 121, 112, 101]
}

/// The octets of the header value `application/grpc`.
pub open spec fn spec_value_application_grpc() -> Seq<u8> {
    seq![97u8, 112, 112, 108, 105, 99, 97, 116, 105, 111, 110, 47, 103, 114, 112, 99]
}

/// A literal header field with incremental indexing whose name and value
/// are both string literals.
pub open spec fn spec_literal_with_indexing(name: Seq<u8>, value: Seq<u8>) -> Seq<u8> {
    seq![0x40u8] + spec_str_bytes(name) + spec_str_bytes(value)
}

/// A literal header field without indexing whose name and value are both
/// string literals.
pub open spec fn spec_literal_without_indexing(name: Seq<u8>, value: Seq<u8>) -> Seq<u8> {
    seq![0x00u8] + spec_str_bytes(name) + spec_str_bytes(value)
}

/// A literal header field without indexing whose name is a table
/// reference.
pub open spec fn spec_literal_indexed_name(index: nat, value: Seq<u8>) -> Seq<u8> {
    spec_encode_int(index, 4, 0x00) + spec_str_bytes(value)
}

/// An indexed header field: a table reference under a 7-bit prefix.
pub open spec fn spec_indexed(index: nat) -> Seq<u8> {
    spec_encode_int(index, 7, 0x80)
}

pub fn encode_int_one_byte(value: usize, prefix_bits: usize) -> (r: bool)
    requires
        1 <= prefix_bits <= 8,
    ensures
        r == (value < spec_prefix_mask(prefix_bits as int)),
{
    value < prefix_mask(prefix_bits)
}

/// The prefix mask as an executable value.
fn prefix_mask(prefix_bits: usize) -> (r: usize)
    requires
        1 <= prefix_bits <= 8,
    ensures
        r == spec_prefix_mask(prefix_bits as int),
{
    match prefix_bits {
        1 => 0x01,
        2 => 0x03,
        3 => 0x07,
        4 => 0x0f,
        5 => 0x1f,
        6 => 0x3f,
        7 => 0x7f,
        _ => 0xff,
    }
}

/// Short integers have short encodings: the continuation octets of a
/// value below 2^28 number at most four.
pub proof fn lemma_cont_bytes_len(v: nat)
    ensures
        v < 128 ==> spec_cont_bytes(v).len() == 1,
        v < 0x4000 ==> spec_cont_bytes(v).len() <= 2,
        v < 0x200000 ==> spec_cont_bytes(v).len() <= 3,
        v < 0x10000000 ==> spec_cont_bytes(v).len() <= 4,
        spec_cont_bytes(v).len() >= 1,
    decreases v,
{
    if v >= 128 {
        lemma_cont_bytes_len(v / 128);
    }
}

fn push_cont_bytes(value: usize, dst: &mut Vec<u8>)
    ensures
        final(dst)@ == old(dst)@ + spec_cont_bytes(value as nat),
    decreases value,
{
    if value < 128 {
        dst.push(value as u8);
        proof {
            assert(dst@ =~= old(dst)@ + spec_cont_bytes(value as nat));
        }
    } else {
        dst.push(128 + (value % 128) as u8);
        push_cont_bytes(value / 128, dst);
        proof {
            assert(dst@ =~= old(dst)@ + spec_cont_bytes(value as nat));
        }
    }
}

/// Appends the HPACK encoding of an integer under a prefix: the value in
/// the prefix bits if it fits, else the saturated prefix followed by
/// 7-bit continuation octets.
pub fn encode_int(value: usize, prefix_bits: usize, first_byte: u8, dst: &mut Vec<u8>)
    requires
        1 <= prefix_bits <= 8,
        first_byte + spec_prefix_mask(prefix_bits as int) < 256,
    ensures
        final(dst)@ == old(dst)@ + spec_encode_int(value as nat, prefix_bits as int, first_byte),
{
    let mask = prefix_mask(prefix_bits);
    if value < mask {
        dst.push(first_byte + value as u8);
        proof {
            assert(dst@ =~= old(dst)@ + spec_encode_int(
                value as nat,
                prefix_bits as int,
                first_byte,
            ));
        }
    } else {
        dst.push(first_byte + mask as u8);
        push_cont_bytes(value - mask, dst);
        proof {
            assert(dst@ =~= old(dst)@ + spec_encode_int(
                value as nat,
                prefix_bits as int,
                first_byte,
            ));
        }
    }
}

/// Appends a string literal: its length under a 7-bit prefix, then its
/// octets.
pub fn encode_str(val: &[u8], dst: &mut Vec<u8>)
    ensures
        final(dst)@ == old(dst)@ + spec_str_bytes(val@),
{
    encode_int(val.len(), 7, 0x00, dst);
    dst.extend_from_slice(val);
    proof {
        assert(dst@ =~= old(dst)@ + spec_str_bytes(val@));
    }
}

/// Appends the ASCII decimal digits of `n`.
pub fn push_decimal(n: u32, dst: &mut Vec<u8>)
    ensures
        final(dst)@ == old(dst)@ + spec_decimal(n as nat),
    decreases n,
{
    if n < 10 {
        dst.push(48 + n as u8);
        proof {
            assert(dst@ =~= old(dst)@ + spec_decimal(n as nat));
        }
    } else {
        push_decimal(n / 10, dst);
        dst.push(48 + (n % 10) as u8);
        proof {
            assert(dst@ =~= old(dst)@ + spec_decimal(n as nat));
        }
    }
}

/// Appends a literal header field without indexing, name and value as
/// string literals.
pub fn encode_header(name: &[u8], value: &[u8], dst: &mut Vec<u8>)
    ensures
        final(dst)@ == old(dst)@ + spec_literal_without_indexing(name@, value@),
{
    dst.push(0);
    encode_str(name, dst);
    encode_str(value, dst);
    proof {
        assert(dst@ =~= old(dst)@ + spec_literal_without_indexing(name@, value@));
    }
}

/// Appends a literal header field without indexing whose name is a table
/// reference.
pub fn encode_with_indexed_name(name: usize, value: &[u8], dst: &mut Vec<u8>)
    ensures
        final(dst)@ == old(dst)@ + spec_literal_indexed_name(name as nat, value@),
{
    encode_int(name, 4, 0x00, dst);
    encode_str(value, dst);
    proof {
        assert(dst@ =~= old(dst)@ + spec_literal_indexed_name(name as nat, value@));
    }
}

/// Appends the name `grpc-status` as plain octets.
fn push_name_grpc_status(dst: &mut Vec<u8>)
    ensures
        final(dst)@ == old(dst)@ + spec_name_grpc_status(),
{
    let name: [u8; 11] = [103u8, 114, 112, 99, 45, 115, 116, 97, 116, 117, 115];
    dst.extend_from_slice(&name);
    proof {
        assert(dst@ =~= old(dst)@ + spec_name_grpc_status());
    }
}

#[derive(Debug)]
pub struct Encoder {
    pub dynamic_table_size: usize,
    pub rank_grpc_status_zero: Option<usize>,
    pub rank_content_type: Option<usize>,
}

impl Encoder {
    /// The table holds one entry per warmed-up header, so its size counts
    /// the two ranks, and each rank records the size right after its own
    /// insertion.
    pub open spec fn wf(self) -> bool {
        &&& self.dynamic_table_size == (if self.rank_grpc_status_zero is Some {
            1int
        } else {
            0int
        }) + (if self.rank_content_type is Some {
            1int
        } else {
            0int
        })
        &&& match self.rank_grpc_status_zero {
            Some(r) => 1 <= r <= self.dynamic_table_size,
            None => true,
        }
        &&& match self.rank_content_type {
            Some(r) => 1 <= r <= self.dynamic_table_size,
            None => true,
        }
    }

    pub open spec fn spec_rank_grpc_status_zero(self) -> Option<usize> {
        self.rank_grpc_status_zero
    }

    pub open spec fn spec_rank_content_type(self) -> Option<usize> {
        self.rank_content_type
    }

    pub open spec fn spec_table_size(self) -> usize {
        self.dynamic_table_size
    }

    /// The octets `encode_content_type` emits from this state.
    pub open spec fn spec_content_type_bytes(self) -> Seq<u8> {
        match self.rank_content_type {
            Some(rank) => spec_indexed(self.spec_dynamic_index(rank as int) as nat),
            None => spec_literal_with_indexing(
                spec_name_content_type(),
                spec_value_application_grpc(),
            ),
        }
    }

    /// The state after `encode_content_type`.
    pub open spec fn spec_after_content_type(self) -> Encoder {
        match self.rank_content_type {
            Some(rank) => self,
            None => Encoder {
                dynamic_table_size: (self.dynamic_table_size + 1) as usize,
                rank_content_type: Some((self.dynamic_table_size + 1) as usize),
                ..self
            },
        }
    }

    /// The octets `encode_grpc_status_zero` emits from this state.
    pub open spec fn spec_grpc_status_zero_bytes(self) -> Seq<u8> {
        match self.rank_grpc_status_zero {
            Some(rank) => spec_indexed(self.spec_dynamic_index(rank as int) as nat),
            None => spec_literal_with_indexing(spec_name_grpc_status(), seq![48u8]),
        }
    }

    /// The state after `encode_grpc_status_zero`.
    pub open spec fn spec_after_grpc_status_zero(self) -> Encoder {
        match self.rank_grpc_status_zero {
            Some(rank) => self,
            None => Encoder {
                dynamic_table_size: (self.dynamic_table_size + 1) as usize,
                rank_grpc_status_zero: Some((self.dynamic_table_size + 1) as usize),
                ..self
            },
        }
    }

    /// The octets `encode_grpc_status_nonzero` emits from this state; the
    /// state itself does not change.
    pub open spec fn spec_grpc_status_nonzero_bytes(self, code: u32) -> Seq<u8> {
        match self.rank_grpc_status_zero {
            Some(rank) => spec_literal_indexed_name(
                self.spec_dynamic_index(rank as int) as nat,
                spec_decimal(code as nat),
            ),
            None => spec_literal_without_indexing(
                spec_name_grpc_status(),
                spec_decimal(code as nat),
            ),
        }
    }

    /// The dynamic-table index, at the current table size, of the entry
    /// inserted at rank `r`: HPACK counts the newest entry as 62.
    pub open spec fn spec_dynamic_index(self, r: int) -> int {
        self.dynamic_table_size - r + 62
    }

    pub fn new() -> (r: Self)
        ensures
            r.wf(),
            r.spec_rank_grpc_status_zero() is None,
            r.spec_rank_content_type() is None,
            r.spec_table_size() == 0,
    {
        Self { dynamic_table_size: 0, rank_grpc_status_zero: None, rank_content_type: None }
    }

    /// Emits `:status: 200`: the indexed static-table entry 8.
    pub fn encode_status_200(&mut self, dst: &mut Vec<u8>)
        ensures
            *final(self) == *old(self),
            final(dst)@ == old(dst)@ + spec_indexed(8),
    {
        self.encode_static_index(8, dst);
    }

    /// Emits `grpc-status: 0`: a full literal with indexing on first use,
    /// then a one-byte dynamic-table reference.
    pub fn encode_grpc_status_zero(&mut self, dst: &mut Vec<u8>)
        requires
            old(self).wf(),
        ensures
            final(self).wf(),
            final(self).spec_rank_content_type() == old(self).spec_rank_content_type(),
            final(self).spec_rank_grpc_status_zero() is Some,
            match old(self).spec_rank_grpc_status_zero() {
                Some(rank) => {
                    &&& *final(self) == *old(self)
                    &&& final(dst)@ == old(dst)@ + spec_indexed(
                        old(self).spec_dynamic_index(rank as int) as nat,
                    )
                },
                None => {
                    &&& final(self).spec_table_size() == old(self).spec_table_size() + 1
                    &&& final(self).spec_rank_grpc_status_zero() == Some(
                        final(self).spec_table_size(),
                    )
                    &&& final(dst)@ == old(dst)@ + spec_literal_with_indexing(
                        spec_name_grpc_status(),
                        seq![48u8],
                    )
                },
            },
    {
        match self.rank_grpc_status_zero {
            Some(rank) => self.encode_dynamic_index(rank, dst),
            None => {
                dst.push(0x40);
                let ghost mid0 = dst@;
                encode_int(11, 7, 0x00, dst);
                push_name_grpc_status(dst);
                encode_int(1, 7, 0x00, dst);
                dst.push(48);
                self.dynamic_table_size = self.dynamic_table_size + 1;
                self.rank_grpc_status_zero = Some(self.dynamic_table_size);
                proof {
                    assert(dst@ =~= old(dst)@ + spec_literal_with_indexing(
                        spec_name_grpc_status(),
                        seq![48u8],
                    ));
                }
            },
        }
    }

    /// Emits `content-type: application/grpc`: a full literal with
    /// indexing on first use, then a one-byte dynamic-table reference.
    pub fn encode_content_type(&mut self, dst: &mut Vec<u8>)
        requires
            old(self).wf(),
        ensures
            final(self).wf(),
            final(self).spec_rank_grpc_status_zero() == old(self).spec_rank_grpc_status_zero(),
            final(self).spec_rank_content_type() is Some,
            match old(self).spec_rank_content_type() {
                Some(rank) => {
                    &&& *final(self) == *old(self)
                    &&& final(dst)@ == old(dst)@ + spec_indexed(
                        old(self).spec_dynamic_index(rank as int) as nat,
                    )
                },
                None => {
                    &&& final(self).spec_table_size() == old(self).spec_table_size() + 1
                    &&& final(self).spec_rank_content_type() == Some(
                        final(self).spec_table_size(),
                    )
                    &&& final(dst)@ == old(dst)@ + spec_literal_with_indexing(
                        spec_name_content_type(),
                        spec_value_application_grpc(),
                    )
                },
            },
    {
        match self.rank_content_type {
            Some(rank) => self.encode_dynamic_index(rank, dst),
            None => {
                dst.push(0x40);
                encode_int(12, 7, 0x00, dst);
                let name: [u8; 12] = [99u8, 111, 110, 116, 101, 110, 116, 45, 116, 121, 112, 101];
                dst.extend_from_slice(&name);
                encode_int(16, 7, 0x00, dst);
                let value: [u8; 16] = [
                    97u8, 112, 112, 108, 105, 99, 97, 116, 105, 111, 110, 47, 103, 114, 112, 99,
                ];
                dst.extend_from_slice(&value);
                self.dynamic_table_size = self.dynamic_table_size + 1;
                self.rank_content_type = Some(self.dynamic_table_size);
                proof {
                    assert(dst@ =~= old(dst)@ + spec_literal_with_indexing(
                        spec_name_content_type(),
                        spec_value_application_grpc(),
                    ));
                }
            },
        }
    }

    /// Emits `grpc-status: <code>` for a nonzero code, as ASCII decimal
    /// digits: referencing the warmed `grpc-status` dynamic entry as the
    /// name when it exists, else as a full literal without indexing.
    pub fn encode_grpc_status_nonzero(&mut self, code: u32, dst: &mut Vec<u8>)
        requires
            old(self).wf(),
        ensures
            *final(self) == *old(self),
            final(dst)@ == old(dst)@ + match old(self).spec_rank_grpc_status_zero() {
                Some(rank) => spec_literal_indexed_name(
                    old(self).spec_dynamic_index(rank as int) as nat,
                    spec_decimal(code as nat),
                ),
                None => spec_literal_without_indexing(
                    spec_name_grpc_status(),
                    spec_decimal(code as nat),
                ),
            },
    {
        let mut digits: Vec<u8> = Vec::new();
        push_decimal(code, &mut digits);
        match self.rank_grpc_status_zero {
            Some(rank) => {
                let index = self.dynamic_index(rank);
                encode_with_indexed_name(index, digits.as_slice(), dst);
            },
            None => {
                dst.push(0);
                encode_int(11, 7, 0x00, dst);
                push_name_grpc_status(dst);
                encode_str(digits.as_slice(), dst);
                proof {
                    assert(dst@ =~= old(dst)@ + spec_literal_without_indexing(
                        spec_name_grpc_status(),
                        spec_decimal(code as nat),
                    ));
                }
            },
        }
    }

    /// Emits `grpc-message: <msg>` as a full literal without indexing.
    pub fn encode_grpc_message(&mut self, msg: &str, dst: &mut Vec<u8>)
        ensures
            *final(self) == *old(self),
            final(dst)@ == old(dst)@ + spec_literal_without_indexing(
                spec_name_grpc_message(),
                msg.spec_bytes(),
            ),
    {
        dst.push(0);
        encode_int(12, 7, 0x00, dst);
        let name: [u8; 12] = [103u8, 114, 112, 99, 45, 109, 101, 115, 115, 97, 103, 101];
        dst.extend_from_slice(&name);
        encode_str(msg.as_bytes(), dst);
        proof {
            assert(dst@ =~= old(dst)@ + spec_literal_without_indexing(
                spec_name_grpc_message(),
                msg.spec_bytes(),
            ));
        }
    }

    fn encode_static_index(&self, index: usize, dst: &mut Vec<u8>)
        requires
            index < 127,
        ensures
            final(dst)@ == old(dst)@ + spec_indexed(index as nat),
    {
        encode_int(index, 7, 0x80, dst);
    }

    fn encode_dynamic_index(&self, rank: usize, dst: &mut Vec<u8>)
        requires
            1 <= rank <= self.dynamic_table_size,
            self.dynamic_table_size <= 2,
        ensures
            final(dst)@ == old(dst)@ + spec_indexed(self.spec_dynamic_index(rank as int) as nat),
    {
        let index = self.dynamic_index(rank);
        encode_int(index, 7, 0x80, dst);
    }

    /// The dynamic-table index of the entry inserted at rank `rank`, at
    /// the current table size.
    fn dynamic_index(&self, rank: usize) -> (r: usize)
        requires
            1 <= rank <= self.dynamic_table_size,
            self.dynamic_table_size <= 2,
        ensures
            r == self.spec_dynamic_index(rank as int),
            62 <= r <= 63,
    {
        self.dynamic_table_size - rank + 62
    }
}

} // verus!
