//! The path-only HPACK decoder: it walks a HEADERS block, classifies each
//! field by its first byte, and extracts just the `:path` value, caching
//! every distinct path under a small stable index so that a repeated path
//! routes without allocation.

use vstd::prelude::*;

use crate::error::Error;

verus! {

use crate::hpack_encoder::{spec_prefix_mask, spec_encode_int, spec_cont_bytes};
use vstd::slice::{slice_subrange, slice_to_vec};

/// The outcome of decoding one HPACK integer.
pub enum IntResult {
    /// The value and the number of octets consumed.
    Value(nat, nat),
    /// The input ended inside the integer.
    NeedMore,
    /// A fifth octet would be needed: the encoding exceeds the permitted
    /// range and is rejected.
    Overflow,
    /// The prefix size is outside 1..=8.
    BadPrefix,
}

/// Decodes the 7-bit continuation octets of an HPACK integer,
/// least-significant group first, with `budget` octets allowed.
pub open spec fn spec_decode_cont(s: Seq<u8>, budget: nat) -> IntResult
    decreases s.len(),
{
    if budget == 0 {
        IntResult::Overflow
    } else if s.len() == 0 {
        IntResult::NeedMore
    } else if s[0] < 128 {
        IntResult::Value(s[0] as nat, 1)
    } else {
        match spec_decode_cont(s.skip(1), (budget - 1) as nat) {
            IntResult::Value(v, k) => IntResult::Value(((s[0] - 128) + 128 * v) as nat, k + 1),
            other => other,
        }
    }
}

/// Decodes an HPACK integer under a `p`-bit prefix from the head of `s`.
/// At most 5 octets are admitted, so a decoded value is below
/// 2^28 + 255.
pub open spec fn spec_decode_int(s: Seq<u8>, p: int) -> IntResult {
    if p < 1 || p > 8 {
        IntResult::BadPrefix
    } else if s.len() == 0 {
        IntResult::NeedMore
    } else {
        let mask = spec_prefix_mask(p) as nat;
        let r0 = (s[0] as nat) % (mask + 1);
        if r0 < mask {
            IntResult::Value(r0, 1)
        } else {
            match spec_decode_cont(s.skip(1), 4) {
                IntResult::Value(v, k) => IntResult::Value(mask + v, k + 1),
                other => other,
            }
        }
    }
}

proof fn lemma_pow128_pos(n: nat)
    ensures
        pow128(n) >= 1,
    decreases n,
{
    if n > 0 {
        lemma_pow128_pos((n - 1) as nat);
    }
}

proof fn lemma_pow128_le(a: nat, b: nat)
    requires
        a <= b,
    ensures
        pow128(a) <= pow128(b),
    decreases b,
{
    if a < b {
        lemma_pow128_le(a, (b - 1) as nat);
        lemma_pow128_pos((b - 1) as nat);
    }
}

proof fn lemma_cont_value_bound(s: Seq<u8>, budget: nat)
    ensures
        spec_decode_cont(s, budget) matches IntResult::Value(v, k) ==> v < pow128(budget) && 1 <= k
            <= budget && k <= s.len(),
    decreases s.len(),
{
    lemma_pow128_pos(budget);
    if budget > 0 && s.len() > 0 && s[0] >= 128 {
        lemma_cont_value_bound(s.skip(1), (budget - 1) as nat);
        lemma_pow128_pos((budget - 1) as nat);
    }
}

/// 128 to the `n`.
pub open spec fn pow128(n: nat) -> nat
    decreases n,
{
    if n == 0 {
        1
    } else {
        128 * pow128((n - 1) as nat)
    }
}

proof fn lemma_pow128_4()
    ensures
        pow128(4) == 0x10000000,
{
    assert(pow128(0) == 1);
    assert(pow128(1) == 128);
    assert(pow128(2) == 0x4000);
    assert(pow128(3) == 0x200000);
}

fn decode_cont(buf: &[u8], pos: usize, budget: usize) -> (r: Result<(u64, usize), Error>)
    requires
        pos <= buf@.len(),
        budget <= 4,
    ensures
        match r {
            Ok((v, k)) => spec_decode_cont(buf@.skip(pos as int), budget as nat)
                == IntResult::Value(v as nat, k as nat),
            Err(e) => {
                &&& (spec_decode_cont(buf@.skip(pos as int), budget as nat) is NeedMore
                    || spec_decode_cont(buf@.skip(pos as int), budget as nat) is Overflow)
                &&& (e matches Error::InvalidHpack(m) && (spec_decode_cont(
                    buf@.skip(pos as int),
                    budget as nat,
                ) is NeedMore ==> m@ == "need more"@) && (spec_decode_cont(
                    buf@.skip(pos as int),
                    budget as nat,
                ) is Overflow ==> m@ == "integer overflow"@))
            },
        },
    decreases budget,
{
    if budget == 0 {
        return Err(Error::InvalidHpack("integer overflow"));
    }
    if pos >= buf.len() {
        return Err(Error::InvalidHpack("need more"));
    }
    let b = buf[pos];
    if b < 128 {
        return Ok((b as u64, 1));
    }
    proof {
        assert(buf@.skip(pos as int).skip(1) =~= buf@.skip(pos + 1));
    }
    match decode_cont(buf, pos + 1, budget - 1) {
        Ok((v, k)) => {
            proof {
                lemma_cont_value_bound(buf@.skip(pos + 1), (budget - 1) as nat);
                lemma_pow128_le((budget - 1) as nat, 3);
                assert(pow128(3) == 0x200000) by {
                    lemma_pow128_4();
                }
            }
            Ok(((b - 128) as u64 + 128 * v, k + 1))
        },
        Err(e) => Err(e),
    }
}

/// Decodes an HPACK integer with a `prefix_size`-bit prefix from the head
/// of `buf`; returns the value and the number of octets consumed.
/// Encodings that would need more than 5 octets are rejected, so the
/// value is bounded by 2^28 + 255.
pub fn decode_int(buf: &[u8], prefix_size: u8) -> (r: Result<(usize, usize), Error>)
    ensures
        match r {
            Ok((v, k)) => spec_decode_int(buf@, prefix_size as int) == IntResult::Value(
                v as nat,
                k as nat,
            ) && v < 0x10000000 + 255 && 1 <= k <= 5 && k <= buf@.len(),
            Err(e) => {
                &&& !(spec_decode_int(buf@, prefix_size as int) is Value)
                &&& (e matches Error::InvalidHpack(m) && (spec_decode_int(
                    buf@,
                    prefix_size as int,
                ) is NeedMore ==> m@ == "need more"@) && (spec_decode_int(
                    buf@,
                    prefix_size as int,
                ) is Overflow ==> m@ == "integer overflow"@) && (spec_decode_int(
                    buf@,
                    prefix_size as int,
                ) is BadPrefix ==> m@ == "invalid integer"@))
            },
        },
{
    if prefix_size < 1 || prefix_size > 8 {
        return Err(Error::InvalidHpack("invalid integer"));
    }
    if buf.len() == 0 {
        return Err(Error::InvalidHpack("need more"));
    }
    let mask: usize = match prefix_size {
        1 => 0x01,
        2 => 0x03,
        3 => 0x07,
        4 => 0x0f,
        5 => 0x1f,
        6 => 0x3f,
        7 => 0x7f,
        _ => 0xff,
    };
    let ret: usize = (buf[0] as usize) % (mask + 1);
    if ret < mask {
        return Ok((ret, 1));
    }
    proof {
        lemma_cont_value_bound(buf@.skip(1), 4);
        lemma_pow128_4();
    }
    match decode_cont(buf, 1, 4) {
        Ok((v, k)) => Ok((mask + v as usize, k + 1)),
        Err(e) => Err(e),
    }
}

proof fn lemma_cont_round_trip(v: nat, rest: Seq<u8>, budget: nat)
    requires
        v < pow128(budget),
        budget >= 1,
    ensures
        spec_decode_cont(spec_cont_bytes(v) + rest, budget) == IntResult::Value(
            v,
            spec_cont_bytes(v).len(),
        ),
    decreases budget,
{
    let s = spec_cont_bytes(v) + rest;
    if v < 128 {
        assert(s[0] == v as u8);
    } else {
        assert(s[0] == (128 + v % 128) as u8);
        assert(s[0] >= 128);
        assert(spec_cont_bytes(v / 128) + rest =~= s.skip(1));
        assert(v / 128 < pow128((budget - 1) as nat)) by {
            assert(pow128(budget) == 128 * pow128((budget - 1) as nat));
        }
        lemma_cont_round_trip(v / 128, rest, (budget - 1) as nat);
        assert((s[0] - 128) + 128 * (v / 128) == v % 128 + 128 * (v / 128));
        vstd::arithmetic::div_mod::lemma_fundamental_div_mod(v as int, 128);
    }
}

/// HPACK integer round trip: decoding an encoded integer yields the value
/// back and consumes exactly the encoding, whatever follows it in the
/// stream, for every value below 2^28, every prefix size in 1..=8, and
/// every first-byte pattern whose prefix bits are clear.
pub proof fn lemma_int_round_trip(n: nat, p: int, first_byte: u8, rest: Seq<u8>)
    requires
        1 <= p <= 8,
        n < 0x10000000,
        first_byte as int % (spec_prefix_mask(p) + 1) == 0,
        first_byte + spec_prefix_mask(p) < 256,
    ensures
        spec_decode_int(spec_encode_int(n, p, first_byte) + rest, p) == IntResult::Value(
            n,
            spec_encode_int(n, p, first_byte).len(),
        ),
{
    let mask = spec_prefix_mask(p) as nat;
    let enc = spec_encode_int(n, p, first_byte);
    let s = enc + rest;
    assert(mask + 1 > 1);
    if n < mask {
        assert(s[0] == (first_byte + n) as u8);
        let d = mask as int + 1;
        let q = first_byte as int / d;
        assert((first_byte + n as int) % d == n as int) by {
            vstd::arithmetic::div_mod::lemma_fundamental_div_mod(first_byte as int, d);
            assert(d * q == q * d) by (nonlinear_arith);
            vstd::arithmetic::div_mod::lemma_fundamental_div_mod_converse(
                first_byte + n as int,
                d,
                q,
                n as int,
            );
        }
    } else {
        assert(s[0] == (first_byte + mask) as u8);
        let d = mask as int + 1;
        let q = first_byte as int / d;
        assert((first_byte + mask as int) % d == mask as int) by {
            vstd::arithmetic::div_mod::lemma_fundamental_div_mod(first_byte as int, d);
            assert(d * q == q * d) by (nonlinear_arith);
            vstd::arithmetic::div_mod::lemma_fundamental_div_mod_converse(
                first_byte + mask as int,
                d,
                q,
                mask as int,
            );
        }
        assert(spec_cont_bytes((n - mask) as nat) + rest =~= s.skip(1));
        lemma_pow128_4();
        lemma_cont_round_trip((n - mask) as nat, rest, 4);
    }
}


/// The five HPACK field representations, told apart by the first byte.
pub enum Representation {
    /// `1xxxxxxx`: an indexed header field.
    Indexed,
    /// `01xxxxxx`: a literal header field with incremental indexing.
    LiteralWithIndexing,
    /// `0000xxxx`: a literal header field without indexing.
    LiteralWithoutIndexing,
    /// `0001xxxx`: a literal header field never indexed.
    LiteralNeverIndexed,
    /// `001xxxxx`: a dynamic table size update.
    SizeUpdate,
}

impl Representation {
    /// The representation the first byte of a field denotes. The five
    /// patterns cover every byte.
    pub open spec fn spec_load(byte: u8) -> Representation {
        if byte >= 128 {
            Representation::Indexed
        } else if byte >= 64 {
            Representation::LiteralWithIndexing
        } else if byte < 16 {
            Representation::LiteralWithoutIndexing
        } else if byte < 32 {
            Representation::LiteralNeverIndexed
        } else {
            Representation::SizeUpdate
        }
    }

    pub fn load(byte: u8) -> (r: Result<Representation, Error>)
        ensures
            r == Ok::<Representation, Error>(Representation::spec_load(byte)),
    {
        if byte >= 128 {
            Ok(Representation::Indexed)
        } else if byte >= 64 {
            Ok(Representation::LiteralWithIndexing)
        } else if byte < 16 {
            Ok(Representation::LiteralWithoutIndexing)
        } else if byte < 32 {
            Ok(Representation::LiteralNeverIndexed)
        } else {
            Ok(Representation::SizeUpdate)
        }
    }
}

/// A string literal as it appeared on the wire: already plain, or still
/// Huffman-coded.
pub enum OutStr<'a> {
    Plain(&'a [u8]),
    Huffman(&'a [u8]),
}

/// The octets of the pseudo-header name `:path`.
pub open spec fn spec_path_name() -> Seq<u8> {
    seq![58u8, 112, 97, 116, 104]
}

/// Whether a wire-form name equals a plain name `s`: byte equality for a
/// plain name, equality with the canonical Huffman encoding of `s` for a
/// Huffman-coded one (HPACK's Huffman code is canonical, so comparing
/// encodings is comparing strings).
pub open spec fn spec_outstr_eq(huff: bool, out: Seq<u8>, s: Seq<u8>) -> bool {
    if huff {
        out == crate::huffman::spec_huffman_encode(s)
    } else {
        out == s
    }
}

fn bytes_eq(a: &[u8], b: &[u8]) -> (r: bool)
    ensures
        r == (a@ == b@),
{
    if a.len() != b.len() {
        proof {
            assert(a@ != b@);
        }
        return false;
    }
    let n = a.len();
    let mut i: usize = 0;
    while i < n
        invariant
            i <= n,
            n == a@.len() == b@.len(),
            forall|j: int| 0 <= j < i ==> a@[j] == b@[j],
        decreases n - i,
    {
        if a[i] != b[i] {
            proof {
                assert(a@[i as int] != b@[i as int]);
            }
            return false;
        }
        i = i + 1;
    }
    proof {
        assert(a@ =~= b@);
    }
    true
}

impl<'a> OutStr<'a> {
    /// Whether this wire-form string equals the plain octets `s`. A
    /// Huffman-coded string is compared by re-encoding `s`, never by
    /// decoding the wire form.
    pub fn eq_str(&self, s: &[u8]) -> (r: bool)
        ensures
            match *self {
                OutStr::Plain(out) => r == spec_outstr_eq(false, out@, s@),
                OutStr::Huffman(out) => r == spec_outstr_eq(true, out@, s@),
            },
    {
        match self {
            OutStr::Plain(out) => bytes_eq(out, s),
            OutStr::Huffman(out) => {
                let mut huffbuf: Vec<u8> = Vec::new();
                crate::huffman::encode(s, &mut huffbuf);
                bytes_eq(out, huffbuf.as_slice())
            },
        }
    }
}

/// The string literal at the head of `b`: its Huffman flag, its octets,
/// and the octets consumed; `None` when the length does not decode or
/// runs past the input.
pub open spec fn spec_decode_string(b: Seq<u8>) -> Option<(bool, Seq<u8>, int)> {
    if b.len() == 0 {
        None
    } else {
        match spec_decode_int(b, 7) {
            IntResult::Value(len, adv) => if len + adv <= b.len() {
                Some((b[0] >= 128, b.subrange(adv as int, adv + len as int), adv + len as int))
            } else {
                None
            },
            _ => None,
        }
    }
}

pub fn decode_string<'a>(buf: &'a [u8]) -> (r: Result<(OutStr<'a>, usize), Error>)
    ensures
        match r {
            Ok((s, adv)) => {
                &&& spec_decode_string(buf@) matches Some((h, bytes, a))
                &&& a == adv
                &&& 1 <= adv <= buf@.len()
                &&& match s {
                    OutStr::Huffman(o) => h && o@ == bytes,
                    OutStr::Plain(o) => !h && o@ == bytes,
                }
            },
            Err(e) => spec_decode_string(buf@) is None && e is InvalidHpack,
        },
{
    if buf.len() == 0 {
        return Err(Error::InvalidHpack("need more"));
    }
    let huff = buf[0] >= 128;
    let (len, adv) = match decode_int(buf, 7) {
        Ok(v) => v,
        Err(e) => {
            return Err(e);
        },
    };
    if len > buf.len() - adv {
        return Err(Error::InvalidHpack("need more"));
    }
    let end = adv + len;
    let msg = slice_subrange(buf, adv, end);
    if huff {
        Ok((OutStr::Huffman(msg), end))
    } else {
        Ok((OutStr::Plain(msg), end))
    }
}

/// The `:path` value carried by the literal field at the head of `b`, if
/// that field's name is `:path` (literal, or static-table entry 4 or 5),
/// and the octets the field consumes. The name prefix is 6 bits under
/// incremental indexing and 4 bits otherwise.
pub open spec fn spec_literal_path(b: Seq<u8>, index: bool) -> Option<
    (Option<(bool, Seq<u8>)>, int),
> {
    let prefix: int = if index {
        6
    } else {
        4
    };
    match spec_decode_int(b, prefix) {
        IntResult::Value(tidx, iadv) => {
            if tidx == 0 {
                match spec_decode_string(b.skip(iadv as int)) {
                    Some((nh, nb, nadv)) => match spec_decode_string(b.skip(iadv + nadv)) {
                        Some((vh, vb, vadv)) => Some(
                            (
                                if spec_outstr_eq(nh, nb, spec_path_name()) {
                                    Some((vh, vb))
                                } else {
                                    None
                                },
                                iadv + nadv + vadv,
                            ),
                        ),
                        None => None,
                    },
                    None => None,
                }
            } else {
                match spec_decode_string(b.skip(iadv as int)) {
                    Some((vh, vb, vadv)) => Some(
                        (
                            if tidx == 4 || tidx == 5 {
                                Some((vh, vb))
                            } else {
                                None
                            },
                            iadv + vadv,
                        ),
                    ),
                    None => None,
                }
            }
        },
        _ => None,
    }
}

pub fn decode_literal_path<'a>(buf: &'a [u8], index: bool) -> (r: Result<
    (Option<OutStr<'a>>, usize),
    Error,
>)
    ensures
        match r {
            Ok((path, adv)) => {
                &&& spec_literal_path(buf@, index) matches Some((p, a))
                &&& a == adv
                &&& 1 <= adv <= buf@.len()
                &&& match path {
                    Some(OutStr::Huffman(o)) => p matches Some((h, bytes)) && h && o@ == bytes,
                    Some(OutStr::Plain(o)) => p matches Some((h, bytes)) && !h && o@ == bytes,
                    None => p is None,
                }
            },
            Err(e) => spec_literal_path(buf@, index) is None && (e is InvalidHpack
                || e is InvalidHuffman),
        },
{
    let prefix: u8 = if index {
        6
    } else {
        4
    };
    let (table_idx, index_adv) = match decode_int(buf, prefix) {
        Ok(v) => v,
        Err(e) => {
            return Err(e);
        },
    };
    let rest = slice_subrange(buf, index_adv, buf.len());
    proof {
        assert(rest@ =~= buf@.skip(index_adv as int));
    }
    if table_idx == 0 {
        let (name_str, name_adv) = match decode_string(rest) {
            Ok(v) => v,
            Err(e) => {
                return Err(e);
            },
        };
        let rest2 = slice_subrange(rest, name_adv, rest.len());
        proof {
            assert(rest2@ =~= buf@.skip(index_adv + name_adv));
        }
        let (value_str, value_adv) = match decode_string(rest2) {
            Ok(v) => v,
            Err(e) => {
                return Err(e);
            },
        };
        let adv = index_adv + name_adv + value_adv;
        let path_name: [u8; 5] = [58u8, 112, 97, 116, 104];
        if name_str.eq_str(&path_name) {
            Ok((Some(value_str), adv))
        } else {
            Ok((None, adv))
        }
    } else {
        let (value_str, value_adv) = match decode_string(rest) {
            Ok(v) => v,
            Err(e) => {
                return Err(e);
            },
        };
        let adv = index_adv + value_adv;
        if table_idx == 4 || table_idx == 5 {
            Ok((Some(value_str), adv))
        } else {
            Ok((None, adv))
        }
    }
}

/// What the decoder hands the connection engine for one HEADERS block.
pub enum PathKind {
    /// The `:path` resolved to an already-cached value; the engine knows
    /// the route under this index.
    Cached(usize),
    /// A path seen for the first time, as plain octets; the engine must
    /// resolve it and record the route under the index the decoder just
    /// allocated.
    Plain(Vec<u8>),
}

/// The plain `:path` value of a block that consists of exactly one
/// literal field without indexing (or never indexed): the common shape
/// of a request whose path travels uncompressed.
pub open spec fn spec_one_plain_path(b: Seq<u8>) -> Option<Seq<u8>> {
    if b.len() > 0 && (Representation::spec_load(b[0]) is LiteralWithoutIndexing
        || Representation::spec_load(b[0]) is LiteralNeverIndexed) {
        match spec_literal_path(b, false) {
            Some((Some((huff, p)), adv)) => if !huff && adv == b.len() {
                Some(p)
            } else {
                None
            },
            _ => None,
        }
    } else {
        None
    }
}

/// The table index of a block that consists of exactly one indexed
/// field referencing the dynamic table (index above the 61 static
/// entries): the shape of a request whose path rides on a prior
/// incremental-indexing insertion.
pub open spec fn spec_one_dynamic_ref(b: Seq<u8>) -> Option<nat> {
    if b.len() > 0 && Representation::spec_load(b[0]) is Indexed {
        match spec_decode_int(b, 7) {
            IntResult::Value(idx, adv) => if adv == b.len() && idx > 61 {
                Some(idx)
            } else {
                None
            },
            _ => None,
        }
    } else {
        None
    }
}

/// The plain `:path` value of a block that consists of exactly one
/// literal field with incremental indexing: the shape that seeds the
/// dynamic table for later indexed references.
pub open spec fn spec_one_lwi_path(b: Seq<u8>) -> Option<Seq<u8>> {
    if b.len() > 0 && Representation::spec_load(b[0]) is LiteralWithIndexing {
        match spec_literal_path(b, true) {
            Some((Some((huff, p)), adv)) => if !huff && adv == b.len() {
                Some(p)
            } else {
                None
            },
            _ => None,
        }
    } else {
        None
    }
}

/// The cache index recorded for key `k`: the first entry that carries it.
pub open spec fn assoc_find(m: Seq<(Vec<u8>, usize)>, k: Seq<u8>) -> Option<usize>
    decreases m.len(),
{
    if m.len() == 0 {
        None
    } else if m[0].0@ == k {
        Some(m[0].1)
    } else {
        assoc_find(m.skip(1), k)
    }
}

fn assoc_get(m: &Vec<(Vec<u8>, usize)>, k: &[u8]) -> (r: Option<usize>)
    ensures
        r == assoc_find(m@, k@),
{
    let n = m.len();
    let mut i: usize = 0;
    proof {
        assert(m@.skip(0) =~= m@);
    }
    while i < n
        invariant
            i <= n,
            n == m@.len(),
            assoc_find(m@, k@) == assoc_find(m@.skip(i as int), k@),
        decreases n - i,
    {
        proof {
            assert(m@.skip(i as int)[0] == m@[i as int]);
            assert(m@.skip(i as int).skip(1) =~= m@.skip(i + 1));
        }
        let pair = &m[i];
        if bytes_eq(pair.0.as_slice(), k) {
            return Some(pair.1);
        }
        i = i + 1;
    }
    proof {
        assert(m@.skip(n as int) =~= Seq::<(Vec<u8>, usize)>::empty());
    }
    None
}

proof fn lemma_assoc_find_in(m: Seq<(Vec<u8>, usize)>, k: Seq<u8>)
    ensures
        assoc_find(m, k) matches Some(c) ==> exists|i: int|
            0 <= i < m.len() && (#[trigger] m[i]).1 == c && m[i].0@ == k,
    decreases m.len(),
{
    if m.len() > 0 && m[0].0@ != k {
        lemma_assoc_find_in(m.skip(1), k);
        if assoc_find(m, k) is Some {
            let j = choose|i: int|
                0 <= i < m.skip(1).len() && (#[trigger] m.skip(1)[i]).1 == assoc_find(
                    m,
                    k,
                ).unwrap() && m.skip(1)[i].0@ == k;
            assert(m[j + 1] == m.skip(1)[j]);
        }
    }
}

proof fn lemma_assoc_find_none(m: Seq<(Vec<u8>, usize)>, k: Seq<u8>)
    ensures
        assoc_find(m, k) is None ==> forall|i: int| 0 <= i < m.len() ==> (#[trigger] m[i]).0@ != k,
    decreases m.len(),
{
    if m.len() > 0 && m[0].0@ != k {
        lemma_assoc_find_none(m.skip(1), k);
        if assoc_find(m, k) is None {
            assert forall|i: int| 0 <= i < m.len() implies (#[trigger] m[i]).0@ != k by {
                if i > 0 {
                    assert(m.skip(1)[i - 1] == m[i]);
                }
            }
        }
    }
}

/// Path-cache stability: recording a fresh path under an index makes
/// every later lookup of that path yield exactly that index, and leaves
/// every other path's resolution unchanged. Since the decoder hands out
/// a given index only once, a path resolves to the same route on every
/// occurrence after the first.
pub proof fn lemma_path_cache_stable(m: Seq<(Vec<u8>, usize)>, kv: Vec<u8>, i: usize, k2: Seq<u8>)
    requires
        assoc_find(m, kv@) is None,
    ensures
        assoc_find(m.push((kv, i)), kv@) == Some(i),
        k2 != kv@ ==> assoc_find(m.push((kv, i)), k2) == assoc_find(m, k2),
    decreases m.len(),
{
    let mp = m.push((kv, i));
    if m.len() == 0 {
        assert(mp[0] == (kv, i));
        assert(mp[0].0 == kv);
        assert(mp.skip(1) =~= Seq::<(Vec<u8>, usize)>::empty());
        if k2 != kv@ {
            assert(assoc_find(mp, k2) == assoc_find(mp.skip(1), k2));
            assert(assoc_find(mp, k2) is None);
        }
    } else {
        assert(mp[0] == m[0]);
        assert(mp.skip(1) =~= m.skip(1).push((kv, i)));
        lemma_path_cache_stable(m.skip(1), kv, i, k2);
        assert(assoc_find(mp, kv@) == Some(i)) by {
            assert(m[0].0@ != kv@);
            assert(assoc_find(mp, kv@) == assoc_find(m.skip(1).push((kv, i)), kv@));
        }
        if k2 != kv@ {
            if m[0].0@ == k2 {
                assert(assoc_find(mp, k2) == Some(m[0].1));
                assert(assoc_find(m, k2) == Some(m[0].1));
            } else {
                assert(assoc_find(mp, k2) == assoc_find(m.skip(1).push((kv, i)), k2));
                assert(assoc_find(m, k2) == assoc_find(m.skip(1), k2));
            }
        }
    }
}


/// The decoder state as mathematics: the counter, the dynamic table,
/// and the two lookaside caches with their keys as byte sequences.
pub struct DecoderModel {
    pub next_cache_index: usize,
    pub dynamic_table: Seq<Option<usize>>,
    pub plain_paths: Seq<(Seq<u8>, usize)>,
    pub huffman_paths: Seq<(Seq<u8>, usize)>,
}

/// The keys-and-indices view of an association list.
pub open spec fn paths_view(m: Seq<(Vec<u8>, usize)>) -> Seq<(Seq<u8>, usize)> {
    m.map_values(|e: (Vec<u8>, usize)| (e.0@, e.1))
}

/// `assoc_find` over the mathematical view.
pub open spec fn assoc_find_keys(m: Seq<(Seq<u8>, usize)>, k: Seq<u8>) -> Option<usize>
    decreases m.len(),
{
    if m.len() == 0 {
        None
    } else if m[0].0 == k {
        Some(m[0].1)
    } else {
        assoc_find_keys(m.skip(1), k)
    }
}

proof fn lemma_assoc_find_view(m: Seq<(Vec<u8>, usize)>, k: Seq<u8>)
    ensures
        assoc_find_keys(paths_view(m), k) == assoc_find(m, k),
    decreases m.len(),
{
    if m.len() > 0 {
        assert(paths_view(m)[0] == (m[0].0@, m[0].1));
        assert(paths_view(m).skip(1) =~= paths_view(m.skip(1)));
        lemma_assoc_find_view(m.skip(1), k);
    }
}

/// What the decoder carries forward while walking a block.
pub enum PathFound {
    NotYet,
    Cached(usize),
    Plain(Seq<u8>),
}

/// How a whole block walk ends: the new state and the last `:path`
/// resolution, or a connection-fatal failure.
pub enum WalkOutcome {
    Done(DecoderModel, PathFound),
    Fail,
}

/// The resolution the walk has carried so far, from the engine's two
/// flags and registers.
pub open spec fn spec_found_of(
    found_cached: bool,
    cached_index: usize,
    found_plain: bool,
    plain: Seq<u8>,
) -> PathFound {
    if found_cached {
        PathFound::Cached(cached_index)
    } else if found_plain {
        PathFound::Plain(plain)
    } else {
        PathFound::NotYet
    }
}

/// The walk outcome of the three canonical one-field block shapes, as
/// facts about a decoder value.
proof fn shape_walk_facts(d: Decoder, b: Seq<u8>)
    ensures
        spec_one_plain_path(b) is Some ==> ({
            let p = spec_one_plain_path(b).unwrap();
            &&& assoc_find_keys(d.model().plain_paths, p) == assoc_find(d.plain_paths@, p)
            &&& match assoc_find_keys(d.model().plain_paths, p) {
                Some(c) => spec_walk(d.model(), b, PathFound::NotYet) == WalkOutcome::Done(
                    d.model(),
                    PathFound::Cached(c),
                ),
                None => if d.model().next_cache_index == usize::MAX {
                    spec_walk(d.model(), b, PathFound::NotYet) == WalkOutcome::Fail
                } else {
                    spec_walk(d.model(), b, PathFound::NotYet) == WalkOutcome::Done(
                        DecoderModel {
                            next_cache_index: (d.model().next_cache_index + 1) as usize,
                            plain_paths: d.model().plain_paths.push(
                                (p, d.model().next_cache_index),
                            ),
                            ..d.model()
                        },
                        PathFound::Plain(p),
                    )
                },
            }
        }),
        spec_one_lwi_path(b) is Some ==> ({
            let p = spec_one_lwi_path(b).unwrap();
            &&& assoc_find_keys(d.model().plain_paths, p) == assoc_find(d.plain_paths@, p)
            &&& if d.model().next_cache_index == usize::MAX {
                spec_walk(d.model(), b, PathFound::NotYet) == WalkOutcome::Fail
            } else {
                spec_walk(d.model(), b, PathFound::NotYet) == WalkOutcome::Done(
                    DecoderModel {
                        next_cache_index: (d.model().next_cache_index + 1) as usize,
                        dynamic_table: d.model().dynamic_table.push(
                            Some(d.model().next_cache_index),
                        ),
                        plain_paths: if assoc_find_keys(d.model().plain_paths, p) is Some {
                            d.model().plain_paths
                        } else {
                            d.model().plain_paths.push((p, d.model().next_cache_index))
                        },
                        ..d.model()
                    },
                    PathFound::Plain(p),
                )
            }
        }),
        spec_one_dynamic_ref(b) is Some ==> ({
            let idx = spec_one_dynamic_ref(b).unwrap();
            if idx > 61 + d.model().dynamic_table.len() {
                spec_walk(d.model(), b, PathFound::NotYet) == WalkOutcome::Fail
            } else {
                spec_walk(d.model(), b, PathFound::NotYet) == WalkOutcome::Done(
                    d.model(),
                    match d.model().dynamic_table[(d.model().dynamic_table.len() - (idx
                        - 61)) as int] {
                        Some(c) => PathFound::Cached(c),
                        None => PathFound::NotYet,
                    },
                )
            }
        }),
{
    if spec_one_plain_path(b) is Some {
        lemma_walk_one_plain(d.model(), b);
        lemma_assoc_find_view(d.plain_paths@, spec_one_plain_path(b).unwrap());
    }
    if spec_one_lwi_path(b) is Some {
        lemma_walk_one_lwi(d.model(), b);
        lemma_assoc_find_view(d.plain_paths@, spec_one_lwi_path(b).unwrap());
    }
    if spec_one_dynamic_ref(b) is Some {
        lemma_walk_one_ref(d.model(), b);
    }
}

proof fn lemma_walk_one_plain(st: DecoderModel, b: Seq<u8>)
    requires
        spec_one_plain_path(b) is Some,
    ensures
        ({
            let p = spec_one_plain_path(b).unwrap();
            match assoc_find_keys(st.plain_paths, p) {
                Some(c) => spec_walk(st, b, PathFound::NotYet) == WalkOutcome::Done(
                    st,
                    PathFound::Cached(c),
                ),
                None => if st.next_cache_index == usize::MAX {
                    spec_walk(st, b, PathFound::NotYet) == WalkOutcome::Fail
                } else {
                    spec_walk(st, b, PathFound::NotYet) == WalkOutcome::Done(
                        DecoderModel {
                            next_cache_index: (st.next_cache_index + 1) as usize,
                            plain_paths: st.plain_paths.push((p, st.next_cache_index)),
                            ..st
                        },
                        PathFound::Plain(p),
                    )
                },
            }
        }),
{
    reveal_with_fuel(spec_walk, 2);
    assert(b.skip(b.len() as int) =~= Seq::<u8>::empty());
}

proof fn lemma_walk_one_lwi(st: DecoderModel, b: Seq<u8>)
    requires
        spec_one_lwi_path(b) is Some,
    ensures
        ({
            let p = spec_one_lwi_path(b).unwrap();
            if st.next_cache_index == usize::MAX {
                spec_walk(st, b, PathFound::NotYet) == WalkOutcome::Fail
            } else {
                spec_walk(st, b, PathFound::NotYet) == WalkOutcome::Done(
                    DecoderModel {
                        next_cache_index: (st.next_cache_index + 1) as usize,
                        dynamic_table: st.dynamic_table.push(Some(st.next_cache_index)),
                        plain_paths: if assoc_find_keys(st.plain_paths, p) is Some {
                            st.plain_paths
                        } else {
                            st.plain_paths.push((p, st.next_cache_index))
                        },
                        ..st
                    },
                    PathFound::Plain(p),
                )
            }
        }),
{
    reveal_with_fuel(spec_walk, 2);
    assert(b.skip(b.len() as int) =~= Seq::<u8>::empty());
}

proof fn lemma_walk_one_ref(st: DecoderModel, b: Seq<u8>)
    requires
        spec_one_dynamic_ref(b) is Some,
    ensures
        ({
            let idx = spec_one_dynamic_ref(b).unwrap();
            if idx > 61 + st.dynamic_table.len() {
                spec_walk(st, b, PathFound::NotYet) == WalkOutcome::Fail
            } else {
                spec_walk(st, b, PathFound::NotYet) == WalkOutcome::Done(
                    st,
                    match st.dynamic_table[(st.dynamic_table.len() - (idx - 61)) as int] {
                        Some(c) => PathFound::Cached(c),
                        None => PathFound::NotYet,
                    },
                )
            }
        }),
{
    reveal_with_fuel(spec_walk, 2);
    assert(b.skip(b.len() as int) =~= Seq::<u8>::empty());
}

proof fn lemma_decode_int_bounds(b: Seq<u8>, p: int)
    ensures
        spec_decode_int(b, p) matches IntResult::Value(v, k) ==> 1 <= k <= b.len(),
{
    if spec_decode_int(b, p) is Value && !(p < 1 || p > 8) && b.len() > 0 {
        lemma_cont_value_bound(b.skip(1), 4);
    }
}

proof fn lemma_decode_string_bounds(b: Seq<u8>)
    ensures
        spec_decode_string(b) matches Some((h, w, a)) ==> 1 <= a <= b.len(),
{
    lemma_decode_int_bounds(b, 7);
}

proof fn lemma_literal_path_bounds(b: Seq<u8>, index: bool)
    ensures
        spec_literal_path(b, index) matches Some((o, a)) ==> 1 <= a <= b.len(),
{
    let prefix: int = if index {
        6
    } else {
        4
    };
    lemma_decode_int_bounds(b, prefix);
    match spec_decode_int(b, prefix) {
        IntResult::Value(tidx, iadv) => {
            lemma_decode_string_bounds(b.skip(iadv as int));
            match spec_decode_string(b.skip(iadv as int)) {
                Some((nh, nb, nadv)) => {
                    lemma_decode_string_bounds(b.skip(iadv + nadv));
                },
                None => {},
            }
        },
        _ => {},
    }
}

/// One walk over a whole HEADERS block, mirroring the decoder field by
/// field: how the state evolves, which `:path` resolution survives, and
/// exactly when the block is fatal.
#[verifier::opaque]
pub open spec fn spec_walk(st: DecoderModel, b: Seq<u8>, found: PathFound) -> WalkOutcome
    decreases b.len(),
    via spec_walk_decreases
{
    if b.len() == 0 {
        WalkOutcome::Done(st, found)
    } else {
        match Representation::spec_load(b[0]) {
            Representation::Indexed => match spec_decode_int(b, 7) {
                IntResult::Value(idx, adv) => if idx > 61 {
                    if idx > 61 + st.dynamic_table.len() {
                        WalkOutcome::Fail
                    } else {
                        let slot = st.dynamic_table.len() - (idx - 61);
                        let found2 = match st.dynamic_table[slot as int] {
                            Some(c) => PathFound::Cached(c),
                            None => found,
                        };
                        spec_walk(st, b.skip(adv as int), found2)
                    }
                } else {
                    spec_walk(st, b.skip(adv as int), found)
                },
                _ => WalkOutcome::Fail,
            },
            Representation::LiteralWithIndexing => match spec_literal_path(b, true) {
                Some((opt, adv)) => match opt {
                    Some((huff, wire)) => if st.next_cache_index == usize::MAX {
                        WalkOutcome::Fail
                    } else {
                        let idx = st.next_cache_index;
                        if huff {
                            match crate::huffman::spec_huffman_decode(wire) {
                                Some(pv) => {
                                    let recorded = if assoc_find_keys(st.huffman_paths, wire)
                                        is Some {
                                        st.huffman_paths
                                    } else {
                                        st.huffman_paths.push((wire, idx))
                                    };
                                    spec_walk(
                                        DecoderModel {
                                            next_cache_index: (idx + 1) as usize,
                                            dynamic_table: st.dynamic_table.push(Some(idx)),
                                            huffman_paths: recorded,
                                            ..st
                                        },
                                        b.skip(adv as int),
                                        PathFound::Plain(pv),
                                    )
                                },
                                None => WalkOutcome::Fail,
                            }
                        } else {
                            let recorded = if assoc_find_keys(st.plain_paths, wire) is Some {
                                st.plain_paths
                            } else {
                                st.plain_paths.push((wire, idx))
                            };
                            spec_walk(
                                DecoderModel {
                                    next_cache_index: (idx + 1) as usize,
                                    dynamic_table: st.dynamic_table.push(Some(idx)),
                                    plain_paths: recorded,
                                    ..st
                                },
                                b.skip(adv as int),
                                PathFound::Plain(wire),
                            )
                        }
                    },
                    None => spec_walk(
                        DecoderModel { dynamic_table: st.dynamic_table.push(None), ..st },
                        b.skip(adv as int),
                        found,
                    ),
                },
                None => WalkOutcome::Fail,
            },
            Representation::SizeUpdate => match spec_decode_int(b, 7) {
                IntResult::Value(idx, adv) => spec_walk(st, b.skip(adv as int), found),
                _ => WalkOutcome::Fail,
            },
            _ => match spec_literal_path(b, false) {
                Some((opt, adv)) => match opt {
                    Some((huff, wire)) => if huff {
                        match assoc_find_keys(st.huffman_paths, wire) {
                            Some(c) => spec_walk(st, b.skip(adv as int), PathFound::Cached(c)),
                            None => if st.next_cache_index == usize::MAX {
                                WalkOutcome::Fail
                            } else {
                                match crate::huffman::spec_huffman_decode(wire) {
                                    Some(pv) => spec_walk(
                                        DecoderModel {
                                            next_cache_index: (st.next_cache_index + 1) as usize,
                                            huffman_paths: st.huffman_paths.push(
                                                (wire, st.next_cache_index),
                                            ),
                                            ..st
                                        },
                                        b.skip(adv as int),
                                        PathFound::Plain(pv),
                                    ),
                                    None => WalkOutcome::Fail,
                                }
                            },
                        }
                    } else {
                        match assoc_find_keys(st.plain_paths, wire) {
                            Some(c) => spec_walk(st, b.skip(adv as int), PathFound::Cached(c)),
                            None => if st.next_cache_index == usize::MAX {
                                WalkOutcome::Fail
                            } else {
                                spec_walk(
                                    DecoderModel {
                                        next_cache_index: (st.next_cache_index + 1) as usize,
                                        plain_paths: st.plain_paths.push(
                                            (wire, st.next_cache_index),
                                        ),
                                        ..st
                                    },
                                    b.skip(adv as int),
                                    PathFound::Plain(wire),
                                )
                            },
                        }
                    },
                    None => spec_walk(st, b.skip(adv as int), found),
                },
                None => WalkOutcome::Fail,
            },
        }
    }
}

#[via_fn]
proof fn spec_walk_decreases(st: DecoderModel, b: Seq<u8>, found: PathFound) {
    if b.len() != 0 {
        match Representation::spec_load(b[0]) {
            Representation::Indexed => lemma_decode_int_bounds(b, 7),
            Representation::SizeUpdate => lemma_decode_int_bounds(b, 7),
            Representation::LiteralWithIndexing => lemma_literal_path_bounds(b, true),
            _ => lemma_literal_path_bounds(b, false),
        }
    }
}

/// The path-only HPACK decoder state: a monotone counter of distinct
/// paths, the dynamic table (recording which entries were `:path`
/// values), and two lookaside caches keyed by the raw wire octets, one
/// for plain paths and one for Huffman-coded ones (a repeated
/// transmission then skips even the Huffman decode).
pub struct Decoder {
    pub next_cache_index: usize,
    pub dynamic_table: Vec<Option<usize>>,
    pub huffman_paths: Vec<(Vec<u8>, usize)>,
    pub plain_paths: Vec<(Vec<u8>, usize)>,
}

impl Decoder {
    /// Every cache index stored anywhere is below the allocation counter.
    pub open spec fn wf(self) -> bool {
        &&& forall|i: int|
            0 <= i < self.dynamic_table@.len() ==> (#[trigger] self.dynamic_table@[i] matches Some(
                c,
            ) ==> c < self.next_cache_index)
        &&& forall|i: int|
            0 <= i < self.plain_paths@.len() ==> (#[trigger] self.plain_paths@[i]).1
                < self.next_cache_index
        &&& forall|i: int|
            0 <= i < self.huffman_paths@.len() ==> (#[trigger] self.huffman_paths@[i]).1
                < self.next_cache_index
        &&& forall|i: int, j: int|
            0 <= i < j < self.plain_paths@.len() ==> (#[trigger] self.plain_paths@[i]).0@ != (
            #[trigger] self.plain_paths@[j]).0@
        &&& forall|i: int, j: int|
            0 <= i < j < self.huffman_paths@.len() ==> (#[trigger] self.huffman_paths@[i]).0@ != (
            #[trigger] self.huffman_paths@[j]).0@
    }

    /// This decoder as mathematics.
    pub open spec fn model(self) -> DecoderModel {
        DecoderModel {
            next_cache_index: self.next_cache_index,
            dynamic_table: self.dynamic_table@,
            plain_paths: paths_view(self.plain_paths@),
            huffman_paths: paths_view(self.huffman_paths@),
        }
    }

    /// Creates a new `Decoder` with empty tables.
    pub fn new() -> (r: Self)
        ensures
            r.wf(),
            r.next_cache_index == 0,
            r.dynamic_table@.len() == 0,
            r.huffman_paths@.len() == 0,
            r.plain_paths@.len() == 0,
    {
        Decoder {
            next_cache_index: 0,
            dynamic_table: Vec::new(),
            huffman_paths: Vec::new(),
            plain_paths: Vec::new(),
        }
    }

    /// Walks one HEADERS block and extracts the `:path`: `Cached` when
    /// the path (or the dynamic-table entry it was recorded under) has
    /// been seen before, `Plain` with the decoded octets on a first
    /// sight, and `NoPathSet` when the block carries no `:path` at all.
    /// Every malformed field is a connection-fatal error. The contract
    /// is exact for every block: the result and the whole new state
    /// equal [`spec_walk`] over the block, so an error comes back if and
    /// only if some field is malformed (any kind but `NoPathSet`) or the
    /// walk finishes without a `:path` (`NoPathSet`); the clauses after
    /// it restate the three common one-field block shapes directly.
    #[verifier::rlimit(100)]
    pub fn find_path(&mut self, buf: &[u8]) -> (r: Result<PathKind, Error>)
        requires
            old(self).wf(),
        ensures
            final(self).wf(),
            old(self).next_cache_index <= final(self).next_cache_index,
            r matches Ok(PathKind::Cached(i)) ==> i < final(self).next_cache_index,
            match spec_walk(old(self).model(), buf@, PathFound::NotYet) {
                WalkOutcome::Done(st, found) => {
                    &&& final(self).model() == st
                    &&& match found {
                        PathFound::NotYet => r == Err::<PathKind, Error>(Error::NoPathSet),
                        PathFound::Cached(c) => r == Ok::<PathKind, Error>(PathKind::Cached(c)),
                        PathFound::Plain(p) => r matches Ok(PathKind::Plain(q)) && q@ == p,
                    }
                },
                WalkOutcome::Fail => r is Err && r != Err::<PathKind, Error>(Error::NoPathSet),
            },
            spec_one_plain_path(buf@) is Some && old(self).next_cache_index < usize::MAX ==> r
                is Ok,
            spec_one_plain_path(buf@) matches Some(p) && assoc_find(
                old(self).plain_paths@,
                p,
            ) is Some ==> r is Ok,
            spec_one_plain_path(buf@) is Some && r is Ok ==> {
                let p = spec_one_plain_path(buf@).unwrap();
                match assoc_find(old(self).plain_paths@, p) {
                    Some(i) => {
                        &&& r == Ok::<PathKind, Error>(PathKind::Cached(i))
                        &&& final(self).next_cache_index == old(self).next_cache_index
                        &&& final(self).model() == old(self).model()
                    },
                    None => {
                        &&& (r matches Ok(PathKind::Plain(q)) && q@ == p)
                        &&& final(self).next_cache_index == old(self).next_cache_index + 1
                        &&& final(self).model() == DecoderModel {
                            next_cache_index: (old(self).next_cache_index + 1) as usize,
                            plain_paths: old(self).model().plain_paths.push(
                                (p, old(self).next_cache_index),
                            ),
                            ..old(self).model()
                        }
                    },
                }
            },
            spec_one_lwi_path(buf@) is Some && old(self).next_cache_index < usize::MAX ==> r
                is Ok,
            spec_one_lwi_path(buf@) is Some && r is Ok ==> {
                let p = spec_one_lwi_path(buf@).unwrap();
                &&& (r matches Ok(PathKind::Plain(q)) && q@ == p)
                &&& final(self).next_cache_index == old(self).next_cache_index + 1
                &&& final(self).model() == DecoderModel {
                    next_cache_index: (old(self).next_cache_index + 1) as usize,
                    dynamic_table: old(self).model().dynamic_table.push(
                        Some(old(self).next_cache_index),
                    ),
                    plain_paths: if assoc_find(old(self).plain_paths@, p) is Some {
                        old(self).model().plain_paths
                    } else {
                        old(self).model().plain_paths.push((p, old(self).next_cache_index))
                    },
                    ..old(self).model()
                }
            },
            spec_one_dynamic_ref(buf@) matches Some(idx) ==> {
                &&& final(self).next_cache_index == old(self).next_cache_index
                &&& (r is Ok ==> final(self).model() == old(self).model())
                &&& (idx > 61 + old(self).dynamic_table@.len() ==> (r matches Err(e)
                    && e matches Error::InvalidHpack(m) && m@ == "invalid dynamic table index"@))
                &&& (idx <= 61 + old(self).dynamic_table@.len() ==> {
                    let slot = old(self).dynamic_table@.len() - (idx - 61);
                    match old(self).dynamic_table@[slot as int] {
                        Some(c) => r == Ok::<PathKind, Error>(PathKind::Cached(c)),
                        None => r == Err::<PathKind, Error>(Error::NoPathSet),
                    }
                })
            },
    {
        let mut found_cached: bool = false;
        let mut found_plain: bool = false;
        let mut cached_index: usize = 0;
        let mut plain_path: Vec<u8> = Vec::new();
        let mut pos: usize = 0;
        proof {
            assert(buf@.skip(0) =~= buf@);
            shape_walk_facts(*self, buf@);
        }
        while pos < buf.len()
            invariant
                pos <= buf@.len(),
                self.wf(),
                old(self).next_cache_index <= self.next_cache_index,
                found_cached ==> cached_index < self.next_cache_index,
                spec_walk(old(self).model(), buf@, PathFound::NotYet) == spec_walk(
                    self.model(),
                    buf@.skip(pos as int),
                    spec_found_of(found_cached, cached_index, found_plain, plain_path@),
                ),
                (spec_one_plain_path(buf@) is Some || spec_one_lwi_path(buf@) is Some
                    || spec_one_dynamic_ref(buf@) is Some) && pos == 0 ==> {
                    &&& self.next_cache_index == old(self).next_cache_index
                    &&& self.dynamic_table@ == old(self).dynamic_table@
                    &&& self.plain_paths@ == old(self).plain_paths@
                    &&& self.huffman_paths@ == old(self).huffman_paths@
                    &&& !found_cached
                    &&& !found_plain
                },
                (spec_one_plain_path(buf@) is Some || spec_one_lwi_path(buf@) is Some
                    || spec_one_dynamic_ref(buf@) is Some) && pos != 0 ==> pos == buf@.len(),
            decreases buf@.len() - pos,
        {
            let ghost m0 = self.model();
            let ghost f0 = spec_found_of(found_cached, cached_index, found_plain, plain_path@);
            proof {
                shape_walk_facts(*old(self), buf@);
            }
            let field = slice_subrange(buf, pos, buf.len());
            proof {
                assert(field@ =~= buf@.skip(pos as int));
                if pos == 0 {
                    assert(field@ =~= buf@);
                }
            }
            let rep = match Representation::load(field[0]) {
                Ok(rep) => rep,
                Err(e) => {
                    return Err(e);
                },
            };
            let adv: usize = match rep {
                Representation::Indexed => {
                    let (index, adv) = match decode_int(field, 7) {
                        Ok(v) => v,
                        Err(e) => {
                            proof {
                                assert(spec_walk(m0, buf@.skip(pos as int), f0)
                                    == WalkOutcome::Fail) by {
                                    reveal_with_fuel(spec_walk, 1);
                                }
                            }
                            return Err(e);
                        },
                    };
                    if index > 61 {
                        let back = index - 61;
                        let table_len = self.dynamic_table.len();
                        if back > table_len {
                            proof {
                                assert(spec_walk(m0, buf@.skip(pos as int), f0)
                                    == WalkOutcome::Fail) by {
                                    reveal_with_fuel(spec_walk, 1);
                                }
                            }
                            return Err(Error::InvalidHpack("invalid dynamic table index"));
                        }
                        let slot = table_len - back;
                        if let Some(cached) = self.dynamic_table[slot] {
                            found_cached = true;
                            found_plain = false;
                            cached_index = cached;
                        }
                    }
                    adv
                },
                Representation::LiteralWithIndexing => {
                    let (path, adv) = match decode_literal_path(field, true) {
                        Ok(v) => v,
                        Err(e) => {
                            proof {
                                assert(spec_walk(m0, buf@.skip(pos as int), f0)
                                    == WalkOutcome::Fail) by {
                                    reveal_with_fuel(spec_walk, 1);
                                }
                            }
                            return Err(e);
                        },
                    };
                    let opt_index: Option<usize> = match path {
                        Some(path) => {
                            if self.next_cache_index == usize::MAX {
                                proof {
                                assert(spec_walk(m0, buf@.skip(pos as int), f0)
                                    == WalkOutcome::Fail) by {
                                    reveal_with_fuel(spec_walk, 1);
                                }
                            }
                            return Err(Error::InvalidHpack("path cache exhausted"));
                            }
                            let idx = self.next_cache_index;
                            // record the new path in the dynamic table
                            // and in the lookaside cache for its wire
                            // form, so any later form of reference hits
                            let path_buf: Vec<u8> = match path {
                                OutStr::Plain(p) => {
                                    proof {
                                        lemma_assoc_find_view(self.plain_paths@, p@);
                                    }
                                    if assoc_get(&self.plain_paths, p).is_none() {
                                        proof {
                                            lemma_assoc_find_none(self.plain_paths@, p@);
                                        }
                                        let ghost pre_plain = self.plain_paths@;
                                        self.plain_paths.push((slice_to_vec(p), idx));
                                        proof {
                                            assert(self.plain_paths@.drop_last() =~= pre_plain);
                                            assert(paths_view(self.plain_paths@) =~= paths_view(
                                                pre_plain,
                                            ).push((p@, idx)));
                                        }
                                    }
                                    slice_to_vec(p)
                                },
                                OutStr::Huffman(h) => {
                                    let mut pb: Vec<u8> = Vec::new();
                                    match crate::huffman::decode(h, &mut pb) {
                                        Ok(()) => (),
                                        Err(e) => {
                                            proof {
                                                assert(spec_walk(m0, buf@.skip(pos as int), f0)
                                                    == WalkOutcome::Fail) by {
                                                    reveal_with_fuel(spec_walk, 1);
                                                }
                                            }
                                            return Err(e);
                                        },
                                    }
                                    proof {
                                        assert(pb@ =~= crate::huffman::spec_huffman_decode(
                                            h@,
                                        ).unwrap());
                                        lemma_assoc_find_view(self.huffman_paths@, h@);
                                    }
                                    if assoc_get(&self.huffman_paths, h).is_none() {
                                        proof {
                                            lemma_assoc_find_none(self.huffman_paths@, h@);
                                        }
                                        let ghost pre_huff = self.huffman_paths@;
                                        self.huffman_paths.push((slice_to_vec(h), idx));
                                        proof {
                                            assert(paths_view(self.huffman_paths@) =~= paths_view(
                                                pre_huff,
                                            ).push((h@, idx)));
                                        }
                                    }
                                    pb
                                },
                            };
                            found_plain = true;
                            found_cached = false;
                            plain_path = path_buf;
                            self.next_cache_index = idx + 1;
                            Some(idx)
                        },
                        None => None,
                    };
                    self.dynamic_table.push(opt_index);
                    adv
                },
                Representation::LiteralWithoutIndexing | Representation::LiteralNeverIndexed => {
                    let (path, adv) = match decode_literal_path(field, false) {
                        Ok(v) => v,
                        Err(e) => {
                            proof {
                                assert(spec_walk(m0, buf@.skip(pos as int), f0)
                                    == WalkOutcome::Fail) by {
                                    reveal_with_fuel(spec_walk, 1);
                                }
                            }
                            return Err(e);
                        },
                    };
                    match path {
                        Some(OutStr::Plain(p)) => {
                            proof {
                                lemma_assoc_find_view(self.plain_paths@, p@);
                            }
                            match assoc_get(&self.plain_paths, p) {
                                Some(cached) => {
                                    proof {
                                        lemma_assoc_find_in(self.plain_paths@, p@);
                                    }
                                    found_cached = true;
                                    found_plain = false;
                                    cached_index = cached;
                                },
                                None => {
                                    if self.next_cache_index == usize::MAX {
                                        proof {
                                            assert(spec_walk(m0, buf@.skip(pos as int), f0)
                                                == WalkOutcome::Fail) by {
                                                reveal_with_fuel(spec_walk, 1);
                                            }
                                        }
                                        return Err(Error::InvalidHpack("path cache exhausted"));
                                    }
                                    let idx = self.next_cache_index;
                                    let ghost pre_plain = self.plain_paths@;
                                    proof {
                                        lemma_assoc_find_none(self.plain_paths@, p@);
                                    }
                                    self.plain_paths.push((slice_to_vec(p), idx));
                                    self.next_cache_index = idx + 1;
                                    found_plain = true;
                                    found_cached = false;
                                    plain_path = slice_to_vec(p);
                                    proof {
                                        assert(self.plain_paths@.drop_last() =~= pre_plain);
                                        assert(paths_view(self.plain_paths@) =~= paths_view(
                                            pre_plain,
                                        ).push((p@, idx)));
                                    }
                                },
                            }
                        },
                        Some(OutStr::Huffman(h)) => {
                            proof {
                                lemma_assoc_find_view(self.huffman_paths@, h@);
                            }
                            match assoc_get(&self.huffman_paths, h) {
                                Some(cached) => {
                                    proof {
                                        lemma_assoc_find_in(self.huffman_paths@, h@);
                                    }
                                    found_cached = true;
                                    found_plain = false;
                                    cached_index = cached;
                                },
                                None => {
                                    if self.next_cache_index == usize::MAX {
                                        proof {
                                            assert(spec_walk(m0, buf@.skip(pos as int), f0)
                                                == WalkOutcome::Fail) by {
                                                reveal_with_fuel(spec_walk, 1);
                                            }
                                        }
                                        return Err(Error::InvalidHpack("path cache exhausted"));
                                    }
                                    proof {
                                        lemma_assoc_find_none(self.huffman_paths@, h@);
                                    }
                                    let mut plain: Vec<u8> = Vec::new();
                                    match crate::huffman::decode(h, &mut plain) {
                                        Ok(()) => (),
                                        Err(e) => {
                                            proof {
                                                assert(spec_walk(m0, buf@.skip(pos as int), f0)
                                                    == WalkOutcome::Fail) by {
                                                    reveal_with_fuel(spec_walk, 1);
                                                }
                                            }
                                            return Err(e);
                                        },
                                    }
                                    let idx = self.next_cache_index;
                                    let ghost pre_huff = self.huffman_paths@;
                                    self.huffman_paths.push((slice_to_vec(h), idx));
                                    self.next_cache_index = idx + 1;
                                    found_plain = true;
                                    found_cached = false;
                                    plain_path = plain;
                                    proof {
                                        assert(plain_path@ =~= crate::huffman::spec_huffman_decode(
                                            h@,
                                        ).unwrap());
                                        assert(paths_view(self.huffman_paths@) =~= paths_view(
                                            pre_huff,
                                        ).push((h@, idx)));
                                    }
                                },
                            }
                        },
                        None => (),
                    }
                    adv
                },
                Representation::SizeUpdate => {
                    let (_, adv) = match decode_int(field, 7) {
                        Ok(v) => v,
                        Err(e) => {
                            proof {
                                assert(spec_walk(m0, buf@.skip(pos as int), f0)
                                    == WalkOutcome::Fail) by {
                                    reveal_with_fuel(spec_walk, 1);
                                }
                            }
                            return Err(e);
                        },
                    };
                    adv
                },
            };
            proof {
                assert(buf@.skip(pos as int).skip(adv as int) =~= buf@.skip(pos + adv));
                assert(spec_walk(m0, buf@.skip(pos as int), f0) == spec_walk(
                    self.model(),
                    buf@.skip(pos + adv),
                    spec_found_of(found_cached, cached_index, found_plain, plain_path@),
                )) by {
                    reveal_with_fuel(spec_walk, 1);
                }
            }
            pos = pos + adv;
        }
        proof {
            assert(buf@.skip(pos as int) =~= Seq::<u8>::empty());
            assert(spec_walk(
                self.model(),
                buf@.skip(pos as int),
                spec_found_of(found_cached, cached_index, found_plain, plain_path@),
            ) == WalkOutcome::Done(
                self.model(),
                spec_found_of(found_cached, cached_index, found_plain, plain_path@),
            )) by {
                reveal_with_fuel(spec_walk, 1);
            }
        }
        if found_cached {
            Ok(PathKind::Cached(cached_index))
        } else if found_plain {
            Ok(PathKind::Plain(plain_path))
        } else {
            Err(Error::NoPathSet)
        }
    }
}


} // verus!
