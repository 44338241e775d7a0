//! The canonical Huffman codec for HPACK string literals: the static code
//! of RFC 7541. The model is bit-exact: an encoding is the concatenation
//! of each octet's code bits, padded to a byte boundary with the all-ones
//! EOS prefix, and decoding is the greedy inverse walk over the unpacked
//! bits.

use vstd::prelude::*;

use crate::error::Error;

verus! {

use vstd::arithmetic::power2::{pow2, lemma2_to64, lemma_pow2_strictly_increases, lemma_pow2_pos};
use vstd::arithmetic::div_mod::{
    lemma_fundamental_div_mod,
    lemma_fundamental_div_mod_converse,
    lemma_div_denominator,
};

broadcast use vstd::arithmetic::power2::lemma_pow2_unfold, vstd::arithmetic::power2::lemma_pow2_pos;

/// The bit length of the canonical Huffman code of each octet.
pub open spec fn huff_len(sym: u8) -> u8 {
    match sym {
        0u8 => 13,
        1u8 => 23,
        2u8 => 28,
        3u8 => 28,
        4u8 => 28,
        5u8 => 28,
        6u8 => 28,
        7u8 => 28,
        8u8 => 28,
        9u8 => 24,
        10u8 => 30,
        11u8 => 28,
        12u8 => 28,
        13u8 => 30,
        14u8 => 28,
        15u8 => 28,
        16u8 => 28,
        17u8 => 28,
        18u8 => 28,
        19u8 => 28,
        20u8 => 28,
        21u8 => 28,
        22u8 => 30,
        23u8 => 28,
        24u8 => 28,
        25u8 => 28,
        26u8 => 28,
        27u8 => 28,
        28u8 => 28,
        29u8 => 28,
        30u8 => 28,
        31u8 => 28,
        32u8 => 6,
        33u8 => 10,
        34u8 => 10,
        35u8 => 12,
        36u8 => 13,
        37u8 => 6,
        38u8 => 8,
        39u8 => 11,
        40u8 => 10,
        41u8 => 10,
        42u8 => 8,
        43u8 => 11,
        44u8 => 8,
        45u8 => 6,
        46u8 => 6,
        47u8 => 6,
        48u8 => 5,
        49u8 => 5,
        50u8 => 5,
        51u8 => 6,
        52u8 => 6,
        53u8 => 6,
        54u8 => 6,
        55u8 => 6,
        56u8 => 6,
        57u8 => 6,
        58u8 => 7,
        59u8 => 8,
        60u8 => 15,
        61u8 => 6,
        62u8 => 12,
        63u8 => 10,
        64u8 => 13,
        65u8 => 6,
        66u8 => 7,
        67u8 => 7,
        68u8 => 7,
        69u8 => 7,
        70u8 => 7,
        71u8 => 7,
        72u8 => 7,
        73u8 => 7,
        74u8 => 7,
        75u8 => 7,
        76u8 => 7,
        77u8 => 7,
        78u8 => 7,
        79u8 => 7,
        80u8 => 7,
        81u8 => 7,
        82u8 => 7,
        83u8 => 7,
        84u8 => 7,
        85u8 => 7,
        86u8 => 7,
        87u8 => 7,
        88u8 => 8,
        89u8 => 7,
        90u8 => 8,
        91u8 => 13,
        92u8 => 19,
        93u8 => 13,
        94u8 => 14,
        95u8 => 6,
        96u8 => 15,
        97u8 => 5,
        98u8 => 6,
        99u8 => 5,
        100u8 => 6,
        101u8 => 5,
        102u8 => 6,
        103u8 => 6,
        104u8 => 6,
        105u8 => 5,
        106u8 => 7,
        107u8 => 7,
        108u8 => 6,
        109u8 => 6,
        110u8 => 6,
        111u8 => 5,
        112u8 => 6,
        113u8 => 7,
        114u8 => 6,
        115u8 => 5,
        116u8 => 5,
        117u8 => 6,
        118u8 => 7,
        119u8 => 7,
        120u8 => 7,
        121u8 => 7,
        122u8 => 7,
        123u8 => 15,
        124u8 => 11,
        125u8 => 14,
        126u8 => 13,
        127u8 => 28,
        128u8 => 20,
        129u8 => 22,
        130u8 => 20,
        131u8 => 20,
        132u8 => 22,
        133u8 => 22,
        134u8 => 22,
        135u8 => 23,
        136u8 => 22,
        137u8 => 23,
        138u8 => 23,
        139u8 => 23,
        140u8 => 23,
        141u8 => 23,
        142u8 => 24,
        143u8 => 23,
        144u8 => 24,
        145u8 => 24,
        146u8 => 22,
        147u8 => 23,
        148u8 => 24,
        149u8 => 23,
        150u8 => 23,
        151u8 => 23,
        152u8 => 23,
        153u8 => 21,
        154u8 => 22,
        155u8 => 23,
        156u8 => 22,
        157u8 => 23,
        158u8 => 23,
        159u8 => 24,
        160u8 => 22,
        161u8 => 21,
        162u8 => 20,
        163u8 => 22,
        164u8 => 22,
        165u8 => 23,
        166u8 => 23,
        167u8 => 21,
        168u8 => 23,
        169u8 => 22,
        170u8 => 22,
        171u8 => 24,
        172u8 => 21,
        173u8 => 22,
        174u8 => 23,
        175u8 => 23,
        176u8 => 21,
        177u8 => 21,
        178u8 => 22,
        179u8 => 21,
        180u8 => 23,
        181u8 => 22,
        182u8 => 23,
        183u8 => 23,
        184u8 => 20,
        185u8 => 22,
        186u8 => 22,
        187u8 => 22,
        188u8 => 23,
        189u8 => 22,
        190u8 => 22,
        191u8 => 23,
        192u8 => 26,
        193u8 => 26,
        194u8 => 20,
        195u8 => 19,
        196u8 => 22,
        197u8 => 23,
        198u8 => 22,
        199u8 => 25,
        200u8 => 26,
        201u8 => 26,
        202u8 => 26,
        203u8 => 27,
        204u8 => 27,
        205u8 => 26,
        206u8 => 24,
        207u8 => 25,
        208u8 => 19,
        209u8 => 21,
        210u8 => 26,
        211u8 => 27,
        212u8 => 27,
        213u8 => 26,
        214u8 => 27,
        215u8 => 24,
        216u8 => 21,
        217u8 => 21,
        218u8 => 26,
        219u8 => 26,
        220u8 => 28,
        221u8 => 27,
        222u8 => 27,
        223u8 => 27,
        224u8 => 20,
        225u8 => 24,
        226u8 => 20,
        227u8 => 21,
        228u8 => 22,
        229u8 => 21,
        230u8 => 21,
        231u8 => 23,
        232u8 => 22,
        233u8 => 22,
        234u8 => 25,
        235u8 => 25,
        236u8 => 24,
        237u8 => 24,
        238u8 => 26,
        239u8 => 23,
        240u8 => 26,
        241u8 => 27,
        242u8 => 26,
        243u8 => 26,
        244u8 => 27,
        245u8 => 27,
        246u8 => 27,
        247u8 => 27,
        248u8 => 27,
        249u8 => 28,
        250u8 => 27,
        251u8 => 27,
        252u8 => 27,
        253u8 => 27,
        254u8 => 27,
        _ => 26,
    }
}

/// The canonical Huffman code of each octet, right-aligned in its
/// `huff_len` bits.
pub open spec fn huff_code(sym: u8) -> u32 {
    match sym {
        0u8 => 0x1ff8,
        1u8 => 0x7fffd8,
        2u8 => 0xfffffe2,
        3u8 => 0xfffffe3,
        4u8 => 0xfffffe4,
        5u8 => 0xfffffe5,
        6u8 => 0xfffffe6,
        7u8 => 0xfffffe7,
        8u8 => 0xfffffe8,
        9u8 => 0xffffea,
        10u8 => 0x3ffffffc,
        11u8 => 0xfffffe9,
        12u8 => 0xfffffea,
        13u8 => 0x3ffffffd,
        14u8 => 0xfffffeb,
        15u8 => 0xfffffec,
        16u8 => 0xfffffed,
        17u8 => 0xfffffee,
        18u8 => 0xfffffef,
        19u8 => 0xffffff0,
        20u8 => 0xffffff1,
        21u8 => 0xffffff2,
        22u8 => 0x3ffffffe,
        23u8 => 0xffffff3,
        24u8 => 0xffffff4,
        25u8 => 0xffffff5,
        26u8 => 0xffffff6,
        27u8 => 0xffffff7,
        28u8 => 0xffffff8,
        29u8 => 0xffffff9,
        30u8 => 0xffffffa,
        31u8 => 0xffffffb,
        32u8 => 0x14,
        33u8 => 0x3f8,
        34u8 => 0x3f9,
        35u8 => 0xffa,
        36u8 => 0x1ff9,
        37u8 => 0x15,
        38u8 => 0xf8,
        39u8 => 0x7fa,
        40u8 => 0x3fa,
        41u8 => 0x3fb,
        42u8 => 0xf9,
        43u8 => 0x7fb,
        44u8 => 0xfa,
        45u8 => 0x16,
        46u8 => 0x17,
        47u8 => 0x18,
        48u8 => 0x0,
        49u8 => 0x1,
        50u8 => 0x2,
        51u8 => 0x19,
        52u8 => 0x1a,
        53u8 => 0x1b,
        54u8 => 0x1c,
        55u8 => 0x1d,
        56u8 => 0x1e,
        57u8 => 0x1f,
        58u8 => 0x5c,
        59u8 => 0xfb,
        60u8 => 0x7ffc,
        61u8 => 0x20,
        62u8 => 0xffb,
        63u8 => 0x3fc,
        64u8 => 0x1ffa,
        65u8 => 0x21,
        66u8 => 0x5d,
        67u8 => 0x5e,
        68u8 => 0x5f,
        69u8 => 0x60,
        70u8 => 0x61,
        71u8 => 0x62,
        72u8 => 0x63,
        73u8 => 0x64,
        74u8 => 0x65,
        75u8 => 0x66,
        76u8 => 0x67,
        77u8 => 0x68,
        78u8 => 0x69,
        79u8 => 0x6a,
        80u8 => 0x6b,
        81u8 => 0x6c,
        82u8 => 0x6d,
        83u8 => 0x6e,
        84u8 => 0x6f,
        85u8 => 0x70,
        86u8 => 0x71,
        87u8 => 0x72,
        88u8 => 0xfc,
        89u8 => 0x73,
        90u8 => 0xfd,
        91u8 => 0x1ffb,
        92u8 => 0x7fff0,
        93u8 => 0x1ffc,
        94u8 => 0x3ffc,
        95u8 => 0x22,
        96u8 => 0x7ffd,
        97u8 => 0x3,
        98u8 => 0x23,
        99u8 => 0x4,
        100u8 => 0x24,
        101u8 => 0x5,
        102u8 => 0x25,
        103u8 => 0x26,
        104u8 => 0x27,
        105u8 => 0x6,
        106u8 => 0x74,
        107u8 => 0x75,
        108u8 => 0x28,
        109u8 => 0x29,
        110u8 => 0x2a,
        111u8 => 0x7,
        112u8 => 0x2b,
        113u8 => 0x76,
        114u8 => 0x2c,
        115u8 => 0x8,
        116u8 => 0x9,
        117u8 => 0x2d,
        118u8 => 0x77,
        119u8 => 0x78,
        120u8 => 0x79,
        121u8 => 0x7a,
        122u8 => 0x7b,
        123u8 => 0x7ffe,
        124u8 => 0x7fc,
        125u8 => 0x3ffd,
        126u8 => 0x1ffd,
        127u8 => 0xffffffc,
        128u8 => 0xfffe6,
        129u8 => 0x3fffd2,
        130u8 => 0xfffe7,
        131u8 => 0xfffe8,
        132u8 => 0x3fffd3,
        133u8 => 0x3fffd4,
        134u8 => 0x3fffd5,
        135u8 => 0x7fffd9,
        136u8 => 0x3fffd6,
        137u8 => 0x7fffda,
        138u8 => 0x7fffdb,
        139u8 => 0x7fffdc,
        140u8 => 0x7fffdd,
        141u8 => 0x7fffde,
        142u8 => 0xffffeb,
        143u8 => 0x7fffdf,
        144u8 => 0xffffec,
        145u8 => 0xffffed,
        146u8 => 0x3fffd7,
        147u8 => 0x7fffe0,
        148u8 => 0xffffee,
        149u8 => 0x7fffe1,
        150u8 => 0x7fffe2,
        151u8 => 0x7fffe3,
        152u8 => 0x7fffe4,
        153u8 => 0x1fffdc,
        154u8 => 0x3fffd8,
        155u8 => 0x7fffe5,
        156u8 => 0x3fffd9,
        157u8 => 0x7fffe6,
        158u8 => 0x7fffe7,
        159u8 => 0xffffef,
        160u8 => 0x3fffda,
        161u8 => 0x1fffdd,
        162u8 => 0xfffe9,
        163u8 => 0x3fffdb,
        164u8 => 0x3fffdc,
        165u8 => 0x7fffe8,
        166u8 => 0x7fffe9,
        167u8 => 0x1fffde,
        168u8 => 0x7fffea,
        169u8 => 0x3fffdd,
        170u8 => 0x3fffde,
        171u8 => 0xfffff0,
        172u8 => 0x1fffdf,
        173u8 => 0x3fffdf,
        174u8 => 0x7fffeb,
        175u8 => 0x7fffec,
        176u8 => 0x1fffe0,
        177u8 => 0x1fffe1,
        178u8 => 0x3fffe0,
        179u8 => 0x1fffe2,
        180u8 => 0x7fffed,
        181u8 => 0x3fffe1,
        182u8 => 0x7fffee,
        183u8 => 0x7fffef,
        184u8 => 0xfffea,
        185u8 => 0x3fffe2,
        186u8 => 0x3fffe3,
        187u8 => 0x3fffe4,
        188u8 => 0x7ffff0,
        189u8 => 0x3fffe5,
        190u8 => 0x3fffe6,
        191u8 => 0x7ffff1,
        192u8 => 0x3ffffe0,
        193u8 => 0x3ffffe1,
        194u8 => 0xfffeb,
        195u8 => 0x7fff1,
        196u8 => 0x3fffe7,
        197u8 => 0x7ffff2,
        198u8 => 0x3fffe8,
        199u8 => 0x1ffffec,
        200u8 => 0x3ffffe2,
        201u8 => 0x3ffffe3,
        202u8 => 0x3ffffe4,
        203u8 => 0x7ffffde,
        204u8 => 0x7ffffdf,
        205u8 => 0x3ffffe5,
        206u8 => 0xfffff1,
        207u8 => 0x1ffffed,
        208u8 => 0x7fff2,
        209u8 => 0x1fffe3,
        210u8 => 0x3ffffe6,
        211u8 => 0x7ffffe0,
        212u8 => 0x7ffffe1,
        213u8 => 0x3ffffe7,
        214u8 => 0x7ffffe2,
        215u8 => 0xfffff2,
        216u8 => 0x1fffe4,
        217u8 => 0x1fffe5,
        218u8 => 0x3ffffe8,
        219u8 => 0x3ffffe9,
        220u8 => 0xffffffd,
        221u8 => 0x7ffffe3,
        222u8 => 0x7ffffe4,
        223u8 => 0x7ffffe5,
        224u8 => 0xfffec,
        225u8 => 0xfffff3,
        226u8 => 0xfffed,
        227u8 => 0x1fffe6,
        228u8 => 0x3fffe9,
        229u8 => 0x1fffe7,
        230u8 => 0x1fffe8,
        231u8 => 0x7ffff3,
        232u8 => 0x3fffea,
        233u8 => 0x3fffeb,
        234u8 => 0x1ffffee,
        235u8 => 0x1ffffef,
        236u8 => 0xfffff4,
        237u8 => 0xfffff5,
        238u8 => 0x3ffffea,
        239u8 => 0x7ffff4,
        240u8 => 0x3ffffeb,
        241u8 => 0x7ffffe6,
        242u8 => 0x3ffffec,
        243u8 => 0x3ffffed,
        244u8 => 0x7ffffe7,
        245u8 => 0x7ffffe8,
        246u8 => 0x7ffffe9,
        247u8 => 0x7ffffea,
        248u8 => 0x7ffffeb,
        249u8 => 0xffffffe,
        250u8 => 0x7ffffec,
        251u8 => 0x7ffffed,
        252u8 => 0x7ffffee,
        253u8 => 0x7ffffef,
        254u8 => 0x7fffff0,
        _ => 0x3ffffee,
    }
}

/// The code length and code of one octet.
pub fn huff_entry(sym: u8) -> (r: (u8, u32))
    ensures
        r.0 == huff_len(sym),
        r.1 == huff_code(sym),
{
    match sym {
        0u8 => (13, 0x1ff8),
        1u8 => (23, 0x7fffd8),
        2u8 => (28, 0xfffffe2),
        3u8 => (28, 0xfffffe3),
        4u8 => (28, 0xfffffe4),
        5u8 => (28, 0xfffffe5),
        6u8 => (28, 0xfffffe6),
        7u8 => (28, 0xfffffe7),
        8u8 => (28, 0xfffffe8),
        9u8 => (24, 0xffffea),
        10u8 => (30, 0x3ffffffc),
        11u8 => (28, 0xfffffe9),
        12u8 => (28, 0xfffffea),
        13u8 => (30, 0x3ffffffd),
        14u8 => (28, 0xfffffeb),
        15u8 => (28, 0xfffffec),
        16u8 => (28, 0xfffffed),
        17u8 => (28, 0xfffffee),
        18u8 => (28, 0xfffffef),
        19u8 => (28, 0xffffff0),
        20u8 => (28, 0xffffff1),
        21u8 => (28, 0xffffff2),
        22u8 => (30, 0x3ffffffe),
        23u8 => (28, 0xffffff3),
        24u8 => (28, 0xffffff4),
        25u8 => (28, 0xffffff5),
        26u8 => (28, 0xffffff6),
        27u8 => (28, 0xffffff7),
        28u8 => (28, 0xffffff8),
        29u8 => (28, 0xffffff9),
        30u8 => (28, 0xffffffa),
        31u8 => (28, 0xffffffb),
        32u8 => (6, 0x14),
        33u8 => (10, 0x3f8),
        34u8 => (10, 0x3f9),
        35u8 => (12, 0xffa),
        36u8 => (13, 0x1ff9),
        37u8 => (6, 0x15),
        38u8 => (8, 0xf8),
        39u8 => (11, 0x7fa),
        40u8 => (10, 0x3fa),
        41u8 => (10, 0x3fb),
        42u8 => (8, 0xf9),
        43u8 => (11, 0x7fb),
        44u8 => (8, 0xfa),
        45u8 => (6, 0x16),
        46u8 => (6, 0x17),
        47u8 => (6, 0x18),
        48u8 => (5, 0x0),
        49u8 => (5, 0x1),
        50u8 => (5, 0x2),
        51u8 => (6, 0x19),
        52u8 => (6, 0x1a),
        53u8 => (6, 0x1b),
        54u8 => (6, 0x1c),
        55u8 => (6, 0x1d),
        56u8 => (6, 0x1e),
        57u8 => (6, 0x1f),
        58u8 => (7, 0x5c),
        59u8 => (8, 0xfb),
        60u8 => (15, 0x7ffc),
        61u8 => (6, 0x20),
        62u8 => (12, 0xffb),
        63u8 => (10, 0x3fc),
        64u8 => (13, 0x1ffa),
        65u8 => (6, 0x21),
        66u8 => (7, 0x5d),
        67u8 => (7, 0x5e),
        68u8 => (7, 0x5f),
        69u8 => (7, 0x60),
        70u8 => (7, 0x61),
        71u8 => (7, 0x62),
        72u8 => (7, 0x63),
        73u8 => (7, 0x64),
        74u8 => (7, 0x65),
        75u8 => (7, 0x66),
        76u8 => (7, 0x67),
        77u8 => (7, 0x68),
        78u8 => (7, 0x69),
        79u8 => (7, 0x6a),
        80u8 => (7, 0x6b),
        81u8 => (7, 0x6c),
        82u8 => (7, 0x6d),
        83u8 => (7, 0x6e),
        84u8 => (7, 0x6f),
        85u8 => (7, 0x70),
        86u8 => (7, 0x71),
        87u8 => (7, 0x72),
        88u8 => (8, 0xfc),
        89u8 => (7, 0x73),
        90u8 => (8, 0xfd),
        91u8 => (13, 0x1ffb),
        92u8 => (19, 0x7fff0),
        93u8 => (13, 0x1ffc),
        94u8 => (14, 0x3ffc),
        95u8 => (6, 0x22),
        96u8 => (15, 0x7ffd),
        97u8 => (5, 0x3),
        98u8 => (6, 0x23),
        99u8 => (5, 0x4),
        100u8 => (6, 0x24),
        101u8 => (5, 0x5),
        102u8 => (6, 0x25),
        103u8 => (6, 0x26),
        104u8 => (6, 0x27),
        105u8 => (5, 0x6),
        106u8 => (7, 0x74),
        107u8 => (7, 0x75),
        108u8 => (6, 0x28),
        109u8 => (6, 0x29),
        110u8 => (6, 0x2a),
        111u8 => (5, 0x7),
        112u8 => (6, 0x2b),
        113u8 => (7, 0x76),
        114u8 => (6, 0x2c),
        115u8 => (5, 0x8),
        116u8 => (5, 0x9),
        117u8 => (6, 0x2d),
        118u8 => (7, 0x77),
        119u8 => (7, 0x78),
        120u8 => (7, 0x79),
        121u8 => (7, 0x7a),
        122u8 => (7, 0x7b),
        123u8 => (15, 0x7ffe),
        124u8 => (11, 0x7fc),
        125u8 => (14, 0x3ffd),
        126u8 => (13, 0x1ffd),
        127u8 => (28, 0xffffffc),
        128u8 => (20, 0xfffe6),
        129u8 => (22, 0x3fffd2),
        130u8 => (20, 0xfffe7),
        131u8 => (20, 0xfffe8),
        132u8 => (22, 0x3fffd3),
        133u8 => (22, 0x3fffd4),
        134u8 => (22, 0x3fffd5),
        135u8 => (23, 0x7fffd9),
        136u8 => (22, 0x3fffd6),
        137u8 => (23, 0x7fffda),
        138u8 => (23, 0x7fffdb),
        139u8 => (23, 0x7fffdc),
        140u8 => (23, 0x7fffdd),
        141u8 => (23, 0x7fffde),
        142u8 => (24, 0xffffeb),
        143u8 => (23, 0x7fffdf),
        144u8 => (24, 0xffffec),
        145u8 => (24, 0xffffed),
        146u8 => (22, 0x3fffd7),
        147u8 => (23, 0x7fffe0),
        148u8 => (24, 0xffffee),
        149u8 => (23, 0x7fffe1),
        150u8 => (23, 0x7fffe2),
        151u8 => (23, 0x7fffe3),
        152u8 => (23, 0x7fffe4),
        153u8 => (21, 0x1fffdc),
        154u8 => (22, 0x3fffd8),
        155u8 => (23, 0x7fffe5),
        156u8 => (22, 0x3fffd9),
        157u8 => (23, 0x7fffe6),
        158u8 => (23, 0x7fffe7),
        159u8 => (24, 0xffffef),
        160u8 => (22, 0x3fffda),
        161u8 => (21, 0x1fffdd),
        162u8 => (20, 0xfffe9),
        163u8 => (22, 0x3fffdb),
        164u8 => (22, 0x3fffdc),
        165u8 => (23, 0x7fffe8),
        166u8 => (23, 0x7fffe9),
        167u8 => (21, 0x1fffde),
        168u8 => (23, 0x7fffea),
        169u8 => (22, 0x3fffdd),
        170u8 => (22, 0x3fffde),
        171u8 => (24, 0xfffff0),
        172u8 => (21, 0x1fffdf),
        173u8 => (22, 0x3fffdf),
        174u8 => (23, 0x7fffeb),
        175u8 => (23, 0x7fffec),
        176u8 => (21, 0x1fffe0),
        177u8 => (21, 0x1fffe1),
        178u8 => (22, 0x3fffe0),
        179u8 => (21, 0x1fffe2),
        180u8 => (23, 0x7fffed),
        181u8 => (22, 0x3fffe1),
        182u8 => (23, 0x7fffee),
        183u8 => (23, 0x7fffef),
        184u8 => (20, 0xfffea),
        185u8 => (22, 0x3fffe2),
        186u8 => (22, 0x3fffe3),
        187u8 => (22, 0x3fffe4),
        188u8 => (23, 0x7ffff0),
        189u8 => (22, 0x3fffe5),
        190u8 => (22, 0x3fffe6),
        191u8 => (23, 0x7ffff1),
        192u8 => (26, 0x3ffffe0),
        193u8 => (26, 0x3ffffe1),
        194u8 => (20, 0xfffeb),
        195u8 => (19, 0x7fff1),
        196u8 => (22, 0x3fffe7),
        197u8 => (23, 0x7ffff2),
        198u8 => (22, 0x3fffe8),
        199u8 => (25, 0x1ffffec),
        200u8 => (26, 0x3ffffe2),
        201u8 => (26, 0x3ffffe3),
        202u8 => (26, 0x3ffffe4),
        203u8 => (27, 0x7ffffde),
        204u8 => (27, 0x7ffffdf),
        205u8 => (26, 0x3ffffe5),
        206u8 => (24, 0xfffff1),
        207u8 => (25, 0x1ffffed),
        208u8 => (19, 0x7fff2),
        209u8 => (21, 0x1fffe3),
        210u8 => (26, 0x3ffffe6),
        211u8 => (27, 0x7ffffe0),
        212u8 => (27, 0x7ffffe1),
        213u8 => (26, 0x3ffffe7),
        214u8 => (27, 0x7ffffe2),
        215u8 => (24, 0xfffff2),
        216u8 => (21, 0x1fffe4),
        217u8 => (21, 0x1fffe5),
        218u8 => (26, 0x3ffffe8),
        219u8 => (26, 0x3ffffe9),
        220u8 => (28, 0xffffffd),
        221u8 => (27, 0x7ffffe3),
        222u8 => (27, 0x7ffffe4),
        223u8 => (27, 0x7ffffe5),
        224u8 => (20, 0xfffec),
        225u8 => (24, 0xfffff3),
        226u8 => (20, 0xfffed),
        227u8 => (21, 0x1fffe6),
        228u8 => (22, 0x3fffe9),
        229u8 => (21, 0x1fffe7),
        230u8 => (21, 0x1fffe8),
        231u8 => (23, 0x7ffff3),
        232u8 => (22, 0x3fffea),
        233u8 => (22, 0x3fffeb),
        234u8 => (25, 0x1ffffee),
        235u8 => (25, 0x1ffffef),
        236u8 => (24, 0xfffff4),
        237u8 => (24, 0xfffff5),
        238u8 => (26, 0x3ffffea),
        239u8 => (23, 0x7ffff4),
        240u8 => (26, 0x3ffffeb),
        241u8 => (27, 0x7ffffe6),
        242u8 => (26, 0x3ffffec),
        243u8 => (26, 0x3ffffed),
        244u8 => (27, 0x7ffffe7),
        245u8 => (27, 0x7ffffe8),
        246u8 => (27, 0x7ffffe9),
        247u8 => (27, 0x7ffffea),
        248u8 => (27, 0x7ffffeb),
        249u8 => (28, 0xffffffe),
        250u8 => (27, 0x7ffffec),
        251u8 => (27, 0x7ffffed),
        252u8 => (27, 0x7ffffee),
        253u8 => (27, 0x7ffffef),
        254u8 => (27, 0x7fffff0),
        _ => (26, 0x3ffffee),
    }
}

/// Every code is between 5 and 30 bits long.
#[verifier::rlimit(50)]
pub proof fn lemma_huff_len_range(sym: u8)
    ensures
        5 <= huff_len(sym) <= 30,
{
}

/// The `n` low bits of `v`, most significant first.
pub open spec fn nbits(v: nat, n: nat) -> Seq<bool> {
    Seq::new(n, |i: int| (v / pow2((n - 1 - i) as nat)) % 2 == 1)
}

/// The value of a bit string read most significant bit first.
pub open spec fn bits_val(bs: Seq<bool>) -> nat
    decreases bs.len(),
{
    if bs.len() == 0 {
        0
    } else {
        2 * bits_val(bs.drop_last()) + (if bs.last() {
            1nat
        } else {
            0nat
        })
    }
}

/// The code bits of one octet.
pub open spec fn code_bits(sym: u8) -> Seq<bool> {
    nbits(huff_code(sym) as nat, huff_len(sym) as nat)
}

/// The concatenated code bits of a byte string.
pub open spec fn huff_bits(s: Seq<u8>) -> Seq<bool>
    decreases s.len(),
{
    if s.len() == 0 {
        Seq::empty()
    } else {
        code_bits(s[0]) + huff_bits(s.skip(1))
    }
}

/// The 8 bits of one octet, most significant first.
pub open spec fn byte_bits(b: u8) -> Seq<bool> {
    nbits(b as nat, 8)
}

/// The concatenated bits of a byte string.
pub open spec fn bytes_bits(s: Seq<u8>) -> Seq<bool>
    decreases s.len(),
{
    if s.len() == 0 {
        Seq::empty()
    } else {
        byte_bits(s[0]) + bytes_bits(s.skip(1))
    }
}

/// `n` one bits.
pub open spec fn ones(n: nat) -> Seq<bool> {
    Seq::new(n, |i: int| true)
}

/// Packs a bit string whose length is a multiple of 8 into bytes.
pub open spec fn pack_bits(bs: Seq<bool>) -> Seq<u8>
    recommends
        bs.len() % 8 == 0,
    decreases bs.len(),
{
    if bs.len() < 8 {
        Seq::empty()
    } else {
        seq![bits_val(bs.take(8)) as u8] + pack_bits(bs.skip(8))
    }
}

/// The count of ones needed to pad a bit string of length `n` to a byte
/// boundary.
pub open spec fn spec_pad_len(n: nat) -> nat {
    ((8 - n % 8) % 8) as nat
}

/// The Huffman encoding of a byte string: all code bits, then the
/// all-ones padding.
pub open spec fn spec_huffman_encode(s: Seq<u8>) -> Seq<u8> {
    pack_bits(huff_bits(s) + ones(spec_pad_len(huff_bits(s).len())))
}

proof fn lemma_bits_val_bound(bs: Seq<bool>)
    ensures
        bits_val(bs) < pow2(bs.len()),
    decreases bs.len(),
{
    if bs.len() == 0 {
        lemma_pow2_pos(0);
    } else {
        lemma_bits_val_bound(bs.drop_last());
        assert(pow2(bs.len()) == 2 * pow2((bs.len() - 1) as nat));
    }
}

proof fn lemma_huff_bits_append(s: Seq<u8>, x: u8)
    ensures
        huff_bits(s.push(x)) == huff_bits(s) + code_bits(x),
    decreases s.len(),
{
    if s.len() == 0 {
        assert(s.push(x)[0] == x);
        assert(s.push(x).skip(1) =~= Seq::<u8>::empty());
        assert(huff_bits(s.push(x).skip(1)) == Seq::<bool>::empty());
        assert(huff_bits(s.push(x)) =~= huff_bits(s) + code_bits(x));
    } else {
        assert(s.push(x)[0] == s[0]);
        assert(s.push(x).skip(1) =~= s.skip(1).push(x));
        lemma_huff_bits_append(s.skip(1), x);
        assert(huff_bits(s.push(x)) =~= huff_bits(s) + code_bits(x));
    }
}

proof fn lemma_bytes_bits_append(s: Seq<u8>, x: u8)
    ensures
        bytes_bits(s.push(x)) == bytes_bits(s) + byte_bits(x),
    decreases s.len(),
{
    if s.len() == 0 {
        assert(s.push(x)[0] == x);
        assert(s.push(x).skip(1) =~= Seq::<u8>::empty());
        assert(bytes_bits(s.push(x).skip(1)) == Seq::<bool>::empty());
        assert(bytes_bits(s.push(x)) =~= bytes_bits(s) + byte_bits(x));
    } else {
        assert(s.push(x)[0] == s[0]);
        assert(s.push(x).skip(1) =~= s.skip(1).push(x));
        lemma_bytes_bits_append(s.skip(1), x);
        assert(bytes_bits(s.push(x)) =~= bytes_bits(s) + byte_bits(x));
    }
}

proof fn lemma_pack_bits_append(a: Seq<bool>, c: Seq<bool>)
    requires
        a.len() % 8 == 0,
        c.len() == 8,
    ensures
        pack_bits(a + c) == pack_bits(a) + seq![bits_val(c) as u8],
    decreases a.len(),
{
    lemma_bits_val_bound(c);
    lemma2_to64();
    if a.len() == 0 {
        assert((a + c).take(8) =~= c);
        assert((a + c).skip(8) =~= Seq::<bool>::empty());
        assert(pack_bits((a + c).skip(8)) == Seq::<u8>::empty());
        assert(pack_bits(a + c) =~= pack_bits(a) + seq![bits_val(c) as u8]);
    } else {
        assert((a + c).take(8) =~= a.take(8));
        assert((a + c).skip(8) =~= a.skip(8) + c);
        lemma_pack_bits_append(a.skip(8), c);
        assert(pack_bits(a + c) =~= pack_bits(a) + seq![bits_val(c) as u8]);
    }
}

/// Appends the code bits of one octet.
fn push_code_bits(sym: u8, bits: &mut Vec<bool>)
    ensures
        final(bits)@ == old(bits)@ + code_bits(sym),
{
    proof {
        lemma_huff_len_range(sym);
        lemma2_to64();
    }
    let (len, code) = huff_entry(sym);
    let len = len as usize;
    let mut p: u64 = 1;
    let mut k: usize = 1;
    while k < len
        invariant
            1 <= k <= len,
            len == huff_len(sym),
            5 <= len <= 30,
            p == pow2((k - 1) as nat),
        decreases len - k,
    {
        proof {
            lemma2_to64();
            if k - 1 < 29 {
                lemma_pow2_strictly_increases((k - 1) as nat, 29);
            }
        }
        p = p * 2;
        k = k + 1;
    }
    let mut i: usize = 0;
    while i < len
        invariant
            i <= len,
            len == huff_len(sym),
            5 <= len <= 30,
            code == huff_code(sym),
            i < len ==> p == pow2((len - 1 - i) as nat),
            bits@ == old(bits)@ + code_bits(sym).take(i as int),
        decreases len - i,
    {
        proof {
            lemma_pow2_pos((len - 1 - i) as nat);
        }
        let bit = ((code as u64) / p) % 2 == 1;
        bits.push(bit);
        proof {
            assert(code_bits(sym)[i as int] == bit);
            assert(bits@ =~= old(bits)@ + code_bits(sym).take(i + 1));
            if i + 1 < len {
                assert(pow2((len - 1 - i) as nat) == 2 * pow2((len - 1 - (i + 1)) as nat));
            }
        }
        p = p / 2;
        i = i + 1;
    }
    proof {
        assert(code_bits(sym).take(len as int) =~= code_bits(sym));
    }
}

/// Appends the Huffman encoding of `src`: packed big-endian code bits,
/// the last byte padded with the EOS prefix (all ones).
pub fn encode(src: &[u8], dst: &mut Vec<u8>)
    ensures
        final(dst)@ == old(dst)@ + spec_huffman_encode(src@),
{
    let mut bits: Vec<bool> = Vec::new();
    let mut i: usize = 0;
    while i < src.len()
        invariant
            i <= src@.len(),
            bits@ == huff_bits(src@.take(i as int)),
        decreases src@.len() - i,
    {
        push_code_bits(src[i], &mut bits);
        proof {
            lemma_huff_bits_append(src@.take(i as int), src@[i as int]);
            assert(src@.take(i + 1) =~= src@.take(i as int).push(src@[i as int]));
        }
        i = i + 1;
    }
    proof {
        assert(src@.take(src@.len() as int) =~= src@);
    }
    let ghost hb = huff_bits(src@);
    let pad = (8 - bits.len() % 8) % 8;
    proof {
        assert(pad == spec_pad_len(hb.len()));
        assert(bits@ =~= hb + ones(0));
    }
    let mut t: usize = 0;
    while t < pad
        invariant
            t <= pad,
            pad == spec_pad_len(hb.len()),
            bits@ == hb + ones(t as nat),
        decreases pad - t,
    {
        bits.push(true);
        t = t + 1;
        proof {
            assert(bits@ =~= hb + ones(t as nat));
        }
    }
    proof {
        assert((hb.len() + spec_pad_len(hb.len())) % 8 == 0);
        assert(bits@.len() % 8 == 0);
    }
    let total = bits.len();
    let n = total / 8;
    let mut k: usize = 0;
    while k < n
        invariant
            k <= n,
            total == bits@.len(),
            total % 8 == 0,
            n == total / 8,
            dst@ == old(dst)@ + pack_bits(bits@.take(8 * k as int)),
        decreases n - k,
    {
        proof {
            lemma2_to64();
        }
        let mut acc: u8 = 0;
        let mut j: usize = 0;
        while j < 8
            invariant
                j <= 8,
                k < n,
                n == total / 8,
                total == bits@.len(),
                acc == bits_val(bits@.subrange(8 * k as int, 8 * k + j)),
                acc < pow2(j as nat),
            decreases 8 - j,
        {
            proof {
                lemma2_to64();
                if (j as nat) < 7 {
                    lemma_pow2_strictly_increases(j as nat, 7);
                }
            }
            let b = bits[8 * k + j];
            acc = acc * 2 + (if b {
                1
            } else {
                0
            });
            j = j + 1;
            proof {
                assert(bits@.subrange(8 * k as int, 8 * k + j).drop_last() =~= bits@.subrange(
                    8 * k as int,
                    8 * k + j - 1,
                ));
            }
        }
        dst.push(acc);
        proof {
            lemma_pack_bits_append(bits@.take(8 * k as int), bits@.subrange(8 * k as int, 8 * k + 8));
            assert(bits@.take(8 * (k + 1) as int) =~= bits@.take(8 * k as int) + bits@.subrange(
                8 * k as int,
                8 * k + 8,
            ));
        }
        k = k + 1;
    }
    proof {
        assert(bits@.take(8 * n as int) =~= bits@);
    }
}

/// Whether the code of `sym` sits at the head of `bits`.
pub open spec fn matches_at(bits: Seq<bool>, sym: u8) -> bool {
    &&& 1 <= huff_len(sym)
    &&& huff_len(sym) <= bits.len()
    &&& bits.take(huff_len(sym) as int) == code_bits(sym)
}

/// The smallest octet at or above `sym` whose code sits at the head of
/// `bits`.
pub open spec fn first_match_from(bits: Seq<bool>, sym: int) -> Option<u8>
    decreases 256 - sym,
{
    if sym < 0 || sym >= 256 {
        None
    } else if matches_at(bits, sym as u8) {
        Some(sym as u8)
    } else {
        first_match_from(bits, sym + 1)
    }
}

/// The greedy decode of a bit string: repeatedly take the first octet
/// whose code sits at the head; at the end accept a remainder shorter
/// than 8 bits that is all ones (a prefix of the EOS code) and reject
/// anything else.
pub open spec fn spec_decode_bits(bits: Seq<bool>) -> Option<Seq<u8>>
    decreases bits.len(),
    via spec_decode_bits_decreases
{
    if bits.len() == 0 {
        Some(Seq::empty())
    } else {
        match first_match_from(bits, 0) {
            Some(sym) => match spec_decode_bits(bits.skip(huff_len(sym) as int)) {
                Some(rest) => Some(seq![sym] + rest),
                None => None,
            },
            None => if bits.len() < 8 && bits == ones(bits.len()) {
                Some(Seq::empty())
            } else {
                None
            },
        }
    }
}

#[via_fn]
proof fn spec_decode_bits_decreases(bits: Seq<bool>) {
    if bits.len() != 0 {
        lemma_first_match_some(bits, 0);
    }
}

/// The Huffman decode of a byte string.
pub open spec fn spec_huffman_decode(s: Seq<u8>) -> Option<Seq<u8>> {
    spec_decode_bits(bytes_bits(s))
}

proof fn lemma_first_match_some(bits: Seq<bool>, s: int)
    requires
        0 <= s <= 256,
    ensures
        match first_match_from(bits, s) {
            Some(sym) => matches_at(bits, sym) && s <= sym < 256,
            None => forall|t: int| s <= t < 256 ==> !#[trigger] matches_at(bits, t as u8),
        },
    decreases 256 - s,
{
    if s < 256 && !matches_at(bits, s as u8) {
        lemma_first_match_some(bits, s + 1);
    }
}

/// Unpacks a byte string into its bits, most significant first.
fn unpack_bits(src: &[u8]) -> (r: Vec<bool>)
    ensures
        r@ == bytes_bits(src@),
{
    let mut bits: Vec<bool> = Vec::new();
    let mut i: usize = 0;
    while i < src.len()
        invariant
            i <= src@.len(),
            bits@ == bytes_bits(src@.take(i as int)),
        decreases src@.len() - i,
    {
        let b = src[i];
        let mut p: u8 = 128;
        let mut j: usize = 0;
        proof {
            lemma2_to64();
        }
        while j < 8
            invariant
                j <= 8,
                i < src@.len(),
                b == src@[i as int],
                j < 8 ==> p == pow2((7 - j) as nat),
                bits@ == bytes_bits(src@.take(i as int)) + byte_bits(b).take(j as int),
            decreases 8 - j,
        {
            proof {
                lemma_pow2_pos((7 - j) as nat);
            }
            bits.push((b / p) % 2 == 1);
            proof {
                assert(byte_bits(b)[j as int] == ((b / p) % 2 == 1));
                assert(bits@ =~= bytes_bits(src@.take(i as int)) + byte_bits(b).take(j + 1));
                if j + 1 < 8 {
                    assert(pow2((7 - j) as nat) == 2 * pow2((7 - (j + 1)) as nat));
                }
            }
            p = p / 2;
            j = j + 1;
        }
        proof {
            assert(byte_bits(b).take(8) =~= byte_bits(b));
            lemma_bytes_bits_append(src@.take(i as int), src@[i as int]);
            assert(src@.take(i + 1) =~= src@.take(i as int).push(src@[i as int]));
        }
        i = i + 1;
    }
    proof {
        assert(src@.take(src@.len() as int) =~= src@);
    }
    bits
}

/// Whether the code of `sym` sits in `bits` at `pos`.
fn match_at_exec(bits: &Vec<bool>, pos: usize, sym: u8) -> (r: bool)
    requires
        pos <= bits@.len(),
    ensures
        r == matches_at(bits@.skip(pos as int), sym),
{
    proof {
        lemma_huff_len_range(sym);
        lemma2_to64();
    }
    let (len8, code) = huff_entry(sym);
    let len = len8 as usize;
    if len > bits.len() - pos {
        return false;
    }
    let mut p: u64 = 1;
    let mut k: usize = 1;
    while k < len
        invariant
            1 <= k <= len,
            len == huff_len(sym),
            5 <= len <= 30,
            p == pow2((k - 1) as nat),
        decreases len - k,
    {
        proof {
            lemma2_to64();
            if k - 1 < 29 {
                lemma_pow2_strictly_increases((k - 1) as nat, 29);
            }
        }
        p = p * 2;
        k = k + 1;
    }
    let mut j: usize = 0;
    while j < len
        invariant
            j <= len,
            len == huff_len(sym),
            5 <= len <= 30,
            code == huff_code(sym),
            pos + len <= bits@.len(),
            bits@.len() <= usize::MAX,
            j < len ==> p == pow2((len - 1 - j) as nat),
            forall|t: int| 0 <= t < j ==> bits@.skip(pos as int)[t] == code_bits(sym)[t],
        decreases len - j,
    {
        proof {
            lemma_pow2_pos((len - 1 - j) as nat);
        }
        let cb = ((code as u64) / p) % 2 == 1;
        let b = bits[pos + j];
        if b != cb {
            proof {
                assert(code_bits(sym)[j as int] == cb);
                assert(bits@.skip(pos as int)[j as int] == b);
                let lhs = bits@.skip(pos as int).take(len as int);
                assert(lhs[j as int] != code_bits(sym)[j as int]);
            }
            return false;
        }
        proof {
            assert(code_bits(sym)[j as int] == cb);
            if j + 1 < len {
                assert(pow2((len - 1 - j) as nat) == 2 * pow2((len - 1 - (j + 1)) as nat));
            }
        }
        p = p / 2;
        j = j + 1;
    }
    proof {
        assert(bits@.skip(pos as int).take(len as int) =~= code_bits(sym));
    }
    true
}

/// The first octet whose code sits in `bits` at `pos`, scanning octets
/// upward.
fn first_match_exec(bits: &Vec<bool>, pos: usize) -> (r: Option<u8>)
    requires
        pos <= bits@.len(),
    ensures
        r == first_match_from(bits@.skip(pos as int), 0),
{
    let mut sym: usize = 0;
    while sym < 256
        invariant
            sym <= 256,
            pos <= bits@.len(),
            first_match_from(bits@.skip(pos as int), 0) == first_match_from(
                bits@.skip(pos as int),
                sym as int,
            ),
        decreases 256 - sym,
    {
        if match_at_exec(bits, pos, sym as u8) {
            return Some(sym as u8);
        }
        sym = sym + 1;
    }
    None
}

/// Whether everything from `pos` on is one bits.
fn rest_all_ones(bits: &Vec<bool>, pos: usize) -> (r: bool)
    requires
        pos <= bits@.len(),
    ensures
        r == (bits@.skip(pos as int) == ones((bits@.len() - pos) as nat)),
{
    let mut j: usize = pos;
    while j < bits.len()
        invariant
            pos <= j <= bits@.len(),
            forall|t: int| pos <= t < j ==> bits@[t],
        decreases bits@.len() - j,
    {
        if !bits[j] {
            proof {
                let w = ones((bits@.len() - pos) as nat);
                assert(bits@.skip(pos as int)[j - pos] != w[j - pos]);
            }
            return false;
        }
        j = j + 1;
    }
    proof {
        assert(bits@.skip(pos as int) =~= ones((bits@.len() - pos) as nat));
    }
    true
}

/// Greedy decode from `pos`, appending decoded octets to `out`.
fn decode_bits_exec(bits: &Vec<bool>, pos: usize, out: &mut Vec<u8>) -> (r: bool)
    requires
        pos <= bits@.len(),
    ensures
        match spec_decode_bits(bits@.skip(pos as int)) {
            Some(v) => r && final(out)@ == old(out)@ + v,
            None => !r,
        },
    decreases bits@.len() - pos,
{
    if pos == bits.len() {
        proof {
            assert(bits@.skip(pos as int) =~= Seq::<bool>::empty());
            assert(out@ =~= out@ + Seq::<u8>::empty());
        }
        return true;
    }
    match first_match_exec(bits, pos) {
        Some(sym) => {
            proof {
                lemma_first_match_some(bits@.skip(pos as int), 0);
                lemma_huff_len_range(sym);
            }
            let (len8, _) = huff_entry(sym);
            out.push(sym);
            proof {
                assert(bits@.skip(pos as int).skip(huff_len(sym) as int) =~= bits@.skip(
                    pos + len8 as int,
                ));
            }
            let ok = decode_bits_exec(bits, pos + len8 as usize, out);
            proof {
                if ok {
                    let rest = spec_decode_bits(bits@.skip(pos + len8 as int)).unwrap();
                    assert(out@ =~= old(out)@ + (seq![sym] + rest));
                }
            }
            ok
        },
        None => {
            let rem = bits.len() - pos;
            if rem < 8 && rest_all_ones(bits, pos) {
                proof {
                    assert(out@ =~= out@ + Seq::<u8>::empty());
                }
                true
            } else {
                false
            }
        },
    }
}

/// Decodes a Huffman-coded string, appending the decoded octets to
/// `buf`. Rejects input whose final bits are not a (possibly empty)
/// proper prefix of the EOS code; on rejection `buf` is unchanged.
pub fn decode(src: &[u8], buf: &mut Vec<u8>) -> (r: Result<(), Error>)
    ensures
        match r {
            Ok(()) => spec_huffman_decode(src@) matches Some(v) && final(buf)@ == old(buf)@ + v,
            Err(e) => spec_huffman_decode(src@) is None && e is InvalidHuffman && final(buf)@
                == old(buf)@,
        },
{
    let bits = unpack_bits(src);
    let mut out: Vec<u8> = Vec::new();
    let ok = decode_bits_exec(&bits, 0, &mut out);
    proof {
        assert(bits@.skip(0) =~= bits@);
    }
    if ok {
        buf.append(&mut out);
        Ok(())
    } else {
        Err(Error::InvalidHuffman)
    }
}

proof fn lemma_bytes_bits_len(s: Seq<u8>)
    ensures
        bytes_bits(s).len() == 8 * s.len(),
    decreases s.len(),
{
    if s.len() > 0 {
        lemma_bytes_bits_len(s.skip(1));
    }
}

#[verifier::rlimit(60)]
proof fn lemma_nbits_drop_last(v: nat, n: nat)
    requires
        n >= 1,
    ensures
        nbits(v, n).drop_last() == nbits(v / 2, (n - 1) as nat),
{
    assert forall|i: int| 0 <= i < n - 1 implies nbits(v, n)[i] == nbits(v / 2, (n - 1) as nat)[i] by {
        let k = (n - 2 - i) as nat;
        assert(pow2((k + 1) as nat) == 2 * pow2(k));
        lemma_div_denominator(v as int, 2, pow2(k) as int);
        assert(v / pow2((n - 1 - i) as nat) == (v / 2) / pow2(k));
    }
    assert(nbits(v, n).drop_last() =~= nbits(v / 2, (n - 1) as nat));
}

proof fn lemma_nbits_val(v: nat, n: nat)
    ensures
        bits_val(nbits(v, n)) == v % pow2(n),
    decreases n,
{
    if n == 0 {
        assert(nbits(v, 0).len() == 0);
        assert(pow2(0) == 1) by {
            lemma2_to64();
        }
    } else {
        lemma_nbits_drop_last(v, n);
        lemma_nbits_val(v / 2, (n - 1) as nat);
        let p = pow2((n - 1) as nat) as int;
        let q = ((v / 2) as int) / p;
        let r1 = ((v / 2) as int) % p;
        let b0 = (v % 2) as int;
        assert(pow2(0) == 1) by {
            lemma2_to64();
        }
        assert(nbits(v, n).last() == nbits(v, n)[n - 1]);
        assert(nbits(v, n)[n - 1] == ((v / pow2(((n - 1) - (n - 1)) as nat)) % 2 == 1));
        assert(v / pow2(0) == v);
        assert(nbits(v, n).last() == (v % 2 == 1));
        lemma_fundamental_div_mod(v as int, 2);
        lemma_fundamental_div_mod((v / 2) as int, p);
        assert(v as int == 2 * p * q + (2 * r1 + b0)) by (nonlinear_arith)
            requires
                v as int == 2 * ((v / 2) as int) + b0,
                (v / 2) as int == p * q + r1,
        ;
        assert(pow2(n) == 2 * pow2((n - 1) as nat));
        lemma_fundamental_div_mod_converse(v as int, 2 * p, q, 2 * r1 + b0);
        assert(bits_val(nbits(v, n)) == 2 * bits_val(nbits(v / 2, (n - 1) as nat)) + (if v % 2
            == 1 {
            1nat
        } else {
            0nat
        }));
    }
}

proof fn lemma_pack_unpack(y: Seq<u8>)
    ensures
        pack_bits(bytes_bits(y)) == y,
    decreases y.len(),
{
    lemma_bytes_bits_len(y);
    if y.len() == 0 {
        assert(pack_bits(bytes_bits(y)) =~= y);
    } else {
        let bb = bytes_bits(y);
        lemma_bytes_bits_len(y.skip(1));
        assert(bb.take(8) =~= byte_bits(y[0]));
        assert(bb.skip(8) =~= bytes_bits(y.skip(1)));
        lemma_nbits_val(y[0] as nat, 8);
        assert(pow2(8) == 256) by {
            lemma2_to64();
        }
        assert(bits_val(byte_bits(y[0])) == y[0] as nat);
        lemma_pack_unpack(y.skip(1));
        assert(pack_bits(bytes_bits(y)) =~= y);
    }
}

proof fn lemma_decode_bits_sound(bits: Seq<bool>)
    ensures
        spec_decode_bits(bits) matches Some(v) ==> {
            &&& huff_bits(v).len() <= bits.len()
            &&& bits.len() - huff_bits(v).len() < 8
            &&& bits == huff_bits(v) + ones((bits.len() - huff_bits(v).len()) as nat)
        },
    decreases bits.len(),
{
    if bits.len() == 0 {
        assert(bits =~= huff_bits(Seq::<u8>::empty()) + ones(0));
    } else {
        lemma_first_match_some(bits, 0);
        match first_match_from(bits, 0) {
            Some(sym) => {
                let len = huff_len(sym) as int;
                lemma_decode_bits_sound(bits.skip(len));
                match spec_decode_bits(bits.skip(len)) {
                    Some(rest) => {
                        let v = seq![sym] + rest;
                        assert(v[0] == sym);
                        assert(v.skip(1) =~= rest);
                        assert(huff_bits(v) == code_bits(sym) + huff_bits(rest));
                        let k = (bits.skip(len).len() - huff_bits(rest).len()) as nat;
                        assert(bits.skip(len) == huff_bits(rest) + ones(k));
                        assert(bits =~= bits.take(len) + bits.skip(len));
                        assert(bits =~= huff_bits(v) + ones(
                            (bits.len() - huff_bits(v).len()) as nat,
                        ));
                    },
                    None => {},
                }
            },
            None => {
                if bits.len() < 8 && bits == ones(bits.len()) {
                    assert(bits =~= huff_bits(Seq::<u8>::empty()) + ones(bits.len()));
                }
            },
        }
    }
}

/// Re-encoding a decoded string gives the input back: for every byte
/// string `y` that the Huffman decoder accepts with output `v`, encoding
/// `v` produces exactly `y`. Together with the decoder's rejection of
/// any trailing bits that are not a prefix of the EOS code, this is the
/// codec's round-trip law.
pub proof fn lemma_huffman_encode_of_decode(y: Seq<u8>, v: Seq<u8>)
    requires
        spec_huffman_decode(y) == Some(v),
    ensures
        spec_huffman_encode(v) == y,
{
    let bits = bytes_bits(y);
    lemma_decode_bits_sound(bits);
    lemma_bytes_bits_len(y);
    let hl = huff_bits(v).len();
    let k = (bits.len() - hl) as nat;
    assert(spec_pad_len(hl) == k) by {
        assert((hl + k) % 8 == 0);
    }
    assert(huff_bits(v) + ones(spec_pad_len(hl)) == bits);
    lemma_pack_unpack(y);
}


} // verus!
