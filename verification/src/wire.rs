//! The mathematical model of the XDR wire format: big-endian integers,
//! 4-byte alignment padding, and the outcome of decoding each byte-level
//! construct from the front of a buffer.

use vstd::prelude::*;
use vstd::utf8::{decode_utf8, encode_utf8, valid_utf8};

use crate::error::Error;

verus! {

/// The value of the first four bytes of `b`, read big-endian.
pub open spec fn be32(b: Seq<u8>) -> nat
    recommends
        b.len() >= 4,
{
    (b[0] as nat) * 0x100_0000 + (b[1] as nat) * 0x1_0000 + (b[2] as nat) * 0x100 + (b[3] as nat)
}

/// The value of the first eight bytes of `b`, read big-endian.
pub open spec fn be64(b: Seq<u8>) -> nat
    recommends
        b.len() >= 8,
{
    (b[0] as nat) * 0x100_0000_0000_0000 + (b[1] as nat) * 0x1_0000_0000_0000 + (b[2] as nat)
        * 0x100_0000_0000 + (b[3] as nat) * 0x1_0000_0000 + (b[4] as nat) * 0x100_0000 + (
    b[5] as nat) * 0x1_0000 + (b[6] as nat) * 0x100 + (b[7] as nat)
}

/// A 32-bit wire integer reinterpreted as a two's-complement signed value.
pub open spec fn as_i32(n: int) -> int {
    if n < 0x8000_0000 {
        n
    } else {
        n - 0x1_0000_0000
    }
}

/// A 64-bit wire integer reinterpreted as a two's-complement signed value.
pub open spec fn as_i64(n: int) -> int {
    if n < 0x8000_0000_0000_0000 {
        n
    } else {
        n - 0x1_0000_0000_0000_0000
    }
}

/// How many zero bytes follow a payload of `n` bytes to reach the next
/// 4-byte boundary: zero when `n` is already a multiple of 4.
pub open spec fn pad_of(n: int) -> int {
    (4 - n % 4) % 4
}

/// A payload of `n` bytes together with its padding.
pub open spec fn padded_len(n: int) -> int {
    n + pad_of(n)
}

/// The big-endian wire form of an unsigned 32-bit integer.
pub open spec fn enc_u32(v: u32) -> Seq<u8> {
    seq![
        ((v as nat) / 0x100_0000) as u8,
        (((v as nat) / 0x1_0000) % 0x100) as u8,
        (((v as nat) / 0x100) % 0x100) as u8,
        ((v as nat) % 0x100) as u8,
    ]
}

/// The big-endian wire form of an unsigned 64-bit integer.
pub open spec fn enc_u64(v: u64) -> Seq<u8> {
    seq![
        ((v as nat) / 0x100_0000_0000_0000) as u8,
        (((v as nat) / 0x1_0000_0000_0000) % 0x100) as u8,
        (((v as nat) / 0x100_0000_0000) % 0x100) as u8,
        (((v as nat) / 0x1_0000_0000) % 0x100) as u8,
        (((v as nat) / 0x100_0000) % 0x100) as u8,
        (((v as nat) / 0x1_0000) % 0x100) as u8,
        (((v as nat) / 0x100) % 0x100) as u8,
        ((v as nat) % 0x100) as u8,
    ]
}

/// The wire form of a signed 32-bit integer: its two's-complement bits.
pub open spec fn enc_i32(v: i32) -> Seq<u8> {
    enc_u32(v as u32)
}

/// The wire form of a signed 64-bit integer: its two's-complement bits.
pub open spec fn enc_i64(v: i64) -> Seq<u8> {
    enc_u64(v as u64)
}

/// The wire form of a boolean: a 4-byte integer restricted to 0 and 1.
pub open spec fn enc_bool(v: bool) -> Seq<u8> {
    enc_u32(
        if v {
            1
        } else {
            0
        },
    )
}

/// `n` zero bytes: the padding that follows a variable-length payload.
pub open spec fn zeros(n: int) -> Seq<u8> {
    Seq::new(n as nat, |i: int| 0u8)
}

/// The wire form of a variable-length opaque payload: a 4-byte length
/// prefix, the payload, and zero padding to the next 4-byte boundary.
pub open spec fn enc_opaque(data: Seq<u8>) -> Seq<u8>
    recommends
        data.len() < 0x1_0000_0000,
{
    enc_u32(data.len() as u32) + data + zeros(pad_of(data.len() as int))
}

/// The wire form of a string: its UTF-8 bytes as a variable-length opaque
/// payload.
pub open spec fn enc_text(chars: Seq<char>) -> Seq<u8>
    recommends
        encode_utf8(chars).len() < 0x1_0000_0000,
{
    enc_opaque(encode_utf8(chars))
}

/// The wire form of a sequence of unsigned 32-bit integers, back-to-back.
pub open spec fn enc_u32_seq(vals: Seq<u32>) -> Seq<u8>
    decreases vals.len(),
{
    if vals.len() == 0 {
        Seq::empty()
    } else {
        enc_u32(vals[0]) + enc_u32_seq(vals.skip(1))
    }
}

/// The outcome of reading `size` raw bytes plus padding from the front of
/// `buffer`: the padded length on success, a size error when the buffer is
/// shorter than the padded length.
pub open spec fn fixed_opaque_read(size: nat, buffer: Seq<u8>) -> Result<int, Error> {
    if buffer.len() < padded_len(size as int) {
        Err(Error::BadArraySize)
    } else {
        Ok(padded_len(size as int))
    }
}

/// The outcome of reading a length-prefixed opaque payload bounded by `max`
/// from the front of `buffer`.
pub open spec fn var_opaque_read(max: nat, buffer: Seq<u8>) -> Result<int, Error> {
    if buffer.len() < 4 {
        Err(Error::UnsignedIntegerBadFormat)
    } else if be32(buffer) > max {
        Err(Error::BadArraySize)
    } else if buffer.len() < 4 + padded_len(be32(buffer) as int) {
        Err(Error::BadArraySize)
    } else {
        Ok(4 + padded_len(be32(buffer) as int))
    }
}

/// The payload bytes of a length-prefixed construct at the front of `buffer`:
/// the bytes after the 4-byte prefix, before the padding.
pub open spec fn string_payload(buffer: Seq<u8>) -> Seq<u8>
    recommends
        buffer.len() >= 4 + be32(buffer),
{
    buffer.subrange(4, 4 + be32(buffer) as int)
}

/// The outcome of decoding a length-prefixed UTF-8 string from the front of
/// `buffer`: a truncated payload and invalid UTF-8 are both string-format
/// errors.
pub open spec fn string_read(buffer: Seq<u8>) -> Result<int, Error> {
    if buffer.len() < 4 {
        Err(Error::UnsignedIntegerBadFormat)
    } else if buffer.len() < 4 + padded_len(be32(buffer) as int) {
        Err(Error::StringBadFormat)
    } else if !valid_utf8(string_payload(buffer)) {
        Err(Error::StringBadFormat)
    } else {
        Ok(4 + padded_len(be32(buffer) as int))
    }
}

/// What a decoded string holds: the UTF-8 decoding of the payload bytes.
pub open spec fn string_decoded(buffer: Seq<u8>, chars: Seq<char>) -> bool {
    &&& buffer.len() >= 4 + padded_len(be32(buffer) as int)
    &&& valid_utf8(string_payload(buffer))
    &&& chars == decode_utf8(string_payload(buffer))
}

/// The outcome of decoding a bounded string: the length prefix is checked
/// against `max` first, then the string is decoded as usual.
pub open spec fn var_string_read(max: nat, buffer: Seq<u8>) -> Result<int, Error> {
    if buffer.len() < 4 {
        Err(Error::UnsignedIntegerBadFormat)
    } else if be32(buffer) > max {
        Err(Error::VarArrayWrongSize)
    } else {
        string_read(buffer)
    }
}

/// A 32-bit wire integer is smaller than 2^32.
pub proof fn lemma_be32_bounds(b: Seq<u8>)
    ensures
        be32(b) < 0x1_0000_0000,
{
}

} // verus!
