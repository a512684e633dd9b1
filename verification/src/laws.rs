//! The laws of the codec, proved against the wire model: every valid scalar
//! encoding decodes back to the value it encodes with the type's fixed
//! width, short buffers fail with the type's designated error, and the
//! padding and bound rules of variable-length constructs hold exactly.

use vstd::prelude::*;
use vstd::arithmetic::div_mod::{
    lemma_fundamental_div_mod, lemma_mod_add_multiples_vanish, lemma_mod_bound,
    lemma_mod_multiples_basic, lemma_small_mod,
};
use vstd::utf8::{encode_utf8, encode_utf8_decode_utf8, encode_utf8_valid_utf8, valid_utf8};

use crate::de::{seq_decoded, seq_read, var_array_decoded, var_array_read, XDRIn};
use crate::error::Error;
use crate::wire::{
    as_i32, as_i64, be32, be64, enc_bool, enc_i32, enc_i64, enc_opaque, enc_text, enc_u32,
    enc_u32_seq, enc_u64,
    pad_of, padded_len, string_decoded, string_payload, string_read, var_opaque_read,
    var_string_read, zeros,
};

verus! {

/// Decoding the unit type succeeds on every buffer and consumes no bytes.
pub proof fn lemma_unit_decode(buffer: Seq<u8>)
    ensures
        <() as XDRIn>::spec_outcome(buffer) == Ok::<int, Error>(0),
        forall|w: ()| <() as XDRIn>::spec_decoded(buffer, w),
{
}

/// Round trip for unsigned 32-bit integers: the wire form of `v` followed by
/// anything decodes to exactly `v`, consuming the type's 4-byte width.
pub proof fn lemma_u32_round_trip(v: u32, tail: Seq<u8>)
    ensures
        enc_u32(v).len() == 4,
        be32(enc_u32(v) + tail) == v as nat,
        u32::spec_outcome(enc_u32(v) + tail) == Ok::<int, Error>(4),
        forall|w: u32| u32::spec_decoded(enc_u32(v) + tail, w) <==> w == v,
{
    let b = enc_u32(v) + tail;
    assert(b[0] == ((v as nat) / 0x100_0000) as u8);
    assert(b[1] == (((v as nat) / 0x1_0000) % 0x100) as u8);
    assert(b[2] == (((v as nat) / 0x100) % 0x100) as u8);
    assert(b[3] == ((v as nat) % 0x100) as u8);
    assert(((v / 0x100_0000) as u8) * 0x100_0000 + (((v / 0x1_0000) % 0x100) as u8) * 0x1_0000 + ((
    (v / 0x100) % 0x100) as u8) * 0x100 + ((v % 0x100) as u8) == v) by (bit_vector);
}

/// Round trip for unsigned 64-bit integers, with the type's 8-byte width.
pub proof fn lemma_u64_round_trip(v: u64, tail: Seq<u8>)
    ensures
        enc_u64(v).len() == 8,
        be64(enc_u64(v) + tail) == v as nat,
        u64::spec_outcome(enc_u64(v) + tail) == Ok::<int, Error>(8),
        forall|w: u64| u64::spec_decoded(enc_u64(v) + tail, w) <==> w == v,
{
    let b = enc_u64(v) + tail;
    assert(b[0] == ((v as nat) / 0x100_0000_0000_0000) as u8);
    assert(b[1] == (((v as nat) / 0x1_0000_0000_0000) % 0x100) as u8);
    assert(b[2] == (((v as nat) / 0x100_0000_0000) % 0x100) as u8);
    assert(b[3] == (((v as nat) / 0x1_0000_0000) % 0x100) as u8);
    assert(b[4] == (((v as nat) / 0x100_0000) % 0x100) as u8);
    assert(b[5] == (((v as nat) / 0x1_0000) % 0x100) as u8);
    assert(b[6] == (((v as nat) / 0x100) % 0x100) as u8);
    assert(b[7] == ((v as nat) % 0x100) as u8);
    assert(((v / 0x100_0000_0000_0000) as u8) * 0x100_0000_0000_0000 + (((v / 0x1_0000_0000_0000)
        % 0x100) as u8) * 0x1_0000_0000_0000 + (((v / 0x100_0000_0000) % 0x100) as u8)
        * 0x100_0000_0000 + (((v / 0x1_0000_0000) % 0x100) as u8) * 0x1_0000_0000 + (((v
        / 0x100_0000) % 0x100) as u8) * 0x100_0000 + (((v / 0x1_0000) % 0x100) as u8) * 0x1_0000 + (
    ((v / 0x100) % 0x100) as u8) * 0x100 + ((v % 0x100) as u8) == v) by (bit_vector);
}

/// Round trip for signed 32-bit integers: the two's-complement wire form of
/// `v` decodes back to exactly `v`.
pub proof fn lemma_i32_round_trip(v: i32, tail: Seq<u8>)
    ensures
        enc_i32(v).len() == 4,
        i32::spec_outcome(enc_i32(v) + tail) == Ok::<int, Error>(4),
        forall|w: i32| i32::spec_decoded(enc_i32(v) + tail, w) <==> w == v,
{
    let u = v as u32;
    lemma_u32_round_trip(u, tail);
    assert((v as u32) as int == if v >= 0 {
        v as int
    } else {
        v as int + 0x1_0000_0000
    }) by (bit_vector);
    assert(as_i32(u as int) == v as int);
}

/// Round trip for signed 64-bit integers.
pub proof fn lemma_i64_round_trip(v: i64, tail: Seq<u8>)
    ensures
        enc_i64(v).len() == 8,
        i64::spec_outcome(enc_i64(v) + tail) == Ok::<int, Error>(8),
        forall|w: i64| i64::spec_decoded(enc_i64(v) + tail, w) <==> w == v,
{
    let u = v as u64;
    lemma_u64_round_trip(u, tail);
    assert((v as u64) as int == if v >= 0 {
        v as int
    } else {
        v as int + 0x1_0000_0000_0000_0000
    }) by (bit_vector);
    assert(as_i64(u as int) == v as int);
}

/// Round trip for booleans: the 4-byte wire form of `v` decodes back to
/// exactly `v`.
pub proof fn lemma_bool_round_trip(v: bool, tail: Seq<u8>)
    ensures
        enc_bool(v).len() == 4,
        bool::spec_outcome(enc_bool(v) + tail) == Ok::<int, Error>(4),
        forall|w: bool| bool::spec_decoded(enc_bool(v) + tail, w) <==> w == v,
{
    if v {
        lemma_u32_round_trip(1, tail);
    } else {
        lemma_u32_round_trip(0, tail);
    }
}

/// Short buffers fail with each scalar type's designated format error: any
/// buffer shorter than the type's fixed width decodes to exactly that error.
pub proof fn lemma_short_buffer_errors(buffer: Seq<u8>)
    ensures
        buffer.len() < 4 ==> u32::spec_outcome(buffer) == Err::<int, Error>(
            Error::UnsignedIntegerBadFormat,
        ),
        buffer.len() < 4 ==> i32::spec_outcome(buffer) == Err::<int, Error>(
            Error::IntegerBadFormat,
        ),
        buffer.len() < 4 ==> bool::spec_outcome(buffer) == Err::<int, Error>(Error::BoolBadFormat),
        buffer.len() < 8 ==> u64::spec_outcome(buffer) == Err::<int, Error>(
            Error::UnsignedHyperBadFormat,
        ),
        buffer.len() < 8 ==> i64::spec_outcome(buffer) == Err::<int, Error>(Error::HyperBadFormat),
        buffer.len() < 4 ==> String::spec_outcome(buffer) == Err::<int, Error>(
            Error::UnsignedIntegerBadFormat,
        ),
        buffer.len() < 4 ==> <Vec<u32> as XDRIn>::spec_outcome(buffer) == Err::<int, Error>(
            Error::UnsignedIntegerBadFormat,
        ),
{
}

/// The padding of an `n`-byte payload is under 4 bytes, and payload plus
/// padding is a multiple of 4.
pub proof fn lemma_padded_len(n: int)
    requires
        n >= 0,
    ensures
        0 <= pad_of(n) < 4,
        padded_len(n) % 4 == 0,
        n % 4 == 0 ==> pad_of(n) == 0,
{
    lemma_mod_bound(n, 4);
    let q = n / 4;
    let r = n % 4;
    lemma_fundamental_div_mod(n, 4);
    if r == 0 {
        lemma_small_mod(0, 4);
        lemma_mod_multiples_basic(q, 4);
    } else {
        lemma_small_mod((4 - r) as nat, 4);
        assert(padded_len(n) == 4 * (q + 1));
        lemma_mod_multiples_basic(q + 1, 4);
    }
}

/// Padding law for variable opaque payloads: with a declared length `L`
/// within bounds and a buffer holding the padded payload, decoding consumes
/// exactly `4 + L + ((4 - L % 4) % 4)` bytes, a multiple of 4.
pub proof fn lemma_var_opaque_padding(max: nat, buffer: Seq<u8>)
    requires
        buffer.len() >= 4,
        be32(buffer) <= max,
        buffer.len() >= 4 + padded_len(be32(buffer) as int),
    ensures
        var_opaque_read(max, buffer) == Ok::<int, Error>(
            4 + be32(buffer) + (4 - be32(buffer) % 4) % 4,
        ),
        (4 + be32(buffer) + (4 - be32(buffer) % 4) % 4) % 4 == 0,
{
    let n = be32(buffer) as int;
    lemma_padded_len(n);
    lemma_mod_add_multiples_vanish(padded_len(n), 4);
}

/// Padding law for strings: a string whose padded payload is present and
/// valid UTF-8 consumes exactly `4 + L + ((4 - L % 4) % 4)` bytes.
pub proof fn lemma_string_padding(buffer: Seq<u8>)
    requires
        buffer.len() >= 4 + padded_len(be32(buffer) as int),
        valid_utf8(string_payload(buffer)),
    ensures
        string_read(buffer) == Ok::<int, Error>(4 + be32(buffer) + (4 - be32(buffer) % 4) % 4),
        (4 + be32(buffer) + (4 - be32(buffer) % 4) % 4) % 4 == 0,
{
    let n = be32(buffer) as int;
    lemma_padded_len(n);
    lemma_mod_add_multiples_vanish(padded_len(n), 4);
}

/// Round trip for variable opaque payloads: the wire form of any payload
/// within the declared maximum, followed by anything, decodes back to
/// exactly that payload, consuming prefix, payload and padding.
pub proof fn lemma_var_opaque_round_trip(max: nat, data: Seq<u8>, tail: Seq<u8>)
    requires
        data.len() <= max,
        data.len() < 0x1_0000_0000,
    ensures
        be32(enc_opaque(data) + tail) == data.len(),
        var_opaque_read(max, enc_opaque(data) + tail) == Ok::<int, Error>(
            4 + padded_len(data.len() as int),
        ),
        (enc_opaque(data) + tail).subrange(4, 4 + data.len() as int) == data,
        forall|w: Vec<u8>|
            <Vec<u8> as XDRIn>::spec_decoded(enc_opaque(data) + tail, w) <==> w@ == data,
{
    let len = data.len() as u32;
    let b = enc_opaque(data) + tail;
    let n = data.len() as int;
    lemma_padded_len(n);
    assert(b =~= enc_u32(len) + (data + zeros(pad_of(n)) + tail));
    lemma_u32_round_trip(len, data + zeros(pad_of(n)) + tail);
    assert(b.subrange(4, 4 + n) =~= data);
}

/// Round trip for strings: the wire form of any sequence of characters
/// whose UTF-8 encoding is within the declared maximum decodes back to
/// exactly those characters, under both the bounded and the unbounded
/// string decoder.
pub proof fn lemma_string_round_trip(max: nat, chars: Seq<char>, tail: Seq<u8>)
    requires
        encode_utf8(chars).len() <= max,
        encode_utf8(chars).len() < 0x1_0000_0000,
    ensures
        string_read(enc_text(chars) + tail) == Ok::<int, Error>(
            4 + padded_len(encode_utf8(chars).len() as int),
        ),
        var_string_read(max, enc_text(chars) + tail) == Ok::<int, Error>(
            4 + padded_len(encode_utf8(chars).len() as int),
        ),
        forall|w: Seq<char>| string_decoded(enc_text(chars) + tail, w) <==> w == chars,
{
    let data = encode_utf8(chars);
    encode_utf8_valid_utf8(chars);
    encode_utf8_decode_utf8(chars);
    lemma_var_opaque_round_trip(max, data, tail);
    lemma_padded_len(data.len() as int);
    let b = enc_text(chars) + tail;
    assert(string_payload(b) == data);
    assert(b.len() >= 4 + padded_len(be32(b) as int));
}

/// Sequences of unsigned 32-bit integers decode element by element: the
/// back-to-back wire forms of `vals`, followed by anything, decode to
/// exactly `vals`, consuming 4 bytes per element.
pub proof fn lemma_u32_seq_round_trip(vals: Seq<u32>, tail: Seq<u8>)
    ensures
        seq_read::<u32>(vals.len(), enc_u32_seq(vals) + tail) == Ok::<int, Error>(4 * vals.len() as int),
        forall|w: Seq<u32>| seq_decoded::<u32>(vals.len(), enc_u32_seq(vals) + tail, w) <==> w
            == vals,
    decreases vals.len(),
{
    let n = vals.len();
    let b = enc_u32_seq(vals) + tail;
    if n == 0 {
        assert(b =~= tail);
        assert forall|w: Seq<u32>| seq_decoded::<u32>(0, b, w) <==> w == vals by {
            if w.len() == 0 {
                assert(w =~= vals);
            }
        }
    } else {
        let rest = enc_u32_seq(vals.skip(1)) + tail;
        assert(b =~= enc_u32(vals[0]) + rest);
        lemma_u32_round_trip(vals[0], rest);
        assert(b.skip(4) =~= rest);
        lemma_u32_seq_round_trip(vals.skip(1), tail);
        assert(seq_read::<u32>(n, b) == Ok::<int, Error>(4 * n as int));
        assert forall|w: Seq<u32>| seq_decoded::<u32>(n, b, w) <==> w == vals by {
            if seq_decoded::<u32>(n, b, w) {
                assert(w.len() == n);
                assert(u32::spec_decoded(b, w[0]));
                assert(w[0] == vals[0]);
                assert((n - 1) as nat == vals.skip(1).len());
                assert(seq_decoded::<u32>(vals.skip(1).len(), rest, w.skip(1)));
                assert(w.skip(1) == vals.skip(1));
                assert forall|j: int| 1 <= j < n implies w[j] == vals[j] by {
                    assert(w[j] == w.skip(1)[j - 1]);
                    assert(vals[j] == vals.skip(1)[j - 1]);
                }
                assert(w =~= vals);
            }
            if w == vals {
                assert(seq_decoded::<u32>(vals.skip(1).len(), rest, vals.skip(1)));
                assert(seq_decoded::<u32>((n - 1) as nat, b.skip(4), vals.skip(1)));
                assert(seq_decoded::<u32>(n, b, vals));
            }
        }
    }
}

/// Round trip for variable arrays of unsigned 32-bit integers: the counted
/// wire form of `vals`, within the declared maximum, decodes back to
/// exactly `vals`, consuming the count prefix plus 4 bytes per element.
pub proof fn lemma_u32_array_round_trip(max: nat, vals: Seq<u32>, tail: Seq<u8>)
    requires
        vals.len() <= max,
        vals.len() < 0x1_0000_0000,
    ensures
        var_array_read::<u32>(max, enc_u32(vals.len() as u32) + (enc_u32_seq(vals) + tail))
            == Ok::<int, Error>(4 + 4 * vals.len() as int),
        forall|w: Seq<u32>|
            #[trigger] var_array_decoded::<u32>(
                max,
                enc_u32(vals.len() as u32) + (enc_u32_seq(vals) + tail),
                w,
            ) <==> w == vals,
{
    let body = enc_u32_seq(vals) + tail;
    let b = enc_u32(vals.len() as u32) + body;
    lemma_u32_round_trip(vals.len() as u32, body);
    assert(b.skip(4) =~= body);
    lemma_u32_seq_round_trip(vals, tail);
}

/// Bound law for variable opaque payloads: a declared length strictly over
/// the maximum is a size error; one within the maximum is never rejected for
/// its size, and succeeds whenever the padded payload is present.
pub proof fn lemma_var_opaque_bound(max: nat, buffer: Seq<u8>)
    requires
        buffer.len() >= 4,
    ensures
        be32(buffer) > max ==> var_opaque_read(max, buffer) == Err::<int, Error>(
            Error::BadArraySize,
        ),
        be32(buffer) <= max && buffer.len() >= 4 + padded_len(be32(buffer) as int) ==> (
        var_opaque_read(max, buffer) matches Ok(k)),
{
}

/// Bound law for variable arrays: a declared count strictly over the
/// maximum is a size error; one within the maximum leaves the outcome to
/// the element decoders alone.
pub proof fn lemma_var_array_bound<T: XDRIn>(max: nat, buffer: Seq<u8>)
    requires
        buffer.len() >= 4,
    ensures
        be32(buffer) > max ==> var_array_read::<T>(max, buffer) == Err::<int, Error>(
            Error::BadArraySize,
        ),
        be32(buffer) <= max ==> var_array_read::<T>(max, buffer) == (match seq_read::<T>(
            be32(buffer),
            buffer.skip(4),
        ) {
            Ok(k) => Ok::<int, Error>(4 + k),
            Err(e) => Err::<int, Error>(e),
        }),
{
}

/// Bound law for bounded strings: a declared length strictly over the
/// maximum fails with the dedicated wrong-size error before any string
/// decoding; one within the maximum decodes exactly as an unbounded string.
pub proof fn lemma_var_string_bound(max: nat, buffer: Seq<u8>)
    requires
        buffer.len() >= 4,
    ensures
        be32(buffer) > max ==> var_string_read(max, buffer) == Err::<int, Error>(
            Error::VarArrayWrongSize,
        ),
        be32(buffer) <= max ==> var_string_read(max, buffer) == string_read(buffer),
{
}

} // verus!
