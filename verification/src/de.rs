//! The decode engine: a uniform decode contract, its implementations for the
//! built-in XDR types, and the fixed/variable opaque, array and string
//! readers that generated composite decoders build on.

use vstd::prelude::*;
use vstd::slice::{slice_index_get, slice_subrange, slice_to_vec};
use vstd::utf8::{decode_utf8, valid_utf8};

use crate::error::Error;
use crate::wire::{
    as_i32, as_i64, be32, be64, lemma_be32_bounds, padded_len, string_decoded, string_payload,
    string_read, var_opaque_read, var_string_read,
};

verus! {

/// The uniform decode contract.  `spec_outcome` says, for every buffer,
/// whether decoding succeeds and how many bytes it consumes, or with which
/// error it fails; `spec_decoded` says which value the buffer decodes to.
/// `read_xdr` is the executable decoder, bound to both: it returns exactly
/// the outcome the model gives, never consumes more bytes than the buffer
/// holds, and never panics.
pub trait XDRIn: Sized {
    /// How decoding a `Self` from the front of `buffer` ends: the number of
    /// bytes consumed, or the error reported.
    spec fn spec_outcome(buffer: Seq<u8>) -> Result<int, Error>;

    /// Whether `value` is what the front of `buffer` decodes to.
    spec fn spec_decoded(buffer: Seq<u8>, value: Self) -> bool;

    /// Decode a value from the front of `buffer`, returning it with the
    /// exact number of bytes consumed.
    fn read_xdr(buffer: &[u8]) -> (r: Result<(Self, u64), Error>)
        ensures
            match r {
                Ok(p) => Self::spec_outcome(buffer@) == Ok::<int, Error>(p.1 as int)
                    && Self::spec_decoded(buffer@, p.0) && p.1 <= buffer@.len(),
                Err(e) => Self::spec_outcome(buffer@) == Err::<int, Error>(e),
            },
    ;
}

/// Read the first four bytes of `buffer` as a big-endian integer.
fn be_u32_at(buffer: &[u8]) -> (v: u32)
    requires
        buffer@.len() >= 4,
    ensures
        v as nat == be32(buffer@),
{
    let b0 = *slice_index_get(buffer, 0);
    let b1 = *slice_index_get(buffer, 1);
    let b2 = *slice_index_get(buffer, 2);
    let b3 = *slice_index_get(buffer, 3);
    (b0 as u32) * 0x100_0000 + (b1 as u32) * 0x1_0000 + (b2 as u32) * 0x100 + (b3 as u32)
}

/// Read the first eight bytes of `buffer` as a big-endian integer.
fn be_u64_at(buffer: &[u8]) -> (v: u64)
    requires
        buffer@.len() >= 8,
    ensures
        v as nat == be64(buffer@),
{
    let b0 = *slice_index_get(buffer, 0);
    let b1 = *slice_index_get(buffer, 1);
    let b2 = *slice_index_get(buffer, 2);
    let b3 = *slice_index_get(buffer, 3);
    let b4 = *slice_index_get(buffer, 4);
    let b5 = *slice_index_get(buffer, 5);
    let b6 = *slice_index_get(buffer, 6);
    let b7 = *slice_index_get(buffer, 7);
    (b0 as u64) * 0x100_0000_0000_0000 + (b1 as u64) * 0x1_0000_0000_0000 + (b2 as u64)
        * 0x100_0000_0000 + (b3 as u64) * 0x1_0000_0000 + (b4 as u64) * 0x100_0000 + (b5 as u64)
        * 0x1_0000 + (b6 as u64) * 0x100 + (b7 as u64)
}

impl XDRIn for () {
    open spec fn spec_outcome(buffer: Seq<u8>) -> Result<int, Error> {
        Ok(0)
    }

    open spec fn spec_decoded(buffer: Seq<u8>, value: ()) -> bool {
        true
    }

    fn read_xdr(buffer: &[u8]) -> Result<((), u64), Error> {
        Ok(((), 0))
    }
}

impl XDRIn for u32 {
    open spec fn spec_outcome(buffer: Seq<u8>) -> Result<int, Error> {
        if buffer.len() < 4 {
            Err(Error::UnsignedIntegerBadFormat)
        } else {
            Ok(4)
        }
    }

    open spec fn spec_decoded(buffer: Seq<u8>, value: u32) -> bool {
        buffer.len() >= 4 && value as nat == be32(buffer)
    }

    fn read_xdr(buffer: &[u8]) -> Result<(u32, u64), Error> {
        if buffer.len() < 4 {
            return Err(Error::UnsignedIntegerBadFormat);
        }
        Ok((be_u32_at(buffer), 4))
    }
}

impl XDRIn for i32 {
    open spec fn spec_outcome(buffer: Seq<u8>) -> Result<int, Error> {
        if buffer.len() < 4 {
            Err(Error::IntegerBadFormat)
        } else {
            Ok(4)
        }
    }

    open spec fn spec_decoded(buffer: Seq<u8>, value: i32) -> bool {
        buffer.len() >= 4 && value as int == as_i32(be32(buffer) as int)
    }

    fn read_xdr(buffer: &[u8]) -> Result<(i32, u64), Error> {
        if buffer.len() < 4 {
            return Err(Error::IntegerBadFormat);
        }
        let u = be_u32_at(buffer);
        let v: i32 = if u >= 0x8000_0000 {
            ((u as i64) - 0x1_0000_0000i64) as i32
        } else {
            u as i32
        };
        Ok((v, 4))
    }
}

impl XDRIn for u64 {
    open spec fn spec_outcome(buffer: Seq<u8>) -> Result<int, Error> {
        if buffer.len() < 8 {
            Err(Error::UnsignedHyperBadFormat)
        } else {
            Ok(8)
        }
    }

    open spec fn spec_decoded(buffer: Seq<u8>, value: u64) -> bool {
        buffer.len() >= 8 && value as nat == be64(buffer)
    }

    fn read_xdr(buffer: &[u8]) -> Result<(u64, u64), Error> {
        if buffer.len() < 8 {
            return Err(Error::UnsignedHyperBadFormat);
        }
        Ok((be_u64_at(buffer), 8))
    }
}

impl XDRIn for i64 {
    open spec fn spec_outcome(buffer: Seq<u8>) -> Result<int, Error> {
        if buffer.len() < 8 {
            Err(Error::HyperBadFormat)
        } else {
            Ok(8)
        }
    }

    open spec fn spec_decoded(buffer: Seq<u8>, value: i64) -> bool {
        buffer.len() >= 8 && value as int == as_i64(be64(buffer) as int)
    }

    fn read_xdr(buffer: &[u8]) -> Result<(i64, u64), Error> {
        if buffer.len() < 8 {
            return Err(Error::HyperBadFormat);
        }
        let u = be_u64_at(buffer);
        let v: i64 = if u >= 0x8000_0000_0000_0000 {
            ((u as i128) - 0x1_0000_0000_0000_0000i128) as i64
        } else {
            u as i64
        };
        Ok((v, 8))
    }
}

impl XDRIn for bool {
    open spec fn spec_outcome(buffer: Seq<u8>) -> Result<int, Error> {
        if buffer.len() >= 4 && (be32(buffer) == 0 || be32(buffer) == 1) {
            Ok(4)
        } else {
            Err(Error::BoolBadFormat)
        }
    }

    open spec fn spec_decoded(buffer: Seq<u8>, value: bool) -> bool {
        buffer.len() >= 4 && be32(buffer) == if value {
            1nat
        } else {
            0nat
        }
    }

    fn read_xdr(buffer: &[u8]) -> Result<(bool, u64), Error> {
        let res = i32::read_xdr(buffer);
        proof {
            lemma_be32_bounds(buffer@);
        }
        match res {
            Ok((1, _)) => Ok((true, 4)),
            Ok((0, _)) => Ok((false, 4)),
            _ => Err(Error::BoolBadFormat),
        }
    }
}

/// How decoding `n` consecutive elements of `T` from the front of `buffer`
/// ends: the sum of the elements' consumed bytes, or the first element
/// error.
pub open spec fn seq_read<T: XDRIn>(n: nat, buffer: Seq<u8>) -> Result<int, Error>
    decreases n,
{
    if n == 0 {
        Ok(0)
    } else {
        match T::spec_outcome(buffer) {
            Ok(k) => match seq_read::<T>((n - 1) as nat, buffer.skip(k)) {
                Ok(rest) => Ok(k + rest),
                Err(e) => Err(e),
            },
            Err(e) => Err(e),
        }
    }
}

/// Whether `elems` is what decoding `n` consecutive elements of `T` from the
/// front of `buffer` yields: each element decodes from the bytes left over
/// by its predecessors.
pub open spec fn seq_decoded<T: XDRIn>(n: nat, buffer: Seq<u8>, elems: Seq<T>) -> bool
    decreases n,
{
    &&& elems.len() == n
    &&& if n == 0 {
        true
    } else {
        match T::spec_outcome(buffer) {
            Ok(k) => T::spec_decoded(buffer, elems[0]) && seq_decoded::<T>(
                (n - 1) as nat,
                buffer.skip(k),
                elems.skip(1),
            ),
            Err(_) => false,
        }
    }
}

/// Decode exactly `size` elements of `T` back-to-back, summing their
/// consumed-byte counts and propagating the first element error.
pub fn read_fixed_array<T: XDRIn>(size: u32, buffer: &[u8]) -> (r: Result<(Vec<T>, u64), Error>)
    ensures
        match r {
            Ok(p) => seq_read::<T>(size as nat, buffer@) == Ok::<int, Error>(p.1 as int)
                && seq_decoded::<T>(size as nat, buffer@, p.0@) && p.1 <= buffer@.len(),
            Err(e) => seq_read::<T>(size as nat, buffer@) == Err::<int, Error>(e),
        },
{
    let mut read: u64 = 0;
    let mut result: Vec<T> = Vec::new();
    let mut i: u32 = 0;
    proof {
        assert(buffer@.skip(0) =~= buffer@);
        assert forall|tail: Seq<T>|
            seq_decoded::<T>(size as nat, buffer@.skip(0), tail) implies seq_decoded::<T>(
            size as nat,
            buffer@,
            result@ + tail,
        ) by {
            assert(result@ + tail =~= tail);
        }
    }
    while i < size
        invariant
            i <= size,
            read <= buffer@.len(),
            result@.len() == i,
            match seq_read::<T>((size - i) as nat, buffer@.skip(read as int)) {
                Ok(k) => seq_read::<T>(size as nat, buffer@) == Ok::<int, Error>(read + k),
                Err(e) => seq_read::<T>(size as nat, buffer@) == Err::<int, Error>(e),
            },
            forall|tail: Seq<T>|
                seq_decoded::<T>((size - i) as nat, buffer@.skip(read as int), tail)
                    ==> seq_decoded::<T>(size as nat, buffer@, result@ + tail),
        decreases size - i,
    {
        let blen: usize = buffer.len();
        assert(read <= blen);
        let sub = slice_subrange(buffer, read as usize, blen);
        let ghost prev_read = read as int;
        let ghost prev_elems = result@;
        match T::read_xdr(sub) {
            Err(e) => {
                return Err(e);
            },
            Ok((v, n)) => {
                proof {
                    assert(buffer@.skip(prev_read).skip(n as int) =~= buffer@.skip(
                        prev_read + n,
                    ));
                    assert forall|tail: Seq<T>|
                        seq_decoded::<T>(
                            (size - i - 1) as nat,
                            buffer@.skip(prev_read + n),
                            tail,
                        ) implies seq_decoded::<T>(
                        size as nat,
                        buffer@,
                        prev_elems.push(v) + tail,
                    ) by {
                        let whole = seq![v] + tail;
                        assert(whole.skip(1) =~= tail);
                        assert(whole[0] == v);
                        assert(seq_decoded::<T>((size - i) as nat, buffer@.skip(prev_read), whole));
                        assert(prev_elems.push(v) + tail =~= prev_elems + whole);
                    }
                }
                read = read + n;
                result.push(v);
                i = i + 1;
            },
        }
    }
    proof {
        assert(result@ + Seq::<T>::empty() =~= result@);
        assert(seq_decoded::<T>(0, buffer@.skip(read as int), Seq::<T>::empty()));
    }
    Ok((result, read))
}

/// How decoding a variable array bounded by `max` ends: a 4-byte element
/// count, rejected with a size error when it exceeds `max`, then that many
/// elements decoded back-to-back.
pub open spec fn var_array_read<T: XDRIn>(max: nat, buffer: Seq<u8>) -> Result<int, Error> {
    if buffer.len() < 4 {
        Err(Error::UnsignedIntegerBadFormat)
    } else if be32(buffer) > max {
        Err(Error::BadArraySize)
    } else {
        match seq_read::<T>(be32(buffer), buffer.skip(4)) {
            Ok(k) => Ok(4 + k),
            Err(e) => Err(e),
        }
    }
}

/// Whether `elems` is what a variable array bounded by `max` at the front of
/// `buffer` decodes to.
pub open spec fn var_array_decoded<T: XDRIn>(max: nat, buffer: Seq<u8>, elems: Seq<T>) -> bool {
    &&& buffer.len() >= 4
    &&& be32(buffer) <= max
    &&& seq_decoded::<T>(be32(buffer), buffer.skip(4), elems)
}

/// Decode a length-prefixed array of at most `size` elements: the declared
/// count is read first and checked against `size`, then that many elements
/// are decoded back-to-back.
pub fn read_var_array<T: XDRIn>(size: u32, buffer: &[u8]) -> (r: Result<(Vec<T>, u64), Error>)
    ensures
        match r {
            Ok(p) => var_array_read::<T>(size as nat, buffer@) == Ok::<int, Error>(p.1 as int)
                && var_array_decoded::<T>(size as nat, buffer@, p.0@) && p.1 <= buffer@.len(),
            Err(e) => var_array_read::<T>(size as nat, buffer@) == Err::<int, Error>(e),
        },
{
    let length = match u32::read_xdr(buffer) {
        Ok(p) => p.0,
        Err(e) => {
            return Err(e);
        },
    };
    if length > size {
        return Err(Error::BadArraySize);
    }
    let rest = slice_subrange(buffer, 4, buffer.len());
    proof {
        assert(rest@ =~= buffer@.skip(4));
    }
    match read_fixed_array::<T>(length, rest) {
        Ok((v, n)) => Ok((v, n + 4)),
        Err(e) => Err(e),
    }
}

impl<T: XDRIn> XDRIn for Vec<T> {
    open spec fn spec_outcome(buffer: Seq<u8>) -> Result<int, Error> {
        if buffer.len() < 4 {
            Err(Error::UnsignedIntegerBadFormat)
        } else {
            match seq_read::<T>(be32(buffer), buffer.skip(4)) {
                Ok(k) => Ok(4 + k),
                Err(e) => Err(e),
            }
        }
    }

    open spec fn spec_decoded(buffer: Seq<u8>, value: Vec<T>) -> bool {
        buffer.len() >= 4 && seq_decoded::<T>(be32(buffer), buffer.skip(4), value@)
    }

    fn read_xdr(buffer: &[u8]) -> Result<(Vec<T>, u64), Error> {
        proof {
            lemma_be32_bounds(buffer@);
        }
        read_var_array::<T>(0xFFFF_FFFF, buffer)
    }
}

impl XDRIn for Vec<u8> {
    open spec fn spec_outcome(buffer: Seq<u8>) -> Result<int, Error> {
        var_opaque_read(0xFFFF_FFFF, buffer)
    }

    open spec fn spec_decoded(buffer: Seq<u8>, value: Vec<u8>) -> bool {
        &&& buffer.len() >= 4 + padded_len(be32(buffer) as int)
        &&& value@ == buffer.subrange(4, 4 + be32(buffer) as int)
    }

    fn read_xdr(buffer: &[u8]) -> Result<(Vec<u8>, u64), Error> {
        proof {
            lemma_be32_bounds(buffer@);
        }
        read_var_opaque(0xFFFF_FFFF, buffer)
    }
}

/// Read `size` raw bytes, consuming them together with the padding that
/// brings the total to a multiple of 4; the padding bytes are discarded.
pub fn read_fixed_opaque(size: u32, buffer: &[u8]) -> (r: Result<(Vec<u8>, u64), Error>)
    ensures
        match r {
            Ok(p) => buffer@.len() >= padded_len(size as int) && p.0@ == buffer@.subrange(
                0,
                size as int,
            ) && p.1 == padded_len(size as int),
            Err(e) => buffer@.len() < padded_len(size as int) && e == Error::BadArraySize,
        },
{
    let pad: u32 = (4 - size % 4) % 4;
    let padded: u64 = size as u64 + pad as u64;
    if (buffer.len() as u64) < padded {
        return Err(Error::BadArraySize);
    }
    let data = slice_to_vec(slice_subrange(buffer, 0, size as usize));
    Ok((data, padded))
}

/// Decode a length-prefixed opaque payload of at most `max_size` bytes: the
/// declared length is read first and checked against `max_size`, then the
/// payload and its padding are consumed.
pub fn read_var_opaque(max_size: u32, buffer: &[u8]) -> (r: Result<(Vec<u8>, u64), Error>)
    ensures
        match r {
            Ok(p) => var_opaque_read(max_size as nat, buffer@) == Ok::<int, Error>(p.1 as int)
                && p.0@ == buffer@.subrange(4, 4 + be32(buffer@) as int) && p.1 <= buffer@.len(),
            Err(e) => var_opaque_read(max_size as nat, buffer@) == Err::<int, Error>(e),
        },
{
    let length = match u32::read_xdr(buffer) {
        Ok(p) => p.0,
        Err(e) => {
            return Err(e);
        },
    };
    if length > max_size {
        return Err(Error::BadArraySize);
    }
    let rest = slice_subrange(buffer, 4, buffer.len());
    proof {
        assert(rest@ =~= buffer@.skip(4));
    }
    match read_fixed_opaque(length, rest) {
        Ok((v, n)) => {
            proof {
                assert(rest@.subrange(0, length as int) =~= buffer@.subrange(
                    4,
                    4 + length as int,
                ));
            }
            Ok((v, n + 4))
        },
        Err(e) => Err(e),
    }
}

/// Relies on std's `str::from_utf8`: it succeeds exactly on valid UTF-8
/// input, and the string it returns is the UTF-8 decoding of those bytes,
/// as `vstd::utf8` models both.
#[verifier::external_body]
fn utf8_to_string(bytes: &[u8]) -> (r: Option<String>)
    ensures
        match r {
            Some(s) => valid_utf8(bytes@) && s@ == decode_utf8(bytes@),
            None => !valid_utf8(bytes@),
        },
{
    match std::str::from_utf8(bytes) {
        Ok(s) => Some(s.to_string()),
        Err(_) => None,
    }
}

impl XDRIn for String {
    open spec fn spec_outcome(buffer: Seq<u8>) -> Result<int, Error> {
        string_read(buffer)
    }

    open spec fn spec_decoded(buffer: Seq<u8>, value: String) -> bool {
        string_decoded(buffer, value@)
    }

    fn read_xdr(buffer: &[u8]) -> Result<(String, u64), Error> {
        let size = match u32::read_xdr(buffer) {
            Ok(p) => p.0,
            Err(e) => {
                return Err(e);
            },
        };
        let rest = slice_subrange(buffer, 4, buffer.len());
        proof {
            assert(rest@ =~= buffer@.skip(4));
        }
        match read_fixed_opaque(size, rest) {
            Ok((bytes, n)) => {
                proof {
                    assert(rest@.subrange(0, size as int) =~= string_payload(buffer@));
                }
                match utf8_to_string(bytes.as_slice()) {
                    Some(s) => Ok((s, n + 4)),
                    None => Err(Error::StringBadFormat),
                }
            },
            Err(_) => Err(Error::StringBadFormat),
        }
    }
}

/// Decode a bounded string of at most `max_size` payload bytes: the declared
/// length is checked against `max_size` first, with its own error, and only
/// then is the string decoded as usual.
pub fn read_var_string(max_size: u32, buffer: &[u8]) -> (r: Result<(String, u64), Error>)
    ensures
        match r {
            Ok(p) => var_string_read(max_size as nat, buffer@) == Ok::<int, Error>(p.1 as int)
                && string_decoded(buffer@, p.0@) && p.1 <= buffer@.len(),
            Err(e) => var_string_read(max_size as nat, buffer@) == Err::<int, Error>(e),
        },
{
    let length = match u32::read_xdr(buffer) {
        Ok(p) => p.0,
        Err(e) => {
            return Err(e);
        },
    };
    if length > max_size {
        return Err(Error::VarArrayWrongSize);
    }
    String::read_xdr(buffer)
}

/// Decode the 4-byte big-endian bit pattern of a 32-bit float.  The
/// IEEE-754 reinterpretation of the bits is left to the caller; the wire
/// format, consumed count and error identity are fixed here.
pub fn read_float_bits(buffer: &[u8]) -> (r: Result<(u32, u64), Error>)
    ensures
        match r {
            Ok(p) => buffer@.len() >= 4 && p.0 as nat == be32(buffer@) && p.1 == 4,
            Err(e) => buffer@.len() < 4 && e == Error::FloatBadFormat,
        },
{
    if buffer.len() < 4 {
        return Err(Error::FloatBadFormat);
    }
    Ok((be_u32_at(buffer), 4))
}

/// Decode the 8-byte big-endian bit pattern of a 64-bit float, as
/// `read_float_bits` does for 32-bit floats.
pub fn read_double_bits(buffer: &[u8]) -> (r: Result<(u64, u64), Error>)
    ensures
        match r {
            Ok(p) => buffer@.len() >= 8 && p.0 as nat == be64(buffer@) && p.1 == 8,
            Err(e) => buffer@.len() < 8 && e == Error::DoubleBadFormat,
        },
{
    if buffer.len() < 8 {
        return Err(Error::DoubleBadFormat);
    }
    Ok((be_u64_at(buffer), 8))
}

} // verus!
