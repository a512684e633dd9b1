use vstd::prelude::*;

verus! {

/// The closed taxonomy of reasons a decode can fail.  Each variant names the
/// construct whose wire form was malformed or truncated; no partial value is
/// carried.
#[derive(Clone, Copy, Debug, PartialEq, Eq, Structural)]
pub enum Error {
    /// A boolean's 4-byte integer was missing or was neither 0 nor 1.
    BoolBadFormat,
    /// Fewer than 4 bytes were available for a signed 32-bit integer.
    IntegerBadFormat,
    /// Fewer than 4 bytes were available for an unsigned 32-bit integer.
    UnsignedIntegerBadFormat,
    /// Fewer than 8 bytes were available for a signed 64-bit integer.
    HyperBadFormat,
    /// Fewer than 8 bytes were available for an unsigned 64-bit integer.
    UnsignedHyperBadFormat,
    /// Fewer than 4 bytes were available for a 32-bit float.
    FloatBadFormat,
    /// Fewer than 8 bytes were available for a 64-bit float.
    DoubleBadFormat,
    /// A string's payload was truncated or was not valid UTF-8.
    StringBadFormat,
    /// A declared length exceeded the caller's maximum, or the buffer was
    /// shorter than a fixed-size opaque required.
    BadArraySize,
    /// A bounded string's declared length exceeded its maximum.
    VarArrayWrongSize,
    /// A wire discriminant was outside the declared set of an enumeration or
    /// discriminated union.
    InvalidEnumValue,
}

} // verus!
