//! A decode-only XDR (RFC 4506) codec core.
//!
//! Given a byte buffer and a target type, the library parses a value of that
//! type from the front of the buffer and reports how many bytes it consumed,
//! so that a caller can decode a sequence of values back-to-back from one
//! stream.  All multi-byte scalars are big-endian; variable-length data is
//! length-prefixed and padded to a 4-byte boundary; failures are typed and
//! consume nothing.

pub mod de;
pub mod error;
pub mod laws;
pub mod wire;
