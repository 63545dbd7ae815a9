use vstd::prelude::*;

verus! {

/// A decode failure. Any failure at any recursion depth aborts the whole
/// decode: there is no partial-result recovery.
#[derive(Debug, Clone, Copy, PartialEq, Eq, Structural)]
pub enum VdfError {
    /// The buffer ran out of bytes while a field (key string, string value,
    /// or 4-byte integer) was mid-decode.
    UnexpectedEnd,
    /// A tag byte outside the fixed set {0x00, 0x01, 0x02, 0x08} was
    /// encountered; carries the offending byte.
    UnknownTag(u8),
}

} // verus!
