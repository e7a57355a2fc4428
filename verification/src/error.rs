use vstd::prelude::*;

verus! {

/// The failure kinds of the structural decoder. Every decode step is
/// fallible and failures propagate immediately to the top-level caller;
/// no partial result is retained.
///
/// Unrecognized attribute names are not a failure: the attribute decoder is
/// permissive and synthesizes a placeholder for them, so no variant exists
/// for that situation.
#[derive(Debug, Clone, Copy, PartialEq, Eq, Structural)]
pub enum DecodeError {
    /// Fewer bytes remain than a read requires.
    TruncatedStream,
    /// A constant-pool tag byte outside the fixed tag table.
    UnknownConstantTag,
    /// A UTF8 payload that is not valid UTF-8.
    InvalidEncoding,
    /// An index that resolves to no entry, or to an entry of the wrong
    /// variant, while resolving a name through the constant pool.
    DanglingReference,
    /// A typed lookup requested one variant and found another.
    TypeMismatch,
    /// Wrong magic number or zero constant-pool count.
    MalformedHeader,
}

} // verus!
