//! Error taxonomy: each composed layer fails with its own error type, and
//! the adapter carries all three without loss in a tagged union.

use vstd::prelude::*;

verus! {

/// An error raised by the buffer-owning serializer: the write would exceed
/// the buffer's limit, or a scratch release did not match the last request.
#[derive(Debug, Clone, Copy, PartialEq, Eq, Structural)]
pub enum WriterError {
    /// The requested bytes do not fit under the serializer's byte limit.
    Exhausted,
    /// A scratch pop named a layout other than the one on top of the stack.
    ScratchMismatch,
}

/// An error raised on the read path: a reference record or its target does
/// not lie inside the buffer, or the referenced bytes are not valid text.
#[derive(Debug, Clone, Copy, PartialEq, Eq, Structural)]
pub enum ReaderError {
    /// Fewer than eight bytes remain at the record's position.
    TruncatedRecord,
    /// The record points at a range that ends past the buffer.
    OutOfBounds,
    /// The referenced bytes are not valid UTF-8.
    InvalidContent,
}

/// An error raised by the intern registry: it has reached its entry
/// capacity, the one recoverable out-of-interning-capacity condition.
#[derive(Debug, Clone, Copy, PartialEq, Eq, Structural)]
pub enum InternError {
    /// The registry already holds as many entries as it was created for.
    RegistryFull,
}

/// An error occurred while serializing or deserializing interned values.
///
/// The tag names the layer that failed, so a caller can tell buffer
/// exhaustion from shared-value bookkeeping from registry capacity.
#[derive(Debug, PartialEq, Eq, Structural)]
pub enum InternSerializerAdapterError<S, D, T> {
    /// The base serializer failed.
    SerializerError(S),
    /// The read-path shared-value bookkeeping failed.
    DeserializerError(D),
    /// The intern registry failed.
    InternError(T),
}

/// The adapter's error type with the three concrete layer errors filled in.
pub type AdapterError = InternSerializerAdapterError<WriterError, ReaderError, InternError>;

} // verus!
