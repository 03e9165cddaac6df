use vstd::prelude::*;

verus! {

/// Protocol and internal failures raised by the bridge itself.
#[derive(Debug, PartialEq, Eq)]
pub enum InternalError {
    /// A write would run past the end of the target buffer.
    BufferOverflow,
    /// The bytes end before a complete value could be read.
    IncompleteData,
    /// The presence byte of an optional value is neither 0 nor 1.
    UnexpectedOptionalTag,
    /// An enum discriminant names no declared variant.
    UnexpectedEnumCase,
    /// A null pointer was handed over where an object was expected.
    UnexpectedNullPointer,
    /// A call status carried a code outside {0, 1, 2}.
    UnexpectedCallStatusCode(i8),
    /// A call reported an application error but no handler was given to decode it.
    UnexpectedCallError,
    /// A handle names no live entry of the handle table.
    StaleHandle,
    /// The native side panicked, with its message when one was sent.
    Panic(Option<String>),
    /// The bytes are of the right length but hold no value of the type
    /// (text that is not UTF-8, a boolean byte other than 0 or 1).
    MalformedValue,
}

/// The failure of one call across the boundary: an application error decoded
/// with the declared error type's codec, or an internal error.
#[derive(Debug, PartialEq, Eq)]
pub enum CallError<E> {
    Application(E),
    Internal(InternalError),
}

} // verus!
