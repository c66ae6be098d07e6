//! The failure taxonomy of the library.
//!
//! Every failing operation surfaces one of these errors; there is no local
//! recovery, an error aborts the current evaluation and unwinds to the
//! caller.  Each variant belongs to one abstract kind, reported by
//! [`Error::kind`]: semantic failures during one evaluation (`Eval`),
//! structural failures in the expression tree (`Expr`), malformed byte
//! payloads (`Codec`), and operands outside the supported set
//! (`Unimplemented`).

use vstd::prelude::*;

verus! {

/// The abstract kind of a failure.
#[derive(Debug, Clone, Copy, PartialEq, Eq, Structural)]
pub enum ErrorKind {
    /// A semantic failure during a single evaluation.
    Eval,
    /// A structural failure in the expression tree.
    Expr,
    /// A malformed byte payload.
    Codec,
    /// A float literal or another unsupported operand was reached.
    Unimplemented,
}

/// One failure of an evaluation, a decode, or a coercion.
#[derive(Debug, Clone, Copy, PartialEq, Eq, Structural)]
pub enum Error {
    /// A column reference names a column the row binding does not hold.
    ColumnNotFound(i64),
    /// A byte string could not be coerced to a number.
    InvalidNumber,
    /// A string was required but the value is not a byte string.
    NotString,
    /// An operator found the wrong number of children.
    Arity { expected: usize, got: usize },
    /// The second child of an `In` node is not a value list.
    NotValueList,
    /// An integer payload does not hold exactly eight bytes.
    InvalidLength,
    /// A value-list payload ended in the middle of an element.
    Truncated,
    /// A value-list element starts with an unknown type tag.
    UnknownTag(u8),
    /// A string was required but the bytes are not valid UTF-8.
    InvalidUtf8,
    /// A float operand reached the evaluator.
    Unimplemented,
}

impl Error {
    /// The abstract kind that a variant belongs to.
    pub open spec fn spec_kind(self) -> ErrorKind {
        match self {
            Error::ColumnNotFound(_) => ErrorKind::Eval,
            Error::InvalidNumber => ErrorKind::Eval,
            Error::NotString => ErrorKind::Eval,
            Error::Arity { .. } => ErrorKind::Expr,
            Error::NotValueList => ErrorKind::Expr,
            Error::InvalidLength => ErrorKind::Codec,
            Error::Truncated => ErrorKind::Codec,
            Error::UnknownTag(_) => ErrorKind::Codec,
            Error::InvalidUtf8 => ErrorKind::Codec,
            Error::Unimplemented => ErrorKind::Unimplemented,
        }
    }

    /// Report the abstract kind of this failure.
    pub fn kind(&self) -> (k: ErrorKind)
        ensures
            k == self.spec_kind(),
    {
        match self {
            Error::ColumnNotFound(_) => ErrorKind::Eval,
            Error::InvalidNumber => ErrorKind::Eval,
            Error::NotString => ErrorKind::Eval,
            Error::Arity { .. } => ErrorKind::Expr,
            Error::NotValueList => ErrorKind::Expr,
            Error::InvalidLength => ErrorKind::Codec,
            Error::Truncated => ErrorKind::Codec,
            Error::UnknownTag(_) => ErrorKind::Codec,
            Error::InvalidUtf8 => ErrorKind::Codec,
            Error::Unimplemented => ErrorKind::Unimplemented,
        }
    }
}

} // verus!
