//! Runtime errors raised while evaluating an expression.  They form a
//! family of their own, disjoint from [`crate::ast::SyntaxError`]: the kind
//! is meant for programmatic dispatch, the message for humans.

use vstd::prelude::*;

verus! {

/// The kind of a runtime error.
#[derive(Debug, Clone, Copy, PartialEq, Eq, Structural)]
pub enum ErrorKind {
    /// A name was looked up but is not bound in the environment.
    NameError,
    /// A value of the wrong type was used: an uncallable head of an
    /// expression, or an operator applied to types it does not combine.
    TypeError,
    /// A malformed use of a form: wrong arity, an empty expression, a
    /// non-name first argument to `set`, or division by zero.
    ValueError,
}

/// A runtime error: its kind together with a human-readable message.
#[derive(Debug)]
pub struct RuntimeError {
    pub kind: ErrorKind,
    pub msg: String,
}

} // verus!
