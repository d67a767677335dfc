//! Why parsing or evaluation stops.

use vstd::prelude::*;

verus! {

/// Why a source line is not a sequence of atoms.
#[derive(Debug, Clone, Copy, Hash, PartialEq, Eq, Structural)]
pub enum ParseError {
    /// A run of operator punctuation that names no arithmetic or comparison
    /// operator.
    UnknownOperator,
    /// Text at which no token starts.
    UnexpectedInput,
}

/// Why evaluation stops. Every variant is fatal for the line being run.
#[derive(Debug, Clone, Copy, Hash, PartialEq, Eq, Structural)]
pub enum EvalError {
    /// The line did not parse.
    Parse(ParseError),
    /// An operation of known arity found fewer operands than it consumes.
    Arity,
    /// An atom was popped from an empty operand stack.
    EmptyStack,
    /// An operand was not of the variant the operation expects.
    Type,
    /// An identifier has no binding.
    UnknownName,
    /// A reserved word was about to be bound.
    ReservedWord,
    /// A name already bound in the frame was about to be bound again.
    AlreadyBound,
    DivisionByZero,
    /// An arithmetic result does not fit the number type.
    Overflow,
    /// A call on something that is neither a quotation nor a function.
    NotCallable,
    /// `at` with an index outside the list.
    OutOfRange,
    /// `for_else` or `for_if` with no `if` run inside a loop-like combinator.
    NoConditional,
    /// `keep` on a callable whose arity is unknown.
    UnknownArity,
    /// A frame was to be closed that does not exist above the root.
    NoFrame,
    /// An evaluation scope ended with nothing on its stack.
    NoResult,
    /// An atom that cannot be evaluated where it stands.
    UnexpectedAtom,
    /// Calls nested deeper than the environment allows.
    DepthExceeded,
}

} // verus!
