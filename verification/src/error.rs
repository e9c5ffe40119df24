use vstd::prelude::*;

verus! {

/// Why a text could not be read as an expression.
#[derive(Clone, Copy, Debug, PartialEq, Eq, Structural)]
pub enum ParseError {
    /// The text does not follow the grammar, or something is left after the
    /// expression.
    SyntaxError,
    /// The text follows the grammar, but holds a number too large for a
    /// 64-bit constant.
    NumberTooLarge,
}

/// Why an expression could not be evaluated.
#[derive(Clone, Copy, Debug, PartialEq, Eq, Structural)]
pub enum EvalError {
    /// Sums and products are not evaluated.
    NotImplemented,
}

} // verus!
