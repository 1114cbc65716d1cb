use vstd::prelude::*;
use vstd::string::StringExecFns;

verus! {

/// What can go wrong while a line is read, evaluated or differentiated.
/// Every condition is handed to the immediate caller; none ends the process.
#[derive(Clone, Copy, PartialEq, Eq, Structural, Debug)]
pub enum Error {
    /// A `)` without an earlier `(`, or a `(` that is never closed.
    MismatchedParenthesis,
    /// A variable leaf refers to a slot beyond the supplied values.
    UndefinedVariableIndex,
    /// The right operand of a division evaluated to zero.
    DivisionByZero,
    /// A power whose exponent depends on the differentiation variable.
    UnsupportedDerivative,
    /// An integer result does not fit in 64 bits.
    Overflow,
    /// `exp`, `sin`, `cos` or `sqrt` was asked of an integer.
    UnsupportedFunction,
    /// An operator finds fewer than two operands, or a line holds no operand at all.
    MissingOperand,
}

impl Error {
    /// The text of `message`.
    pub open spec fn text(self) -> Seq<char> {
        match self {
            Error::MismatchedParenthesis => "mismatched parenthesis"@,
            Error::UndefinedVariableIndex => "undefined variable index"@,
            Error::DivisionByZero => "division by zero"@,
            Error::UnsupportedDerivative => "unsupported derivative"@,
            Error::Overflow => "integer overflow"@,
            Error::UnsupportedFunction => "unsupported function"@,
            Error::MissingOperand => "missing operand"@,
        }
    }

    /// A short description for display.
    pub fn message(&self) -> (s: String)
        ensures
            s@ == self.text(),
    {
        match self {
            Error::MismatchedParenthesis => String::from_str("mismatched parenthesis"),
            Error::UndefinedVariableIndex => String::from_str("undefined variable index"),
            Error::DivisionByZero => String::from_str("division by zero"),
            Error::UnsupportedDerivative => String::from_str("unsupported derivative"),
            Error::Overflow => String::from_str("integer overflow"),
            Error::UnsupportedFunction => String::from_str("unsupported function"),
            Error::MissingOperand => String::from_str("missing operand"),
        }
    }
}

} // verus!
