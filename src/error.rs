use vstd::prelude::*;

verus! {

/// Every failure of lexing, parsing or evaluation. The first one met ends the
/// whole operation.
#[derive(Clone, Copy, Debug, PartialEq, Eq, Structural)]
pub enum Error {
    /// The source text is empty.
    EmptyInput,
    /// A character that starts no token.
    UnrecognizedChar(char),
    /// An integer literal that does not fit in 32 signed bits.
    IntegerTooLarge,
    /// A token that cannot start an operand.
    ExpectedOperand,
    ExpectedRParen,
    ExpectedLParen,
    ExpectedLBrace,
    ExpectedRBrace,
    ExpectedSemi,
    ExpectedType,
    ExpectedIdentifier,
    ExpectedFunctionName,
    ExpectedArrowOrBrace,
    /// A name declared twice in one table.
    AlreadyDeclared,
    /// A name that no visible table binds.
    NotDeclared,
    /// A variable read before it was given a value.
    NotInitialized,
    /// Operands of different or non-numeric types.
    OperandTypeMismatch,
    /// An argument whose type is not the parameter's declared type.
    ArgumentTypeMismatch,
    /// A call with more or fewer arguments than parameters.
    ArgumentCount,
    /// An assignment whose left side is not a name.
    NotAssignable,
    /// An assignment whose right side has no value.
    NoValue,
    /// An operator node without its operands.
    MissingOperand,
    /// An ordering comparison, which the language does not evaluate.
    Unimplemented,
    DivisionByZero,
    Overflow,
    /// Calls nested deeper than the evaluator allows.
    CallDepthExceeded,
    /// A node that cannot be evaluated where it stands.
    UnexpectedNode,
}

impl Error {
    /// A human-readable description.
    pub fn message(&self) -> String {
        let s = match self {
            Error::EmptyInput => "Must have length",
            Error::UnrecognizedChar(_) => "Unrecognized token",
            Error::IntegerTooLarge => "Integer literal too large",
            Error::ExpectedOperand => "Expected digit, '+' , '-' , or '('",
            Error::ExpectedRParen => "Expected ')'",
            Error::ExpectedLParen => "Expected '('",
            Error::ExpectedLBrace => "Expected '{'",
            Error::ExpectedRBrace => "Expected '}'",
            Error::ExpectedSemi => "Expected SEMI",
            Error::ExpectedType => "Expected type",
            Error::ExpectedIdentifier => "Expected identifier",
            Error::ExpectedFunctionName => "Expected Function Name",
            Error::ExpectedArrowOrBrace => "Expected '->' or {",
            Error::AlreadyDeclared => "Variable already declared!",
            Error::NotDeclared => "Interpreting Error: Variable Not Declared",
            Error::NotInitialized => "Interpreting Error: Variable not initialized",
            Error::OperandTypeMismatch => "Operands must both be int or both be float",
            Error::ArgumentTypeMismatch => "Argument is of incorrect type",
            Error::ArgumentCount => "Wrong number of arguments",
            Error::NotAssignable => "Interpreting error: can't assign value to non-variable",
            Error::NoValue => "Unable to resolve r-value",
            Error::MissingOperand => "Missing operand",
            Error::Unimplemented => "UNIMPLEMENTED",
            Error::DivisionByZero => "Division by zero",
            Error::Overflow => "Integer overflow",
            Error::CallDepthExceeded => "Calls nested too deeply",
            Error::UnexpectedNode => "Interpreting Error: Unknown Token",
        };
        String::from_str(s)
    }
}

} // verus!
