//! What can go wrong: diagnostics of the parser and errors of an evaluation.
use vstd::prelude::*;
use vstd::string::StringExecFns;

verus! {

/// Why a source text is no program, with the index of the character at which
/// the text stopped making sense.
#[derive(Debug, Clone, Copy, PartialEq, Eq, Structural)]
pub enum ParseError {
    /// A character that starts no token.
    UnexpectedChar { offset: usize },
    /// An integer literal above `u64::MAX`.
    NumberTooLarge { offset: usize },
    /// A token that cannot stand where it stands; the end of the text counts
    /// as a token at the offset of the text's length.
    UnexpectedToken { offset: usize },
}

/// An evaluation that yields no result.
#[derive(Debug, PartialEq)]
pub enum EvalError {
    /// The source text is no program.
    ParseFailure { diagnostic: ParseError },
    /// A variable was read that has no binding.
    VariableNotFound { name: String },
    /// A sum or a product does not fit in 64 bits.
    ArithmeticOverflow,
    /// An instruction found fewer operands on the stack than it pops. Code
    /// that `compile` made of a parsed program never does this.
    StackUnderflow,
}

impl Clone for EvalError {
    /// A copy of the error: the same error.
    fn clone(&self) -> (copy: Self)
        ensures
            copy == *self,
    {
        match self {
            EvalError::ParseFailure { diagnostic } => EvalError::ParseFailure {
                diagnostic: *diagnostic,
            },
            EvalError::VariableNotFound { name } => EvalError::VariableNotFound {
                name: name.clone(),
            },
            EvalError::ArithmeticOverflow => EvalError::ArithmeticOverflow,
            EvalError::StackUnderflow => EvalError::StackUnderflow,
        }
    }
}

/// The model of an [`EvalError`], with the name as a character sequence.
pub ghost enum ErrorView {
    ParseFailure { diagnostic: ParseError },
    VariableNotFound { name: Seq<char> },
    ArithmeticOverflow,
    StackUnderflow,
}

impl View for EvalError {
    type V = ErrorView;

    open spec fn view(&self) -> ErrorView {
        match self {
            EvalError::ParseFailure { diagnostic } => ErrorView::ParseFailure {
                diagnostic: *diagnostic,
            },
            EvalError::VariableNotFound { name } => ErrorView::VariableNotFound { name: name@ },
            EvalError::ArithmeticOverflow => ErrorView::ArithmeticOverflow,
            EvalError::StackUnderflow => ErrorView::StackUnderflow,
        }
    }
}

/// The model of an evaluation's result.
pub open spec fn result_view(res: Result<Option<u64>, EvalError>) -> Result<Option<u64>, ErrorView> {
    match res {
        Ok(value) => Ok(value),
        Err(e) => Err(e@),
    }
}

/// The text that reports `error`.
pub open spec fn message_of(error: ErrorView) -> Seq<char> {
    match error {
        ErrorView::ParseFailure { .. } => "Unable to parse input."@,
        ErrorView::VariableNotFound { name } => "Variable '"@ + name + "' not found"@,
        ErrorView::ArithmeticOverflow => "overflowed"@,
        ErrorView::StackUnderflow => "Couldn't evaluate given opcodes."@,
    }
}

impl EvalError {
    /// The text that reports this error.
    pub fn message(&self) -> (text: String)
        ensures
            text@ == message_of(self@),
    {
        match self {
            EvalError::ParseFailure { .. } => String::from_str("Unable to parse input."),
            EvalError::VariableNotFound { name } => {
                let mut text = String::from_str("Variable '");
                text.append(name.as_str());
                text.append("' not found");
                text
            },
            EvalError::ArithmeticOverflow => String::from_str("overflowed"),
            EvalError::StackUnderflow => String::from_str("Couldn't evaluate given opcodes."),
        }
    }
}

} // verus!
