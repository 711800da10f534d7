//! The error type of the interpreter.
use vstd::prelude::*;

use super::position::{pos_text, SourcePos};
use super::text::{chars_to_string, nat_text, push_all, push_str, str_chars, usize_text};

verus! {

/// Evaluation error type for the Scheme interpreter.
#[derive(Debug, Clone, PartialEq)]
pub enum EvalError {
    /// A syntax, type, arity or runtime error, with its full message.
    Message(String),
    /// Evaluation nested deeper than the allowed number of eval dispatches.
    StepLimitExceeded { max_steps: usize },
}

/// What an `EvalError` holds, with the message as a character sequence.
pub enum ErrorView {
    Message(Seq<char>),
    StepLimitExceeded(usize),
}

impl View for EvalError {
    type V = ErrorView;

    open spec fn view(&self) -> ErrorView {
        match self {
            EvalError::Message(m) => ErrorView::Message(m@),
            EvalError::StepLimitExceeded { max_steps } => ErrorView::StepLimitExceeded(*max_steps),
        }
    }
}

/// The text that displays an error.
pub open spec fn error_text(e: ErrorView) -> Seq<char> {
    match e {
        ErrorView::Message(m) => m,
        ErrorView::StepLimitExceeded(n) => "step limit exceeded after "@ + nat_text(n as nat)
            + " eval dispatch(es)"@,
    }
}

/// `pos: syntax error: message`
pub open spec fn syntax_error(pos: SourcePos, message: Seq<char>) -> ErrorView {
    ErrorView::Message(pos_text(pos) + ": syntax error: "@ + message)
}

/// `pos: type error: message`
pub open spec fn type_error(pos: SourcePos, message: Seq<char>) -> ErrorView {
    ErrorView::Message(pos_text(pos) + ": type error: "@ + message)
}

/// `pos: name: message`
pub open spec fn arity_error(pos: SourcePos, name: Seq<char>, message: Seq<char>) -> ErrorView {
    ErrorView::Message(pos_text(pos) + ": "@ + name + ": "@ + message)
}

/// `pos: message`
pub open spec fn error_at(pos: SourcePos, message: Seq<char>) -> ErrorView {
    ErrorView::Message(pos_text(pos) + ": "@ + message)
}

impl EvalError {
    /// An error that carries the given message.
    pub fn message(message: &str) -> (e: Self)
        ensures
            e@ == ErrorView::Message(message@),
    {
        let chars = str_chars(message);
        EvalError::Message(chars_to_string(&chars))
    }

    /// The error for evaluation that went past `max_steps` nested eval dispatches.
    pub fn step_limit_exceeded(max_steps: usize) -> (e: Self)
        ensures
            e@ == ErrorView::StepLimitExceeded(max_steps),
    {
        EvalError::StepLimitExceeded { max_steps }
    }

    /// The text that displays this error.
    pub fn display_text(&self) -> (s: String)
        ensures
            s@ == error_text(self@),
    {
        match self {
            EvalError::Message(m) => m.clone(),
            EvalError::StepLimitExceeded { max_steps } => {
                let mut r = str_chars("step limit exceeded after ");
                let digits = usize_text(*max_steps);
                push_all(&mut r, &digits);
                push_str(&mut r, " eval dispatch(es)");
                chars_to_string(&r)
            },
        }
    }

    fn with_prefix(pos: SourcePos, middle: &str, message: &[char]) -> (e: Self)
        ensures
            e@ == ErrorView::Message(pos_text(pos) + middle@ + message@),
    {
        let mut r = pos.text();
        push_str(&mut r, middle);
        push_all(&mut r, message);
        EvalError::Message(chars_to_string(&r))
    }

    pub fn syntax(pos: SourcePos, message: &[char]) -> (e: Self)
        ensures
            e@ == syntax_error(pos, message@),
    {
        Self::with_prefix(pos, ": syntax error: ", message)
    }

    pub fn type_error(pos: SourcePos, message: &[char]) -> (e: Self)
        ensures
            e@ == type_error(pos, message@),
    {
        Self::with_prefix(pos, ": type error: ", message)
    }

    pub fn arity(pos: SourcePos, name: &[char], message: &[char]) -> (e: Self)
        ensures
            e@ == arity_error(pos, name@, message@),
    {
        let mut r = pos.text();
        push_str(&mut r, ": ");
        push_all(&mut r, name);
        push_str(&mut r, ": ");
        push_all(&mut r, message);
        EvalError::Message(chars_to_string(&r))
    }

    pub fn at(pos: SourcePos, message: &[char]) -> (e: Self)
        ensures
            e@ == error_at(pos, message@),
    {
        Self::with_prefix(pos, ": ", message)
    }
}

} // verus!
