use vstd::prelude::*;

verus! {

/// The errors of the interpreter, each with its message.
#[derive(Debug)]
pub enum RispyError {
    LexError(String),
    ParseError(String),
    RuntimeError(String),
    ArityError(String),
    TypeError(String),
    UndefinedSymbol(String),
}

/// The kind of an error together with its message, as a mathematical value.
pub enum ErrorView {
    Lex(Seq<char>),
    Parse(Seq<char>),
    Runtime(Seq<char>),
    Arity(Seq<char>),
    Type(Seq<char>),
    Undefined(Seq<char>),
}

impl View for RispyError {
    type V = ErrorView;

    open spec fn view(&self) -> ErrorView {
        match self {
            RispyError::LexError(m) => ErrorView::Lex(m@),
            RispyError::ParseError(m) => ErrorView::Parse(m@),
            RispyError::RuntimeError(m) => ErrorView::Runtime(m@),
            RispyError::ArityError(m) => ErrorView::Arity(m@),
            RispyError::TypeError(m) => ErrorView::Type(m@),
            RispyError::UndefinedSymbol(m) => ErrorView::Undefined(m@),
        }
    }
}

impl ErrorView {
    /// The text the error is reported with: a heading for its kind, then its message.
    pub open spec fn report(self) -> Seq<char> {
        match self {
            ErrorView::Lex(m) => "Lexer error: "@ + m,
            ErrorView::Parse(m) => "Parse error: "@ + m,
            ErrorView::Runtime(m) => "Runtime error: "@ + m,
            ErrorView::Arity(m) => "Arity error: "@ + m,
            ErrorView::Type(m) => "Type error: "@ + m,
            ErrorView::Undefined(m) => "Undefined symbol: "@ + m,
        }
    }
}

impl RispyError {
    /// The text the error is reported with.
    pub fn message(&self) -> (s: String)
        ensures
            s@ == self@.report(),
    {
        match self {
            RispyError::LexError(m) => crate::text::join("Lexer error: ", m.as_str()),
            RispyError::ParseError(m) => crate::text::join("Parse error: ", m.as_str()),
            RispyError::RuntimeError(m) => crate::text::join("Runtime error: ", m.as_str()),
            RispyError::ArityError(m) => crate::text::join("Arity error: ", m.as_str()),
            RispyError::TypeError(m) => crate::text::join("Type error: ", m.as_str()),
            RispyError::UndefinedSymbol(m) => crate::text::join("Undefined symbol: ", m.as_str()),
        }
    }
}

impl Clone for RispyError {
    fn clone(&self) -> (r: RispyError)
        ensures
            r@ == self@,
    {
        match self {
            RispyError::LexError(m) => RispyError::LexError(m.clone()),
            RispyError::ParseError(m) => RispyError::ParseError(m.clone()),
            RispyError::RuntimeError(m) => RispyError::RuntimeError(m.clone()),
            RispyError::ArityError(m) => RispyError::ArityError(m.clone()),
            RispyError::TypeError(m) => RispyError::TypeError(m.clone()),
            RispyError::UndefinedSymbol(m) => RispyError::UndefinedSymbol(m.clone()),
        }
    }
}

} // verus!
