//! The errors that the server core reports.

use vstd::prelude::*;
use vstd::string::StringExecFns;

verus! {

/// What went wrong while serving one request.
#[derive(Debug)]
pub enum RedisError {
    /// The byte stream failed or ended inside a frame; fatal to the connection.
    Io(String),
    /// A malformed frame or command; the message goes back to the client.
    SyntaxErr(String),
    /// A recognised command or section that has no executor yet.
    InComplete,
}

/// The mathematical value of a `RedisError`.
pub enum ErrorView {
    Io(Seq<char>),
    SyntaxErr(Seq<char>),
    InComplete,
}

pub type RedisResult<T> = Result<T, RedisError>;

impl View for RedisError {
    type V = ErrorView;

    open spec fn view(&self) -> ErrorView {
        match self {
            RedisError::Io(s) => ErrorView::Io(s@),
            RedisError::SyntaxErr(s) => ErrorView::SyntaxErr(s@),
            RedisError::InComplete => ErrorView::InComplete,
        }
    }
}

/// The text shown for an error: the description of a transport failure as it
/// is, a syntax error behind a fixed prefix, a fixed sentence otherwise.
pub open spec fn error_text(e: ErrorView) -> Seq<char> {
    match e {
        ErrorView::Io(s) => s,
        ErrorView::SyntaxErr(s) => "Syntax error! "@ + s,
        ErrorView::InComplete => "This function have not completed yet!"@,
    }
}

impl RedisError {
    /// A syntax error carrying `msg`.
    pub fn syntax_err(msg: &str) -> (e: Self)
        ensures
            e@ == ErrorView::SyntaxErr(msg@),
    {
        RedisError::SyntaxErr(String::from_str(msg))
    }

    /// The error for functionality that is recognised but not provided.
    pub fn incomplete_err() -> (e: Self)
        ensures
            e@ == ErrorView::InComplete,
    {
        RedisError::InComplete
    }

    /// A transport failure described by `msg`.
    pub fn io_err(msg: &str) -> (e: Self)
        ensures
            e@ == ErrorView::Io(msg@),
    {
        RedisError::Io(String::from_str(msg))
    }

    /// The text that is sent to a client for this error.
    pub fn to_text(&self) -> (s: String)
        ensures
            s@ == error_text(self@),
    {
        match self {
            RedisError::Io(d) => d.clone(),
            RedisError::SyntaxErr(m) => String::from_str("Syntax error! ").concat(m.as_str()),
            RedisError::InComplete => String::from_str("This function have not completed yet!"),
        }
    }
}

} // verus!
