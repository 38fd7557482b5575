//! The error type shared by the compiler and the machine.

use vstd::prelude::*;
use vstd::string::StringExecFns;

verus! {

/// What kind of failure an error reports.
#[derive(Clone, Copy, Debug, PartialEq, Eq, Structural)]
pub enum ErrorKind {
    /// A statement that cannot be compiled as written.
    Syntax,
    /// A branch to a line number that the program does not define.
    Link,
    /// The program does not fit in memory.
    Resource,
    /// A fault while the machine runs.
    Runtime,
    /// The console or a file could not be read.
    Io,
}

/// An error: its kind, the source line it belongs to where there is one, and
/// the cause in words.
#[derive(Debug)]
pub struct MyError {
    pub kind: ErrorKind,
    pub line: Option<usize>,
    pub details: String,
}

/// What an error says, with the text as a sequence of characters.
pub struct ErrorView {
    pub kind: ErrorKind,
    pub line: Option<usize>,
    pub details: Seq<char>,
}

impl View for MyError {
    type V = ErrorView;

    open spec fn view(&self) -> ErrorView {
        ErrorView { kind: self.kind, line: self.line, details: self.details@ }
    }
}

/// The view of an error of kind `kind` with text `details` and no source line.
pub open spec fn error_of(kind: ErrorKind, details: Seq<char>) -> ErrorView {
    ErrorView { kind, line: None, details }
}

/// Whether `result` is what `expected` describes: the same value, or an error
/// with the same kind, line and text.
pub open spec fn agrees<T>(result: Result<T, MyError>, expected: Result<T, ErrorView>) -> bool {
    match expected {
        Ok(value) => result == Ok::<T, MyError>(value),
        Err(error) => result is Err && result->Err_0@ == error,
    }
}

impl MyError {
    /// An error of the given kind with the given text, not yet tied to a source line.
    pub fn new(kind: ErrorKind, msg: &str) -> (e: MyError)
        ensures
            e@ == error_of(kind, msg@),
    {
        MyError { kind, line: None, details: String::from_str(msg) }
    }

    /// An error of the given kind whose text is `msg` followed by `token`.
    pub fn with_token(kind: ErrorKind, msg: &str, token: &str) -> (e: MyError)
        ensures
            e@ == error_of(kind, msg@ + token@),
    {
        MyError { kind, line: None, details: String::from_str(msg).concat(token) }
    }

    /// An error of the given kind whose text is `before`, `token` and `after` in a row.
    pub fn around_token(kind: ErrorKind, before: &str, token: &str, after: &str) -> (e: MyError)
        ensures
            e@ == error_of(kind, before@ + token@ + after@),
    {
        MyError {
            kind,
            line: None,
            details: String::from_str(before).concat(token).concat(after),
        }
    }

    /// The same error, tied to source line `line`.
    pub fn at_line(self, line: usize) -> (e: MyError)
        ensures
            e@ == (ErrorView { line: Some(line), ..self@ }),
    {
        MyError { kind: self.kind, line: Some(line), details: self.details }
    }
}

} // verus!
