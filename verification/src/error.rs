//! One error type for every stage, each carrying enough to point at the problem.
use vstd::prelude::*;
use crate::text::int_text;
use crate::text::uint_to_string;

verus! {

/// The result of a stage of the pipeline.
pub type Result<T> = std::result::Result<T, Error>;

#[derive(Debug, Clone, PartialEq)]
pub enum Error {
    Lex { msg: String, line: usize },
    Parse { msg: String, line: usize },
    Type(String),
    Runtime(String),
}

/// Model of an [`Error`].
pub enum SError {
    Lex { msg: Seq<char>, line: nat },
    Parse { msg: Seq<char>, line: nat },
    Type(Seq<char>),
    Runtime(Seq<char>),
}

impl View for Error {
    type V = SError;

    open spec fn view(&self) -> SError {
        match self {
            Error::Lex { msg, line } => SError::Lex { msg: msg@, line: *line as nat },
            Error::Parse { msg, line } => SError::Parse { msg: msg@, line: *line as nat },
            Error::Type(m) => SError::Type(m@),
            Error::Runtime(m) => SError::Runtime(m@),
        }
    }
}

/// The model of a result whose success value is modelled by `f`.
pub open spec fn result_view<T, V>(r: Result<T>, f: spec_fn(T) -> V) -> std::result::Result<V, SError> {
    match r {
        Ok(t) => Ok(f(t)),
        Err(e) => Err(e@),
    }
}

/// The text of an error, as `Error::display` writes it.
pub open spec fn error_text(e: SError) -> Seq<char> {
    match e {
        SError::Lex { msg, line } => "lex error (line "@ + int_text(line as int) + "): "@ + msg,
        SError::Parse { msg, line } => "parse error (line "@ + int_text(line as int) + "): "@ + msg,
        SError::Type(msg) => "type error: "@ + msg,
        SError::Runtime(msg) => "runtime error: "@ + msg,
    }
}

impl Error {
    /// The text of this error (`lex error (line N): ...`, `type error: ...`, ...).
    pub fn display(&self) -> (s: String)
        ensures
            s@ == error_text(self@),
    {
        match self {
            Error::Lex { msg, line } => {
                let mut s = String::from_str("lex error (line ");
                let l = line_text(*line);
                s.append(l.as_str());
                s.append("): ");
                s.append(msg.as_str());
                s
            },
            Error::Parse { msg, line } => {
                let mut s = String::from_str("parse error (line ");
                let l = line_text(*line);
                s.append(l.as_str());
                s.append("): ");
                s.append(msg.as_str());
                s
            },
            Error::Type(msg) => {
                let mut s = String::from_str("type error: ");
                s.append(msg.as_str());
                s
            },
            Error::Runtime(msg) => {
                let mut s = String::from_str("runtime error: ");
                s.append(msg.as_str());
                s
            },
        }
    }
}

fn line_text(line: usize) -> (s: String)
    ensures
        s@ == int_text(line as int),
{
    uint_to_string(line as u64)
}

} // verus!
