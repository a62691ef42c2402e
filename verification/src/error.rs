use vstd::prelude::*;

use crate::text::{chars_of, decimal, decimal_chars, string_of};

verus! {

/// Errors produced while reading FLARE definition files.
///
/// Failures of the file system are reported by the caller that performs the
/// reading; the library itself only ever reports the variants below.
#[derive(Debug, Clone, PartialEq, Eq)]
pub enum FlareError {
    FileNotFound(String),
    Parse { file: String, line: usize, message: String },
    InvalidValue { file: String, line: usize, message: String },
    RecursiveInclude(String),
    Other(String),
}

/// Mathematical model of a [`FlareError`]: every text as its characters.
pub enum ErrorV {
    FileNotFound(Seq<char>),
    Parse { file: Seq<char>, line: usize, message: Seq<char> },
    InvalidValue { file: Seq<char>, line: usize, message: Seq<char> },
    RecursiveInclude(Seq<char>),
    Other(Seq<char>),
}

impl View for FlareError {
    type V = ErrorV;

    open spec fn view(&self) -> ErrorV {
        match self {
            FlareError::FileNotFound(p) => ErrorV::FileNotFound(p@),
            FlareError::Parse { file, line, message } => ErrorV::Parse {
                file: file@,
                line: *line,
                message: message@,
            },
            FlareError::InvalidValue { file, line, message } => ErrorV::InvalidValue {
                file: file@,
                line: *line,
                message: message@,
            },
            FlareError::RecursiveInclude(p) => ErrorV::RecursiveInclude(p@),
            FlareError::Other(m) => ErrorV::Other(m@),
        }
    }
}

/// The model of a result whose error is a [`FlareError`].
pub open spec fn view_result<T: View>(r: Result<T, FlareError>) -> Result<T::V, ErrorV> {
    match r {
        Ok(v) => Ok(v@),
        Err(e) => Err(e@),
    }
}

impl FlareError {
    /// A syntax error at `line` of `file`.
    pub fn parse(file: &str, line: usize, message: &str) -> (e: Self)
        ensures
            e@ == (ErrorV::Parse { file: file@, line, message: message@ }),
    {
        FlareError::Parse {
            file: file.to_owned(),
            line,
            message: message.to_owned(),
        }
    }

    /// An invalid value at `line` of `file`.
    pub fn invalid(file: &str, line: usize, message: &str) -> (e: Self)
        ensures
            e@ == (ErrorV::InvalidValue { file: file@, line, message: message@ }),
    {
        FlareError::InvalidValue {
            file: file.to_owned(),
            line,
            message: message.to_owned(),
        }
    }
}

/// The text that describes an error.
pub open spec fn error_text(e: ErrorV) -> Seq<char> {
    match e {
        ErrorV::FileNotFound(p) => "file not found: "@ + p,
        ErrorV::Parse { file, line, message } => "parse error in "@ + file + ":"@ + decimal(
            line as nat,
        ) + ": "@ + message,
        ErrorV::InvalidValue { file, line, message } => "invalid value at "@ + file + ":"@ + decimal(
            line as nat,
        ) + ": "@ + message,
        ErrorV::RecursiveInclude(p) => "recursive INCLUDE detected for "@ + p,
        ErrorV::Other(m) => m,
    }
}

fn push_str(v: &mut Vec<char>, s: &str)
    ensures
        final(v)@ == old(v)@ + s@,
{
    let mut w = chars_of(s);
    v.append(&mut w);
}

fn push_line(v: &mut Vec<char>, line: usize)
    ensures
        final(v)@ == old(v)@ + decimal(line as nat),
{
    let mut w = decimal_chars(line as u64);
    v.append(&mut w);
}

impl FlareError {
    /// The text that describes the error.
    pub fn to_text(&self) -> (r: String)
        ensures
            r@ == error_text(self@),
    {
        let mut v: Vec<char> = Vec::new();
        match self {
            FlareError::FileNotFound(p) => {
                push_str(&mut v, "file not found: ");
                push_str(&mut v, p.as_str());
            },
            FlareError::Parse { file, line, message } => {
                push_str(&mut v, "parse error in ");
                push_str(&mut v, file.as_str());
                push_str(&mut v, ":");
                push_line(&mut v, *line);
                push_str(&mut v, ": ");
                push_str(&mut v, message.as_str());
            },
            FlareError::InvalidValue { file, line, message } => {
                push_str(&mut v, "invalid value at ");
                push_str(&mut v, file.as_str());
                push_str(&mut v, ":");
                push_line(&mut v, *line);
                push_str(&mut v, ": ");
                push_str(&mut v, message.as_str());
            },
            FlareError::RecursiveInclude(p) => {
                push_str(&mut v, "recursive INCLUDE detected for ");
                push_str(&mut v, p.as_str());
            },
            FlareError::Other(m) => {
                push_str(&mut v, m.as_str());
            },
        }
        string_of(&v)
    }
}

} // verus!
