use vstd::prelude::*;
use vstd::string::*;

verus! {

/// What went wrong while saving or loading a store.
#[derive(Debug, Clone, Copy, PartialEq, Eq, Structural)]
pub enum ErrorKind {
    ErrorNone,
    FileOpenError,
    FileWriteError,
    FileReadError,
    DataDecodeError,
}

/// An error of the persistence layer: its kind and a free-form context.
#[derive(Debug)]
pub struct RWError {
    pub kind_: ErrorKind,
    pub context_: String,
}

/// The words that describe each kind.
pub open spec fn kind_text(ek: ErrorKind) -> Seq<char> {
    match ek {
        ErrorKind::ErrorNone => ""@,
        ErrorKind::FileOpenError => "Cannot open file"@,
        ErrorKind::FileReadError => "Cannot read file"@,
        ErrorKind::FileWriteError => "Cannot write to file"@,
        ErrorKind::DataDecodeError => "Data decode error"@,
    }
}

pub fn error_kind_to_str(ek: ErrorKind) -> (r: String)
    ensures
        r@ == kind_text(ek),
{
    let text: &str = match ek {
        ErrorKind::ErrorNone => "",
        ErrorKind::FileOpenError => "Cannot open file",
        ErrorKind::FileReadError => "Cannot read file",
        ErrorKind::FileWriteError => "Cannot write to file",
        ErrorKind::DataDecodeError => "Data decode error",
    };
    String::from_str(text)
}

impl RWError {
    pub fn new(kind: ErrorKind, context: &str) -> (r: RWError)
        ensures
            r.kind_ == kind,
            r.context_@ == context@,
    {
        RWError { kind_: kind, context_: String::from_str(context) }
    }

    /// The error as one line: "<kind>, context: <context>".
    pub fn message(&self) -> (r: String)
        ensures
            r@ == kind_text(self.kind_) + ", context: "@ + self.context_@,
    {
        let s = error_kind_to_str(self.kind_);
        let s = s.concat(", context: ");
        s.concat(self.context_.as_str())
    }
}

} // verus!
