use vstd::prelude::*;
use vstd::string::*;

verus! {

/// What went wrong on a connection.
#[derive(Debug, Clone, Copy, PartialEq, Eq, Structural)]
pub enum ErrorKind {
    ErrorNone,
    ParseError,
    ConnectError,
}

/// An error of the socket layer: its kind and a free-form context.
#[derive(Debug)]
pub struct SocketError {
    pub kind_: ErrorKind,
    pub context_: String,
}

/// The words that describe each kind.
pub open spec fn kind_text(ek: ErrorKind) -> Seq<char> {
    match ek {
        ErrorKind::ErrorNone => ""@,
        ErrorKind::ParseError => "Cannot parse payload"@,
        ErrorKind::ConnectError => "Cannot connect"@,
    }
}

pub fn error_kind_to_str(ek: ErrorKind) -> (r: String)
    ensures
        r@ == kind_text(ek),
{
    let text: &str = match ek {
        ErrorKind::ErrorNone => "",
        ErrorKind::ParseError => "Cannot parse payload",
        ErrorKind::ConnectError => "Cannot connect",
    };
    String::from_str(text)
}

impl SocketError {
    /// A parse error whose context is the decoder's message.
    pub fn parse(context: String) -> (r: SocketError)
        ensures
            r.kind_ == ErrorKind::ParseError,
            r.context_ == context,
    {
        SocketError { kind_: ErrorKind::ParseError, context_: context }
    }

    /// The error as one line: "<kind>, context: <context>".
    pub fn message(&self) -> (r: String)
        ensures
            r@ == kind_text(self.kind_) + ", context: "@ + self.context_@,
    {
        let s = error_kind_to_str(self.kind_);
        let s = s.concat(", context: ");
        s.concat(self.context_.as_str())
    }
}

} // verus!
