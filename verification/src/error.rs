//! The error every command ends in.
use vstd::prelude::*;

verus! {

/// Why a command did not do what it was asked.
#[derive(Debug, Clone)]
pub enum Error {
    /// A rule refuses the request.
    Rejected(String),
    /// A document or an answer does not have the shape it must have.
    Invalid { code: &'static str, message: String },
    /// The daemon's own state is not what it should be.
    Internal(String),
}

impl Error {
    /// An [`Error::Invalid`] with a code and a message.
    pub open spec fn says(&self, code: Seq<char>, message: Seq<char>) -> bool {
        *self is Invalid && self->code@ == code && self->message@ == message
    }

    pub open spec fn text(&self) -> Seq<char> {
        match *self {
            Error::Rejected(m) => m@,
            Error::Invalid { code, message } => message@,
            Error::Internal(m) => m@,
        }
    }

    /// What the error says.
    pub fn message(&self) -> (r: &str)
        ensures
            r@ == self.text(),
    {
        match self {
            Error::Rejected(m) => m.as_str(),
            Error::Invalid { code, message } => message.as_str(),
            Error::Internal(m) => m.as_str(),
        }
    }

    /// The code of an [`Error::Invalid`].
    pub fn code(&self) -> (r: Option<&'static str>)
        ensures
            r == match *self {
                Error::Invalid { code, message } => Some(code),
                _ => None,
            },
    {
        match self {
            Error::Invalid { code, message } => Some(*code),
            _ => None,
        }
    }
}

} // verus!
