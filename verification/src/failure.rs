//! The failure that a command ends with.

use vstd::prelude::*;
use vstd::string::*;

use crate::text;

verus! {

/// What went wrong, and what it followed from where something else is to blame.
#[derive(Debug, Clone)]
pub struct Failure {
    pub message: String,
    pub cause: Option<String>,
}

/// The value of a [`Failure`].
pub struct FailureView {
    pub message: Seq<char>,
    pub cause: Option<Seq<char>>,
}

impl View for Failure {
    type V = FailureView;

    open spec fn view(&self) -> FailureView {
        FailureView {
            message: self.message@,
            cause: match self.cause {
                Some(cause) => Some(cause@),
                None => None,
            },
        }
    }
}

/// A failure that follows from nothing else.
pub open spec fn plain_failure(message: Seq<char>) -> FailureView {
    FailureView { message, cause: None }
}

/// A failure that follows from another.
pub open spec fn caused_failure(message: Seq<char>, cause: Seq<char>) -> FailureView {
    FailureView { message, cause: Some(cause) }
}

impl FailureView {
    /// The message with its cause.
    pub open spec fn chain(self) -> Seq<char> {
        match self.cause {
            Some(cause) => self.message + ": "@ + cause,
            None => self.message,
        }
    }
}

impl Failure {
    /// A failure that follows from nothing else.
    pub fn plain(message: &str) -> (failure: Failure)
        ensures
            failure@ == plain_failure(message@),
    {
        Failure { message: message.to_owned(), cause: None }
    }

    /// A failure that follows from another.
    pub fn caused(message: &str, cause: &str) -> (failure: Failure)
        ensures
            failure@ == caused_failure(message@, cause@),
    {
        Failure { message: message.to_owned(), cause: Some(cause.to_owned()) }
    }

    /// The message with its cause, as it is shown to the user.
    pub fn chain(&self) -> (text: String)
        ensures
            text@ == self@.chain(),
    {
        match &self.cause {
            Some(cause) => text::join(
                text::join(self.message.as_str(), ": ").as_str(),
                cause.as_str(),
            ),
            None => self.message.as_str().to_owned(),
        }
    }
}

} // verus!
