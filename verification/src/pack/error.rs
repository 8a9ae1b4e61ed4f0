//! How a model-pack operation fails.

use vstd::prelude::*;
use vstd::string::*;

use crate::failure::{plain_failure, Failure, FailureView};
use crate::text;

verus! {

/// A failure that a program can act on: a stable code, a message and a hint.
#[derive(Debug, Clone)]
pub struct LifecycleError {
    pub code: String,
    pub message: String,
    pub hint: String,
}

/// The value of a [`LifecycleError`].
pub struct LifecycleErrorView {
    pub code: Seq<char>,
    pub message: Seq<char>,
    pub hint: Seq<char>,
}

impl View for LifecycleError {
    type V = LifecycleErrorView;

    open spec fn view(&self) -> LifecycleErrorView {
        LifecycleErrorView { code: self.code@, message: self.message@, hint: self.hint@ }
    }
}

/// How a model-pack operation fails.
#[derive(Debug, Clone)]
pub enum PackError {
    Lifecycle(LifecycleError),
    Failed(Failure),
}

/// The value of a [`PackError`].
pub enum PackErrorView {
    Lifecycle(LifecycleErrorView),
    Failed(FailureView),
}

impl View for PackError {
    type V = PackErrorView;

    open spec fn view(&self) -> PackErrorView {
        match self {
            PackError::Lifecycle(error) => PackErrorView::Lifecycle(error@),
            PackError::Failed(failure) => PackErrorView::Failed(failure@),
        }
    }
}

/// A failure with a code, a message and a hint.
pub open spec fn coded(code: Seq<char>, message: Seq<char>, hint: Seq<char>) -> PackErrorView {
    PackErrorView::Lifecycle(LifecycleErrorView { code, message, hint })
}

/// A failure with a message alone.
pub open spec fn uncoded(message: Seq<char>) -> PackErrorView {
    PackErrorView::Failed(plain_failure(message))
}

impl PackError {
    /// A failure with a code, a message and a hint.
    pub fn coded(code: &str, message: &str, hint: &str) -> (error: PackError)
        ensures
            error@ == coded(code@, message@, hint@),
    {
        PackError::Lifecycle(
            LifecycleError {
                code: code.to_owned(),
                message: message.to_owned(),
                hint: hint.to_owned(),
            },
        )
    }

    /// A failure with a message alone.
    pub fn uncoded(message: &str) -> (error: PackError)
        ensures
            error@ == uncoded(message@),
    {
        PackError::Failed(Failure::plain(message))
    }
}

impl PackErrorView {
    /// The message with its cause.
    pub open spec fn chain(self) -> Seq<char> {
        match self {
            PackErrorView::Lifecycle(error) => error.message,
            PackErrorView::Failed(failure) => failure.chain(),
        }
    }
}

impl PackError {
    /// The message with its cause, as it is shown to the user.
    pub fn chain(&self) -> (text: String)
        ensures
            text@ == self@.chain(),
    {
        match self {
            PackError::Lifecycle(error) => error.message.clone(),
            PackError::Failed(failure) => failure.chain(),
        }
    }
}

} // verus!
