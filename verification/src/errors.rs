//! The kinds of failure.

use vstd::prelude::*;
use vstd::string::*;
use crate::ids::Id;
use crate::ids::IdView;

verus! {

/// Why an operation failed.
#[derive(Debug, Clone, PartialEq, Eq)]
pub enum ConstDBError {
    AlreadyExists(Id),
    NotFound(Id),
    InvalidStates(String),
    InvalidArguments(String),
}

/// The mathematical value of a [`ConstDBError`].
pub enum ErrorView {
    AlreadyExists(IdView),
    NotFound(IdView),
    InvalidStates(Seq<char>),
    InvalidArguments(Seq<char>),
}

impl ErrorView {
    /// The message an error is shown as.
    pub open spec fn text(self) -> Seq<char> {
        match self {
            ErrorView::AlreadyExists(id) => id.text() + " already exists!"@,
            ErrorView::NotFound(id) => id.text() + " not found!"@,
            ErrorView::InvalidStates(message) => message,
            ErrorView::InvalidArguments(message) => message,
        }
    }

    /// The HTTP status class an error is reported under.
    pub open spec fn status(self) -> u16 {
        match self {
            ErrorView::AlreadyExists(_) => 400,
            ErrorView::NotFound(_) => 404,
            ErrorView::InvalidStates(_) => 500,
            ErrorView::InvalidArguments(_) => 400,
        }
    }
}

impl View for ConstDBError {
    type V = ErrorView;

    open spec fn view(&self) -> ErrorView {
        match self {
            ConstDBError::AlreadyExists(id) => ErrorView::AlreadyExists(id@),
            ConstDBError::NotFound(id) => ErrorView::NotFound(id@),
            ConstDBError::InvalidStates(message) => ErrorView::InvalidStates(message@),
            ConstDBError::InvalidArguments(message) => ErrorView::InvalidArguments(message@),
        }
    }
}

impl ConstDBError {
    /// The message of the error.
    pub fn to_string(&self) -> (text: String)
        ensures
            text@ == self@.text(),
    {
        match self {
            ConstDBError::AlreadyExists(id) => {
                let mut text = id.to_string();
                text.append(" already exists!");
                text
            },
            ConstDBError::NotFound(id) => {
                let mut text = id.to_string();
                text.append(" not found!");
                text
            },
            ConstDBError::InvalidStates(message) => message.clone(),
            ConstDBError::InvalidArguments(message) => message.clone(),
        }
    }

    /// The numeric HTTP status under which the error is reported.
    pub fn http_status_code(&self) -> (code: u16)
        ensures
            code == self@.status(),
    {
        match self {
            ConstDBError::AlreadyExists(_) => 400,
            ConstDBError::NotFound(_) => 404,
            ConstDBError::InvalidStates(_) => 500,
            ConstDBError::InvalidArguments(_) => 400,
        }
    }

    /// An `InvalidStates` error whose message is `prefix` followed by `detail`.
    pub fn invalid_state(prefix: &str, detail: &str) -> (error: ConstDBError)
        ensures
            error@ == ErrorView::InvalidStates(prefix@ + detail@),
    {
        let mut message = String::from_str(prefix);
        message.append(detail);
        ConstDBError::InvalidStates(message)
    }

    /// An `InvalidArguments` error whose message is `prefix` followed by `detail`.
    pub fn invalid_argument(prefix: &str, detail: &str) -> (error: ConstDBError)
        ensures
            error@ == ErrorView::InvalidArguments(prefix@ + detail@),
    {
        let mut message = String::from_str(prefix);
        message.append(detail);
        ConstDBError::InvalidArguments(message)
    }
}

} // verus!
