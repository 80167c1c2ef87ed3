//! The errors of the application.

use vstd::prelude::*;

verus! {

#[derive(Debug, Clone, PartialEq, Eq)]
pub enum AppError {
    /// A subscription could not be fetched.
    Fetch(String),
    /// A file could not be read or written.
    Io(String),
    /// A subscription holds nothing.
    EmptySubscription,
    /// A subscription could not be understood.
    SubscriptionParse(String),
    /// Something with that id does not exist.
    NotFound(String),
    /// A setting does not allow the operation.
    Config(String),
    /// The core refused the operation.
    Core(String),
}

pub enum ErrorModel {
    Fetch(Seq<char>),
    Io(Seq<char>),
    EmptySubscription,
    SubscriptionParse(Seq<char>),
    NotFound(Seq<char>),
    Config(Seq<char>),
    Core(Seq<char>),
}

impl View for AppError {
    type V = ErrorModel;

    open spec fn view(&self) -> ErrorModel {
        match self {
            AppError::Fetch(s) => ErrorModel::Fetch(s@),
            AppError::Io(s) => ErrorModel::Io(s@),
            AppError::EmptySubscription => ErrorModel::EmptySubscription,
            AppError::SubscriptionParse(s) => ErrorModel::SubscriptionParse(s@),
            AppError::NotFound(s) => ErrorModel::NotFound(s@),
            AppError::Config(s) => ErrorModel::Config(s@),
            AppError::Core(s) => ErrorModel::Core(s@),
        }
    }
}

} // verus!
