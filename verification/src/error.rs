//! The errors that the importer reports.

use crate::text::concat3;
use vstd::prelude::*;
use vstd::string::*;

verus! {

/// Why an operation failed, in words for the user.
#[derive(Debug)]
pub enum AppError {
    /// The set-up could not be read.
    Config(String),
    /// A database could not be read or written, or holds what it must not hold.
    Database(String),
}

/// What an [`AppError`] says.
pub enum Failure {
    Config(Seq<char>),
    Database(Seq<char>),
}

impl View for AppError {
    type V = Failure;

    open spec fn view(&self) -> Failure {
        match self {
            AppError::Config(message) => Failure::Config(message@),
            AppError::Database(message) => Failure::Database(message@),
        }
    }
}

impl Failure {
    /// The message, whatever the kind of failure.
    pub open spec fn message(self) -> Seq<char> {
        match self {
            Failure::Config(message) => message,
            Failure::Database(message) => message,
        }
    }
}

impl AppError {
    /// The message for the user.
    pub fn message(&self) -> (r: &str)
        ensures
            r@ == self@.message(),
    {
        match self {
            AppError::Config(message) => message.as_str(),
            AppError::Database(message) => message.as_str(),
        }
    }

    /// The same error once more.
    pub fn duplicate(&self) -> (r: AppError)
        ensures
            r@ == self@,
    {
        match self {
            AppError::Config(message) => AppError::Config(message.clone()),
            AppError::Database(message) => AppError::Database(message.clone()),
        }
    }
}

/// A database failure whose message names a field between two fixed texts.
pub fn field_failure(before: &str, name: &str, after: &str) -> (r: AppError)
    ensures
        r@ == Failure::Database(before@ + name@ + after@),
{
    AppError::Database(concat3(before, name, after))
}

/// A database failure of a named field, followed by what another error says.
pub fn detailed_failure(name: &str, after: &str, detail: &str) -> (r: AppError)
    ensures
        r@ == Failure::Database("Hermes "@ + name@ + (after@ + detail@)),
{
    let mut rest = after.to_owned();
    rest.append(detail);
    field_failure("Hermes ", name, rest.as_str())
}

/// An outcome with its error as what the error says.
pub open spec fn viewed<T>(r: Result<T, AppError>) -> Result<T, Failure> {
    match r {
        Ok(v) => Ok(v),
        Err(e) => Err(e@),
    }
}

} // verus!
