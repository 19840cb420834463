//! What can go wrong.

use vstd::prelude::*;

use crate::text::compose::cat2;

verus! {

/// An error of the library.
#[derive(Debug)]
pub enum Error {
    /// The configuration does not make sense.
    Config(String),
    /// A test run that does not exist was asked for.
    TestRunNotFound(String),
    /// There is no repository at a path.
    RepositoryNotFound(String),
    /// There already is a repository at a path.
    RepositoryExists(String),
    /// A command could not be run.
    CommandExecution(String),
    /// Anything else.
    Other(String),
}

/// The result of what can go wrong.
pub type Result<T> = core::result::Result<T, Error>;

/// An error with its texts as character sequences.
pub enum Failure {
    /// See [`Error::Config`].
    Config(Seq<char>),
    /// See [`Error::TestRunNotFound`].
    TestRunNotFound(Seq<char>),
    /// See [`Error::RepositoryNotFound`].
    RepositoryNotFound(Seq<char>),
    /// See [`Error::RepositoryExists`].
    RepositoryExists(Seq<char>),
    /// See [`Error::CommandExecution`].
    CommandExecution(Seq<char>),
    /// See [`Error::Other`].
    Other(Seq<char>),
}

impl View for Error {
    type V = Failure;

    open spec fn view(&self) -> Failure {
        match self {
            Error::Config(s) => Failure::Config(s@),
            Error::TestRunNotFound(s) => Failure::TestRunNotFound(s@),
            Error::RepositoryNotFound(s) => Failure::RepositoryNotFound(s@),
            Error::RepositoryExists(s) => Failure::RepositoryExists(s@),
            Error::CommandExecution(s) => Failure::CommandExecution(s@),
            Error::Other(s) => Failure::Other(s@),
        }
    }
}

/// The text that describes a failure.
pub open spec fn failure_text(f: Failure) -> Seq<char> {
    match f {
        Failure::Config(s) => "Configuration error: "@ + s,
        Failure::TestRunNotFound(s) => "Test run not found: "@ + s,
        Failure::RepositoryNotFound(s) => "Repository not found: "@ + s,
        Failure::RepositoryExists(s) => "Repository already exists: "@ + s,
        Failure::CommandExecution(s) => "Command execution failed: "@ + s,
        Failure::Other(s) => s,
    }
}

impl Error {
    /// The same error once more.
    pub fn copy(&self) -> (r: Error)
        ensures
            r@ == self@,
    {
        match self {
            Error::Config(s) => Error::Config(s.clone()),
            Error::TestRunNotFound(s) => Error::TestRunNotFound(s.clone()),
            Error::RepositoryNotFound(s) => Error::RepositoryNotFound(s.clone()),
            Error::RepositoryExists(s) => Error::RepositoryExists(s.clone()),
            Error::CommandExecution(s) => Error::CommandExecution(s.clone()),
            Error::Other(s) => Error::Other(s.clone()),
        }
    }

    /// The text that describes the error.
    pub fn message(&self) -> (s: String)
        ensures
            s@ == failure_text(self@),
    {
        match self {
            Error::Config(s) => cat2("Configuration error: ", s.as_str()),
            Error::TestRunNotFound(s) => cat2("Test run not found: ", s.as_str()),
            Error::RepositoryNotFound(s) => cat2("Repository not found: ", s.as_str()),
            Error::RepositoryExists(s) => cat2("Repository already exists: ", s.as_str()),
            Error::CommandExecution(s) => cat2("Command execution failed: ", s.as_str()),
            Error::Other(s) => s.clone(),
        }
    }
}

/// A result with the error as a [`Failure`].
pub open spec fn outcome<T>(r: Result<T>) -> core::result::Result<T, Failure> {
    match r {
        Ok(v) => Ok(v),
        Err(e) => Err(e@),
    }
}

/// A result with both sides as their views.
pub open spec fn outcome_view<T: View>(r: Result<T>) -> core::result::Result<T::V, Failure> {
    match r {
        Ok(v) => Ok(v@),
        Err(e) => Err(e@),
    }
}

} // verus!
