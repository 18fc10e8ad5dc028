//! The ways in which a command fails.

use vstd::prelude::*;

use crate::version_key::{KeyModel, ParseError, VersionKey};

verus! {

/// Why a command did not do its work.
#[derive(Debug)]
pub enum Failure {
    /// The candidate could not be run at all.
    NotRunnable,
    /// The candidate ran and reported failure: it is no interpreter.
    InvalidInstallation,
    /// The candidate's output is not the record that was asked for.
    MalformedOutput,
    /// A text that should be a version key is none.
    MalformedKey(ParseError),
    /// The caller's policy refused the key.
    Rejected(VersionKey),
    /// Something already stands where the key's target belongs.
    Occupied(VersionKey),
    /// Neither a link nor a shim could be made.
    LinkFailed,
    /// Reading or changing the managed directory failed.
    Io,
}

/// The mathematical value of a [`Failure`].
pub enum FailureModel {
    NotRunnable,
    InvalidInstallation,
    MalformedOutput,
    MalformedKey(ParseError),
    Rejected(KeyModel),
    Occupied(KeyModel),
    LinkFailed,
    Io,
}

/// The classes of failure.
#[derive(Debug, PartialEq, Eq, Structural, Clone, Copy)]
pub enum ErrorKind {
    Execution,
    Parse,
    Validation,
    Conflict,
    Link,
    Io,
}

impl View for Failure {
    type V = FailureModel;

    open spec fn view(&self) -> FailureModel {
        match self {
            Failure::NotRunnable => FailureModel::NotRunnable,
            Failure::InvalidInstallation => FailureModel::InvalidInstallation,
            Failure::MalformedOutput => FailureModel::MalformedOutput,
            Failure::MalformedKey(e) => FailureModel::MalformedKey(*e),
            Failure::Rejected(k) => FailureModel::Rejected(k@),
            Failure::Occupied(k) => FailureModel::Occupied(k@),
            Failure::LinkFailed => FailureModel::LinkFailed,
            Failure::Io => FailureModel::Io,
        }
    }
}

/// The class of a failure.
pub open spec fn kind_of(f: FailureModel) -> ErrorKind {
    match f {
        FailureModel::NotRunnable | FailureModel::InvalidInstallation => ErrorKind::Execution,
        FailureModel::MalformedOutput | FailureModel::MalformedKey(_) => ErrorKind::Parse,
        FailureModel::Rejected(_) => ErrorKind::Validation,
        FailureModel::Occupied(_) => ErrorKind::Conflict,
        FailureModel::LinkFailed => ErrorKind::Link,
        FailureModel::Io => ErrorKind::Io,
    }
}

impl Failure {
    /// The class of this failure.
    pub fn kind(&self) -> (r: ErrorKind)
        ensures
            r == kind_of(self@),
    {
        match self {
            Failure::NotRunnable | Failure::InvalidInstallation => ErrorKind::Execution,
            Failure::MalformedOutput | Failure::MalformedKey(_) => ErrorKind::Parse,
            Failure::Rejected(_) => ErrorKind::Validation,
            Failure::Occupied(_) => ErrorKind::Conflict,
            Failure::LinkFailed => ErrorKind::Link,
            Failure::Io => ErrorKind::Io,
        }
    }
}

} // verus!
