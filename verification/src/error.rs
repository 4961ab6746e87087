//! Why a search for a repository ended without one.

use crate::trust::TrustLevel;
use vstd::prelude::*;

verus! {

/// The platform's I/O error, carried from the caller's report into [`Error`]
/// untouched: nothing is known of what it holds.
#[verifier::external_type_specification]
#[verifier::external_body]
pub struct ExIoError(std::io::Error);

/// The reasons for which a search yields no repository.
#[derive(Debug)]
pub enum Error {
    /// The current working directory could not be obtained.
    CurrentDir(std::io::Error),
    /// The path to start from leads above the root, or is relative with no
    /// absolute directory to read it from.
    InvalidInput { directory: Vec<u8> },
    /// A directory could not be read, or the path is no directory.
    InaccessibleDirectory { path: Vec<u8> },
    /// Neither `path` nor any of its parents is a repository.
    NoGitRepository { path: Vec<u8> },
    /// A ceiling directory ended the search, `ceiling_height` levels above `path`.
    NoGitRepositoryWithinCeiling { path: Vec<u8>, ceiling_height: usize },
    /// The search ended at `limit`, the first directory on another file system.
    NoGitRepositoryWithinFs { path: Vec<u8>, limit: Vec<u8> },
    /// A repository was found, but none of the ceiling directories contains it.
    NoMatchingCeilingDir,
    /// Repositories were found, none of them trusted enough; `candidate` is the
    /// nearest of them.
    NoTrustedGitRepository { path: Vec<u8>, candidate: Vec<u8>, required: TrustLevel },
    /// The owner of `path` could not be determined.
    CheckTrust { path: Vec<u8>, err: std::io::Error },
}

/// An [`Error`] with its paths as sequences of bytes.
pub enum Failure {
    CurrentDir(std::io::Error),
    InvalidInput { directory: Seq<u8> },
    InaccessibleDirectory { path: Seq<u8> },
    NoGitRepository { path: Seq<u8> },
    NoGitRepositoryWithinCeiling { path: Seq<u8>, ceiling_height: nat },
    NoGitRepositoryWithinFs { path: Seq<u8>, limit: Seq<u8> },
    NoMatchingCeilingDir,
    NoTrustedGitRepository { path: Seq<u8>, candidate: Seq<u8>, required: TrustLevel },
    CheckTrust { path: Seq<u8>, err: std::io::Error },
}

impl View for Error {
    type V = Failure;

    open spec fn view(&self) -> Failure {
        match *self {
            Error::CurrentDir(err) => Failure::CurrentDir(err),
            Error::InvalidInput { directory } => Failure::InvalidInput { directory: directory@ },
            Error::InaccessibleDirectory { path } => Failure::InaccessibleDirectory { path: path@ },
            Error::NoGitRepository { path } => Failure::NoGitRepository { path: path@ },
            Error::NoGitRepositoryWithinCeiling {
                path,
                ceiling_height,
            } => Failure::NoGitRepositoryWithinCeiling {
                path: path@,
                ceiling_height: ceiling_height as nat,
            },
            Error::NoGitRepositoryWithinFs { path, limit } => Failure::NoGitRepositoryWithinFs {
                path: path@,
                limit: limit@,
            },
            Error::NoMatchingCeilingDir => Failure::NoMatchingCeilingDir,
            Error::NoTrustedGitRepository {
                path,
                candidate,
                required,
            } => Failure::NoTrustedGitRepository { path: path@, candidate: candidate@, required },
            Error::CheckTrust { path, err } => Failure::CheckTrust { path: path@, err },
        }
    }
}

} // verus!
