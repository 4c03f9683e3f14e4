//! The failures that a registry query or a single task can end in.

use vstd::prelude::*;

verus! {

/// Why a query, a resolution or a single task did not succeed.
#[derive(Clone, Copy, Debug, PartialEq, Eq, Structural)]
pub enum Error {
    /// The registry knows no such mod.
    NotFound,
    /// The registry rejected the request as malformed.
    InvalidRequest,
    /// Any other failure to get an answer from the registry.
    RegistryUnavailable,
    /// No release matches the loader and game version asked for.
    NoVersionsFound,
    /// The chosen release offers no file.
    NoFilesFound,
    /// The answer to a prompt was not the index of a listed candidate.
    InvalidSelection,
    /// A game version was named that the catalog does not list.
    InvalidPlatformVersion,
    /// Reading, writing or deleting a file failed.
    Filesystem,
}

impl Error {
    /// What `message` returns, as a sequence of characters.
    pub open spec fn spec_message(self) -> Seq<char> {
        match self {
            Error::NotFound => "Mod not found"@,
            Error::InvalidRequest => "Invalid request"@,
            Error::RegistryUnavailable => "Registry unavailable"@,
            Error::NoVersionsFound => "No mod versions found"@,
            Error::NoFilesFound => "No files found"@,
            Error::InvalidSelection => "Invalid index"@,
            Error::InvalidPlatformVersion => "Invalid game version"@,
            Error::Filesystem => "File operation failed"@,
        }
    }

    /// The text shown to the user for this failure.
    pub fn message(&self) -> (text: &'static str)
        ensures
            text@ == self.spec_message(),
    {
        match self {
            Error::NotFound => "Mod not found",
            Error::InvalidRequest => "Invalid request",
            Error::RegistryUnavailable => "Registry unavailable",
            Error::NoVersionsFound => "No mod versions found",
            Error::NoFilesFound => "No files found",
            Error::InvalidSelection => "Invalid index",
            Error::InvalidPlatformVersion => "Invalid game version",
            Error::Filesystem => "File operation failed",
        }
    }
}

} // verus!
