//! What can go wrong while the next version is worked out.

use vstd::prelude::*;
use vstd::string::*;

verus! {

/// The failures of the library. Each ends the work at hand: none is retried.
#[derive(Debug, Clone, PartialEq, Eq)]
pub enum Error {
    /// Reading or writing failed; the text says how.
    Io(String),
    /// The repository could not be opened or queried; the text says how.
    Git(String),
    /// No tag under the prefix is a semantic version.
    NoTagFound,
    /// The increment asked for is `NONE`: there is no next version.
    NoVersionChange,
}

pub type Result<T> = std::result::Result<T, Error>;

impl Error {
    /// The one line that tells a user of the failure.
    pub open spec fn message(self) -> Seq<char> {
        match self {
            Error::Io(detail) => "IO: "@ + detail@,
            Error::Git(detail) => "Git: "@ + detail@,
            Error::NoTagFound => "No valid tag found"@,
            Error::NoVersionChange => "No change in version"@,
        }
    }

    /// The one line that tells a user of the failure.
    pub fn to_string(&self) -> (line: String)
        ensures
            line@ == self.message(),
    {
        match self {
            Error::Io(detail) => {
                let mut line = String::from_str("IO: ");
                line.append(detail.as_str());
                line
            },
            Error::Git(detail) => {
                let mut line = String::from_str("Git: ");
                line.append(detail.as_str());
                line
            },
            Error::NoTagFound => String::from_str("No valid tag found"),
            Error::NoVersionChange => String::from_str("No change in version"),
        }
    }
}

} // verus!
