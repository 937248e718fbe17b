//! The errors of the library.

use vstd::prelude::*;
use vstd::string::StringExecFns;
use crate::media::MediaError;
use crate::repoinfo::Error as RepoInfoError;

verus! {

/// A package that the pool does not know.
#[derive(Clone, Debug, PartialEq, Eq)]
pub struct UnknownPackage {
    msg: String,
}

impl UnknownPackage {
    /// What is told about the package.
    pub closed spec fn msg(&self) -> Seq<char> {
        self.msg@
    }

    /// The error with `msg` as what is told about the package.
    pub fn new(msg: String) -> (e: UnknownPackage)
        ensures
            e.msg() == msg@,
    {
        UnknownPackage { msg }
    }

    /// The message of this error as a spec value.
    pub open spec fn spec_message(&self) -> Seq<char> {
        "Some message - "@ + self.msg()
    }

    /// The message of this error.
    pub fn to_string(&self) -> (text: String)
        ensures
            text@ == self.spec_message(),
    {
        String::from_str("Some message - ").concat(self.msg.as_str())
    }
}

/// What can go wrong in the pool.
#[derive(Clone, Debug, PartialEq, Eq)]
pub enum PoolError {
    UnknownPackage(UnknownPackage),
}

impl PoolError {
    /// The message of this error as a spec value: that of what it wraps.
    pub open spec fn spec_message(&self) -> Seq<char> {
        match self {
            PoolError::UnknownPackage(e) => e.spec_message(),
        }
    }

    /// The message of this error.
    pub fn to_string(&self) -> (text: String)
        ensures
            text@ == self.spec_message(),
    {
        match self {
            PoolError::UnknownPackage(e) => e.to_string(),
        }
    }
}

impl From<UnknownPackage> for PoolError {
    fn from(source: UnknownPackage) -> (e: PoolError) {
        PoolError::UnknownPackage(source)
    }
}

impl vstd::std_specs::convert::FromSpecImpl<UnknownPackage> for PoolError {
    open spec fn obeys_from_spec() -> bool {
        true
    }

    open spec fn from_spec(source: UnknownPackage) -> PoolError {
        PoolError::UnknownPackage(source)
    }
}

/// An error of a repository within a repository.
#[derive(Clone, Copy, Debug, PartialEq, Eq)]
pub enum SubRepoError {
    TotallyUselessError,
}

impl SubRepoError {
    /// The message of this error as a spec value.
    pub open spec fn spec_message(&self) -> Seq<char> {
        "Even more nested repo error thingy"@
    }

    /// The message of this error.
    pub fn to_string(&self) -> (text: String)
        ensures
            text@ == self.spec_message(),
    {
        String::from_str("Even more nested repo error thingy")
    }
}

/// Any error of the library, by the part that it comes from.
#[allow(inconsistent_fields)]
#[derive(Clone, Debug, PartialEq, Eq)]
pub enum ZyppError {
    /// Media access failed.
    Media { source: MediaError },
    /// The pool failed.
    Pool { source: PoolError },
    /// A repository description is wrong.
    Repo { source: RepoInfoError },
    /// The file system failed; `source` is what it said.
    IoError { source: String },
    Unknown,
}

impl ZyppError {
    /// The message of this error as a spec value.
    pub open spec fn spec_message(&self) -> Seq<char> {
        match self {
            ZyppError::Media { source } => "Media Error - "@ + source.spec_message(),
            ZyppError::Pool { source } => "Pool Error - "@ + source.spec_message(),
            ZyppError::Repo { source } => "Repo Error - "@ + source.spec_message(),
            ZyppError::IoError { source } => "IO Error - "@ + source@,
            ZyppError::Unknown => "unknown error"@,
        }
    }

    /// The message of this error.
    pub fn to_string(&self) -> (text: String)
        ensures
            text@ == self.spec_message(),
    {
        match self {
            ZyppError::Media { source } => String::from_str("Media Error - ").concat(
                source.to_string().as_str(),
            ),
            ZyppError::Pool { source } => String::from_str("Pool Error - ").concat(
                source.to_string().as_str(),
            ),
            ZyppError::Repo { source } => String::from_str("Repo Error - ").concat(
                source.to_string().as_str(),
            ),
            ZyppError::IoError { source } => String::from_str("IO Error - ").concat(
                source.as_str(),
            ),
            ZyppError::Unknown => String::from_str("unknown error"),
        }
    }
}

impl From<MediaError> for ZyppError {
    fn from(source: MediaError) -> (e: ZyppError) {
        ZyppError::Media { source }
    }
}

impl vstd::std_specs::convert::FromSpecImpl<MediaError> for ZyppError {
    open spec fn obeys_from_spec() -> bool {
        true
    }

    open spec fn from_spec(source: MediaError) -> ZyppError {
        ZyppError::Media { source }
    }
}

impl From<PoolError> for ZyppError {
    fn from(source: PoolError) -> (e: ZyppError) {
        ZyppError::Pool { source }
    }
}

impl vstd::std_specs::convert::FromSpecImpl<PoolError> for ZyppError {
    open spec fn obeys_from_spec() -> bool {
        true
    }

    open spec fn from_spec(source: PoolError) -> ZyppError {
        ZyppError::Pool { source }
    }
}

impl From<RepoInfoError> for ZyppError {
    fn from(source: RepoInfoError) -> (e: ZyppError) {
        ZyppError::Repo { source }
    }
}

impl vstd::std_specs::convert::FromSpecImpl<RepoInfoError> for ZyppError {
    open spec fn obeys_from_spec() -> bool {
        true
    }

    open spec fn from_spec(source: RepoInfoError) -> ZyppError {
        ZyppError::Repo { source }
    }
}

} // verus!
