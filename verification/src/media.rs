//! Access to media: descriptions of media and files, the HTTP driver's
//! state, and the manager that routes requests to drivers.

use vstd::prelude::*;
use vstd::string::StringExecFns;

pub mod drivers;
pub mod manager;
pub mod spec;

verus! {

/// What can go wrong while a medium is attached or a file is provided.
#[derive(Clone, Debug, PartialEq, Eq)]
pub enum MediaError {
    /// Every mirror was tried and none delivered the file.
    FileNotFound,
    /// The requested path has no file name.
    NotAFile,
    /// The target directory exists and is no directory.
    FileExists,
    /// The attachment or driver that a handle names is gone.
    InvalidHandle,
    /// A text is no URL.
    InvalidUrl,
    /// A path cannot be made part of a URL.
    InvalidPath,
    /// No driver handles the scheme of any mirror.
    NoDriverFound,
    /// The worker's queue is closed or its reply was lost.
    WorkerBroken(String),
    /// The transport failed on the current mirror.
    HttpError { source: String },
    /// A lock was poisoned, or the file system refused an operation.
    Internal(String),
}

/// The mathematical value of a [`MediaError`].
pub enum MediaErrorView {
    FileNotFound,
    NotAFile,
    FileExists,
    InvalidHandle,
    InvalidUrl,
    InvalidPath,
    NoDriverFound,
    WorkerBroken(Seq<char>),
    HttpError { source: Seq<char> },
    Internal(Seq<char>),
}

impl View for MediaError {
    type V = MediaErrorView;

    open spec fn view(&self) -> MediaErrorView {
        match *self {
            MediaError::FileNotFound => MediaErrorView::FileNotFound,
            MediaError::NotAFile => MediaErrorView::NotAFile,
            MediaError::FileExists => MediaErrorView::FileExists,
            MediaError::InvalidHandle => MediaErrorView::InvalidHandle,
            MediaError::InvalidUrl => MediaErrorView::InvalidUrl,
            MediaError::InvalidPath => MediaErrorView::InvalidPath,
            MediaError::NoDriverFound => MediaErrorView::NoDriverFound,
            MediaError::WorkerBroken(reason) => MediaErrorView::WorkerBroken(reason@),
            MediaError::HttpError { source } => MediaErrorView::HttpError { source: source@ },
            MediaError::Internal(message) => MediaErrorView::Internal(message@),
        }
    }
}

/// The mathematical value of an error that may be absent.
pub open spec fn opt_error_view(e: Option<MediaError>) -> Option<MediaErrorView> {
    match e {
        Some(e) => Some(e@),
        None => None,
    }
}

impl MediaError {
    /// The message of this error as a spec value.
    pub open spec fn spec_message(self) -> Seq<char> {
        match self {
            MediaError::FileNotFound => "The file was not found"@,
            MediaError::NotAFile => "The given path is not a file"@,
            MediaError::FileExists => "The file did exist already"@,
            MediaError::InvalidHandle => "Invalid media handle"@,
            MediaError::InvalidUrl => "Failed to parse given URL"@,
            MediaError::InvalidPath => "Given Path was invalid"@,
            MediaError::NoDriverFound => "Could not find a valid driver for the given Mirros"@,
            MediaError::WorkerBroken(reason) => "Communication with worker task broke: "@
                + reason@,
            MediaError::HttpError { source } => "Http Error - "@ + source@,
            MediaError::Internal(message) => "Internal error - "@ + message@,
        }
    }

    /// The message of this error.
    pub fn to_string(&self) -> (text: String)
        ensures
            text@ == self.spec_message(),
    {
        match self {
            MediaError::FileNotFound => String::from_str("The file was not found"),
            MediaError::NotAFile => String::from_str("The given path is not a file"),
            MediaError::FileExists => String::from_str("The file did exist already"),
            MediaError::InvalidHandle => String::from_str("Invalid media handle"),
            MediaError::InvalidUrl => String::from_str("Failed to parse given URL"),
            MediaError::InvalidPath => String::from_str("Given Path was invalid"),
            MediaError::NoDriverFound => String::from_str(
                "Could not find a valid driver for the given Mirros",
            ),
            MediaError::WorkerBroken(reason) => String::from_str(
                "Communication with worker task broke: ",
            ).concat(reason.as_str()),
            MediaError::HttpError { source } => String::from_str("Http Error - ").concat(
                source.as_str(),
            ),
            MediaError::Internal(message) => String::from_str("Internal error - ").concat(
                message.as_str(),
            ),
        }
    }
}

} // verus!
