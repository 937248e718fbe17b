//! Media access for package repositories: attaching to mirrored media,
//! providing files from them into a scratch directory, and detaching.

pub mod error;
pub mod media;
pub mod paths;
pub mod repoinfo;
pub mod repomanager;
pub mod text;
pub mod tribool;
pub mod urls;
