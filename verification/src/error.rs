//! The library's error type. Errors that come from an outside crate carry
//! that crate's message as text.
use vstd::prelude::*;

verus! {

/// Everything that can go wrong in Rustique.
#[derive(Debug)]
pub enum RustiqueError {
    ApiError { context: String, source: String },
    DownloadError(String),
    IoError { context: String, source: String },
    UrlParseError(String),
    VersionError { context: String, source: String },
    NoVersionFound(String),
    JsonError { context: String, source: String },
    SimpleError(String),
    ModNotZipped(String),
    ZipError { context: String, source: String },
    ConfigFileError(String),
    MalformedModInfoJson(String),
    TomlError { context: String, source: String },
}

} // verus!
