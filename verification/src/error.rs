//! What can go wrong while the dictionaries are found and loaded.

use vstd::prelude::*;
use vstd::std_specs::convert::FromSpecImpl;

verus! {

/// `serde_json::Error`, carried through as it came.
#[verifier::external_type_specification]
#[verifier::external_body]
pub struct ExJsonError(serde_json::Error);

/// `ini::ParseError`, carried through as it came.
#[verifier::external_type_specification]
#[verifier::external_body]
pub struct ExIniParseError(ini::ParseError);

/// `std::io::Error`, carried through as it came.
#[verifier::external_type_specification]
#[verifier::external_body]
pub struct ExIoError(std::io::Error);

/// A failure to find, read or understand a dictionary or the configuration
/// that names the dictionaries.
#[derive(Debug)]
pub enum LoadError {
    /// The content is no JSON of the expected shape.
    Json(serde_json::Error),
    /// Reading failed for a reason other than a missing file.
    Io(std::io::Error),
    /// The configuration is no well-formed INI text.
    Ini(ini::ParseError),
    /// The configuration has no dictionary list in the section asked for.
    SectionMissing,
    /// No file exists at this path.
    FileNotFound(String),
    /// The home directory, the anchor of `~`, is unknown.
    HomeNotFound,
}

/// What `io::Error::kind` answers for an error: whether its kind is
/// `NotFound`, which is to say that no file was found.
pub uninterp spec fn reports_missing(error: std::io::Error) -> bool;

/// Asks `io::Error::kind` whether the error says that no file was found.
/// The contract claims no more than that the answer depends on the error
/// alone: it is `reports_missing` of it.
#[verifier::external_body]
fn is_not_found(error: &std::io::Error) -> (answer: bool)
    ensures
        answer == reports_missing(*error),
{
    error.kind() == std::io::ErrorKind::NotFound
}

impl LoadError {
    /// The failure that reading the file at `path` ended in, given whether
    /// the file was missing: a missing file is reported by its path, and any
    /// other failure by the error of the read as it came.
    pub fn read_failure(path: String, error: std::io::Error, missing: bool) -> (failure: LoadError)
        ensures
            failure == if missing {
                LoadError::FileNotFound(path)
            } else {
                LoadError::Io(error)
            },
    {
        if missing {
            LoadError::FileNotFound(path)
        } else {
            LoadError::Io(error)
        }
    }

    /// The failure that reading the file at `path` ended in: where the error
    /// says that no file was found, the missing file is reported by its
    /// path, and any other failure by the error of the read as it came.
    pub fn from_read(path: String, error: std::io::Error) -> (failure: LoadError)
        ensures
            failure == if reports_missing(error) {
                LoadError::FileNotFound(path)
            } else {
                LoadError::Io(error)
            },
    {
        let missing = is_not_found(&error);
        LoadError::read_failure(path, error, missing)
    }
}

impl From<serde_json::Error> for LoadError {
    fn from(error: serde_json::Error) -> (e: LoadError) {
        LoadError::Json(error)
    }
}

impl FromSpecImpl<serde_json::Error> for LoadError {
    open spec fn obeys_from_spec() -> bool {
        true
    }

    open spec fn from_spec(error: serde_json::Error) -> LoadError {
        LoadError::Json(error)
    }
}

impl From<ini::ParseError> for LoadError {
    fn from(error: ini::ParseError) -> (e: LoadError) {
        LoadError::Ini(error)
    }
}

impl FromSpecImpl<ini::ParseError> for LoadError {
    open spec fn obeys_from_spec() -> bool {
        true
    }

    open spec fn from_spec(error: ini::ParseError) -> LoadError {
        LoadError::Ini(error)
    }
}

impl From<std::io::Error> for LoadError {
    fn from(error: std::io::Error) -> (e: LoadError) {
        LoadError::Io(error)
    }
}

impl FromSpecImpl<std::io::Error> for LoadError {
    open spec fn obeys_from_spec() -> bool {
        true
    }

    open spec fn from_spec(error: std::io::Error) -> LoadError {
        LoadError::Io(error)
    }
}

} // verus!
