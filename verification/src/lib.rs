//! Release tooling core: semantic-version bumping, tag synchronization,
//! change-range extraction, changelog composition, and platform-template
//! configuration expansion.

pub mod changelog;
pub mod config;
pub mod device;
pub mod history;
pub mod manifest;
pub mod semver;
pub mod tags;
pub mod text;

use vstd::prelude::*;

verus! {

/// Every failure this library reports.
#[derive(Debug, Clone, PartialEq, Eq)]
pub enum Error {
    /// A version string does not conform to the semantic-version grammar.
    InvalidSemver,
    /// No tag resolves to the current HEAD commit.
    NoTagOnHead,
    /// The requested tag name is not present in the tag namespace.
    TagNotFound,
    /// The requested commit range contains no commits.
    NoCommitsFound,
    /// A language name or code could not be resolved.
    InvalidLanguage,
    /// The summarization service reported or returned a failure.
    ApiCallFailed(String),
    /// The summarization service answered with no text.
    EmptyResponse,
    /// A `${NAME}` reference in a configuration value is never closed.
    UnclosedVar(String),
    /// An environment variable referenced from a configuration value is absent.
    MissingEnvVar(String),
    /// Neither an application id nor an organization to derive it from.
    MissingApplicationId,
    /// A required configuration value is empty.
    EmptyValue(String),
    /// No device matches the requested platform.
    NoMatchingDevice(String),
    /// A device index beyond the device list.
    DeviceIndexOutOfRange,
}

} // verus!
