//! Errors of the configuration, the per-user repositories, package
//! manifests and installations.
use vstd::prelude::*;

verus! {

/// Why the configuration could not be read, written or accepted.
#[derive(Debug, Clone, PartialEq, Eq)]
pub enum ConfigError {
    ReadError(String),
    ParseError(String),
    SerializeError(String),
    ValidationError(String),
}

/// Why an operation on a user's repository failed.
#[derive(Debug, Clone, PartialEq, Eq)]
pub enum RepositoryError {
    IoError(String),
    AlreadyExists(String),
    NotFound(String),
    InvalidPath(String),
    PermissionDenied(String),
    InitializationError(String),
}

/// Why a package manifest could not be read or accepted.
#[derive(Debug, Clone, PartialEq, Eq)]
pub enum PackageError {
    ReadError(String),
    ParseError(String),
    SerializeError(String),
    ValidationError(String),
}

/// Why an installation failed.
#[derive(Debug, Clone, PartialEq, Eq)]
pub enum InstallationError {
    PackageNotFound(String),
    VersionNotFound(String, String),
    DependencyResolutionFailed(String),
    InstallationFailed(String),
    IoError(String),
    RepositoryError(RepositoryError),
}

} // verus!
