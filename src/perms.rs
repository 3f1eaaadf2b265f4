//! The permission gate on directories: a directory that the package manager
//! writes into must exist, be a directory, give its owner full access, be
//! owned by the current user and take a test write.
use vstd::prelude::*;

verus! {

/// Why a directory may not be used.
#[derive(Debug, Clone, PartialEq, Eq)]
pub enum PermissionError {
    DirectoryNotFound(String),
    InsufficientPermissions(String, u32, u32),
    NotADirectory(String),
    OwnershipCheckFailed(String),
    InvalidOwnership(String),
    AccessError(String),
}

/// What was observed of a directory.
#[derive(Debug, Clone, Copy)]
pub struct DirectoryStatus {
    pub exists: bool,
    /// Whether its metadata could be read.
    pub readable: bool,
    pub is_dir: bool,
    pub mode: u32,
    pub owner_uid: u32,
    /// Whether a test file could be written into it and removed.
    pub write_test_ok: bool,
}

/// The mode bits that the owner needs: read, write and search.
pub const REQUIRED_MODE: u32 = 0o700;

/// The outcome of the checks on a directory at `path` for the user `uid`,
/// in the order of the status fields.
pub open spec fn outcome_fits(path: Seq<char>, st: DirectoryStatus, uid: u32, r: Result<(), PermissionError>) -> bool {
    if !st.exists {
        match r {
            Err(PermissionError::DirectoryNotFound(p)) => p@ == path,
            _ => false,
        }
    } else if !st.readable {
        match r {
            Err(PermissionError::AccessError(p)) => p@ == path,
            _ => false,
        }
    } else if !st.is_dir {
        match r {
            Err(PermissionError::NotADirectory(p)) => p@ == path,
            _ => false,
        }
    } else if st.mode & REQUIRED_MODE != REQUIRED_MODE || (st.owner_uid == uid && !st.write_test_ok) {
        match r {
            Err(PermissionError::InsufficientPermissions(p, need, have)) => p@ == path && need
                == REQUIRED_MODE && have == st.mode & 0o777,
            _ => false,
        }
    } else if st.owner_uid != uid {
        match r {
            Err(PermissionError::InvalidOwnership(p)) => p@ == path,
            _ => false,
        }
    } else {
        r is Ok
    }
}

/// Checks directories against what the package manager needs of them.
#[derive(Debug, Clone, Copy)]
pub struct PermissionChecker;

impl PermissionChecker {
    /// Decides whether the directory at `path`, as observed, may be used by
    /// the user `current_uid`; the checks run in the order of the fields.
    pub fn check_directory_permissions(path: &str, st: &DirectoryStatus, current_uid: u32) -> (r: Result<(), PermissionError>)
        ensures
            outcome_fits(path@, *st, current_uid, r),
    {
        if !st.exists {
            return Err(PermissionError::DirectoryNotFound(String::from_str(path)));
        }
        if !st.readable {
            return Err(PermissionError::AccessError(String::from_str(path)));
        }
        if !st.is_dir {
            return Err(PermissionError::NotADirectory(String::from_str(path)));
        }
        if st.mode & REQUIRED_MODE != REQUIRED_MODE {
            return Err(PermissionError::InsufficientPermissions(String::from_str(path), REQUIRED_MODE, st.mode & 0o777));
        }
        if st.owner_uid != current_uid {
            return Err(PermissionError::InvalidOwnership(String::from_str(path)));
        }
        if !st.write_test_ok {
            return Err(PermissionError::InsufficientPermissions(String::from_str(path), REQUIRED_MODE, st.mode & 0o777));
        }
        Ok(())
    }
}

} // verus!
