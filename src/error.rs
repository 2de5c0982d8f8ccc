//! Why checking for updates failed.

use vstd::prelude::*;

verus! {

#[verifier::external_type_specification]
#[verifier::external_body]
pub struct ExSemverError(semver::Error);

#[verifier::external_type_specification]
#[verifier::external_body]
pub struct ExHashDecodeError(gix_hash::decode::Error);

/// A failed update check.
#[derive(Debug)]
pub enum CargoUpdateCheckError {
    /// A commit hash in the git table is not 40 hexadecimal digits.
    GitHash(gix_hash::decode::Error),
    /// A version in the registry table is not a semantic version.
    SemVer(semver::Error),
    /// The listing command exited unsuccessfully, with this status code if it
    /// had one.
    CommandExit(Option<i32>),
    /// A table listed one package twice as needing an update.
    DuplicatePackage,
    /// The listing ended before a table header was found.
    MissingTableHeader,
    /// The last column of a row was neither `Yes` nor `No`.
    NeedsUpdate,
    /// A row could not be split at the widths of the header's columns.
    SplitAtWidth,
    /// A version in the registry table did not start with `v`.
    VersionPrefix,
}

/// The kind of a failure, without the outside error values that some carry.
pub enum Fault {
    GitHash,
    SemVer,
    CommandExit(Option<i32>),
    DuplicatePackage,
    MissingTableHeader,
    NeedsUpdate,
    SplitAtWidth,
    VersionPrefix,
}

impl CargoUpdateCheckError {
    pub open spec fn fault(&self) -> Fault {
        match self {
            CargoUpdateCheckError::GitHash(_) => Fault::GitHash,
            CargoUpdateCheckError::SemVer(_) => Fault::SemVer,
            CargoUpdateCheckError::CommandExit(code) => Fault::CommandExit(*code),
            CargoUpdateCheckError::DuplicatePackage => Fault::DuplicatePackage,
            CargoUpdateCheckError::MissingTableHeader => Fault::MissingTableHeader,
            CargoUpdateCheckError::NeedsUpdate => Fault::NeedsUpdate,
            CargoUpdateCheckError::SplitAtWidth => Fault::SplitAtWidth,
            CargoUpdateCheckError::VersionPrefix => Fault::VersionPrefix,
        }
    }
}

} // verus!
