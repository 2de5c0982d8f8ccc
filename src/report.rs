//! The health report that a device sends.

use vstd::prelude::*;

use std::collections::HashMap;

use crate::table::UpdateTable;
use crate::values::{ObjectHash, SemVer};

verus! {

/// One snapshot of a device's health.
#[derive(Clone, Debug)]
pub struct ReportData {
    /// Registry packages installed with `cargo install` that need an update,
    /// or `None` where `cargo install-update` is not available.
    pub cargo_updates: Option<UpdateTable<SemVer>>,
    /// The same for packages installed from git.
    pub cargo_updates_git: Option<UpdateTable<ObjectHash>>,
    /// Whether the keyword that the system log is searched for was found.
    pub cron_apt: bool,
    pub diskspace_total: u64,
    pub diskspace_free: u64,
    pub inodes_total: u64,
    pub inodes_free: u64,
    /// The status that the reboot-required advisory tool reported, if any.
    pub needrestart: Option<u8>,
    /// Stale configuration files, by path, each with a flag.
    pub oldconffiles: HashMap<String, bool>,
}

} // verus!
