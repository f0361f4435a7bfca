//! Storage-daemon status data: the decoded pool and drive statuses the
//! monitoring daemon derives from its tooling, and the flag word it
//! broadcasts.

use vstd::prelude::*;

use crate::text::str_eq;

verus! {

/// One sample of the monitored machine's storage state, as the daemon
/// assembles it before broadcasting.
#[derive(Clone, Copy, Debug, PartialEq, Eq, Structural, Default)]
pub struct StorageData {
    pub btrfs_backup_count: u64,
    pub btrfs_total_size: u64,
    pub btrfs_used_size: u64,
    pub dailies: u8,
    pub job_flags: u64,
    pub total_size: u64,
    pub used_size: u64,
    pub weeklies: u8,
}

/// The health of the monitored pool as a whole.
#[derive(Clone, Copy, Debug, PartialEq, Eq, Structural)]
pub enum ZPoolStatusName {
    Error,
    HardDriveError,
    Scrubbing,
    Safe,
}

/// The decoded status of the pool: its drives and the overall verdict.
#[derive(Debug)]
pub struct ZPoolStatus {
    pub hard_drive_statuses: Vec<HardDriveStatus>,
    pub status: ZPoolStatusName,
}

/// The reported state of one drive.
#[derive(Clone, Copy, Debug, PartialEq, Eq, Structural)]
pub enum HardDriveStatusName {
    Degraded,
    Faulted,
    Offline,
    Online,
    Unavailable,
}

/// One drive's decoded status line: its name, state, and error counters.
#[derive(Debug)]
pub struct HardDriveStatus {
    pub hard_drive_name: String,
    pub status: HardDriveStatusName,
    pub checksum_errors: usize,
    pub read_errors: usize,
    pub write_errors: usize,
}

/// The drive state a status word decodes to, if any.
pub open spec fn drive_status_of(s: Seq<char>) -> Option<HardDriveStatusName> {
    if s == "ONLINE"@ {
        Some(HardDriveStatusName::Online)
    } else if s == "FAULTED"@ {
        Some(HardDriveStatusName::Faulted)
    } else if s == "DEGRADED"@ {
        Some(HardDriveStatusName::Degraded)
    } else if s == "UNAVAIL"@ {
        Some(HardDriveStatusName::Unavailable)
    } else if s == "OFFLINE"@ {
        Some(HardDriveStatusName::Offline)
    } else {
        None
    }
}

impl HardDriveStatusName {
    /// Decodes a drive state word as the pool tool prints it; any other
    /// word fails.
    pub fn parse(value: &str) -> (r: Option<HardDriveStatusName>)
        ensures
            r == drive_status_of(value@),
    {
        if str_eq(value, "ONLINE") {
            Some(HardDriveStatusName::Online)
        } else if str_eq(value, "FAULTED") {
            Some(HardDriveStatusName::Faulted)
        } else if str_eq(value, "DEGRADED") {
            Some(HardDriveStatusName::Degraded)
        } else if str_eq(value, "UNAVAIL") {
            Some(HardDriveStatusName::Unavailable)
        } else if str_eq(value, "OFFLINE") {
            Some(HardDriveStatusName::Offline)
        } else {
            None
        }
    }
}

impl HardDriveStatus {
    /// Whether the drive reported any read, write or checksum errors.
    pub fn is_error(&self) -> (r: bool)
        ensures
            r == (self.checksum_errors != 0 || self.read_errors != 0 || self.write_errors != 0),
    {
        if self.checksum_errors != 0 || self.read_errors != 0 || self.write_errors != 0 {
            true
        } else {
            false
        }
    }
}

} // verus!
