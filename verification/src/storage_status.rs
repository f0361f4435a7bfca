//! Storage-monitor status data: the job-status flag set the daemon
//! broadcasts, the decoded pool and drive statuses on the daemon's side, and
//! the client-side status display.

use vstd::prelude::*;

verus! {

/// Job-status flags, one bit each, as broadcast by the storage daemon.
pub const IDLE: u64 = 0;

pub const GENERAL_ERROR: u64 = 1;

pub const SYNCING_GITHUB: u64 = 2;

pub const ZPOOL_ERROR: u64 = 4;

pub const ZPOOL_HARD_DRIVE_RW_ERROR: u64 = 8;

pub const ZPOOL_HARD_DRIVE_STATE_ERROR: u64 = 16;

pub const ZPOOL_SCRUBBING: u64 = 32;

pub const WRITING_BTRBK: u64 = 64;

/// The bits that name a defined flag.
pub const ALL_FLAGS: u64 = 127;

/// Whether a flag set contains every bit of the given flag.
pub open spec fn flags_contain(bits: u64, flag: u64) -> bool {
    bits & flag == flag
}

/// Whether a flag set holds only defined flags.
pub open spec fn flags_valid(bits: u64) -> bool {
    bits & !ALL_FLAGS == 0
}

/// Tests one flag of a flag set.
pub fn contains_flag(bits: u64, flag: u64) -> (r: bool)
    ensures
        r == flags_contain(bits, flag),
{
    bits & flag == flag
}

/// Whether a received flag word holds only defined flags.
pub fn valid_flags(bits: u64) -> (r: bool)
    ensures
        r == flags_valid(bits),
{
    bits & !ALL_FLAGS == 0
}

/// One status broadcast of the storage daemon, decoded on the client.
#[derive(Clone, Copy, Debug, PartialEq, Eq, Structural, Default)]
pub struct StorageData {
    pub btrfs_backup_count: u64,
    pub btrfs_total_size: u64,
    pub btrfs_used_size: u64,
    pub job_flags: u64,
    pub total_size: u64,
    pub used_size: u64,
}

/// A status update of the storage monitor.
#[derive(Clone, Copy, Debug, PartialEq, Eq, Structural)]
pub enum StorageMessage {
    Update { data: StorageData },
}

/// The client-side storage view: the latest broadcast, if any arrived yet,
/// and an animation step for the trailing dots of a busy status.
pub struct Storage {
    pub data: Option<StorageData>,
    pub ellipses: usize,
}

/// The words a status line starts with, by the highest-priority flag set:
/// flags are examined in a fixed order and the first set flag names the
/// status; a busy status gets trailing dots.
pub open spec fn status_text_spec(data: Option<StorageData>, dots: Seq<char>) -> Seq<char> {
    match data {
        Option::None => "Not connected"@,
        Option::Some(d) => {
            if flags_contain(d.job_flags, GENERAL_ERROR) {
                "Error"@
            } else if flags_contain(d.job_flags, SYNCING_GITHUB) {
                "Syncing GitHub to backup"@ + dots
            } else if flags_contain(d.job_flags, ZPOOL_ERROR) {
                "ZPool error"@
            } else if flags_contain(d.job_flags, ZPOOL_HARD_DRIVE_RW_ERROR) {
                "Hard drive r/w/c error"@
            } else if flags_contain(d.job_flags, ZPOOL_HARD_DRIVE_STATE_ERROR) {
                "Hard drive error"@
            } else if flags_contain(d.job_flags, ZPOOL_SCRUBBING) {
                "Scrubbing"@ + dots
            } else if flags_contain(d.job_flags, WRITING_BTRBK) {
                "Writing btrfs backup"@ + dots
            } else {
                "Idle"@
            }
        },
    }
}

/// A row of dots, at least one and at most four.
pub open spec fn dots_spec(ellipses: int) -> Seq<char> {
    if ellipses >= 3 {
        "...."@
    } else if ellipses == 2 {
        "..."@
    } else if ellipses == 1 {
        ".."@
    } else {
        "."@
    }
}

impl Storage {
    /// A storage view that has not received a broadcast yet.
    pub fn new() -> (r: Storage)
        ensures
            r.data is None,
            r.ellipses == 0,
    {
        Storage { data: None, ellipses: 0 }
    }

    /// The line the storage view displays: the name of the first set flag in
    /// display order, with trailing dots while a job runs, or a
    /// not-connected notice before the first broadcast.
    pub fn status_text(&self) -> (r: String)
        ensures
            r@ == status_text_spec(self.data, dots_spec(self.ellipses as int)),
    {
        let dots: &str = if self.ellipses >= 3 {
            "...."
        } else if self.ellipses == 2 {
            "..."
        } else if self.ellipses == 1 {
            ".."
        } else {
            "."
        };

        let data = match &self.data {
            None => {
                return String::from_str("Not connected");
            },
            Some(data) => data,
        };

        if contains_flag(data.job_flags, GENERAL_ERROR) {
            String::from_str("Error")
        } else if contains_flag(data.job_flags, SYNCING_GITHUB) {
            let mut r = String::from_str("Syncing GitHub to backup");
            r.append(dots);
            r
        } else if contains_flag(data.job_flags, ZPOOL_ERROR) {
            String::from_str("ZPool error")
        } else if contains_flag(data.job_flags, ZPOOL_HARD_DRIVE_RW_ERROR) {
            String::from_str("Hard drive r/w/c error")
        } else if contains_flag(data.job_flags, ZPOOL_HARD_DRIVE_STATE_ERROR) {
            String::from_str("Hard drive error")
        } else if contains_flag(data.job_flags, ZPOOL_SCRUBBING) {
            let mut r = String::from_str("Scrubbing");
            r.append(dots);
            r
        } else if contains_flag(data.job_flags, WRITING_BTRBK) {
            let mut r = String::from_str("Writing btrfs backup");
            r.append(dots);
            r
        } else {
            String::from_str("Idle")
        }
    }
}

} // verus!
