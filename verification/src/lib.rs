//! Snapshot lifecycle core: parses subvolume reports produced by the
//! underlying filesystem tool and decides which snapshots a retention
//! policy allows to be deleted.

pub mod mount;
pub mod report;
pub mod retention;
pub mod text;
pub mod time;

pub use mount::{verify_mount_path, MountError};
pub use report::{parse_report, ReportError, Subvolume, SubvolumeBuilder};
pub use retention::{select_for_deletion, RetentionCandidate, RetentionError, RetentionPolicy};
