//! Pre-flight check of the filesystem mount point.

use vstd::prelude::*;

verus! {

/// Why the mount point was rejected.
#[derive(Debug)]
pub enum MountError {
    /// The given path exists but is not a directory.
    MountPointNotDir { path: String },
}

/// Accepts the mount point exactly if it is a directory; the caller passes
/// in what the filesystem reported about the path.
pub fn verify_mount_path(mount_point: &str, mount_point_is_dir: bool) -> (r: Result<
    (),
    MountError,
>)
    ensures
        r is Ok <==> mount_point_is_dir,
        r matches Err(MountError::MountPointNotDir { path }) ==> path@ == mount_point@,
{
    if mount_point_is_dir {
        Ok(())
    } else {
        Err(MountError::MountPointNotDir { path: String::from_str(mount_point) })
    }
}

} // verus!
