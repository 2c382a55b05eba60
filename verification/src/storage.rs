//! How a database container is opened: the open mode decides whether
//! missing files are created and whether writes are allowed.
use vstd::prelude::*;

verus! {

/// Open an existing container without write access.
pub const MODE_READ_ONLY: i32 = 0;

/// Open an existing container for reading and writing.
pub const MODE_READ_WRITE: i32 = 1;

/// Open a container for reading and writing, creating it if missing.
pub const MODE_CREATE: i32 = 2;

/// The options a container is opened with.
#[derive(Debug, Clone, Copy, PartialEq, Eq, Structural)]
pub struct OpenPlan {
    /// Create the database and its column families if they are missing.
    pub create_if_missing: bool,
    /// Open without write access.
    pub read_only: bool,
}

/// The options for opening a container in `mode`. Only `MODE_CREATE`
/// creates what is missing and only `MODE_READ_ONLY` opens read-only; any
/// other mode opens an existing container for reading and writing.
pub fn open_plan(mode: i32) -> (r: OpenPlan)
    ensures
        r.create_if_missing == (mode == MODE_CREATE),
        r.read_only == (mode == MODE_READ_ONLY),
{
    OpenPlan { create_if_missing: mode == MODE_CREATE, read_only: mode == MODE_READ_ONLY }
}

} // verus!
