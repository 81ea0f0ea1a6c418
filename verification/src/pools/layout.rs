//! How libzfs lays out its statistics arrays and names its vdev types.
use vstd::prelude::*;

verus! {

// Values of `vdev_state_t`.
pub const VDEV_STATE_UNKNOWN: u64 = 0;

pub const VDEV_STATE_CLOSED: u64 = 1;

pub const VDEV_STATE_OFFLINE: u64 = 2;

pub const VDEV_STATE_REMOVED: u64 = 3;

pub const VDEV_STATE_CANT_OPEN: u64 = 4;

pub const VDEV_STATE_FAULTED: u64 = 5;

pub const VDEV_STATE_DEGRADED: u64 = 6;

pub const VDEV_STATE_HEALTHY: u64 = 7;

// Values of `pool_scan_func_t` and `dsl_scan_state_t`.
pub const POOL_SCAN_NONE: u64 = 0;

pub const POOL_SCAN_SCRUB: u64 = 1;

pub const POOL_SCAN_RESILVER: u64 = 2;

pub const DSS_NONE: u64 = 0;

pub const DSS_SCANNING: u64 = 1;

pub const DSS_FINISHED: u64 = 2;

pub const DSS_CANCELED: u64 = 3;

// Vdev types, as the `type` key of a vdev's configuration spells them.
pub const VDEV_TYPE_MIRROR: &'static str = "mirror";

pub const VDEV_TYPE_RAIDZ: &'static str = "raidz";

pub const VDEV_TYPE_DRAID: &'static str = "draid";

pub const VDEV_TYPE_DISK: &'static str = "disk";

pub const VDEV_TYPE_FILE: &'static str = "file";

pub const VDEV_TYPE_LOG: &'static str = "log";

pub const VDEV_TYPE_SPARE: &'static str = "spare";

pub const VDEV_TYPE_L2CACHE: &'static str = "l2cache";

pub const VDEV_TYPE_REPLACING: &'static str = "replacing";

// Positions in the `scan_stats` array, and the length from which all of them exist.
pub const PSS_IDX_FUNC: usize = 0;

pub const PSS_IDX_STATE: usize = 1;

pub const PSS_IDX_START_TIME: usize = 2;

pub const PSS_IDX_END_TIME: usize = 3;

pub const PSS_IDX_TO_EXAMINE: usize = 4;

pub const PSS_IDX_EXAMINED: usize = 5;

pub const PSS_IDX_ERRORS: usize = 8;

pub const PSS_MIN_LEN: usize = 9;

// Positions in the `vdev_stats` array, and the length from which all of them exist.
pub const VS_IDX_STATE: usize = 1;

pub const VS_IDX_SPACE: usize = 4;

pub const VS_IDX_READ_ERRORS: usize = 20;

pub const VS_IDX_WRITE_ERRORS: usize = 21;

pub const VS_IDX_CHECKSUM_ERRORS: usize = 22;

pub const VS_MIN_LEN: usize = 23;

} // verus!
