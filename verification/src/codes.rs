//! The protocol's error codes.

use vstd::prelude::*;

verus! {

/// An error code as responses carry it.
pub type ErrorCode = i16;

pub const UNKNOWN_SERVER_ERROR: i16 = -1;
pub const NONE: i16 = 0;
pub const COORDINATOR_LOAD_IN_PROGRESS: i16 = 14;
pub const ILLEGAL_GENERATION: i16 = 22;
pub const INCONSISTENT_GROUP_PROTOCOL: i16 = 23;
pub const UNKNOWN_MEMBER_ID: i16 = 25;
pub const REBALANCE_IN_PROGRESS: i16 = 27;
pub const UNSUPPORTED_VERSION: i16 = 35;
pub const INVALID_REQUEST: i16 = 42;
pub const NON_EMPTY_GROUP: i16 = 68;
pub const GROUP_ID_NOT_FOUND: i16 = 69;
pub const MEMBER_ID_REQUIRED: i16 = 79;
pub const GROUP_MAX_SIZE_REACHED: i16 = 81;
pub const FENCED_INSTANCE_ID: i16 = 82;
pub const FENCED_MEMBER_EPOCH: i16 = 110;
pub const UNRELEASED_INSTANCE_ID: i16 = 111;
pub const UNSUPPORTED_ASSIGNOR: i16 = 112;
pub const STALE_MEMBER_EPOCH: i16 = 113;
pub const INVALID_REGULAR_EXPRESSION: i16 = 128;

} // verus!
