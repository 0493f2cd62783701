//! Distributed message codes.
use vstd::prelude::*;

verus! {

/// Deprecated.
pub const PING: u8 = 0;
pub const SEARCH: u8 = 3;
pub const BRANCH_LEVEL: u8 = 4;
pub const BRANCH_ROOT: u8 = 5;
/// Obsolete.
pub const CHILD_DEPTH: u8 = 7;
/// Deprecated.
pub const EMBEDDED_MESSAGE: u8 = 93;

} // verus!
