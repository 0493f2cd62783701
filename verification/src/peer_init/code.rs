//! Peer-init message codes.
use vstd::prelude::*;

verus! {

pub const PIERCE_FIREWALL: u8 = 0;
pub const PEER_INIT: u8 = 1;

} // verus!
