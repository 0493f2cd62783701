//! Peer message codes.
use vstd::prelude::*;

verus! {

pub const GET_SHARED_FILE_LIST: u32 = 4;
pub const SHARED_FILE_LIST_RESPONSE: u32 = 5;
pub const FILE_SEARCH_RESPONSE: u32 = 9;
pub const USER_INFO_REQUEST: u32 = 15;
pub const USER_INFO_RESPONSE: u32 = 16;
pub const FOLDER_CONTENTS_REQUEST: u32 = 36;
pub const FOLDER_CONTENTS_RESPONSE: u32 = 37;
pub const TRANSFER_REQUEST: u32 = 40;
pub const TRANSFER_RESPONSE: u32 = 41;
pub const QUEUE_UPLOAD: u32 = 43;
pub const PLACE_IN_QUEUE_RESPONSE: u32 = 44;
pub const UPLOAD_FAILED: u32 = 46;
pub const UPLOAD_DENIED: u32 = 50;
pub const PLACE_IN_QUEUE_REQUEST: u32 = 51;

} // verus!
