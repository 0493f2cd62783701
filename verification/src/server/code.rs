//! Server message codes.
use vstd::prelude::*;

verus! {

pub const LOGIN: u32 = 1;
pub const SET_WAIT_PORT: u32 = 2;
pub const GET_PEER_ADDRESS: u32 = 3;
pub const WATCH_USER: u32 = 5;
pub const UNWATCH_USER: u32 = 6;
pub const GET_USER_STATUS: u32 = 7;
pub const SAY_CHATROOM: u32 = 13;
pub const JOIN_ROOM: u32 = 14;
pub const LEAVE_ROOM: u32 = 15;
pub const USER_JOINED_ROOM: u32 = 16;
pub const USER_LEFT_ROOM: u32 = 17;
pub const CONNECT_TO_PEER: u32 = 18;
pub const MESSAGE_USER: u32 = 22;
pub const MESSAGE_ACKED: u32 = 23;
pub const FILE_SEARCH: u32 = 26;
pub const SET_STATUS: u32 = 28;
pub const SERVER_PING: u32 = 32;
pub const SHARED_FOLDERS_FILES: u32 = 35;
pub const GET_USER_STATS: u32 = 36;
pub const RELOGGED: u32 = 41;
pub const USER_SEARCH: u32 = 42;
pub const ADD_THING_I_LIKE: u32 = 51;
pub const REMOVE_THING_I_LIKE: u32 = 52;
pub const RECOMMENDATIONS: u32 = 54;
pub const GLOBAL_RECOMMENDATIONS: u32 = 56;
pub const USER_INTERESTS: u32 = 57;
pub const ROOM_LIST: u32 = 64;
pub const ADMIN_MESSAGE: u32 = 66;
pub const PRIVILEGED_USERS: u32 = 69;
pub const HAVE_NO_PARENT: u32 = 71;
pub const PARENT_IP: u32 = 73;
pub const PARENT_MIN_SPEED: u32 = 83;
pub const PARENT_SPEED_RATIO: u32 = 84;
pub const CHECK_PRIVILEGES: u32 = 92;
pub const EMBEDDED_MESSAGE: u32 = 93;
pub const ACCEPT_CHILDREN: u32 = 100;
pub const POSSIBLE_PARENTS: u32 = 102;
pub const WISHLIST_SEARCH: u32 = 103;
pub const WISHLIST_INTERVAL: u32 = 104;
pub const SIMILAR_USERS: u32 = 110;
pub const ITEM_RECOMMENDATIONS: u32 = 111;
pub const ITEM_SIMILAR_USERS: u32 = 112;
pub const ROOM_TICKER_STATE: u32 = 113;
pub const ROOM_TICKER_ADD: u32 = 114;
pub const ROOM_TICKER_REMOVE: u32 = 115;
pub const ROOM_TICKER_SET: u32 = 116;
pub const ADD_THING_I_HATE: u32 = 117;
pub const REMOVE_THING_I_HATE: u32 = 118;
pub const ROOM_SEARCH: u32 = 120;
pub const SEND_UPLOAD_SPEED: u32 = 121;
pub const GIVE_PRIVILEGES: u32 = 123;
pub const BRANCH_LEVEL: u32 = 126;
pub const BRANCH_ROOT: u32 = 127;
pub const RESET_DISTRIBUTED: u32 = 130;
pub const ROOM_MEMBERS: u32 = 133;
pub const ADD_ROOM_MEMBER: u32 = 134;
pub const REMOVE_ROOM_MEMBER: u32 = 135;
pub const CANCEL_ROOM_MEMBERSHIP: u32 = 136;
pub const CANCEL_ROOM_OWNERSHIP: u32 = 137;
pub const ROOM_MEMBERSHIP_GRANTED: u32 = 139;
pub const ROOM_MEMBERSHIP_REVOKED: u32 = 140;
pub const ENABLE_ROOM_INVITATIONS: u32 = 141;
pub const CHANGE_PASSWORD: u32 = 142;
pub const ADD_ROOM_OPERATOR: u32 = 143;
pub const REMOVE_ROOM_OPERATOR: u32 = 144;
pub const ROOM_OPERATORSHIP_GRANTED: u32 = 145;
pub const ROOM_OPERATORSHIP_REVOKED: u32 = 146;
pub const ROOM_OPERATORS: u32 = 148;
pub const MESSAGE_USERS: u32 = 149;
pub const JOIN_GLOBAL_ROOM: u32 = 150;
pub const LEAVE_GLOBAL_ROOM: u32 = 151;
pub const GLOBAL_ROOM_MESSAGE: u32 = 152;
pub const EXCLUDED_SEARCH_PHRASES: u32 = 160;
pub const CANT_CONNECT_TO_PEER: u32 = 1001;
pub const CANT_CREATE_ROOM: u32 = 1003;

} // verus!
