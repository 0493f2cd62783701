//! Soulseek peer-to-peer protocol: byte-level codec, message types, and the
//! client-side state machine of a terminal client, with their contracts.
pub mod error;
pub mod wire;
pub mod codec;
pub mod types;
pub mod peer_init;
pub mod distributed;
pub mod file;
pub mod zlib;
pub mod shared_files;
pub mod peer;
pub mod md5;
pub mod server;
pub mod client;
pub mod events;
pub mod net;
pub mod labels;
