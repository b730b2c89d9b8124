//! Decoding helpers for ROS 2 traffic carried over Zenoh (`rmw_zenoh`), and the
//! decisions of a small debugging tool server built on them.
//!
//! - `key`: the ROS type and the readable form of a key expression;
//!   `key_laws`: what holds of them on all keys.
//! - `hex`: the hex preview of opaque payloads.
//! - `decode`: the message kinds with a decoder, and the decoding pipeline.
//! - `session`: router choice, time and size limits, and when a collection ends.
//! - `tally`: distinct keys with their sample counts.
//! - `text`: character helpers.

pub mod text;
pub mod key;
pub mod key_laws;
pub mod hex;
pub mod decode;
pub mod session;
pub mod tally;
