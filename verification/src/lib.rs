//! An iSCSI initiator that offers a remote disk as a file.
//!
//! The crate holds what the initiator decides and computes: the wire format,
//! the login negotiation, the session and its sequence numbers, the block layer
//! with its cache and its write buffer, and the virtual filesystem. Sockets,
//! timers and mounts are left to the program that drives it.

pub mod auto_format;
pub mod block;
pub mod block_device;
pub mod buffer;
pub mod chunks;
pub mod clock;
pub mod config;
pub mod fuse_fs;
pub mod iscsi;
pub mod iscsi_backend;
pub mod wire;
