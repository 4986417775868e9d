//! The block layer: byte-addressed I/O on a device of blocks.

pub mod cache;
pub mod content;
pub mod device;
pub mod dirty_map;
pub mod span;

pub use device::{BlockDevice, BlockDeviceWorker, BlockRequest};
pub use dirty_map::DirtyMap;
pub use span::compute_alignment;
