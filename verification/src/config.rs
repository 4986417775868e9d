//! Command line arguments.

use vstd::prelude::*;

verus! {

/// The arguments that the program is started with.
#[derive(Debug, Clone)]
pub struct CliArgs {
    /// Path to the iSCSI config file.
    pub config: String,
    /// FUSE mount point directory.
    pub mount_point: String,
    /// LUN number on the iSCSI target.
    pub lun: u64,
    /// Mount in read-only mode.
    pub read_only: bool,
    /// Cache size in number of blocks.
    pub cache_blocks: usize,
    /// Name of the virtual device file in the mount.
    pub device_filename: String,
}

impl CliArgs {
    /// The arguments where only the two that are required are given.
    pub fn with_defaults(config: String, mount_point: String) -> (r: Self)
        ensures
            r.config == config,
            r.mount_point == mount_point,
            r.lun == 0,
            !r.read_only,
            r.cache_blocks == 1024,
            r.device_filename@ == "disk.img"@,
    {
        Self {
            config,
            mount_point,
            lun: 0,
            read_only: false,
            cache_blocks: 1024,
            device_filename: "disk.img".to_owned(),
        }
    }
}

} // verus!
