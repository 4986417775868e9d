//! Configuration values and their defaults.

use crate::iscsi::login::NegotiatedParams;
use vstd::prelude::*;

verus! {

/// The initiator's IQN where none is configured.
pub fn default_initiator() -> (r: String)
    ensures
        r@ == "iqn.2024-01.com.iscsi-fuse:initiator"@,
{
    "iqn.2024-01.com.iscsi-fuse:initiator".to_owned()
}

/// The default of `lun`.
pub fn default_lun() -> (r: u64)
    ensures
        r == 0,
{
    0
}

/// The default of `max_recv_data_segment_length`.
pub fn default_max_recv_data_segment_length() -> (r: u32)
    ensures
        r == 1_048_576,
{
    1_048_576
}

/// The default of `max_burst_length`.
pub fn default_max_burst_length() -> (r: u32)
    ensures
        r == 1_048_576,
{
    1_048_576
}

/// The default of `first_burst_length`.
pub fn default_first_burst_length() -> (r: u32)
    ensures
        r == 262_144,
{
    262_144
}

/// The default of `max_outstanding_r2t`.
pub fn default_max_outstanding_r2t() -> (r: u32)
    ensures
        r == 8,
{
    8
}

/// The default of `immediate_data`.
pub fn default_immediate_data() -> (r: bool)
    ensures
        r == true,
{
    true
}

/// The default of `initial_r2t`.
pub fn default_initial_r2t() -> (r: bool)
    ensures
        r == false,
{
    false
}

/// The default of `header_digest`.
pub fn default_header_digest() -> (r: bool)
    ensures
        r == true,
{
    true
}

/// The default of `data_digest`.
pub fn default_data_digest() -> (r: bool)
    ensures
        r == true,
{
    true
}

/// The default of `noop_interval_secs`.
pub fn default_noop_interval_secs() -> (r: u64)
    ensures
        r == 5,
{
    5
}

/// The default of `noop_timeout_secs`.
pub fn default_noop_timeout_secs() -> (r: u64)
    ensures
        r == 5,
{
    5
}

/// The default of `replacement_timeout_secs`.
pub fn default_replacement_timeout_secs() -> (r: u64)
    ensures
        r == 30,
{
    30
}

/// The default of `max_login_retries`.
pub fn default_max_login_retries() -> (r: u32)
    ensures
        r == 6,
{
    6
}

/// The default of `login_retry_delay_secs`.
pub fn default_login_retry_delay_secs() -> (r: u64)
    ensures
        r == 5,
{
    5
}

/// The default of `size_mb`.
pub fn default_cache_size_mb() -> (r: usize)
    ensures
        r == 128,
{
    128
}

/// The default of `readahead_max_kb`.
pub fn default_readahead_max_kb() -> (r: usize)
    ensures
        r == 8192,
{
    8192
}

/// The default of `write_coalesce_ms`.
pub fn default_write_coalesce_ms() -> (r: u64)
    ensures
        r == 5,
{
    5
}

/// The default of `write_coalesce_max_kb`.
pub fn default_write_coalesce_max_kb() -> (r: usize)
    ensures
        r == 1024,
{
    1024
}

/// iSCSI session tuning parameters with 10-Gigabit-optimized defaults.
#[derive(Debug, Clone, Copy, PartialEq, Eq, Structural)]
pub struct TuningConfig {
    /// Maximum data segment length the initiator can receive (bytes).
    pub max_recv_data_segment_length: u32,
    /// Maximum burst length for solicited data (bytes).
    pub max_burst_length: u32,
    /// Maximum unsolicited data the initiator may send in the first burst (bytes).
    pub first_burst_length: u32,
    /// Maximum number of outstanding R2T PDUs per task.
    pub max_outstanding_r2t: u32,
    /// Allow unsolicited data to be sent immediately with the command PDU.
    pub immediate_data: bool,
    /// When false, the initiator may send unsolicited data without waiting for R2T.
    pub initial_r2t: bool,
    /// Enable CRC32C header digests.
    pub header_digest: bool,
    /// Enable CRC32C data digests.
    pub data_digest: bool,
}

impl TuningConfig {
    /// The defaults.
    pub open spec fn defaults() -> Self {
        TuningConfig {
            max_recv_data_segment_length: 1_048_576,
            max_burst_length: 1_048_576,
            first_burst_length: 262_144,
            max_outstanding_r2t: 8,
            immediate_data: true,
            initial_r2t: false,
            header_digest: true,
            data_digest: true,
        }
    }
}

impl Default for TuningConfig {
    fn default() -> (r: Self)
        ensures
            r == TuningConfig::defaults(),
    {
        Self {
            max_recv_data_segment_length: default_max_recv_data_segment_length(),
            max_burst_length: default_max_burst_length(),
            first_burst_length: default_first_burst_length(),
            max_outstanding_r2t: default_max_outstanding_r2t(),
            immediate_data: default_immediate_data(),
            initial_r2t: default_initial_r2t(),
            header_digest: default_header_digest(),
            data_digest: default_data_digest(),
        }
    }
}

/// Connection-recovery and keep-alive parameters.
#[derive(Debug, Clone, Copy, PartialEq, Eq, Structural)]
pub struct RecoveryConfig {
    /// Interval between NOP-Out keep-alive pings (seconds).
    pub noop_interval_secs: u64,
    /// How long to wait for a NOP-In reply before declaring timeout (seconds).
    pub noop_timeout_secs: u64,
    /// How long to attempt session recovery before giving up (seconds).
    pub replacement_timeout_secs: u64,
    /// Maximum number of login retries on connection failure.
    pub max_login_retries: u32,
    /// Delay between login retries (seconds).
    pub login_retry_delay_secs: u64,
}

impl RecoveryConfig {
    /// The defaults.
    pub open spec fn defaults() -> Self {
        RecoveryConfig {
            noop_interval_secs: 5,
            noop_timeout_secs: 5,
            replacement_timeout_secs: 30,
            max_login_retries: 6,
            login_retry_delay_secs: 5,
        }
    }
}

impl Default for RecoveryConfig {
    fn default() -> (r: Self)
        ensures
            r == RecoveryConfig::defaults(),
    {
        Self {
            noop_interval_secs: default_noop_interval_secs(),
            noop_timeout_secs: default_noop_timeout_secs(),
            replacement_timeout_secs: default_replacement_timeout_secs(),
            max_login_retries: default_max_login_retries(),
            login_retry_delay_secs: default_login_retry_delay_secs(),
        }
    }
}

/// Block cache configuration.
#[derive(Debug, Clone, Copy, PartialEq, Eq, Structural)]
pub struct CacheConfig {
    /// Total cache size in megabytes.
    pub size_mb: usize,
    /// Maximum readahead window in kilobytes.
    pub readahead_max_kb: usize,
    /// Write coalescing window in milliseconds.
    pub write_coalesce_ms: u64,
    /// Maximum coalesced write size in kilobytes.
    pub write_coalesce_max_kb: usize,
}

impl CacheConfig {
    /// The defaults.
    pub open spec fn defaults() -> Self {
        CacheConfig {
            size_mb: 128,
            readahead_max_kb: 8192,
            write_coalesce_ms: 5,
            write_coalesce_max_kb: 1024,
        }
    }
}

impl Default for CacheConfig {
    fn default() -> (r: Self)
        ensures
            r == CacheConfig::defaults(),
    {
        Self {
            size_mb: default_cache_size_mb(),
            readahead_max_kb: default_readahead_max_kb(),
            write_coalesce_ms: default_write_coalesce_ms(),
            write_coalesce_max_kb: default_write_coalesce_max_kb(),
        }
    }
}

/// Top-level iSCSI configuration.
#[derive(Debug, Clone)]
pub struct Config {
    /// iSCSI target IQN.
    pub target: String,
    /// Target portal address, e.g. "192.168.1.100:3260".
    pub address: String,
    /// Initiator IQN.
    pub initiator: String,
    /// Logical Unit Number.
    pub lun: u64,
    /// Performance tuning knobs.
    pub tuning: TuningConfig,
    /// Connection recovery parameters.
    pub recovery: RecoveryConfig,
    /// Block cache settings.
    pub cache: CacheConfig,
}

impl Config {
    /// The configuration of a target at an address, with the defaults for all
    /// that is optional.
    pub fn minimal(target: String, address: String) -> (r: Self)
        ensures
            r.target == target,
            r.address == address,
            r.initiator@ == "iqn.2024-01.com.iscsi-fuse:initiator"@,
            r.lun == 0,
            r.tuning == TuningConfig::defaults(),
            r.recovery == RecoveryConfig::defaults(),
            r.cache == CacheConfig::defaults(),
    {
        Self {
            target,
            address,
            initiator: default_initiator(),
            lun: default_lun(),
            tuning: TuningConfig::default(),
            recovery: RecoveryConfig::default(),
            cache: CacheConfig::default(),
        }
    }

    /// The LUN to use: an argument on the command line overrides the
    /// configuration.
    pub fn lun_or(&self, arg: Option<u64>) -> (r: u64)
        ensures
            r == (match arg {
                Some(lun) => lun,
                None => self.lun,
            }),
    {
        match arg {
            Some(lun) => lun,
            None => self.lun,
        }
    }

    /// The cache size in megabytes to use: an argument on the command line
    /// overrides the configuration.
    pub fn cache_size_mb_or(&self, arg: Option<usize>) -> (r: usize)
        ensures
            r == (match arg {
                Some(size_mb) => size_mb,
                None => self.cache.size_mb,
            }),
    {
        match arg {
            Some(size_mb) => size_mb,
            None => self.cache.size_mb,
        }
    }

    /// The amount of dirty data, in bytes, at which it is flushed.
    pub fn coalesce_max_bytes(&self) -> (r: usize)
        requires
            self.cache.write_coalesce_max_kb * 1024 <= usize::MAX,
        ensures
            r == self.cache.write_coalesce_max_kb * 1024,
    {
        self.cache.write_coalesce_max_kb * 1024
    }
}

/// The defaults of the configuration are those that a login offers by itself.
pub proof fn default_tuning_is_the_default_offer()
    ensures
        ({
            let t = TuningConfig::defaults();
            let p = NegotiatedParams::spec_defaults_10g();
            &&& t.max_recv_data_segment_length == p.max_recv_data_segment_length
            &&& t.max_burst_length == p.max_burst_length
            &&& t.first_burst_length == p.first_burst_length
            &&& t.max_outstanding_r2t == p.max_outstanding_r2t
            &&& t.immediate_data == p.immediate_data
            &&& t.initial_r2t == p.initial_r2t
            &&& t.header_digest == p.header_digest
            &&& t.data_digest == p.data_digest
        }),
{
}

/// A fully-commented TOML template that documents every configuration knob.
/// Written to disk on first run so users have a starting point.
pub const CONFIG_TEMPLATE: &'static str = r#"# iscsi-fuse configuration (TOML)
# ---------------------------------------------------------------
# Required: set these to match your iSCSI target.
# target = "iqn.2004-04.com.example:target"
# address = "192.168.1.100:3260"

# Optional initiator IQN (default shown).
# initiator = "iqn.2024-01.com.iscsi-fuse:initiator"

# Logical Unit Number (default 0).
# lun = 0

# [tuning]
# max_recv_data_segment_length = 1048576   # 1 MB
# max_burst_length             = 1048576   # 1 MB
# first_burst_length           = 262144    # 256 KB
# max_outstanding_r2t          = 8
# immediate_data               = true
# initial_r2t                  = false
# header_digest                = true      # CRC32C
# data_digest                  = true      # CRC32C

# [recovery]
# noop_interval_secs       = 5
# noop_timeout_secs        = 5
# replacement_timeout_secs = 30
# max_login_retries        = 6
# login_retry_delay_secs   = 5

# [cache]
# size_mb             = 128
# readahead_max_kb    = 8192   # 8 MB
# write_coalesce_ms   = 5
# write_coalesce_max_kb = 1024 # 1 MB
"#;

} // verus!
