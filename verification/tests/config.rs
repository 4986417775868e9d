use iscsi_lib::config::CliArgs;
use iscsi_lib::iscsi::config::{
    CacheConfig, Config, RecoveryConfig, TuningConfig, CONFIG_TEMPLATE,
};

#[test]
fn minimal_config_has_the_defaults() {
    let cfg = Config::minimal(
        "iqn.2004-04.com.example:target".to_string(),
        "192.168.1.100:3260".to_string(),
    );
    assert_eq!(cfg.target, "iqn.2004-04.com.example:target");
    assert_eq!(cfg.address, "192.168.1.100:3260");
    assert_eq!(cfg.initiator, "iqn.2024-01.com.iscsi-fuse:initiator");
    assert_eq!(cfg.lun, 0);
    assert_eq!(cfg.tuning.max_recv_data_segment_length, 1_048_576);
    assert_eq!(cfg.tuning.max_burst_length, 1_048_576);
    assert_eq!(cfg.tuning.first_burst_length, 262_144);
    assert_eq!(cfg.tuning.max_outstanding_r2t, 8);
    assert!(cfg.tuning.immediate_data);
    assert!(!cfg.tuning.initial_r2t);
    assert!(cfg.tuning.header_digest);
    assert!(cfg.tuning.data_digest);
    assert_eq!(cfg.recovery.noop_interval_secs, 5);
    assert_eq!(cfg.recovery.noop_timeout_secs, 5);
    assert_eq!(cfg.recovery.replacement_timeout_secs, 30);
    assert_eq!(cfg.recovery.max_login_retries, 6);
    assert_eq!(cfg.recovery.login_retry_delay_secs, 5);
    assert_eq!(cfg.cache.size_mb, 128);
    assert_eq!(cfg.cache.readahead_max_kb, 8192);
    assert_eq!(cfg.cache.write_coalesce_ms, 5);
    assert_eq!(cfg.cache.write_coalesce_max_kb, 1024);
    assert_eq!(cfg.coalesce_max_bytes(), 1_048_576);
}

#[test]
fn arguments_override_the_configuration() {
    let cfg = Config::minimal(String::new(), String::new());
    assert_eq!(cfg.lun_or(None), 0);
    assert_eq!(cfg.lun_or(Some(3)), 3);
    assert_eq!(cfg.cache_size_mb_or(None), 128);
    assert_eq!(cfg.cache_size_mb_or(Some(64)), 64);
}

/// The template, with its commented settings uncommented, holds the defaults.
#[test]
fn template_shows_the_defaults() {
    let text: String = CONFIG_TEMPLATE
        .lines()
        .filter(|l| l.contains(" = ") || l.starts_with("# ["))
        .map(|l| format!("{}\n", l.trim_start_matches("# ")))
        .collect();
    let table: toml::Table = text.parse().unwrap();
    let number = |section: &str, key: &str| table[section][key].as_integer().unwrap() as u64;
    let flag = |section: &str, key: &str| table[section][key].as_bool().unwrap();
    assert_eq!(
        table["initiator"].as_str(),
        Some("iqn.2024-01.com.iscsi-fuse:initiator")
    );
    assert_eq!(table["lun"].as_integer(), Some(0));
    let t = TuningConfig::default();
    assert_eq!(
        number("tuning", "max_recv_data_segment_length"),
        t.max_recv_data_segment_length as u64
    );
    assert_eq!(number("tuning", "max_burst_length"), t.max_burst_length as u64);
    assert_eq!(number("tuning", "first_burst_length"), t.first_burst_length as u64);
    assert_eq!(number("tuning", "max_outstanding_r2t"), t.max_outstanding_r2t as u64);
    assert_eq!(flag("tuning", "immediate_data"), t.immediate_data);
    assert_eq!(flag("tuning", "initial_r2t"), t.initial_r2t);
    assert_eq!(flag("tuning", "header_digest"), t.header_digest);
    assert_eq!(flag("tuning", "data_digest"), t.data_digest);
    let r = RecoveryConfig::default();
    assert_eq!(number("recovery", "noop_interval_secs"), r.noop_interval_secs);
    assert_eq!(number("recovery", "noop_timeout_secs"), r.noop_timeout_secs);
    assert_eq!(
        number("recovery", "replacement_timeout_secs"),
        r.replacement_timeout_secs
    );
    assert_eq!(number("recovery", "max_login_retries"), r.max_login_retries as u64);
    assert_eq!(number("recovery", "login_retry_delay_secs"), r.login_retry_delay_secs);
    let c = CacheConfig::default();
    assert_eq!(number("cache", "size_mb"), c.size_mb as u64);
    assert_eq!(number("cache", "readahead_max_kb"), c.readahead_max_kb as u64);
    assert_eq!(number("cache", "write_coalesce_ms"), c.write_coalesce_ms);
    assert_eq!(number("cache", "write_coalesce_max_kb"), c.write_coalesce_max_kb as u64);
}

#[test]
fn arguments_have_defaults() {
    let args = CliArgs::with_defaults("a.toml".to_string(), "/mnt".to_string());
    assert_eq!((args.config.as_str(), args.mount_point.as_str()), ("a.toml", "/mnt"));
    assert_eq!((args.lun, args.read_only, args.cache_blocks), (0, false, 1024));
    assert_eq!(args.device_filename, "disk.img");
}
