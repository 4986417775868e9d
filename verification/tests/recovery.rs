use std::time::Duration;

use bytes::Bytes;
use iscsi_lib::iscsi::config;
use iscsi_lib::iscsi::recovery::{
    Keepalive, KeepaliveStep, PendingCommand, PendingQueue, RecoveryConfig, RecoveryManager,
};
use iscsi_lib::iscsi::session::PduResponse;
use tokio::sync::oneshot;

type Reply = oneshot::Sender<Result<PduResponse, String>>;

/// The time of the tests.
const NOW: Duration = Duration::from_secs(1000);

#[test]
fn test_recovery_config_defaults() {
    let cfg = RecoveryConfig::default();
    assert_eq!(cfg.noop_interval, Duration::from_secs(5));
    assert_eq!(cfg.noop_timeout, Duration::from_secs(5));
    assert_eq!(cfg.replacement_timeout, Duration::from_secs(30));
    assert_eq!(cfg.max_login_retries, 6);
    assert_eq!(cfg.login_retry_delay, Duration::from_secs(5));
}

#[test]
fn test_pending_command_expiry() {
    let mut queue: PendingQueue<Reply> = PendingQueue::new();
    let (tx, _rx) = oneshot::channel();
    queue.push(PendingCommand {
        cdb: [0u8; 16],
        lun: 0,
        edtl: 0,
        read: true,
        write: false,
        write_data: None,
        reply: tx,
        queued_at: NOW - Duration::from_secs(60),
    });
    let expired = queue.expire(NOW, Duration::from_secs(30));
    assert_eq!(expired.len(), 1);
    assert!(queue.is_empty());
}

#[test]
fn test_pending_queue_fail_all() {
    let mut queue: PendingQueue<Reply> = PendingQueue::new();
    let (tx1, rx1) = oneshot::channel();
    let (tx2, rx2) = oneshot::channel();
    queue.push(PendingCommand {
        cdb: [0u8; 16],
        lun: 0,
        edtl: 0,
        read: true,
        write: false,
        write_data: None,
        reply: tx1,
        queued_at: NOW,
    });
    queue.push(PendingCommand {
        cdb: [0u8; 16],
        lun: 0,
        edtl: 0,
        read: false,
        write: true,
        write_data: Some(Bytes::from_static(b"data")),
        reply: tx2,
        queued_at: NOW,
    });
    for (reply, message) in queue.fail_all("test failure") {
        assert_eq!(message, "test failure");
        assert!(reply.send(Err(message)).is_ok());
    }
    assert!(queue.is_empty());
    // Receivers should get errors
    assert!(rx1.blocking_recv().unwrap().is_err());
    assert!(rx2.blocking_recv().unwrap().is_err());
}

#[test]
fn test_recovery_config_from_config_recovery() {
    let cfg = config::RecoveryConfig {
        noop_interval_secs: 10,
        noop_timeout_secs: 15,
        replacement_timeout_secs: 60,
        max_login_retries: 3,
        login_retry_delay_secs: 10,
    };
    let rc: RecoveryConfig = cfg.into();
    assert_eq!(rc.noop_interval, Duration::from_secs(10));
    assert_eq!(rc.noop_timeout, Duration::from_secs(15));
    assert_eq!(rc.replacement_timeout, Duration::from_secs(60));
    assert_eq!(rc.max_login_retries, 3);
    assert_eq!(rc.login_retry_delay, Duration::from_secs(10));
}

#[test]
fn test_pending_queue_drain() {
    let mut queue: PendingQueue<Reply> = PendingQueue::new();
    let (tx1, _rx1) = oneshot::channel();
    let (tx2, _rx2) = oneshot::channel();
    queue.push(PendingCommand {
        cdb: [0u8; 16],
        lun: 0,
        edtl: 0,
        read: true,
        write: false,
        write_data: None,
        reply: tx1,
        queued_at: NOW,
    });
    queue.push(PendingCommand {
        cdb: [1u8; 16],
        lun: 1,
        edtl: 512,
        read: false,
        write: true,
        write_data: Some(Bytes::from_static(b"data")),
        reply: tx2,
        queued_at: NOW,
    });
    assert!(!queue.is_empty());
    let drained = queue.drain();
    assert_eq!(drained.len(), 2);
    assert!(queue.is_empty());
}

#[test]
fn test_pending_queue_expire_keeps_fresh() {
    let mut queue: PendingQueue<Reply> = PendingQueue::new();
    // One expired command
    let (tx_old, _rx_old) = oneshot::channel();
    queue.push(PendingCommand {
        cdb: [0u8; 16],
        lun: 0,
        edtl: 0,
        read: true,
        write: false,
        write_data: None,
        reply: tx_old,
        queued_at: NOW - Duration::from_secs(60),
    });
    // One fresh command
    let (tx_new, _rx_new) = oneshot::channel();
    queue.push(PendingCommand {
        cdb: [0u8; 16],
        lun: 0,
        edtl: 0,
        read: true,
        write: false,
        write_data: None,
        reply: tx_new,
        queued_at: NOW,
    });
    let expired = queue.expire(NOW, Duration::from_secs(30));
    assert_eq!(expired.len(), 1);
    assert!(!queue.is_empty()); // fresh one remains
    assert_eq!(queue.commands.len(), 1);
}

fn queued_at(secs: u64, reply: u32) -> PendingCommand<u32> {
    PendingCommand {
        cdb: [0u8; 16],
        lun: 0,
        edtl: 0,
        read: true,
        write: false,
        write_data: None,
        reply,
        queued_at: Duration::from_secs(secs),
    }
}

#[test]
fn expire_keeps_the_order_on_both_sides() {
    let mut queue = PendingQueue::new();
    queue.push(queued_at(10, 1));
    queue.push(queued_at(40, 2));
    queue.push(queued_at(20, 3));
    queue.push(queued_at(41, 4));
    // A command as old as the timeout is kept; an older one expires.
    let expired = queue.expire(Duration::from_secs(50), Duration::from_secs(10));
    let expired: Vec<u32> = expired.into_iter().map(|c| c.reply).collect();
    let kept: Vec<u32> = queue.drain().into_iter().map(|c| c.reply).collect();
    assert_eq!(expired, vec![1, 3]);
    assert_eq!(kept, vec![2, 4]);
}

#[test]
fn command_from_the_future_has_no_age() {
    let mut queue = PendingQueue::new();
    queue.push(queued_at(60, 1));
    assert!(queue
        .expire(Duration::from_secs(50), Duration::ZERO)
        .is_empty());
    assert_eq!(queue.expire(Duration::from_secs(61), Duration::ZERO).len(), 1);
}

#[test]
fn keepalive_pings_an_idle_session() {
    let mut k = Keepalive::new(Duration::from_secs(5), Duration::from_secs(2));
    assert_eq!(k.on_wake(Duration::from_secs(5)), KeepaliveStep::Sleep);
    assert_eq!(k.on_wake(Duration::from_millis(5001)), KeepaliveStep::SendNopOut);
    assert_eq!(k.on_nop_out(false, NOW), KeepaliveStep::Sleep);
    assert_eq!(k.on_nop_out(true, NOW), KeepaliveStep::Poll);
    let idle = Duration::from_secs(6);
    assert_eq!(
        k.on_poll(idle, NOW + Duration::from_millis(100)),
        KeepaliveStep::Poll
    );
    assert_eq!(
        k.on_poll(idle, NOW + Duration::from_secs(2)),
        KeepaliveStep::TimedOut
    );
    assert_eq!(
        k.on_poll(Duration::from_millis(1999), NOW + Duration::from_secs(2)),
        KeepaliveStep::Sleep
    );
}

#[test]
fn pdu_from_before_the_ping_is_no_reply() {
    let secs = Duration::from_secs;
    let mut k = Keepalive::new(secs(10), secs(15));
    // The last PDU came at 0 s, the NOP-Out goes out at 11 s.
    assert_eq!(k.on_wake(secs(11)), KeepaliveStep::SendNopOut);
    assert_eq!(k.on_nop_out(true, secs(11)), KeepaliveStep::Poll);
    assert_eq!(k.on_poll(secs(12), secs(12)), KeepaliveStep::Poll);
    assert_eq!(k.on_poll(secs(26), secs(26)), KeepaliveStep::TimedOut);
    // A PDU at 13 s.
    assert_eq!(k.on_poll(secs(1), secs(14)), KeepaliveStep::Sleep);
}

#[test]
fn keepalive_without_a_timeout_never_waits() {
    let mut k = Keepalive::new(Duration::from_secs(5), Duration::ZERO);
    assert_eq!(k.on_nop_out(true, NOW), KeepaliveStep::TimedOut);
}

#[test]
fn manager_hands_out_its_configuration() {
    let m: RecoveryManager<u32> =
        RecoveryManager::new("10.0.0.1:3260".to_string(), RecoveryConfig::default());
    assert_eq!(m.config().max_login_retries, 6);
    assert!(m.pending_queue.is_empty());
    let k = m.keepalive();
    assert_eq!(k.interval, Duration::from_secs(5));
    assert_eq!(k.timeout, Duration::from_secs(5));
}
