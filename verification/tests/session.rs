use std::time::Duration;

use bytes::Bytes;
use iscsi_lib::iscsi::command::ScsiStatus;
use iscsi_lib::iscsi::login::NegotiatedParams;
use iscsi_lib::iscsi::pdu::{Bhs, Opcode, Pdu};
use iscsi_lib::iscsi::session::{
    serial_le, IttPool, PduResponse, R2tStep, ReceiverAction, Session, SessionState,
};
use tokio::sync::oneshot;

#[test]
fn session_test_itt_pool_alloc_and_free() {
    let mut pool: IttPool<oneshot::Sender<PduResponse>> = IttPool::new();

    // Allocate a slot.
    let (tx, _rx) = oneshot::channel();
    let itt = pool.allocate(tx).expect("should allocate");
    assert!(itt < 128, "ITT should be in range [0, 128)");

    // Free it.
    pool.free(itt);

    // Re-allocate — should get the same slot back (it was the only
    // one ever used and is now the lowest free bit).
    let (tx2, _rx2) = oneshot::channel();
    let itt2 = pool.allocate(tx2).expect("should re-allocate");
    assert_eq!(itt, itt2, "should get the same ITT back after free");
}

#[test]
fn session_test_itt_pool_alloc_128() {
    let mut pool: IttPool<oneshot::Sender<PduResponse>> = IttPool::new();
    let mut receivers = Vec::new();

    // Allocate all 128 slots.
    for i in 0..128 {
        let (tx, rx) = oneshot::channel();
        let itt = pool
            .allocate(tx)
            .unwrap_or_else(|| panic!("alloc {i} should succeed"));
        assert!(itt < 128);
        receivers.push((itt, rx));
    }

    // 129th allocation should fail.
    let (tx, _rx) = oneshot::channel();
    assert!(pool.allocate(tx).is_none(), "129th alloc should return None");

    // Free one slot and retry.
    let freed_itt = receivers[50].0;
    pool.free(freed_itt);

    let (tx, _rx) = oneshot::channel();
    let itt = pool.allocate(tx).expect("should succeed after free");
    assert_eq!(itt, freed_itt, "should get the freed ITT back");
}

#[test]
fn session_test_itt_pool_complete() {
    let mut pool: IttPool<oneshot::Sender<PduResponse>> = IttPool::new();

    let (tx, mut rx) = oneshot::channel();
    let itt = pool.allocate(tx).expect("should allocate");

    // Complete with a response.
    let response = PduResponse {
        status: ScsiStatus::Good,
        data: Some(Bytes::from_static(b"test data")),
        sense: None,
    };
    let (waiter, response) = pool.complete(itt, response).expect("the ITT is in use");
    assert!(waiter.send(response).is_ok(), "the receiver is there");

    // The receiver should have the response.
    let received = rx.try_recv().expect("should receive response");
    assert_eq!(received.status, ScsiStatus::Good);
    assert_eq!(received.data.as_deref(), Some(b"test data".as_slice()));
    assert!(received.sense.is_none());
}

#[test]
fn session_test_serial_number_le() {
    // Basic cases.
    assert!(serial_le(1, 2), "1 <= 2");
    assert!(serial_le(1, 1), "1 <= 1");
    assert!(!serial_le(2, 1), "!(2 <= 1)");

    // Wrap-around: a large number just before wrap should be <= a small
    // number just after wrap.
    assert!(serial_le(0xFFFF_FFFE, 0x0000_0001), "wrap-around case");
    assert!(serial_le(0xFFFF_FFFF, 0x0000_0000), "max <= 0 (wrap)");

    // The reverse should not hold.
    assert!(!serial_le(0x0000_0001, 0xFFFF_FFFE), "reverse wrap");

    // Boundary at exactly 2^31 apart — should be false (ambiguous in
    // RFC 1982, our implementation returns false).
    assert!(!serial_le(0, 0x8000_0000), "exactly 2^31 apart");
}

#[test]
fn session_test_session_state_cmd_window() {
    let mut state = SessionState::new(1, 0);

    // Default: max_cmd_sn == initial_cmd_sn == 1, so cmd_sn=1 is in window.
    assert!(
        state.cmd_sn_in_window(),
        "initial cmd_sn should be in window"
    );

    // Widen the window.
    state.max_cmd_sn = 32;
    assert!(state.cmd_sn_in_window(), "cmd_sn=1 <= max_cmd_sn=32");

    // Advance cmd_sn past the window.
    state.cmd_sn = 33;
    assert!(
        !state.cmd_sn_in_window(),
        "cmd_sn=33 > max_cmd_sn=32, outside window"
    );

    // Exactly at the edge.
    state.cmd_sn = 32;
    assert!(state.cmd_sn_in_window(), "cmd_sn=32 == max_cmd_sn=32");
}

/// A session with default negotiated params.
fn build_session() -> Session<oneshot::Sender<PduResponse>> {
    Session::new(
        IttPool::new(),
        SessionState::new(1, 0),
        NegotiatedParams::defaults_10g(),
        Duration::ZERO,
    )
}

/// Hand a PDU from the target to the session, and the response to its waiter.
fn receive(session: &mut Session<oneshot::Sender<PduResponse>>, pdu: &Pdu) -> Option<Pdu> {
    assert!(Session::<oneshot::Sender<PduResponse>>::is_acceptable(pdu));
    match session.on_pdu(pdu, Duration::from_secs(1)) {
        ReceiverAction::Deliver(waiter, response) => {
            assert!(waiter.send(response).is_ok());
            None
        }
        ReceiverAction::Send(reply) => Some(reply),
        _ => None,
    }
}

#[test]
fn test_receiver_handles_scsi_response() {
    let mut session = build_session();

    // Allocate an ITT slot (simulating a submitted command).
    let (tx, mut rx) = oneshot::channel();
    let itt = session.itt_pool.allocate(tx).expect("should allocate ITT");

    // From the "target" side, send a SCSI Response for this ITT.
    let bhs = Bhs::build_scsi_response(itt, 0x00, 1, 1, 32);
    let pdu = Pdu {
        bhs,
        ahs: None,
        data: None,
    };
    receive(&mut session, &pdu);

    let response = rx.try_recv().expect("should receive response");
    assert_eq!(response.status, ScsiStatus::Good);
    assert!(response.data.is_none());
}

#[test]
fn test_receiver_handles_data_in_with_status() {
    let mut session = build_session();
    let (tx, mut rx) = oneshot::channel();
    let itt = session.itt_pool.allocate(tx).expect("should allocate ITT");

    // Send a Data-In PDU with S=1, carrying 4096 bytes of test data.
    let data_len = 4096u32;
    let payload = Bytes::from(vec![0xABu8; data_len as usize]);
    let bhs = Bhs::build_data_in(
        itt, 0, // data_sn
        0, // buffer_offset
        data_len, true, // status_flag (S bit)
        0x00, // GOOD
        1,    // stat_sn
        1,    // exp_cmd_sn
        32,   // max_cmd_sn
    );
    let pdu = Pdu {
        bhs,
        ahs: None,
        data: Some(payload),
    };
    receive(&mut session, &pdu);

    let response = rx.try_recv().expect("should receive response");
    assert_eq!(response.status, ScsiStatus::Good);
    let data = response.data.expect("should have data");
    assert_eq!(data.len(), 4096);
    assert!(data.iter().all(|&b| b == 0xAB));
}

#[test]
fn test_receiver_handles_multi_pdu_data_in() {
    let mut session = build_session();
    let (tx, mut rx) = oneshot::channel();
    let itt = session.itt_pool.allocate(tx).expect("should allocate ITT");

    // First Data-In: 2048 bytes at offset 0, no S bit.
    let chunk1 = Bytes::from(vec![0x11u8; 2048]);
    let bhs1 = Bhs::build_data_in(itt, 0, 0, 2048, false, 0, 0, 1, 32);
    let pdu1 = Pdu {
        bhs: bhs1,
        ahs: None,
        data: Some(chunk1),
    };
    receive(&mut session, &pdu1);

    // Second Data-In: 2048 bytes at offset 2048, S bit set.
    let chunk2 = Bytes::from(vec![0x22u8; 2048]);
    let bhs2 = Bhs::build_data_in(itt, 1, 2048, 2048, true, 0x00, 1, 1, 32);
    let pdu2 = Pdu {
        bhs: bhs2,
        ahs: None,
        data: Some(chunk2),
    };
    receive(&mut session, &pdu2);

    let response = rx.try_recv().expect("should receive response");
    assert_eq!(response.status, ScsiStatus::Good);
    let data = response.data.expect("should have data");
    assert_eq!(data.len(), 4096);
    assert!(data[..2048].iter().all(|&b| b == 0x11));
    assert!(data[2048..].iter().all(|&b| b == 0x22));
}

#[test]
fn interleaved_tasks_keep_apart() {
    let mut session = build_session();
    let (tx1, mut rx1) = oneshot::channel();
    let (tx2, mut rx2) = oneshot::channel();
    let itt1 = session.itt_pool.allocate(tx1).expect("should allocate ITT");
    let itt2 = session.itt_pool.allocate(tx2).expect("should allocate ITT");
    let part = |itt: u32, offset: u32, last: bool, data: &'static [u8]| Pdu {
        bhs: Bhs::build_data_in(itt, 0, offset, data.len() as u32, last, 0, 1, 1, 32),
        ahs: None,
        data: Some(Bytes::from_static(data)),
    };
    receive(&mut session, &part(itt1, 0, false, &[1, 2]));
    receive(&mut session, &part(itt2, 0, false, &[7]));
    receive(&mut session, &part(itt1, 2, true, &[3]));
    // The end of the first task leaves the second waiting.
    assert!(rx2.try_recv().is_err());
    receive(&mut session, &part(itt2, 1, true, &[8, 9]));
    let first = rx1.try_recv().expect("a response").data.expect("data");
    let second = rx2.try_recv().expect("a response").data.expect("data");
    assert_eq!(&first[..], &[1, 2, 3]);
    assert_eq!(&second[..], &[7, 8, 9]);
}

#[test]
fn data_in_out_of_order_is_put_in_place() {
    let mut session = build_session();
    let (tx, mut rx) = oneshot::channel();
    let itt = session.itt_pool.allocate(tx).expect("should allocate ITT");
    let second = Pdu {
        bhs: Bhs::build_data_in(itt, 0, 3, 2, false, 0, 0, 1, 32),
        ahs: None,
        data: Some(Bytes::from_static(&[4, 5])),
    };
    let first = Pdu {
        bhs: Bhs::build_data_in(itt, 1, 0, 3, true, 0, 1, 1, 32),
        ahs: None,
        data: Some(Bytes::from_static(&[1, 2, 3])),
    };
    receive(&mut session, &second);
    receive(&mut session, &first);
    let data = rx.try_recv().expect("a response").data.expect("data");
    assert_eq!(&data[..], &[1, 2, 3, 4, 5]);
}

#[test]
fn test_receiver_handles_nop_in() {
    let mut session = build_session();

    // Send a target-initiated NOP-In with a non-0xFFFFFFFF TTT.
    let bhs = Bhs::build_nop_in(
        0xFFFF_FFFF, // ITT (reserved for target-initiated)
        42,          // TTT (non-0xFFFFFFFF = ping requiring response)
        1,           // stat_sn
        1,           // exp_cmd_sn
        32,          // max_cmd_sn
    );
    let pdu = Pdu {
        bhs,
        ahs: None,
        data: None,
    };

    // The session should answer with a NOP-Out.
    let nop_out = receive(&mut session, &pdu).expect("a reply");
    assert_eq!(nop_out.bhs.opcode, Opcode::NopOut);
    assert_eq!(nop_out.bhs.ttt(), 42, "NOP-Out should echo the TTT");
    assert_eq!(
        nop_out.bhs.itt, 0xFFFF_FFFF,
        "ITT should be 0xFFFFFFFF for response"
    );
}

#[test]
fn answered_ping_is_not_answered() {
    let mut session = build_session();
    let pdu = Pdu {
        bhs: Bhs::build_nop_in(0xFFFF_FFFF, 0xFFFF_FFFF, 1, 1, 32),
        ahs: None,
        data: None,
    };
    assert!(receive(&mut session, &pdu).is_none());
}

#[test]
fn test_receiver_updates_sequence_numbers() {
    let mut session = build_session();
    let (tx, _rx) = oneshot::channel();
    let itt = session.itt_pool.allocate(tx).expect("should allocate ITT");

    // Send a SCSI Response with specific sequence numbers.
    let bhs = Bhs::build_scsi_response(
        itt, 0x00, // GOOD
        10,   // stat_sn
        5,    // exp_cmd_sn
        50,   // max_cmd_sn
    );
    let pdu = Pdu {
        bhs,
        ahs: None,
        data: None,
    };
    assert!(Session::<oneshot::Sender<PduResponse>>::is_acceptable(&pdu));
    session.on_pdu(&pdu, Duration::from_secs(1));

    // Verify updated sequence numbers.
    assert_eq!(
        session.state.exp_stat_sn, 11,
        "exp_stat_sn should be stat_sn + 1"
    );
    assert_eq!(session.state.exp_cmd_sn, 5, "exp_cmd_sn should be updated");
    assert_eq!(session.state.max_cmd_sn, 50, "max_cmd_sn should be updated");
}

#[test]
fn submitted_commands_take_tags_and_sequence_numbers() {
    let mut session: Session<u8> = Session::new(
        IttPool::new(),
        SessionState::new(7, 3),
        NegotiatedParams::defaults_10g(),
        Duration::ZERO,
    );
    session.state.max_cmd_sn = 8;
    let cdb = [0x28u8; 16];
    let data = Some(Bytes::from_static(b"abcd"));
    let (itt, pdu) = session
        .submit_command(1, &cdb, 5, 4, false, true, &data)
        .unwrap();
    assert_eq!(pdu.bhs.opcode, Opcode::ScsiCommand);
    assert_eq!(pdu.bhs.itt, itt);
    assert_eq!(pdu.bhs.lun, 5);
    assert_eq!(pdu.bhs.cmd_sn(), 7);
    assert_eq!(pdu.bhs.exp_stat_sn(), 3);
    assert_eq!(pdu.bhs.data_segment_length, 4);
    assert_eq!(&pdu.bhs.raw[32..48], &cdb);
    assert_eq!(pdu.data.as_deref(), Some(b"abcd".as_slice()));
    let (itt2, pdu2) = session
        .submit_command(2, &cdb, 5, 4, true, false, &None)
        .unwrap();
    assert_ne!(itt, itt2);
    assert_eq!(pdu2.bhs.cmd_sn(), 8);
    // The window is closed now.
    assert_eq!(
        session
            .submit_command(3, &cdb, 5, 4, true, false, &None)
            .err(),
        Some(3)
    );
    assert_eq!(session.itt_pool.outstanding_itts(), vec![itt, itt2]);
}

#[test]
fn r2t_is_answered_with_the_write_data() {
    let mut session: Session<u8> = Session::new(
        IttPool::new(),
        SessionState::new(1, 9),
        NegotiatedParams::defaults_10g(),
        Duration::ZERO,
    );
    session.negotiated.max_send_data_segment_length = 4;
    let itt = session.itt_pool.allocate(1).unwrap();
    let r2t = Pdu {
        bhs: Bhs::build_r2t(itt, 77, 1, 1, 32, 0, 2, 6),
        ahs: None,
        data: None,
    };
    assert!(session.can_answer_r2t(&r2t));
    assert!(matches!(session.handle_r2t(&r2t, 0), R2tStep::WaitAndRetry));
    assert!(matches!(session.handle_r2t(&r2t, 50), R2tStep::GiveUp));
    session
        .itt_pool
        .register_write_data(itt, Bytes::from_static(b"0123456789"));
    assert!(session.can_answer_r2t(&r2t));
    let pdus = match session.handle_r2t(&r2t, 3) {
        R2tStep::Send(pdus) => pdus,
        _ => panic!("the data is there"),
    };
    assert_eq!(pdus.len(), 2);
    assert_eq!(pdus[0].data.as_deref(), Some(b"2345".as_slice()));
    assert_eq!(pdus[1].data.as_deref(), Some(b"67".as_slice()));
    assert_eq!(pdus[0].bhs.ttt(), 77);
    assert_eq!(pdus[0].bhs.data_sn(), 0);
    assert_eq!(pdus[1].bhs.data_sn(), 1);
    assert_eq!(pdus[0].bhs.buffer_offset(), 2);
    assert_eq!(pdus[1].bhs.buffer_offset(), 6);
    let sent = |pdu: &Pdu| Bhs::parse(&pdu.bhs.serialize()).unwrap();
    assert!(!sent(&pdus[0]).final_flag());
    assert!(sent(&pdus[1]).final_flag());
    assert_eq!(sent(&pdus[0]).data_segment_length, 4);
    // An R2T for more than there is cannot be answered.
    let beyond = Pdu {
        bhs: Bhs::build_r2t(itt, 77, 1, 1, 32, 0, 8, 6),
        ahs: None,
        data: None,
    };
    assert!(!session.can_answer_r2t(&beyond));
}

#[test]
fn logout_takes_a_command_number() {
    let mut session = build_session();
    let ping = session.send_nop_out();
    assert_eq!(ping.bhs.cmd_sn(), 1);
    assert_eq!(ping.bhs.itt, 0xFFFF_FFFF);
    let logout = session.send_logout();
    assert_eq!(logout.bhs.opcode, Opcode::LogoutRequest);
    assert_eq!(logout.bhs.cmd_sn(), 1);
    assert_eq!(session.state.cmd_sn, 2);
}

#[test]
fn idle_time_counts_from_the_last_pdu() {
    let mut session = build_session();
    session.update_last_recv(Duration::from_secs(10));
    assert_eq!(
        session.time_since_last_recv(Duration::from_secs(13)),
        Duration::from_secs(3)
    );
    assert_eq!(
        session.time_since_last_recv(Duration::from_secs(9)),
        Duration::ZERO
    );
}

#[test]
fn unexpected_pdu_is_noted() {
    let mut session = build_session();
    let mut raw = [0u8; 48];
    raw[0] = 0x3f;
    let pdu = Pdu {
        bhs: Bhs::parse(&raw).unwrap(),
        ahs: None,
        data: None,
    };
    assert!(matches!(
        session.on_pdu(&pdu, Duration::ZERO),
        ReceiverAction::Note(Opcode::Reject)
    ));
}

#[test]
fn test_serial_number_le() {
    // Basic cases.
    assert!(serial_le(1, 2), "1 <= 2");
    assert!(serial_le(1, 1), "1 <= 1");
    assert!(!serial_le(2, 1), "!(2 <= 1)");

    // Wrap-around: a large number just before wrap should be <= a small
    // number just after wrap.
    assert!(serial_le(0xFFFF_FFFE, 0x0000_0001), "wrap-around case");
    assert!(serial_le(0xFFFF_FFFF, 0x0000_0000), "max <= 0 (wrap)");

    // The reverse should not hold.
    assert!(!serial_le(0x0000_0001, 0xFFFF_FFFE), "reverse wrap");

    // Boundary at exactly 2^31 apart — should be false (ambiguous in
    // RFC 1982, our implementation returns false).
    assert!(!serial_le(0, 0x8000_0000), "exactly 2^31 apart");
}

#[test]
fn test_session_state_cmd_window() {
    let mut state = SessionState::new(1, 0);

    // Default: max_cmd_sn == initial_cmd_sn == 1, so cmd_sn=1 is in window.
    assert!(
        state.cmd_sn_in_window(),
        "initial cmd_sn should be in window"
    );

    // Widen the window.
    state.max_cmd_sn = 32;
    assert!(state.cmd_sn_in_window(), "cmd_sn=1 <= max_cmd_sn=32");

    // Advance cmd_sn past the window.
    state.cmd_sn = 33;
    assert!(
        !state.cmd_sn_in_window(),
        "cmd_sn=33 > max_cmd_sn=32, outside window"
    );

    // Exactly at the edge.
    state.cmd_sn = 32;
    assert!(state.cmd_sn_in_window(), "cmd_sn=32 == max_cmd_sn=32");
}
