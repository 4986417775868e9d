use bytes::Bytes;
use iscsi_lib::iscsi::login::{
    parse_kv_pairs, LoginError, LoginManager, LoginStep, NegotiatedParams, NumberKey,
};
use iscsi_lib::iscsi::pdu::{Bhs, Opcode, Pdu};

#[test]
fn test_parse_kv_pairs() {
    // Basic parsing.
    let data = b"Key1=Value1\0Key2=Value2\0";
    let pairs = parse_kv_pairs(data);
    assert_eq!(pairs.len(), 2);
    assert_eq!(pairs[0], ("Key1", "Value1"));
    assert_eq!(pairs[1], ("Key2", "Value2"));
}

#[test]
fn test_parse_kv_pairs_trailing_nul() {
    // Trailing NUL should not produce an empty entry.
    let data = b"A=B\0";
    let pairs = parse_kv_pairs(data);
    assert_eq!(pairs.len(), 1);
    assert_eq!(pairs[0], ("A", "B"));
}

#[test]
fn test_parse_kv_pairs_double_nul() {
    // Double NUL (empty entry between them) should be skipped.
    let data = b"X=1\0\0Y=2\0";
    let pairs = parse_kv_pairs(data);
    assert_eq!(pairs.len(), 2);
    assert_eq!(pairs[0], ("X", "1"));
    assert_eq!(pairs[1], ("Y", "2"));
}

#[test]
fn test_parse_kv_pairs_empty() {
    let pairs = parse_kv_pairs(b"");
    assert!(pairs.is_empty());
}

#[test]
fn test_parse_kv_pairs_no_equals() {
    // Entries without '=' are skipped.
    let data = b"NoEquals\0Key=Val\0";
    let pairs = parse_kv_pairs(data);
    assert_eq!(pairs.len(), 1);
    assert_eq!(pairs[0], ("Key", "Val"));
}

#[test]
fn test_negotiated_params_defaults() {
    let p = NegotiatedParams::defaults_10g();
    assert_eq!(p.max_recv_data_segment_length, 1_048_576);
    assert_eq!(p.max_send_data_segment_length, 1_048_576);
    assert_eq!(p.max_burst_length, 1_048_576);
    assert_eq!(p.first_burst_length, 262_144);
    assert!(!p.initial_r2t);
    assert!(p.immediate_data);
    assert_eq!(p.max_outstanding_r2t, 8);
    assert_eq!(p.max_connections, 1);
    assert!(p.data_pdu_in_order);
    assert!(p.data_sequence_in_order);
    assert_eq!(p.error_recovery_level, 0);
    assert!(p.header_digest);
    assert!(p.data_digest);
    assert_eq!(p.default_time2wait, 2);
    assert_eq!(p.default_time2retain, 20);
}

#[test]
fn test_build_security_text() {
    let mgr = LoginManager::new(
        "iqn.2024.com.example:initiator",
        "iqn.2024.com.example:target",
    );
    let text = mgr.build_security_text();
    assert!(text.contains("InitiatorName=iqn.2024.com.example:initiator\0"));
    assert!(text.contains("TargetName=iqn.2024.com.example:target\0"));
    assert!(text.contains("SessionType=Normal\0"));
    assert!(text.contains("AuthMethod=None\0"));
}

#[test]
fn test_build_operational_text() {
    let text = NegotiatedParams::build_operational_text();
    assert!(text.contains("MaxRecvDataSegmentLength=1048576\0"));
    assert!(text.contains("HeaderDigest=CRC32C\0"));
    assert!(text.contains("DataDigest=CRC32C\0"));
    assert!(text.contains("MaxBurstLength=1048576\0"));
    assert!(text.contains("FirstBurstLength=262144\0"));
    assert!(text.contains("InitialR2T=No\0"));
    assert!(text.contains("ImmediateData=Yes\0"));
    assert!(text.contains("MaxOutstandingR2T=8\0"));
    assert!(text.contains("MaxConnections=1\0"));
    assert!(text.contains("DataPDUInOrder=Yes\0"));
    assert!(text.contains("DataSequenceInOrder=Yes\0"));
    assert!(text.contains("ErrorRecoveryLevel=0\0"));
    assert!(text.contains("DefaultTime2Wait=2\0"));
    assert!(text.contains("DefaultTime2Retain=20\0"));
}

#[test]
fn test_apply_target_response() {
    let mut params = NegotiatedParams::defaults_10g();

    // Target says: smaller MaxRecvDataSegmentLength (becomes our send limit),
    // no header digest, smaller max burst, target says InitialR2T=Yes.
    let resp = b"MaxRecvDataSegmentLength=262144\0\
                 HeaderDigest=None\0\
                 DataDigest=CRC32C\0\
                 MaxBurstLength=524288\0\
                 FirstBurstLength=131072\0\
                 InitialR2T=Yes\0\
                 ImmediateData=Yes\0\
                 MaxOutstandingR2T=4\0\
                 ErrorRecoveryLevel=0\0\
                 UnknownKey=Ignored\0";

    params.apply_target_response(resp).unwrap();

    // Target's MaxRecvDataSegmentLength becomes our max_send_data_segment_length.
    assert_eq!(params.max_send_data_segment_length, 262_144);
    // Our max_recv_data_segment_length stays at our declared value.
    assert_eq!(params.max_recv_data_segment_length, 1_048_576);
    // HeaderDigest negotiated to None.
    assert!(!params.header_digest);
    // DataDigest stays CRC32C.
    assert!(params.data_digest);
    // MaxBurstLength = min(1_048_576, 524_288).
    assert_eq!(params.max_burst_length, 524_288);
    // FirstBurstLength = min(262_144, 131_072).
    assert_eq!(params.first_burst_length, 131_072);
    // InitialR2T: boolean OR, either says Yes -> Yes.
    assert!(params.initial_r2t);
    // ImmediateData: boolean AND, both say Yes -> Yes.
    assert!(params.immediate_data);
    // MaxOutstandingR2T = min(8, 4).
    assert_eq!(params.max_outstanding_r2t, 4);
    // ErrorRecoveryLevel = min(0, 0).
    assert_eq!(params.error_recovery_level, 0);
}

#[test]
fn test_apply_target_response_immediate_data_no() {
    // Test ImmediateData boolean AND: target says No -> result is No.
    let mut params = NegotiatedParams::defaults_10g();
    assert!(params.immediate_data); // We start with Yes.

    let resp = b"ImmediateData=No\0";
    params.apply_target_response(resp).unwrap();

    assert!(!params.immediate_data); // AND(Yes, No) = No.
}

#[test]
fn test_apply_target_response_initial_r2t_no() {
    // Test InitialR2T boolean OR: both say No -> result is No.
    let mut params = NegotiatedParams::defaults_10g();
    assert!(!params.initial_r2t); // We start with No.

    let resp = b"InitialR2T=No\0";
    params.apply_target_response(resp).unwrap();

    assert!(!params.initial_r2t); // OR(No, No) = No.
}

#[test]
fn test_login_manager_isid() {
    let mgr = LoginManager::new("iqn.init", "iqn.target");
    assert_eq!(mgr.isid[0], 0x80); // type byte = random
    assert_eq!(mgr.isid, [0x80, 0x00, 0x00, 0x00, 0x00, 0x01]);
}

#[test]
fn test_login_status_accessors() {
    // Build a login response BHS with known status-class/detail.
    let mut raw = [0u8; 48];
    raw[0] = 0x23; // LoginResponse opcode
    raw[36] = 0x02; // Status-Class = 2 (initiator error)
    raw[37] = 0x01; // Status-Detail = 1
    let bhs = Bhs::parse(&raw).unwrap();
    assert_eq!(bhs.login_status_class(), 0x02);
    assert_eq!(bhs.login_status_detail(), 0x01);
}

fn response(class: u8, detail: u8, data: Option<&str>) -> Pdu {
    let mut raw = [0u8; 48];
    raw[0] = 0x23;
    raw[14] = 0x12;
    raw[15] = 0x34;
    raw[27] = 40; // StatSN
    raw[31] = 9; // ExpCmdSN
    raw[36] = class;
    raw[37] = detail;
    Pdu {
        bhs: Bhs::parse(&raw).unwrap(),
        ahs: None,
        data: data.map(|d| Bytes::copy_from_slice(d.as_bytes())),
    }
}

#[test]
fn login_takes_two_phases() {
    let mgr = LoginManager::new("iqn.init", "iqn.target");
    let (mut exchange, first) = mgr.login(5);
    assert_eq!(first.bhs.opcode, Opcode::LoginRequest);
    assert_eq!(first.bhs.raw[1], 0x81);
    assert_eq!(&first.bhs.raw[8..14], &mgr.isid);
    let text = first.data.clone().unwrap();
    assert_eq!(&text[..], mgr.build_security_text().as_bytes());

    let second = match mgr.on_response(&mut exchange, &response(0, 0, None)) {
        Ok(LoginStep::Send(pdu)) => pdu,
        _ => panic!("the operational phase follows"),
    };
    assert_eq!(second.bhs.raw[1], 0x87);
    assert_eq!(second.bhs.tsih(), 0x1234);
    assert_eq!(
        &second.data.unwrap()[..],
        NegotiatedParams::build_operational_text().as_bytes()
    );

    let done = match mgr.on_response(
        &mut exchange,
        &response(0, 0, Some("MaxBurstLength=4096\0HeaderDigest=None\0")),
    ) {
        Ok(LoginStep::Done(result)) => result,
        _ => panic!("the login is complete"),
    };
    assert_eq!(done.tsih, 0x1234);
    assert_eq!(done.negotiated.max_burst_length, 4096);
    assert!(!done.negotiated.header_digest);
    assert_eq!(done.initial_cmd_sn, 9);
    assert_eq!(done.initial_exp_stat_sn, 41);
}

#[test]
fn refused_login_names_the_status() {
    let mgr = LoginManager::new("iqn.init", "iqn.target");
    assert_eq!(
        mgr.security_phase(&response(2, 1, None)),
        Err(LoginError::SecurityPhaseFailed {
            status_class: 2,
            status_detail: 1
        })
    );
    assert_eq!(
        mgr.operational_phase(&response(3, 4, None)).err(),
        Some(LoginError::OperationalPhaseFailed {
            status_class: 3,
            status_detail: 4
        })
    );
    let nop = Pdu {
        bhs: Bhs::build_nop_out(1, 2, 3, 4),
        ahs: None,
        data: None,
    };
    assert_eq!(
        mgr.security_phase(&nop),
        Err(LoginError::UnexpectedOpcode(Opcode::NopOut))
    );
}

#[test]
fn custom_parameters_are_offered() {
    let mut params = NegotiatedParams::defaults_10g();
    params.immediate_data = false;
    params.initial_r2t = true;
    let text = NegotiatedParams::build_operational_text_from(&params);
    assert!(text.contains("ImmediateData=No\0"));
    assert!(text.contains("InitialR2T=Yes\0"));
    let mgr = LoginManager::new("iqn.init", "iqn.target");
    let pdu = mgr.operational_request(1, 2, Some(params));
    assert_eq!(&pdu.data.unwrap()[..], text.as_bytes());
}

#[test]
fn echoed_offer_changes_nothing() {
    let offer = NegotiatedParams::build_operational_text();
    let mut params = NegotiatedParams::defaults_10g();
    params.apply_target_response(offer.as_bytes()).unwrap();
    assert_eq!(params, NegotiatedParams::defaults_10g());
}

#[test]
fn bad_answers_are_refused() {
    let apply = |text: &str| {
        NegotiatedParams::defaults_10g()
            .apply_target_response(text.as_bytes())
            .err()
    };
    assert_eq!(
        apply("HeaderDigest=MD5\0"),
        Some(LoginError::UnsupportedHeaderDigest)
    );
    assert_eq!(
        apply("DataDigest=MD5\0"),
        Some(LoginError::UnsupportedDataDigest)
    );
    for (key, number) in [
        ("MaxRecvDataSegmentLength", NumberKey::MaxRecvDataSegmentLength),
        ("MaxBurstLength", NumberKey::MaxBurstLength),
        ("FirstBurstLength", NumberKey::FirstBurstLength),
        ("MaxOutstandingR2T", NumberKey::MaxOutstandingR2T),
        ("MaxConnections", NumberKey::MaxConnections),
        ("ErrorRecoveryLevel", NumberKey::ErrorRecoveryLevel),
        ("DefaultTime2Wait", NumberKey::DefaultTime2Wait),
        ("DefaultTime2Retain", NumberKey::DefaultTime2Retain),
    ] {
        assert_eq!(
            apply(&format!("{key}=x\0")),
            Some(LoginError::InvalidNumber(number))
        );
        assert_eq!(apply(&format!("{key}=1\0")), None);
    }
    assert_eq!(
        apply("ErrorRecoveryLevel=256\0"),
        Some(LoginError::InvalidNumber(NumberKey::ErrorRecoveryLevel))
    );
    assert_eq!(apply("X-Unknown=x\0"), None);
}

#[test]
fn answers_only_narrow_the_limits() {
    let mut params = NegotiatedParams::defaults_10g();
    params
        .apply_target_response(b"MaxBurstLength=99999999\0FirstBurstLength=99999999\0")
        .unwrap();
    assert_eq!(params.max_burst_length, 1_048_576);
    assert_eq!(params.first_burst_length, 262_144);
    params
        .apply_target_response(b"DefaultTime2Wait=3\0DefaultTime2Retain=60\0")
        .unwrap();
    assert_eq!(params.default_time2wait, 2);
    assert_eq!(params.default_time2retain, 20);
    params
        .apply_target_response(b"DefaultTime2Wait=0\0DefaultTime2Retain=5\0")
        .unwrap();
    assert_eq!(params.default_time2wait, 0);
    assert_eq!(params.default_time2retain, 5);
}

#[test]
fn order_is_kept_only_if_both_sides_say_so() {
    for (ours, theirs) in [(true, true), (true, false), (false, true), (false, false)] {
        let mut params = NegotiatedParams::defaults_10g();
        params.data_pdu_in_order = ours;
        params.data_sequence_in_order = ours;
        let word = if theirs { "Yes" } else { "No" };
        let text = format!("DataPDUInOrder={word}\0DataSequenceInOrder={word}\0");
        params.apply_target_response(text.as_bytes()).unwrap();
        assert_eq!(params.data_pdu_in_order, ours && theirs);
        assert_eq!(params.data_sequence_in_order, ours && theirs);
    }
}

#[test]
fn same_answer_counts_once() {
    let answer = b"HeaderDigest=None\0HeaderDigest=CRC32C\0DataDigest=None\0MaxBurstLength=4096\0\
                   InitialR2T=Yes\0MaxRecvDataSegmentLength=9\0DefaultTime2Retain=1\0";
    let mut once = NegotiatedParams::defaults_10g();
    once.apply_target_response(answer).unwrap();
    let mut twice = once;
    twice.apply_target_response(answer).unwrap();
    assert_eq!(twice, once);
}

#[test]
fn text_that_is_no_text_has_no_pairs() {
    assert!(parse_kv_pairs(&[b'A', b'=', 0xFF, 0]).is_empty());
    // Only the first equals sign separates.
    assert_eq!(parse_kv_pairs(b"A=B=C\0=D"), vec![("A", "B=C"), ("", "D")]);
}
