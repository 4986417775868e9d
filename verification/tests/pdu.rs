use iscsi_lib::iscsi::pdu::{pad_to_4, Bhs, Opcode, PduError};

#[test]
fn test_opcode_values() {
    // Initiator opcodes
    assert_eq!(Opcode::NopOut.code(), 0x00);
    assert_eq!(Opcode::ScsiCommand.code(), 0x01);
    assert_eq!(Opcode::TaskMgmt.code(), 0x02);
    assert_eq!(Opcode::LoginRequest.code(), 0x03);
    assert_eq!(Opcode::TextRequest.code(), 0x04);
    assert_eq!(Opcode::ScsiDataOut.code(), 0x05);
    assert_eq!(Opcode::LogoutRequest.code(), 0x06);
    assert_eq!(Opcode::SnackRequest.code(), 0x10);
    // Target opcodes
    assert_eq!(Opcode::NopIn.code(), 0x20);
    assert_eq!(Opcode::ScsiResponse.code(), 0x21);
    assert_eq!(Opcode::TaskMgmtResp.code(), 0x22);
    assert_eq!(Opcode::LoginResponse.code(), 0x23);
    assert_eq!(Opcode::TextResponse.code(), 0x24);
    assert_eq!(Opcode::ScsiDataIn.code(), 0x25);
    assert_eq!(Opcode::LogoutResponse.code(), 0x26);
    assert_eq!(Opcode::R2t.code(), 0x31);
    assert_eq!(Opcode::AsyncMessage.code(), 0x32);
    assert_eq!(Opcode::Reject.code(), 0x3f);

    // Round-trip through TryFrom
    for &val in &[
        0x00u8, 0x01, 0x02, 0x03, 0x04, 0x05, 0x06, 0x10, 0x20, 0x21, 0x22, 0x23, 0x24, 0x25,
        0x26, 0x31, 0x32, 0x3f,
    ] {
        let op = Opcode::try_from(val).unwrap();
        assert_eq!(op.code(), val);
    }

    // Unknown opcode must fail
    assert!(Opcode::try_from(0xFF).is_err());
    assert!(Opcode::try_from(0x07).is_err());
}

#[test]
fn test_scsi_command_round_trip() {
    let cdb = [
        0x28, 0x00, 0x00, 0x00, 0x00, 0x08, 0x00, 0x00, 0x01, 0x00, 0x00, 0x00, 0x00, 0x00,
        0x00, 0x00,
    ];
    let lun = 0x0001_0000_0000_0000u64;
    let itt = 42;
    let cmd_sn = 100;
    let exp_stat_sn = 200;
    let edtl = 512;

    let bhs = Bhs::build_scsi_command(lun, itt, cmd_sn, exp_stat_sn, &cdb, edtl, true, false);

    assert_eq!(bhs.opcode, Opcode::ScsiCommand);
    assert!(!bhs.immediate);
    assert!(bhs.final_flag());

    // Serialize and parse back
    let wire = bhs.serialize();
    let parsed = Bhs::parse(&wire).unwrap();

    assert_eq!(parsed.opcode, Opcode::ScsiCommand);
    assert!(!parsed.immediate);
    assert_eq!(parsed.lun, lun);
    assert_eq!(parsed.itt, itt);
    assert_eq!(parsed.cmd_sn(), cmd_sn);
    assert_eq!(parsed.exp_stat_sn(), exp_stat_sn);
    // CDB is at raw[32..48]
    assert_eq!(&parsed.raw[32..48], &cdb);
    // EDTL at raw[20..24]
    assert_eq!(
        u32::from_be_bytes(parsed.raw[20..24].try_into().unwrap()),
        edtl
    );
}

#[test]
fn test_login_request_builder() {
    let isid = [0xAA, 0xBB, 0xCC, 0xDD, 0xEE, 0xFF];
    let tsih = 0x1234u16;
    let cid = 0x0001u16;
    let itt = 1;
    let cmd_sn = 1;
    let exp_stat_sn = 0;
    let csg = 0; // SecurityNegotiation
    let nsg = 1; // LoginOperationalNegotiation
    let transit = true;

    let bhs =
        Bhs::build_login_request(isid, tsih, cid, itt, cmd_sn, exp_stat_sn, csg, nsg, transit);

    let wire = bhs.serialize();

    // byte 0: immediate (0x40) | LoginRequest (0x03) = 0x43
    assert_eq!(wire[0], 0x43);
    assert_eq!(bhs.opcode, Opcode::LoginRequest);
    assert!(bhs.immediate);

    // ISID at bytes 8-13
    assert_eq!(&wire[8..14], &isid);

    // TSIH at bytes 14-15
    assert_eq!(bhs.tsih(), tsih);
    assert_eq!(u16::from_be_bytes(wire[14..16].try_into().unwrap()), tsih);

    // flags: transit=1 -> bit 7, csg=0 << 2, nsg=1
    assert_eq!(wire[1], 0x81); // 1000_0001

    // CID at bytes 20-21
    assert_eq!(u16::from_be_bytes(wire[20..22].try_into().unwrap()), cid);
}

#[test]
fn test_nop_out_builder() {
    let itt = 0xFFFF_FFFFu32;
    let ttt = 0xFFFF_FFFFu32;
    let cmd_sn = 50;
    let exp_stat_sn = 60;

    let bhs = Bhs::build_nop_out(itt, ttt, cmd_sn, exp_stat_sn);

    assert_eq!(bhs.opcode, Opcode::NopOut);
    assert!(bhs.immediate);
    assert_eq!(bhs.itt, itt);
    assert_eq!(bhs.ttt(), ttt);

    let wire = bhs.serialize();
    // byte 0: immediate (0x40) | NopOut (0x00) = 0x40
    assert_eq!(wire[0], 0x40);

    // Round-trip
    let parsed = Bhs::parse(&wire).unwrap();
    assert_eq!(parsed.opcode, Opcode::NopOut);
    assert!(parsed.immediate);
    assert_eq!(parsed.itt, itt);
    assert_eq!(parsed.ttt(), ttt);
    assert_eq!(parsed.cmd_sn(), cmd_sn);
    assert_eq!(parsed.exp_stat_sn(), exp_stat_sn);
}

#[test]
fn test_data_segment_length_encoding() {
    // Build a BHS with a specific data_segment_length and check the 3-byte
    // encoding at wire bytes 5-7.
    let mut bhs = Bhs::build_nop_out(0, 0, 0, 0);
    bhs.data_segment_length = 0x123456;
    // Re-sync raw for the new data_segment_length
    bhs.sync_raw_from_fields();

    let wire = bhs.serialize();
    assert_eq!(wire[4], 0x00); // reserved
    assert_eq!(wire[5], 0x12);
    assert_eq!(wire[6], 0x34);
    assert_eq!(wire[7], 0x56);

    // Parse back
    let parsed = Bhs::parse(&wire).unwrap();
    assert_eq!(parsed.data_segment_length, 0x123456);

    // Edge case: 0
    bhs.data_segment_length = 0;
    bhs.sync_raw_from_fields();
    let wire = bhs.serialize();
    assert_eq!(wire[5], 0);
    assert_eq!(wire[6], 0);
    assert_eq!(wire[7], 0);
    let parsed = Bhs::parse(&wire).unwrap();
    assert_eq!(parsed.data_segment_length, 0);

    // Edge case: max 24-bit
    bhs.data_segment_length = 0xFFFFFF;
    bhs.sync_raw_from_fields();
    let wire = bhs.serialize();
    assert_eq!(wire[5], 0xFF);
    assert_eq!(wire[6], 0xFF);
    assert_eq!(wire[7], 0xFF);
    let parsed = Bhs::parse(&wire).unwrap();
    assert_eq!(parsed.data_segment_length, 0xFFFFFF);
}

#[test]
fn test_parse_data_in_fields() {
    let itt = 7;
    let data_sn = 3;
    let buffer_offset = 4096;
    let data_len = 512;
    let stat_sn = 10;
    let exp_cmd_sn = 20;
    let max_cmd_sn = 30;
    let scsi_status = 0x00; // GOOD

    let bhs = Bhs::build_data_in(
        itt,
        data_sn,
        buffer_offset,
        data_len,
        true, // status_flag
        scsi_status,
        stat_sn,
        exp_cmd_sn,
        max_cmd_sn,
    );

    assert_eq!(bhs.opcode, Opcode::ScsiDataIn);
    assert_eq!(bhs.data_segment_length, data_len);

    let wire = bhs.serialize();
    let parsed = Bhs::parse(&wire).unwrap();

    assert_eq!(parsed.opcode, Opcode::ScsiDataIn);
    assert_eq!(parsed.data_segment_length, data_len);
    assert_eq!(parsed.data_sn(), data_sn);
    assert_eq!(parsed.buffer_offset(), buffer_offset);
    assert!(parsed.status_flag());
    assert!(parsed.final_flag());
    assert_eq!(parsed.scsi_status(), scsi_status);
    assert_eq!(parsed.stat_sn(), stat_sn);
    assert_eq!(parsed.exp_cmd_sn(), exp_cmd_sn);
    assert_eq!(parsed.max_cmd_sn(), max_cmd_sn);
}

#[test]
fn test_parse_r2t_fields() {
    let itt = 5;
    let ttt = 99;
    let stat_sn = 10;
    let exp_cmd_sn = 11;
    let max_cmd_sn = 12;
    let r2t_sn = 0;
    let buffer_offset = 8192;
    let desired_length = 65536;

    let bhs = Bhs::build_r2t(
        itt,
        ttt,
        stat_sn,
        exp_cmd_sn,
        max_cmd_sn,
        r2t_sn,
        buffer_offset,
        desired_length,
    );

    assert_eq!(bhs.opcode, Opcode::R2t);

    let wire = bhs.serialize();
    let parsed = Bhs::parse(&wire).unwrap();

    assert_eq!(parsed.opcode, Opcode::R2t);
    assert_eq!(parsed.itt, itt);
    assert_eq!(parsed.ttt(), ttt);
    assert_eq!(parsed.stat_sn(), stat_sn);
    assert_eq!(parsed.exp_cmd_sn(), exp_cmd_sn);
    assert_eq!(parsed.max_cmd_sn(), max_cmd_sn);
    assert_eq!(parsed.r2t_sn(), r2t_sn);
    assert_eq!(parsed.r2t_buffer_offset(), buffer_offset);
    assert_eq!(parsed.r2t_desired_length(), desired_length);
}

#[test]
fn test_padding_calculation() {
    assert_eq!(pad_to_4(0), 0);
    assert_eq!(pad_to_4(1), 4);
    assert_eq!(pad_to_4(2), 4);
    assert_eq!(pad_to_4(3), 4);
    assert_eq!(pad_to_4(4), 4);
    assert_eq!(pad_to_4(5), 8);
    assert_eq!(pad_to_4(100), 100);
    assert_eq!(pad_to_4(101), 104);
    assert_eq!(pad_to_4(1023), 1024);
    assert_eq!(pad_to_4(1024), 1024);
}

#[test]
fn test_logout_request_builder() {
    let itt = 77;
    let cmd_sn = 500;
    let exp_stat_sn = 501;
    let cid = 1;

    let bhs = Bhs::build_logout_request(itt, cmd_sn, exp_stat_sn, cid);

    assert_eq!(bhs.opcode, Opcode::LogoutRequest);
    assert!(bhs.immediate);
    assert_eq!(bhs.itt, itt);

    let wire = bhs.serialize();
    // byte 0: immediate (0x40) | LogoutRequest (0x06) = 0x46
    assert_eq!(wire[0], 0x46);
    // F bit should be set
    assert!(bhs.final_flag());

    // CID at bytes 20-21
    assert_eq!(u16::from_be_bytes(wire[20..22].try_into().unwrap()), cid);

    // Round-trip
    let parsed = Bhs::parse(&wire).unwrap();
    assert_eq!(parsed.opcode, Opcode::LogoutRequest);
    assert!(parsed.immediate);
    assert_eq!(parsed.itt, itt);
    assert_eq!(parsed.cmd_sn(), cmd_sn);
    assert_eq!(parsed.exp_stat_sn(), exp_stat_sn);
}

#[test]
fn test_data_out_builder() {
    let lun = 0x0001_0000_0000_0000u64;
    let itt = 33;
    let ttt = 44;
    let exp_stat_sn = 55;
    let data_sn = 0;
    let buffer_offset = 0;

    let bhs = Bhs::build_data_out(lun, itt, ttt, exp_stat_sn, data_sn, buffer_offset);

    assert_eq!(bhs.opcode, Opcode::ScsiDataOut);
    assert!(!bhs.immediate);
    assert_eq!(bhs.itt, itt);
    assert_eq!(bhs.lun, lun);

    let wire = bhs.serialize();
    // byte 0: ScsiDataOut (0x05) — no immediate bit
    assert_eq!(wire[0], 0x05);

    let parsed = Bhs::parse(&wire).unwrap();
    assert_eq!(parsed.opcode, Opcode::ScsiDataOut);
    assert_eq!(parsed.itt, itt);
    assert_eq!(parsed.ttt(), ttt);
    assert_eq!(parsed.exp_stat_sn(), exp_stat_sn);
    assert_eq!(parsed.data_sn(), data_sn);
    assert_eq!(parsed.buffer_offset(), buffer_offset);
}

#[test]
fn header_survives_the_wire() {
    let mut raw = [0u8; 48];
    for (i, b) in raw.iter_mut().enumerate() {
        *b = i as u8;
    }
    raw[0] = 0x41;
    raw[4] = 0;
    let bhs = Bhs::parse(&raw).unwrap();
    assert!(bhs.immediate);
    assert_eq!(bhs.opcode, Opcode::ScsiCommand);
    assert_eq!(bhs.data_segment_length, 0x05_06_07);
    assert_eq!(bhs.lun, 0x0809_0A0B_0C0D_0E0F);
    assert_eq!(bhs.itt, 0x1011_1213);
    assert_eq!(bhs.serialize(), raw);
}

#[test]
fn length_is_cut_to_its_field() {
    let mut bhs = Bhs::build_nop_out(1, 2, 3, 4);
    bhs.data_segment_length = 0x0312_3456;
    let parsed = Bhs::parse(&bhs.serialize()).unwrap();
    assert_eq!(parsed.data_segment_length, 0x12_3456);
}

#[test]
fn unknown_opcode_names_its_number() {
    let mut raw = [0u8; 48];
    raw[0] = 0x40 + 0x3E;
    assert!(matches!(
        Bhs::parse(&raw),
        Err(PduError::UnknownOpcode(0x3E))
    ));
}
