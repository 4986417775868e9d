use iscsi_lib::iscsi::command::{
    build_inquiry, build_read, build_read10, build_read16, build_read_capacity10,
    build_read_capacity16, build_synchronize_cache10, build_test_unit_ready, build_write,
    build_write10, build_write16, is_retryable, is_unit_attention, parse_read_capacity10, parse_read_capacity16,
    parse_sense_data, CommandError, ScsiStatus,
    SenseData, SenseKey,
};

#[test]
fn test_build_test_unit_ready() {
    let cdb = build_test_unit_ready();
    assert_eq!(cdb[0], 0x00);
    assert!(cdb[1..].iter().all(|&b| b == 0));
}

#[test]
fn test_build_read_capacity10() {
    let cdb = build_read_capacity10();
    assert_eq!(cdb[0], 0x25);
}

#[test]
fn test_build_read_capacity16() {
    let alloc_len: u32 = 32;
    let cdb = build_read_capacity16(alloc_len);
    assert_eq!(cdb[0], 0x9E);
    assert_eq!(cdb[1], 0x10);
    let parsed = u32::from_be_bytes([cdb[10], cdb[11], cdb[12], cdb[13]]);
    assert_eq!(parsed, alloc_len);
}

#[test]
fn test_build_read10_lba_and_count() {
    let lba: u32 = 0x1000;
    let count: u16 = 128;
    let cdb = build_read10(lba, count);
    assert_eq!(cdb[0], 0x28);
    let parsed_lba = u32::from_be_bytes([cdb[2], cdb[3], cdb[4], cdb[5]]);
    assert_eq!(parsed_lba, lba);
    let parsed_count = u16::from_be_bytes([cdb[7], cdb[8]]);
    assert_eq!(parsed_count, count);
}

#[test]
fn test_build_read16_large_lba() {
    let lba: u64 = (u32::MAX as u64) + 1;
    let count: u32 = 1;
    let cdb = build_read16(lba, count);
    assert_eq!(cdb[0], 0x88);
    let parsed_lba = u64::from_be_bytes([
        cdb[2], cdb[3], cdb[4], cdb[5], cdb[6], cdb[7], cdb[8], cdb[9],
    ]);
    assert_eq!(parsed_lba, lba);
}

#[test]
fn test_build_read_auto_selects_read10() {
    let cdb = build_read(100, 64);
    assert_eq!(cdb[0], 0x28);
}

#[test]
fn test_build_read_auto_selects_read16_large_lba() {
    let lba = (u32::MAX as u64) + 1;
    let cdb = build_read(lba, 1);
    assert_eq!(cdb[0], 0x88);
}

#[test]
fn test_build_read_auto_selects_read16_large_count() {
    let count = (u16::MAX as u32) + 1;
    let cdb = build_read(0, count);
    assert_eq!(cdb[0], 0x88);
}

#[test]
fn test_build_write10() {
    let cdb = build_write10(0x2000, 256);
    assert_eq!(cdb[0], 0x2A);
    let parsed_lba = u32::from_be_bytes([cdb[2], cdb[3], cdb[4], cdb[5]]);
    assert_eq!(parsed_lba, 0x2000);
    let parsed_count = u16::from_be_bytes([cdb[7], cdb[8]]);
    assert_eq!(parsed_count, 256);
}

#[test]
fn test_build_write_auto_selects() {
    let small = build_write(100, 64);
    assert_eq!(small[0], 0x2A);
    let large = build_write((u32::MAX as u64) + 1, 1);
    assert_eq!(large[0], 0x8A);
}

#[test]
fn test_build_synchronize_cache10() {
    let cdb = build_synchronize_cache10(0x1000, 128);
    assert_eq!(cdb[0], 0x35);
    let parsed_lba = u32::from_be_bytes([cdb[2], cdb[3], cdb[4], cdb[5]]);
    assert_eq!(parsed_lba, 0x1000);
    let parsed_count = u16::from_be_bytes([cdb[7], cdb[8]]);
    assert_eq!(parsed_count, 128);
}

#[test]
fn test_build_synchronize_cache10_full_flush() {
    let cdb = build_synchronize_cache10(0, 0);
    assert_eq!(cdb[0], 0x35);
    let parsed_lba = u32::from_be_bytes([cdb[2], cdb[3], cdb[4], cdb[5]]);
    assert_eq!(parsed_lba, 0);
    let parsed_count = u16::from_be_bytes([cdb[7], cdb[8]]);
    assert_eq!(parsed_count, 0);
}

#[test]
fn test_build_inquiry() {
    let alloc_len: u16 = 96;
    let cdb = build_inquiry(alloc_len);
    assert_eq!(cdb[0], 0x12);
    let parsed = u16::from_be_bytes([cdb[3], cdb[4]]);
    assert_eq!(parsed, alloc_len);
}

#[test]
fn test_parse_read_capacity10() {
    let max_lba: u32 = 1023;
    let block_len: u32 = 4096;
    let mut data = [0u8; 8];
    data[0..4].copy_from_slice(&max_lba.to_be_bytes());
    data[4..8].copy_from_slice(&block_len.to_be_bytes());
    let (parsed_lba, parsed_bl) = parse_read_capacity10(&data).unwrap();
    assert_eq!(parsed_lba, max_lba);
    assert_eq!(parsed_bl, block_len);
}

#[test]
fn test_parse_read_capacity10_zero_block_len() {
    let mut data = [0u8; 8];
    data[0..4].copy_from_slice(&1023u32.to_be_bytes());
    // block_len stays 0
    assert!(parse_read_capacity10(&data).is_err());
}

#[test]
fn test_parse_read_capacity16() {
    let max_lba: u64 = 0x0001_0000_0000_FFFF;
    let block_len: u32 = 512;
    let mut data = [0u8; 12];
    data[0..8].copy_from_slice(&max_lba.to_be_bytes());
    data[8..12].copy_from_slice(&block_len.to_be_bytes());
    let (parsed_lba, parsed_bl) = parse_read_capacity16(&data).unwrap();
    assert_eq!(parsed_lba, max_lba);
    assert_eq!(parsed_bl, block_len);
}

#[test]
fn test_parse_sense_data_unit_attention() {
    // Build a sense data buffer with 2-byte iSCSI prefix + fixed-format sense.
    // Total layout: [len_hi, len_lo, response_code, segment, sense_key, info0..info3, ...]
    let mut data = [0u8; 20];
    // bytes 0-1: sense data length (we just put a large enough value)
    data[0] = 0x00;
    data[1] = 0x12; // 18 bytes of sense
    // byte 2: response code 0x70 (current, fixed format)
    data[2] = 0x70;
    // byte 3: segment number (0)
    data[3] = 0x00;
    // byte 4: sense key = 0x06 (UNIT ATTENTION)
    data[4] = 0x06;
    // bytes 5-8: information field
    data[5] = 0x00;
    data[6] = 0x00;
    data[7] = 0x00;
    data[8] = 0x01;
    // bytes 9-13: additional sense length + filler
    data[9] = 0x0A; // additional sense length
    // byte 14: ASC
    data[14] = 0x28;
    // byte 15: ASCQ
    data[15] = 0x00;

    let sense = parse_sense_data(&data).unwrap();
    assert_eq!(sense.sense_key, SenseKey::UnitAttention);
    assert_eq!(sense.asc, 0x28);
    assert_eq!(sense.ascq, 0x00);
    assert_eq!(sense.information, 1);
    assert!(is_unit_attention(&sense));
}

#[test]
fn test_is_retryable() {
    // Busy is retryable regardless of sense
    assert!(is_retryable(ScsiStatus::Busy, None));

    // TaskSetFull is retryable regardless of sense
    assert!(is_retryable(ScsiStatus::TaskSetFull, None));

    // CheckCondition with UnitAttention sense is retryable
    let ua_sense = SenseData {
        sense_key: SenseKey::UnitAttention,
        asc: 0x28,
        ascq: 0x00,
        information: 0,
    };
    assert!(is_retryable(ScsiStatus::CheckCondition, Some(&ua_sense)));

    // CheckCondition without sense is not retryable
    assert!(!is_retryable(ScsiStatus::CheckCondition, None));

    // CheckCondition with non-UA sense is not retryable
    let other_sense = SenseData {
        sense_key: SenseKey::MediumError,
        asc: 0x00,
        ascq: 0x00,
        information: 0,
    };
    assert!(!is_retryable(
        ScsiStatus::CheckCondition,
        Some(&other_sense)
    ));

    // Good is not retryable
    assert!(!is_retryable(ScsiStatus::Good, None));
}

#[test]
fn write16_takes_the_long_form() {
    assert_eq!(
        build_write16(0x0102_0304_0506_0708, 0x0A0B_0C0D),
        [0x8A, 0, 1, 2, 3, 4, 5, 6, 7, 8, 0x0A, 0x0B, 0x0C, 0x0D, 0, 0]
    );
    assert_eq!(build_write(u32::MAX as u64, u16::MAX as u32)[0], 0x2A);
    assert_eq!(build_read(u32::MAX as u64, u16::MAX as u32)[0], 0x28);
}

#[test]
fn capacity_errors() {
    assert_eq!(
        parse_read_capacity10(&[0; 7]),
        Err(CommandError::Capacity10TooShort(7))
    );
    assert_eq!(
        parse_read_capacity10(&[0; 8]),
        Err(CommandError::Capacity10ZeroBlockLength)
    );
    assert_eq!(
        parse_read_capacity16(&[0; 11]),
        Err(CommandError::Capacity16TooShort(11))
    );
    assert_eq!(
        parse_read_capacity16(&[0; 12]),
        Err(CommandError::Capacity16ZeroBlockLength)
    );
}

#[test]
fn sense_errors() {
    assert_eq!(
        parse_sense_data(&[0; 13]),
        Err(CommandError::SenseTooShort(13))
    );
    let mut data = [0u8; 14];
    data[2] = 0x72;
    assert_eq!(
        parse_sense_data(&data),
        Err(CommandError::UnsupportedSenseCode(0x72))
    );
    data[2] = 0xF0;
    assert_eq!(
        parse_sense_data(&data),
        Err(CommandError::SenseTooShortForAsc(14))
    );
}

#[test]
fn unknown_numbers_have_a_meaning() {
    assert_eq!(ScsiStatus::from(0x18), ScsiStatus::ReservationConflict);
    assert_eq!(ScsiStatus::from(0x28), ScsiStatus::TaskSetFull);
    assert_eq!(ScsiStatus::from(0x77), ScsiStatus::CheckCondition);
    assert_eq!(SenseKey::from(0x6), SenseKey::UnitAttention);
    assert_eq!(SenseKey::from(0xB), SenseKey::AbortedCommand);
    assert_eq!(SenseKey::from(0xC), SenseKey::NoSense);
}
