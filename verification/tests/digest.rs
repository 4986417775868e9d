use iscsi_lib::iscsi::digest::{
    compare_data_digest, compare_header_digest, data_digest, header_digest, verify_data_digest,
    verify_header_digest, DigestError,
};

#[test]
fn test_header_digest_deterministic() {
    let bhs = [0xABu8; 48];
    let d1 = header_digest(&bhs, None);
    let d2 = header_digest(&bhs, None);
    assert_eq!(d1, d2);
}

#[test]
fn test_header_digest_with_ahs() {
    let bhs = [0u8; 48];
    let d_no_ahs = header_digest(&bhs, None);
    let d_with_ahs = header_digest(&bhs, Some(&[1, 2, 3, 4]));
    assert_ne!(d_no_ahs, d_with_ahs);
}

#[test]
fn test_verify_header_digest_ok() {
    let bhs = [0x42u8; 48];
    let digest = header_digest(&bhs, None);
    assert!(verify_header_digest(&bhs, None, &digest).is_ok());
}

#[test]
fn test_verify_header_digest_mismatch() {
    let bhs = [0x42u8; 48];
    let bad_digest = [0u8; 4];
    assert!(verify_header_digest(&bhs, None, &bad_digest).is_err());
}

#[test]
fn test_data_digest_known_value() {
    let d = data_digest(&[]);
    assert_eq!(u32::from_be_bytes(d), 0x00000000);
}

#[test]
fn test_verify_data_digest_ok() {
    let data = b"Hello iSCSI";
    let digest = data_digest(data);
    assert!(verify_data_digest(data, &digest).is_ok());
}

#[test]
fn test_verify_data_digest_mismatch() {
    let data = b"Hello iSCSI";
    let bad = [0xFF; 4];
    assert!(verify_data_digest(data, &bad).is_err());
}

#[test]
fn checksum_of_the_check_string() {
    // The CRC32C check value.
    assert_eq!(u32::from_be_bytes(data_digest(b"123456789")), 0xE306_9283);
    assert_eq!(u32::from_be_bytes(data_digest(&[0; 32])), 0x8A91_36AA);
}

#[test]
fn header_digest_runs_on_into_the_additional_header() {
    let bhs = [7u8; 48];
    let ahs = [1u8, 2, 3, 4];
    let mut all = bhs.to_vec();
    all.extend(ahs);
    assert_eq!(header_digest(&bhs, Some(&ahs)), data_digest(&all));
    assert_eq!(header_digest(&bhs, None), data_digest(&bhs));
}

#[test]
fn mismatch_names_both_checksums() {
    assert_eq!(
        verify_data_digest(b"123456789", &[0, 0, 0, 1]),
        Err(DigestError::DataMismatch {
            expected: 0xE306_9283,
            received: 1
        })
    );
    let bhs = [0u8; 48];
    assert_eq!(
        verify_header_digest(&bhs, None, &[0, 0, 0, 1]),
        Err(DigestError::HeaderMismatch {
            expected: u32::from_be_bytes(header_digest(&bhs, None)),
            received: 1
        })
    );
}

#[test]
fn digests_are_compared_byte_for_byte() {
    assert_eq!(compare_header_digest(&[1, 2, 3, 4], &[1, 2, 3, 4]), Ok(()));
    assert_eq!(compare_data_digest(&[1, 2, 3, 4], &[1, 2, 3, 4]), Ok(()));
    assert_eq!(
        compare_header_digest(&[1, 2, 3, 4], &[1, 2, 3, 5]),
        Err(DigestError::HeaderMismatch {
            expected: 0x0102_0304,
            received: 0x0102_0305
        })
    );
    assert_eq!(
        compare_data_digest(&[1, 2, 3, 4], &[0, 2, 3, 4]),
        Err(DigestError::DataMismatch {
            expected: 0x0102_0304,
            received: 0x0002_0304
        })
    );
}
