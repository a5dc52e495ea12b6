//! The extension-sentinel boundary and the allocation guard.

use psbch::transaction::decode_value_ext;
use psbch::transaction::PartiallySignedTransaction;
use psbch::DecodeError;

#[test]
fn value_one_below_threshold_is_plain() {
    // One less than the sentinel threshold: an ordinary value, no token.
    let bytes = (0xffff_ffff_ffff_ffefu64).to_le_bytes().to_vec();
    let ((value, token), end) = decode_value_ext(&bytes, 0).unwrap();
    assert_eq!(value, 0xffff_ffff_ffff_ffef);
    assert!(token.is_none());
    assert_eq!(end, 8);
}

#[test]
fn sentinel_with_wrong_version_nibble_is_rejected() {
    // At the threshold, with a low nibble other than the recognized version.
    for nibble in 0x0u64..0xf {
        let bytes = (0xffff_ffff_ffff_fff0u64 | nibble).to_le_bytes().to_vec();
        assert_eq!(decode_value_ext(&bytes, 0), Err(DecodeError::UnknownExtensionVersion));
    }
}

#[test]
fn sentinel_without_payload_is_truncated() {
    let bytes = (0xffff_ffff_ffff_ffffu64).to_le_bytes().to_vec();
    assert_eq!(decode_value_ext(&bytes, 0), Err(DecodeError::Truncated));
}

#[test]
fn enormous_input_count_fails_with_truncation() {
    // Version, then a count prefix claiming ~4 billion inputs, backed by
    // nothing: the decode must fail with truncation instead of trying to
    // allocate room for the claimed count.
    let mut bytes = vec![0x02, 0x00, 0x00, 0x00];
    bytes.push(0xfe);
    bytes.extend_from_slice(&[0xff, 0xff, 0xff, 0xff]);
    assert_eq!(PartiallySignedTransaction::deserialize(&bytes), Err(DecodeError::Truncated));
}

#[test]
fn enormous_output_count_fails_with_truncation() {
    // Version, an empty input vector, then a huge output count and nothing.
    let mut bytes = vec![0x02, 0x00, 0x00, 0x00, 0x00];
    bytes.push(0xff);
    bytes.extend_from_slice(&[0, 0, 0, 0, 1, 0, 0, 0]);
    assert_eq!(PartiallySignedTransaction::deserialize(&bytes), Err(DecodeError::Truncated));
}

#[test]
fn unknown_extension_version_surfaces_from_whole_decode() {
    // A whole transaction whose one unsigned input carries a sentinel value
    // with a wrong version nibble.
    let mut bytes = vec![0x02u8, 0x00, 0x00, 0x00];
    bytes.push(0x01);
    bytes.extend_from_slice(&[0x07u8; 32]);
    bytes.extend_from_slice(&[0x00, 0x00, 0x00, 0x00]);
    // The placeholder unlocking script: PUSH(0xff), then the known-script
    // payload wrapping a standard pay-to-public-key-hash script.
    let mut placeholder = vec![0x01u8, 0xff, 0x1a, 0xfd, 0x76, 0xa9, 0x14];
    placeholder.extend_from_slice(&[0x42u8; 20]);
    placeholder.push(0x88);
    placeholder.push(0xac);
    bytes.push(placeholder.len() as u8);
    bytes.extend_from_slice(&placeholder);
    bytes.extend_from_slice(&[0xfe, 0xff, 0xff, 0xff]);
    bytes.extend_from_slice(&(0xffff_ffff_ffff_fff2u64).to_le_bytes());
    assert_eq!(
        PartiallySignedTransaction::deserialize(&bytes),
        Err(DecodeError::UnknownExtensionVersion)
    );
}

#[test]
fn non_minimal_count_is_rejected() {
    // A count of one written in the three-byte form.
    let bytes = vec![0x02, 0x00, 0x00, 0x00, 0xfd, 0x01, 0x00];
    assert_eq!(PartiallySignedTransaction::deserialize(&bytes), Err(DecodeError::NonMinimalVarInt));
}

#[test]
fn trailing_bytes_are_rejected() {
    // An empty transaction followed by one stray byte.
    let bytes = vec![0x02, 0x00, 0x00, 0x00, 0x00, 0x00, 0x00, 0x00, 0x00, 0x00, 0xaa];
    assert_eq!(PartiallySignedTransaction::deserialize(&bytes), Err(DecodeError::TrailingData));
}

#[test]
fn empty_transaction_round_trips() {
    let tx = PartiallySignedTransaction { version: 2, lock_time: 0, input: vec![], output: vec![] };
    let bytes = tx.serialize();
    assert_eq!(bytes, vec![0x02, 0x00, 0x00, 0x00, 0x00, 0x00, 0x00, 0x00, 0x00, 0x00]);
    assert_eq!(PartiallySignedTransaction::deserialize(&bytes).unwrap(), tx);
}
