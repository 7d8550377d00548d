use receipt_merkle::errors::VerifyError;
use receipt_merkle::hash::Hash256;
use receipt_merkle::receipt::{canonicalize, leaf_hash, LogEntry, TransactionReceipt};
use receipt_merkle::rlp::{be_bytes_exec, rlp_encode_bytes, rlp_encode_list, rlp_encode_uint};

fn keccak(data: &[u8]) -> Vec<u8> {
    <sha3::Keccak256 as sha3::Digest>::digest(data).to_vec()
}

fn simple_receipt() -> TransactionReceipt {
    TransactionReceipt {
        tx_type: 0,
        status: Some(1),
        cumulative_gas_used: 21000,
        logs_bloom: vec![0; 256],
        logs: Vec::new(),
    }
}

#[test]
fn rlp_byte_strings_encode_exactly() {
    assert_eq!(rlp_encode_bytes(&vec![]), vec![0x80]);
    assert_eq!(rlp_encode_bytes(&vec![0x00]), vec![0x00]);
    assert_eq!(rlp_encode_bytes(&vec![0x7f]), vec![0x7f]);
    assert_eq!(rlp_encode_bytes(&vec![0x80]), vec![0x81, 0x80]);
    let fifty_five = vec![0x61; 55];
    let mut expected = vec![0xb7];
    expected.extend_from_slice(&fifty_five);
    assert_eq!(rlp_encode_bytes(&fifty_five), expected);
    let fifty_six = vec![0x61; 56];
    let mut expected = vec![0xb8, 56];
    expected.extend_from_slice(&fifty_six);
    assert_eq!(rlp_encode_bytes(&fifty_six), expected);
}

#[test]
fn rlp_uints_encode_exactly() {
    assert_eq!(rlp_encode_uint(0), vec![0x80]);
    assert_eq!(rlp_encode_uint(1), vec![0x01]);
    assert_eq!(rlp_encode_uint(0x7f), vec![0x7f]);
    assert_eq!(rlp_encode_uint(0x80), vec![0x81, 0x80]);
    assert_eq!(rlp_encode_uint(256), vec![0x82, 0x01, 0x00]);
    assert_eq!(
        rlp_encode_uint(u64::MAX),
        vec![0x88, 0xff, 0xff, 0xff, 0xff, 0xff, 0xff, 0xff, 0xff]
    );
    assert_eq!(be_bytes_exec(0x5208), vec![0x52, 0x08]);
}

#[test]
fn rlp_lists_encode_exactly() {
    assert_eq!(rlp_encode_list(&vec![]), vec![0xc0]);
    assert_eq!(rlp_encode_list(&vec![0x01, 0x02]), vec![0xc2, 0x01, 0x02]);
    let long = vec![0x01; 56];
    let mut expected = vec![0xf8, 56];
    expected.extend_from_slice(&long);
    assert_eq!(rlp_encode_list(&long), expected);
}

#[test]
fn canonical_legacy_receipt_exact_bytes() {
    let bytes = canonicalize(&simple_receipt()).unwrap();
    // List of: status 1, gas 21000 (0x5208), a 256-byte zero bloom, no logs.
    let mut expected = vec![0xf9, 0x01, 0x08];
    expected.push(0x01);
    expected.extend_from_slice(&[0x82, 0x52, 0x08]);
    expected.extend_from_slice(&[0xb9, 0x01, 0x00]);
    expected.extend_from_slice(&[0x00; 256]);
    expected.push(0xc0);
    assert_eq!(bytes, expected);
}

#[test]
fn canonical_typed_receipt_has_type_prefix() {
    let mut r = simple_receipt();
    r.tx_type = 2;
    let typed = canonicalize(&r).unwrap();
    let legacy = canonicalize(&simple_receipt()).unwrap();
    assert_eq!(typed[0], 2);
    assert_eq!(&typed[1..], &legacy[..]);
}

#[test]
fn canonicalization_is_deterministic() {
    let a = canonicalize(&simple_receipt()).unwrap();
    let b = canonicalize(&simple_receipt()).unwrap();
    assert_eq!(a, b);
}

#[test]
fn canonicalization_differs_when_a_field_differs() {
    let base = canonicalize(&simple_receipt()).unwrap();

    let mut r = simple_receipt();
    r.status = Some(0);
    assert_ne!(canonicalize(&r).unwrap(), base);

    let mut r = simple_receipt();
    r.cumulative_gas_used = 21001;
    assert_ne!(canonicalize(&r).unwrap(), base);

    let mut r = simple_receipt();
    r.logs_bloom[0] = 0x01;
    assert_ne!(canonicalize(&r).unwrap(), base);

    let mut r = simple_receipt();
    r.tx_type = 1;
    assert_ne!(canonicalize(&r).unwrap(), base);

    let mut r = simple_receipt();
    r.logs.push(LogEntry {
        address: vec![0x11; 20],
        topics: vec![Hash256::from_vec(vec![0x22; 32]).unwrap()],
        data: vec![0xde, 0xad],
    });
    assert_ne!(canonicalize(&r).unwrap(), base);
}

#[test]
fn canonical_log_entry_encodes_in_order() {
    let mut r = simple_receipt();
    r.logs.push(LogEntry {
        address: vec![0x11; 20],
        topics: vec![Hash256::from_vec(vec![0x22; 32]).unwrap()],
        data: vec![0xde, 0xad],
    });
    let bytes = canonicalize(&r).unwrap();

    // The expected encoding of the single log entry, assembled by hand:
    // address (20 bytes), the topic list (one 32-byte topic), the data.
    let mut log_payload = vec![0x94];
    log_payload.extend_from_slice(&[0x11; 20]);
    let mut topic_enc = vec![0xa0];
    topic_enc.extend_from_slice(&[0x22; 32]);
    let mut topics_list = vec![0xc0 + 33];
    topics_list.extend_from_slice(&topic_enc);
    log_payload.extend_from_slice(&topics_list);
    log_payload.extend_from_slice(&[0x82, 0xde, 0xad]);
    let mut log_enc = vec![0xf8, log_payload.len() as u8];
    log_enc.extend_from_slice(&log_payload);

    // The canonical receipt must contain the log encoding as written.
    let found = bytes
        .windows(log_enc.len())
        .any(|w| w == log_enc.as_slice());
    assert!(found);
}

#[test]
fn missing_status_is_receipt_unavailable() {
    let mut r = simple_receipt();
    r.status = None;
    assert_eq!(canonicalize(&r).unwrap_err(), VerifyError::ReceiptUnavailable);
    assert_eq!(leaf_hash(&r).unwrap_err(), VerifyError::ReceiptUnavailable);
}

#[test]
fn leaf_hash_is_keccak_of_canonical_bytes() {
    let r = simple_receipt();
    let bytes = canonicalize(&r).unwrap();
    let h = leaf_hash(&r).unwrap();
    assert_eq!(h.to_vec(), keccak(&bytes));
}
