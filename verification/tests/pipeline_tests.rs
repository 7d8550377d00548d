use receipt_merkle::errors::VerifyError;
use receipt_merkle::hash::Hash256;
use receipt_merkle::merkle::MerkleProof;
use receipt_merkle::parser::parse_proof;
use receipt_merkle::pipeline::run_verification;
use receipt_merkle::receipt::{leaf_hash, TransactionReceipt};

fn keccak(data: &[u8]) -> Vec<u8> {
    <sha3::Keccak256 as sha3::Digest>::digest(data).to_vec()
}

fn mined_receipt() -> TransactionReceipt {
    TransactionReceipt {
        tx_type: 2,
        status: Some(1),
        cumulative_gas_used: 123_456,
        logs_bloom: vec![0; 256],
        logs: Vec::new(),
    }
}

fn empty_proof() -> MerkleProof {
    MerkleProof::new(Vec::new())
}

#[test]
fn missing_root_aborts_with_not_found() {
    let r = run_verification(&None, &Some(mined_receipt()), &empty_proof());
    assert_eq!(r.unwrap_err(), VerifyError::NotFound);
}

#[test]
fn scenario_unmined_transaction_aborts_with_not_found() {
    // The chain data client reported the transaction receipt as absent.
    let root = Hash256::from_vec(vec![0x42; 32]).unwrap();
    let r = run_verification(&Some(root), &None, &empty_proof());
    assert_eq!(r.unwrap_err(), VerifyError::NotFound);
}

#[test]
fn receipt_without_status_aborts_as_unavailable() {
    let root = Hash256::from_vec(vec![0x42; 32]).unwrap();
    let mut receipt = mined_receipt();
    receipt.status = None;
    let r = run_verification(&Some(root), &Some(receipt), &empty_proof());
    assert_eq!(r.unwrap_err(), VerifyError::ReceiptUnavailable);
}

#[test]
fn end_to_end_empty_proof_against_leaf_root() {
    let receipt = mined_receipt();
    let root = leaf_hash(&receipt).unwrap();
    let r = run_verification(&Some(root), &Some(receipt), &empty_proof()).unwrap();
    assert!(r.valid);
    assert_eq!(r.trace.len(), 0);
}

#[test]
fn end_to_end_one_sibling() {
    let receipt = mined_receipt();
    let leaf = leaf_hash(&receipt).unwrap().to_vec();
    let sibling = keccak(b"the other branch");
    let mut concat;
    if leaf < sibling {
        concat = leaf.clone();
        concat.extend_from_slice(&sibling);
    } else {
        concat = sibling.clone();
        concat.extend_from_slice(&leaf);
    }
    let root = Hash256::from_vec(keccak(&concat)).unwrap();
    let proof = MerkleProof::new(vec![Hash256::from_vec(sibling).unwrap()]);
    let r = run_verification(&Some(root), &Some(receipt), &proof).unwrap();
    assert!(r.valid);
    assert_eq!(r.trace.len(), 1);
}

#[test]
fn end_to_end_wrong_root_is_a_normal_false() {
    let receipt = mined_receipt();
    let root = Hash256::from_vec(vec![0x42; 32]).unwrap();
    let r = run_verification(&Some(root), &Some(receipt), &empty_proof()).unwrap();
    assert!(!r.valid);
}

#[test]
fn parsed_text_proof_verifies_end_to_end() {
    let receipt = mined_receipt();
    let leaf = leaf_hash(&receipt).unwrap().to_vec();
    let s1 = keccak(b"sibling one");
    let step1 = {
        let mut concat;
        if leaf < s1 {
            concat = leaf.clone();
            concat.extend_from_slice(&s1);
        } else {
            concat = s1.clone();
            concat.extend_from_slice(&leaf);
        }
        keccak(&concat)
    };
    let s2 = keccak(b"sibling two");
    let root_bytes = {
        let mut concat;
        if step1 < s2 {
            concat = step1.clone();
            concat.extend_from_slice(&s2);
        } else {
            concat = s2.clone();
            concat.extend_from_slice(&step1);
        }
        keccak(&concat)
    };

    let hex = |b: &[u8]| -> String {
        b.iter().map(|x| format!("{:02x}", x)).collect::<String>()
    };
    let text = format!("0x{}, 0x{}", hex(&s1), hex(&s2));
    let proof = parse_proof(&text.as_bytes().to_vec()).unwrap();
    assert_eq!(proof.len(), 2);

    let root = Hash256::from_vec(root_bytes).unwrap();
    let r = run_verification(&Some(root), &Some(receipt), &proof).unwrap();
    assert!(r.valid);
    assert_eq!(r.trace[0].to_vec(), step1);
}

#[test]
fn error_descriptions_name_the_kind() {
    assert!(VerifyError::NotFound.describe().contains("not found"));
    assert!(VerifyError::MalformedInput { token_index: 0 }
        .describe()
        .contains("malformed"));
    assert!(VerifyError::ReceiptUnavailable.describe().contains("receipt"));
}
