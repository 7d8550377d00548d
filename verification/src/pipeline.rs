//! The verification pipeline on already-fetched chain facts.
//!
//! The chain data client is an outside capability: the caller fetches the
//! block's receipts root and the transaction's receipt and hands the results
//! in as plain values (`None` standing for a fact absent on chain). This
//! function makes every decision of the run — abort on missing data, refuse
//! an unavailable receipt, hash and verify — so the caller only performs I/O.

use vstd::prelude::*;

use crate::errors::VerifyError;
use crate::hash::{Hash256, keccak256_of};
use crate::merkle::{MerkleProof, VerificationResult, fold_proof, verify};
use crate::receipt::{TransactionReceipt, leaf_hash, receipt_canonical};

verus! {

/// Runs one verification against fetched chain facts.
///
/// A missing root or receipt aborts with `NotFound` before any
/// canonicalization or hashing; a receipt without its required fields aborts
/// with `ReceiptUnavailable`. Otherwise the answer is the Merkle
/// verification of the receipt's leaf hash against the root: success of the
/// run with a `false` answer is a normal outcome, not an error.
pub fn run_verification(
    root: &Option<Hash256>,
    receipt: &Option<TransactionReceipt>,
    proof: &MerkleProof,
) -> (r: Result<VerificationResult, VerifyError>)
    ensures
        r is Ok <==> (root is Some && receipt is Some && receipt.unwrap().status is Some),
        root is None ==> r == Err::<VerificationResult, VerifyError>(VerifyError::NotFound),
        root is Some && receipt is None ==> r == Err::<VerificationResult, VerifyError>(
            VerifyError::NotFound,
        ),
        (root is Some && receipt is Some && receipt.unwrap().status is None) ==> r == Err::<
            VerificationResult,
            VerifyError,
        >(VerifyError::ReceiptUnavailable),
        r matches Ok(vr) ==> {
            &&& vr.valid == (fold_proof(
                keccak256_of(receipt_canonical(receipt.unwrap())),
                proof@,
            ) == root.unwrap()@)
            &&& vr.trace@.len() == proof@.len()
            &&& forall|i: int|
                0 <= i < proof@.len() ==> vr.trace@[i]@ == fold_proof(
                    keccak256_of(receipt_canonical(receipt.unwrap())),
                    proof@.take(i + 1),
                )
        },
{
    let root_hash = match root {
        Some(h) => h,
        None => {
            return Err(VerifyError::NotFound);
        },
    };
    let rc = match receipt {
        Some(rc) => rc,
        None => {
            return Err(VerifyError::NotFound);
        },
    };
    let leaf = match leaf_hash(rc) {
        Ok(h) => h,
        Err(e) => {
            return Err(e);
        },
    };
    Ok(verify(&leaf, proof, root_hash))
}

} // verus!
