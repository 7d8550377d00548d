//! The error taxonomy of the verification pipeline. A proof that merely
//! fails to verify is a normal outcome, not an error.

use vstd::prelude::*;

verus! {

/// Why a verification run could not produce an answer.
#[derive(Clone, Copy, Debug, PartialEq, Eq, Structural)]
pub enum VerifyError {
    /// The block or the transaction is absent on chain.
    NotFound,
    /// The textual proof could not be decoded; the index names the first
    /// offending token.
    MalformedInput { token_index: usize },
    /// The receipt lacks the fields the canonical encoding requires (for
    /// example, the transaction is not yet mined).
    ReceiptUnavailable,
}

impl VerifyError {
    /// A short human-readable description of the error kind.
    pub fn describe(&self) -> (r: &'static str)
        ensures
            self is NotFound ==> r@ == "block or transaction not found on chain"@,
            self is MalformedInput ==> r@ == "malformed proof or hash encoding"@,
            self is ReceiptUnavailable ==> r@ == "receipt lacks the fields required for canonical encoding"@,
    {
        match self {
            VerifyError::NotFound => "block or transaction not found on chain",
            VerifyError::MalformedInput { .. } => "malformed proof or hash encoding",
            VerifyError::ReceiptUnavailable => "receipt lacks the fields required for canonical encoding",
        }
    }
}

} // verus!
