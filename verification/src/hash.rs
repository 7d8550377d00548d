//! 32-byte digest values and the Keccak-256 hash they are produced by.

use vstd::prelude::*;

verus! {

/// Name for the Keccak-256 digest of a byte sequence. The digest is a pure
/// function of its input bytes alone; its value is not stated here.
pub uninterp spec fn keccak256_of(input: Seq<u8>) -> Seq<u8>;

/// Relies on `sha3::Keccak256` through `digest::Digest::digest`: the digest
/// depends on the input bytes alone, and its output size is 32 bytes.
#[verifier::external_body]
pub(crate) fn keccak256(input: &Vec<u8>) -> (r: Vec<u8>)
    ensures
        r@ == keccak256_of(input@),
        r@.len() == 32,
{
    <sha3::Keccak256 as sha3::Digest>::digest(input.as_slice()).to_vec()
}

/// True when `a` comes strictly before `b` when both are compared as byte
/// strings, byte by byte from the front.
pub open spec fn lex_lt(a: Seq<u8>, b: Seq<u8>) -> bool {
    exists|i: int|
        0 <= i < a.len() && i < b.len() && a[i] < b[i]
            && (forall|j: int| 0 <= j < i ==> a[j] == b[j])
}

/// A 32-byte digest: a leaf, sibling, intermediate node, or root.
#[derive(Debug)]
pub struct Hash256 {
    bytes: Vec<u8>,
}

impl View for Hash256 {
    type V = Seq<u8>;

    closed spec fn view(&self) -> Seq<u8> {
        self.bytes@
    }
}

impl Hash256 {
    /// Every digest holds exactly 32 bytes.
    pub open spec fn wf(&self) -> bool {
        self@.len() == 32
    }

    /// Wraps a byte vector as a digest; anything but 32 bytes is refused.
    pub fn from_vec(bytes: Vec<u8>) -> (r: Option<Hash256>)
        ensures
            bytes@.len() == 32 ==> (r matches Some(h) && h@ == bytes@ && h.wf()),
            bytes@.len() != 32 ==> r is None,
    {
        if bytes.len() == 32 {
            Some(Hash256 { bytes })
        } else {
            None
        }
    }

    pub(crate) fn from_bytes_exact(bytes: Vec<u8>) -> (r: Hash256)
        requires
            bytes@.len() == 32,
        ensures
            r@ == bytes@,
            r.wf(),
    {
        Hash256 { bytes }
    }

    /// The digest's bytes, for callers that need the raw value.
    pub fn bytes(&self) -> (r: &Vec<u8>)
        ensures
            r@ == self@,
    {
        &self.bytes
    }

    /// A copy of the digest's bytes.
    pub fn to_vec(&self) -> (r: Vec<u8>)
        ensures
            r@ == self@,
    {
        let mut out: Vec<u8> = Vec::new();
        let mut i: usize = 0;
        while i < self.bytes.len()
            invariant
                i <= self.bytes@.len(),
                out@ == self.bytes@.take(i as int),
            decreases self.bytes@.len() - i,
        {
            out.push(self.bytes[i]);
            proof {
                assert(self.bytes@.take(i + 1) =~= self.bytes@.take(i as int).push(self.bytes@[i as int]));
            }
            i = i + 1;
        }
        proof {
            assert(self.bytes@.take(self.bytes@.len() as int) =~= self.bytes@);
        }
        out
    }

    /// A copy of the whole digest.
    pub fn duplicate(&self) -> (r: Hash256)
        ensures
            r@ == self@,
    {
        Hash256 { bytes: self.to_vec() }
    }

    /// Exact byte equality of two digests.
    pub fn eq_hash(&self, other: &Hash256) -> (r: bool)
        ensures
            r == (self@ == other@),
    {
        if self.bytes.len() != other.bytes.len() {
            return false;
        }
        let mut i: usize = 0;
        while i < self.bytes.len()
            invariant
                i <= self.bytes@.len(),
                self.bytes@.len() == other.bytes@.len(),
                forall|j: int| 0 <= j < i ==> self.bytes@[j] == other.bytes@[j],
            decreases self.bytes@.len() - i,
        {
            if self.bytes[i] != other.bytes[i] {
                return false;
            }
            i = i + 1;
        }
        proof {
            assert(self@ =~= other@);
        }
        true
    }

    /// Decides `lex_lt(self@, other@)`: strict byte-wise order.
    pub fn lex_before(&self, other: &Hash256) -> (r: bool)
        ensures
            r == lex_lt(self@, other@),
    {
        let n: usize = if self.bytes.len() < other.bytes.len() {
            self.bytes.len()
        } else {
            other.bytes.len()
        };
        let mut i: usize = 0;
        while i < n
            invariant
                i <= n,
                n <= self.bytes@.len(),
                n <= other.bytes@.len(),
                n == self.bytes@.len() || n == other.bytes@.len(),
                forall|j: int| 0 <= j < i ==> self.bytes@[j] == other.bytes@[j],
            decreases n - i,
        {
            if self.bytes[i] < other.bytes[i] {
                return true;
            }
            if self.bytes[i] > other.bytes[i] {
                proof {
                    assert(!lex_lt(self@, other@)) by {
                        if lex_lt(self@, other@) {
                            let k = choose|k: int|
                                0 <= k < self@.len() && k < other@.len() && self@[k] < other@[k]
                                    && (forall|j: int| 0 <= j < k ==> self@[j] == other@[j]);
                            if k < i {
                                assert(self@[k] == other@[k]);
                            } else if k > i {
                                assert(self@[i as int] == other@[i as int]);
                            }
                        }
                    };
                }
                return false;
            }
            i = i + 1;
        }
        proof {
            assert(!lex_lt(self@, other@)) by {
                if lex_lt(self@, other@) {
                    let k = choose|k: int|
                        0 <= k < self@.len() && k < other@.len() && self@[k] < other@[k]
                            && (forall|j: int| 0 <= j < k ==> self@[j] == other@[j]);
                    assert(k < n);
                    assert(self@[k] == other@[k]);
                }
            };
        }
        false
    }
}

} // verus!
