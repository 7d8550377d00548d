//! The proof parser: turns the textual proof representation — hash literals
//! separated by commas — into an ordered list of 32-byte digests.
//!
//! A token is well formed when, after surrounding blanks and an optional
//! `0x` prefix are removed, exactly 64 hexadecimal digits remain. Parsing
//! fails on the first token that is not well formed, so the verifier never
//! receives partially-invalid input; an empty text is a single empty token
//! and therefore fails too.

use vstd::prelude::*;

use crate::errors::VerifyError;
use crate::hash::Hash256;
use crate::merkle::MerkleProof;

verus! {

/// The comma that separates tokens.
pub open spec fn is_separator(b: u8) -> bool {
    b == 44
}

/// Blank bytes trimmed from both ends of a token.
pub open spec fn is_blank(b: u8) -> bool {
    b == 32 || b == 9
}

/// Splitting at separators, with the token collected so far.
pub open spec fn split_rec(s: Seq<u8>, cur: Seq<u8>) -> Seq<Seq<u8>>
    decreases s.len(),
{
    if s.len() == 0 {
        seq![cur]
    } else if is_separator(s[0]) {
        seq![cur] + split_rec(s.skip(1), Seq::empty())
    } else {
        split_rec(s.skip(1), cur.push(s[0]))
    }
}

/// The tokens of the text: the segments between separators, in order. The
/// empty text is one empty token.
pub open spec fn split_tokens(s: Seq<u8>) -> Seq<Seq<u8>> {
    split_rec(s, Seq::empty())
}

/// The token with its leading blanks removed.
pub open spec fn trim_front(s: Seq<u8>) -> Seq<u8>
    decreases s.len(),
{
    if s.len() > 0 && is_blank(s[0]) {
        trim_front(s.skip(1))
    } else {
        s
    }
}

/// The token with its trailing blanks removed.
pub open spec fn trim_back(s: Seq<u8>) -> Seq<u8>
    decreases s.len(),
{
    if s.len() > 0 && is_blank(s[s.len() - 1]) {
        trim_back(s.take(s.len() - 1))
    } else {
        s
    }
}

/// The token with blanks removed from both ends.
pub open spec fn trimmed(s: Seq<u8>) -> Seq<u8> {
    trim_back(trim_front(s))
}

/// The token without its optional `0x` / `0X` prefix.
pub open spec fn strip_hex_prefix(s: Seq<u8>) -> Seq<u8> {
    if s.len() >= 2 && s[0] == 48 && (s[1] == 120 || s[1] == 88) {
        s.skip(2)
    } else {
        s
    }
}

/// A hexadecimal digit, either case.
pub open spec fn is_hex_digit(b: u8) -> bool {
    (48 <= b <= 57) || (97 <= b <= 102) || (65 <= b <= 70)
}

/// The value of a hexadecimal digit.
pub open spec fn hex_val(b: u8) -> u8 {
    if 48 <= b <= 57 {
        (b - 48) as u8
    } else if 97 <= b <= 102 {
        (b - 87) as u8
    } else if 65 <= b <= 70 {
        (b - 55) as u8
    } else {
        0
    }
}

/// The bytes decoded from a string of hexadecimal digits, two digits a byte.
pub open spec fn hex_decode(s: Seq<u8>) -> Seq<u8>
    decreases s.len(),
{
    if s.len() < 2 {
        Seq::empty()
    } else {
        seq![(hex_val(s[0]) as int * 16 + hex_val(s[1]) as int) as u8] + hex_decode(s.skip(2))
    }
}

/// The digit string of a token: trimmed, prefix removed.
pub open spec fn token_digits(t: Seq<u8>) -> Seq<u8> {
    strip_hex_prefix(trimmed(t))
}

/// A well-formed hash literal: exactly 64 hexadecimal digits.
pub open spec fn token_ok(t: Seq<u8>) -> bool {
    token_digits(t).len() == 64 && (forall|i: int|
        0 <= i < 64 ==> is_hex_digit(token_digits(t)[i]))
}

/// The 32 bytes a well-formed token decodes to.
pub open spec fn token_hash(t: Seq<u8>) -> Seq<u8> {
    hex_decode(token_digits(t))
}

/// All tokens of the text are well-formed hash literals.
pub open spec fn all_tokens_ok(s: Seq<u8>) -> bool {
    forall|i: int| 0 <= i < split_tokens(s).len() ==> token_ok(split_tokens(s)[i])
}

/// Splits the text at separators.
fn split_exec(text: &Vec<u8>) -> (r: Vec<Vec<u8>>)
    ensures
        r@.map_values(|t: Vec<u8>| t@) == split_tokens(text@),
{
    let ghost f = |t: Vec<u8>| t@;
    let mut out: Vec<Vec<u8>> = Vec::new();
    let mut cur: Vec<u8> = Vec::new();
    let mut i: usize = 0;
    proof {
        assert(text@.skip(0) =~= text@);
        assert(out@.map_values(f) + split_rec(text@, cur@) =~= split_rec(text@, cur@));
    }
    while i < text.len()
        invariant
            i <= text@.len(),
            split_tokens(text@) == out@.map_values(|t: Vec<u8>| t@) + split_rec(
                text@.skip(i as int),
                cur@,
            ),
        decreases text@.len() - i,
    {
        let ghost old_out = out@;
        let ghost old_cur = cur@;
        proof {
            assert(text@.skip(i as int)[0] == text@[i as int]);
            assert(text@.skip(i as int).skip(1) =~= text@.skip(i + 1));
        }
        if text[i] == 44 {
            out.push(cur);
            cur = Vec::new();
            proof {
                assert(split_rec(text@.skip(i as int), old_cur) == seq![old_cur] + split_rec(
                    text@.skip(i + 1),
                    Seq::empty(),
                ));
                assert(out@.map_values(|t: Vec<u8>| t@) =~= old_out.map_values(|t: Vec<u8>| t@)
                    + seq![old_cur]);
                assert(out@.map_values(|t: Vec<u8>| t@) + split_rec(text@.skip(i + 1), cur@)
                    =~= old_out.map_values(|t: Vec<u8>| t@) + split_rec(
                    text@.skip(i as int),
                    old_cur,
                ));
            }
        } else {
            cur.push(text[i]);
            proof {
                assert(split_rec(text@.skip(i as int), old_cur) == split_rec(
                    text@.skip(i + 1),
                    old_cur.push(text@[i as int]),
                ));
            }
        }
        i = i + 1;
    }
    proof {
        assert(text@.skip(text@.len() as int) =~= Seq::<u8>::empty());
        assert(split_rec(Seq::<u8>::empty(), cur@) == seq![cur@]);
    }
    out.push(cur);
    proof {
        assert(out@.map_values(|t: Vec<u8>| t@) =~= split_tokens(text@));
    }
    out
}

/// The value of one hexadecimal digit.
fn hex_val_exec(b: u8) -> (r: u8)
    requires
        is_hex_digit(b),
    ensures
        r == hex_val(b),
        r <= 15,
{
    if b <= 57 {
        b - 48
    } else if b >= 97 {
        b - 87
    } else {
        b - 55
    }
}

/// Decodes one token: `Some` exactly on well-formed hash literals, with the
/// 32 bytes the token names.
fn parse_token(t: &Vec<u8>) -> (r: Option<Hash256>)
    ensures
        r is Some <==> token_ok(t@),
        r matches Some(h) ==> h@ == token_hash(t@) && h.wf(),
{
    // Trim leading blanks.
    let mut start: usize = 0;
    proof {
        assert(t@.skip(0) =~= t@);
    }
    while start < t.len() && (t[start] == 32 || t[start] == 9)
        invariant
            start <= t@.len(),
            trim_front(t@) == trim_front(t@.skip(start as int)),
        decreases t@.len() - start,
    {
        proof {
            assert(t@.skip(start as int)[0] == t@[start as int]);
            assert(t@.skip(start as int).skip(1) =~= t@.skip(start + 1));
        }
        start = start + 1;
    }
    proof {
        if start < t@.len() {
            assert(trim_front(t@.skip(start as int)) == t@.skip(start as int));
        } else {
            assert(t@.skip(start as int) =~= Seq::<u8>::empty());
        }
        assert(trim_front(t@) == t@.skip(start as int));
    }
    // Trim trailing blanks of the remainder.
    let ghost u = t@.skip(start as int);
    let mut j: usize = t.len();
    proof {
        assert(u.take(j - start) =~= u);
    }
    while j > start && (t[j - 1] == 32 || t[j - 1] == 9)
        invariant
            start <= j <= t@.len(),
            u == t@.skip(start as int),
            start + u.len() == t@.len(),
            trim_back(u) == trim_back(u.take(j - start)),
        decreases j,
    {
        proof {
            assert(u.take(j - start)[j - start - 1] == t@[j - 1]);
            assert(u.take(j - start).take(j - start - 1) =~= u.take(j - 1 - start));
        }
        j = j - 1;
    }
    let end: usize = j - start;
    proof {
        if end > 0 {
            assert(u.take(end as int)[end - 1] == t@[start + end - 1]);
            assert(trim_back(u.take(end as int)) == u.take(end as int));
        } else {
            assert(u.take(0) =~= Seq::<u8>::empty());
        }
        assert(trimmed(t@) == u.take(end as int));
        assert(u.take(end as int) =~= t@.subrange(start as int, start as int + end as int));
    }
    // Strip the optional 0x prefix.
    let ghost w = trimmed(t@);
    let mut lo: usize = start;
    let hi: usize = start + end;
    if end >= 2 && t[start] == 48 && (t[start + 1] == 120 || t[start + 1] == 88) {
        lo = start + 2;
        proof {
            assert(w[0] == t@[start as int]);
            assert(w[1] == t@[start + 1]);
            assert(strip_hex_prefix(w) =~= t@.subrange(lo as int, hi as int));
        }
    } else {
        proof {
            if w.len() >= 2 && w[0] == 48 && (w[1] == 120 || w[1] == 88) {
                assert(w[0] == t@[start as int]);
                assert(w[1] == t@[start + 1]);
            }
            assert(strip_hex_prefix(w) =~= t@.subrange(lo as int, hi as int));
        }
    }
    let ghost d = token_digits(t@);
    proof {
        assert(d == t@.subrange(lo as int, hi as int));
    }
    // Exactly 64 hexadecimal digits must remain.
    if hi - lo != 64 {
        return None;
    }
    let mut i: usize = 0;
    while i < 64
        invariant
            i <= 64,
            d == token_digits(t@),
            d == t@.subrange(lo as int, hi as int),
            d.len() == 64,
            hi - lo == 64,
            lo + 64 <= t@.len(),
            forall|j: int| 0 <= j < i ==> is_hex_digit(d[j]),
        decreases 64 - i,
    {
        let b = t[lo + i];
        proof {
            assert(d[i as int] == t@[lo + i]);
        }
        if !((48 <= b && b <= 57) || (97 <= b && b <= 102) || (65 <= b && b <= 70)) {
            proof {
                assert(!is_hex_digit(token_digits(t@)[i as int]));
            }
            return None;
        }
        i = i + 1;
    }
    // Decode the digit pairs.
    let mut bytes: Vec<u8> = Vec::new();
    let mut k: usize = 0;
    proof {
        assert(d.skip(0) =~= d);
    }
    while k < 32
        invariant
            k <= 32,
            d == token_digits(t@),
            d == t@.subrange(lo as int, hi as int),
            d.len() == 64,
            hi - lo == 64,
            lo + 64 <= t@.len(),
            forall|j: int| 0 <= j < 64 ==> is_hex_digit(d[j]),
            bytes@.len() == k,
            hex_decode(d) == bytes@ + hex_decode(d.skip(2 * k)),
        decreases 32 - k,
    {
        let hi_digit = t[lo + 2 * k];
        let lo_digit = t[lo + 2 * k + 1];
        proof {
            assert(d[2 * k] == t@[lo + 2 * k]);
            assert(d[2 * k + 1] == t@[lo + 2 * k + 1]);
        }
        let v = hex_val_exec(hi_digit) * 16 + hex_val_exec(lo_digit);
        bytes.push(v);
        proof {
            assert(d.skip(2 * k as int)[0] == d[2 * k]);
            assert(d.skip(2 * k as int)[1] == d[2 * k + 1]);
            assert(d.skip(2 * k as int).skip(2) =~= d.skip(2 * k + 2));
            assert(hex_decode(d.skip(2 * k as int)) == seq![
                (hex_val(d[2 * k]) as int * 16 + hex_val(d[2 * k + 1]) as int) as u8,
            ] + hex_decode(d.skip(2 * k + 2)));
            assert(v == (hex_val(d[2 * k]) as int * 16 + hex_val(d[2 * k + 1]) as int) as u8);
            assert(bytes@ + hex_decode(d.skip(2 * k + 2)) =~= hex_decode(d));
        }
        k = k + 1;
    }
    proof {
        assert(d.skip(64) =~= Seq::<u8>::empty());
        assert(hex_decode(Seq::<u8>::empty()) == Seq::<u8>::empty());
        assert(bytes@ + Seq::<u8>::empty() =~= bytes@);
        assert(bytes@ == token_hash(t@));
    }
    Some(Hash256::from_bytes_exact(bytes))
}

/// Parses the textual proof representation.
///
/// Returns the ordered list of 32-byte sibling hashes exactly when every
/// token of the text is a well-formed hash literal; otherwise reports the
/// first offending token, before any verification is attempted. An empty
/// text is one empty token and is malformed.
pub fn parse_proof(text: &Vec<u8>) -> (r: Result<MerkleProof, VerifyError>)
    ensures
        r is Ok <==> all_tokens_ok(text@),
        r matches Ok(p) ==> {
            &&& p@.len() == split_tokens(text@).len()
            &&& forall|i: int| 0 <= i < p@.len() ==> p@[i] == token_hash(split_tokens(text@)[i])
            &&& p.wf()
        },
        r matches Err(e) ==> e matches VerifyError::MalformedInput { token_index } && {
            &&& 0 <= token_index < split_tokens(text@).len()
            &&& !token_ok(split_tokens(text@)[token_index as int])
            &&& forall|j: int| 0 <= j < token_index ==> token_ok(split_tokens(text@)[j])
        },
{
    let ghost toks = split_tokens(text@);
    let tokens = split_exec(text);
    let mut siblings: Vec<Hash256> = Vec::new();
    let mut i: usize = 0;
    while i < tokens.len()
        invariant
            i <= tokens@.len(),
            tokens@.map_values(|t: Vec<u8>| t@) == toks,
            toks == split_tokens(text@),
            toks.len() == tokens@.len(),
            siblings@.len() == i,
            forall|j: int| 0 <= j < i ==> token_ok(toks[j]),
            forall|j: int| 0 <= j < i ==> siblings@[j]@ == token_hash(toks[j]),
            forall|j: int| 0 <= j < i ==> siblings@[j].wf(),
        decreases tokens@.len() - i,
    {
        proof {
            assert(toks[i as int] == tokens@[i as int]@);
        }
        match parse_token(&tokens[i]) {
            Some(h) => {
                siblings.push(h);
            },
            None => {
                return Err(VerifyError::MalformedInput { token_index: i });
            },
        }
        i = i + 1;
    }
    let proof_out = MerkleProof::new(siblings);
    proof {
        assert forall|j: int| 0 <= j < proof_out@.len() implies proof_out@[j] == token_hash(
            toks[j],
        ) by {
            assert(proof_out@[j] == proof_out.siblings@[j]@);
        }
        assert(proof_out@.len() == toks.len());
    }
    Ok(proof_out)
}

} // verus!
