//! The recursive length-prefixed binary encoding that the canonical receipt
//! serialization is built from: byte strings and lists of already-encoded
//! items, each carrying a length header.

use vstd::prelude::*;

use crate::bytes::append_bytes;

verus! {

/// Minimal big-endian byte representation of an unsigned number; zero is the
/// empty string.
pub open spec fn be_bytes(n: nat) -> Seq<u8>
    decreases n,
{
    if n == 0 {
        Seq::empty()
    } else {
        be_bytes(n / 256) + seq![(n % 256) as u8]
    }
}

/// 256 raised to `k`.
pub open spec fn pow256(k: nat) -> nat
    decreases k,
{
    if k == 0 {
        1
    } else {
        256 * pow256((k - 1) as nat)
    }
}

/// A number below `pow256(k)` has at most `k` big-endian bytes.
pub proof fn lemma_be_bytes_len(n: nat, k: nat)
    requires
        n < pow256(k),
    ensures
        be_bytes(n).len() <= k,
    decreases k,
{
    if n > 0 {
        if k == 0 {
            assert(pow256(0) == 1);
        }
        assert(pow256(k) == 256 * pow256((k - 1) as nat));
        assert(n / 256 < pow256((k - 1) as nat)) by (nonlinear_arith)
            requires
                n < 256 * pow256((k - 1) as nat),
        ;
        lemma_be_bytes_len(n / 256, (k - 1) as nat);
    }
}

/// Any 64-bit number has at most 8 big-endian bytes.
pub proof fn lemma_be_bytes_len_u64(n: nat)
    requires
        n < 0x1_0000_0000_0000_0000,
    ensures
        be_bytes(n).len() <= 8,
{
    assert(pow256(0) == 1);
    assert(pow256(1) == 0x100);
    assert(pow256(2) == 0x1_0000);
    assert(pow256(3) == 0x100_0000);
    assert(pow256(4) == 0x1_0000_0000);
    assert(pow256(5) == 0x100_0000_0000);
    assert(pow256(6) == 0x1_0000_0000_0000);
    assert(pow256(7) == 0x100_0000_0000_0000);
    assert(pow256(8) == 0x1_0000_0000_0000_0000);
    lemma_be_bytes_len(n, 8);
}

/// Encoding of a byte string: a single small byte stands for itself, a short
/// string gets a one-byte length header, a long string gets a header naming
/// the length of its big-endian length.
pub open spec fn rlp_string(s: Seq<u8>) -> Seq<u8> {
    if s.len() == 1 && s[0] < 0x80 {
        s
    } else if s.len() <= 55 {
        seq![(0x80 + s.len()) as u8] + s
    } else {
        seq![(0xb7 + be_bytes(s.len() as nat).len()) as u8] + be_bytes(s.len() as nat) + s
    }
}

/// Header wrapped around the concatenated encodings of a list's items.
pub open spec fn rlp_list(payload: Seq<u8>) -> Seq<u8> {
    if payload.len() <= 55 {
        seq![(0xc0 + payload.len()) as u8] + payload
    } else {
        seq![(0xf7 + be_bytes(payload.len() as nat).len()) as u8] + be_bytes(payload.len() as nat)
            + payload
    }
}

/// Encoding of an unsigned number: its minimal big-endian bytes, encoded as a
/// byte string.
pub open spec fn rlp_uint(n: nat) -> Seq<u8> {
    rlp_string(be_bytes(n))
}

/// Distinct numbers have distinct big-endian representations.
pub proof fn lemma_be_bytes_injective(n1: nat, n2: nat)
    requires
        be_bytes(n1) == be_bytes(n2),
    ensures
        n1 == n2,
    decreases n1,
{
    if n1 == 0 && n2 != 0 {
        assert(be_bytes(n2).len() == be_bytes(n2 / 256).len() + 1);
        assert(false);
    } else if n1 != 0 && n2 == 0 {
        assert(be_bytes(n1).len() == be_bytes(n1 / 256).len() + 1);
        assert(false);
    } else if n1 != 0 && n2 != 0 {
        let a1 = be_bytes(n1 / 256);
        let a2 = be_bytes(n2 / 256);
        assert(be_bytes(n1) == a1 + seq![(n1 % 256) as u8]);
        assert(be_bytes(n2) == a2 + seq![(n2 % 256) as u8]);
        assert(a1.len() == a2.len());
        crate::bytes::lemma_concat_split(
            a1,
            seq![(n1 % 256) as u8],
            a2,
            seq![(n2 % 256) as u8],
        );
        assert(seq![(n1 % 256) as u8][0] == seq![(n2 % 256) as u8][0]);
        assert(n1 % 256 == n2 % 256);
        vstd::arithmetic::div_mod::lemma_div_is_strictly_smaller(n1 as int, 256);
        lemma_be_bytes_injective(n1 / 256, n2 / 256);
        vstd::arithmetic::div_mod::lemma_fundamental_div_mod(n1 as int, 256);
        vstd::arithmetic::div_mod::lemma_fundamental_div_mod(n2 as int, 256);
    }
}

/// How a byte string encoding starts, and how long it is, for each of the
/// three forms; header bytes of the three forms live in disjoint ranges.
pub proof fn lemma_rlp_string_head(s: Seq<u8>)
    requires
        s.len() < 0x1_0000_0000_0000_0000,
    ensures
        rlp_string(s).len() >= 1,
        (s.len() == 1 && s[0] < 0x80) ==> rlp_string(s) == s,
        (!(s.len() == 1 && s[0] < 0x80) && s.len() <= 55) ==> {
            &&& rlp_string(s) == seq![(0x80 + s.len()) as u8] + s
            &&& rlp_string(s)[0] == 0x80 + s.len()
            &&& 0x80 <= rlp_string(s)[0] <= 0xb7
        },
        s.len() > 55 ==> {
            &&& 1 <= be_bytes(s.len() as nat).len() <= 8
            &&& rlp_string(s) == seq![(0xb7 + be_bytes(s.len() as nat).len()) as u8] + (be_bytes(
                s.len() as nat,
            ) + s)
            &&& rlp_string(s)[0] == 0xb7 + be_bytes(s.len() as nat).len()
            &&& 0xb8 <= rlp_string(s)[0] <= 0xbf
        },
{
    if s.len() > 55 {
        lemma_be_bytes_len_u64(s.len() as nat);
        assert(be_bytes(s.len() as nat).len() == be_bytes(s.len() as nat / 256).len() + 1);
        assert(rlp_string(s) =~= seq![(0xb7 + be_bytes(s.len() as nat).len()) as u8] + (be_bytes(
            s.len() as nat,
        ) + s));
    }
}

/// Distinct byte strings have distinct encodings.
pub proof fn lemma_rlp_string_injective(s1: Seq<u8>, s2: Seq<u8>)
    requires
        rlp_string(s1) == rlp_string(s2),
        s1.len() < 0x1_0000_0000_0000_0000,
        s2.len() < 0x1_0000_0000_0000_0000,
    ensures
        s1 == s2,
{
    lemma_rlp_string_head(s1);
    lemma_rlp_string_head(s2);
    let single1 = s1.len() == 1 && s1[0] < 0x80;
    let single2 = s2.len() == 1 && s2[0] < 0x80;
    if single1 && single2 {
        // Both stand for themselves.
    } else if !single1 && !single2 && s1.len() <= 55 && s2.len() <= 55 {
        assert(rlp_string(s1)[0] == 0x80 + s1.len());
        assert(rlp_string(s2)[0] == 0x80 + s2.len());
        crate::bytes::lemma_concat_split(
            seq![(0x80 + s1.len()) as u8],
            s1,
            seq![(0x80 + s2.len()) as u8],
            s2,
        );
    } else if s1.len() > 55 && s2.len() > 55 {
        let b1 = be_bytes(s1.len() as nat);
        let b2 = be_bytes(s2.len() as nat);
        assert(rlp_string(s1)[0] == 0xb7 + b1.len());
        assert(rlp_string(s2)[0] == 0xb7 + b2.len());
        assert(b1.len() == b2.len());
        crate::bytes::lemma_concat_split(
            seq![(0xb7 + b1.len()) as u8],
            b1 + s1,
            seq![(0xb7 + b2.len()) as u8],
            b2 + s2,
        );
        crate::bytes::lemma_concat_split(b1, s1, b2, s2);
    } else {
        // The header byte ranges of different forms are disjoint, so the
        // remaining combinations contradict the equal encodings.
        assert(rlp_string(s1)[0] == rlp_string(s2)[0]);
        assert(false);
    }
}

/// How a list encoding starts, and how long it is, for each of the two
/// forms; the two header ranges are disjoint.
pub proof fn lemma_rlp_list_head(p: Seq<u8>)
    requires
        p.len() < 0x1_0000_0000_0000_0000,
    ensures
        rlp_list(p).len() >= 1,
        p.len() <= 55 ==> {
            &&& rlp_list(p) == seq![(0xc0 + p.len()) as u8] + p
            &&& rlp_list(p)[0] == 0xc0 + p.len()
            &&& 0xc0 <= rlp_list(p)[0] <= 0xf7
        },
        p.len() > 55 ==> {
            &&& 1 <= be_bytes(p.len() as nat).len() <= 8
            &&& rlp_list(p) == seq![(0xf7 + be_bytes(p.len() as nat).len()) as u8] + (be_bytes(
                p.len() as nat,
            ) + p)
            &&& rlp_list(p)[0] == 0xf7 + be_bytes(p.len() as nat).len()
            &&& 0xf8 <= rlp_list(p)[0] <= 0xff
        },
{
    if p.len() > 55 {
        lemma_be_bytes_len_u64(p.len() as nat);
        assert(be_bytes(p.len() as nat).len() == be_bytes(p.len() as nat / 256).len() + 1);
        assert(rlp_list(p) =~= seq![(0xf7 + be_bytes(p.len() as nat).len()) as u8] + (be_bytes(
            p.len() as nat,
        ) + p));
    }
}

/// Distinct payloads have distinct list encodings.
pub proof fn lemma_rlp_list_injective(p1: Seq<u8>, p2: Seq<u8>)
    requires
        rlp_list(p1) == rlp_list(p2),
        p1.len() < 0x1_0000_0000_0000_0000,
        p2.len() < 0x1_0000_0000_0000_0000,
    ensures
        p1 == p2,
{
    lemma_rlp_list_head(p1);
    lemma_rlp_list_head(p2);
    if p1.len() <= 55 && p2.len() <= 55 {
        assert(rlp_list(p1)[0] == 0xc0 + p1.len());
        assert(rlp_list(p2)[0] == 0xc0 + p2.len());
        crate::bytes::lemma_concat_split(
            seq![(0xc0 + p1.len()) as u8],
            p1,
            seq![(0xc0 + p2.len()) as u8],
            p2,
        );
    } else if p1.len() > 55 && p2.len() > 55 {
        let b1 = be_bytes(p1.len() as nat);
        let b2 = be_bytes(p2.len() as nat);
        assert(b1.len() == b2.len());
        crate::bytes::lemma_concat_split(
            seq![(0xf7 + b1.len()) as u8],
            b1 + p1,
            seq![(0xf7 + b2.len()) as u8],
            b2 + p2,
        );
        crate::bytes::lemma_concat_split(b1, p1, b2, p2);
    } else {
        assert(rlp_list(p1)[0] == rlp_list(p2)[0]);
        assert(false);
    }
}

/// A number's encoding determines the number and whatever follows it: two
/// equal byte strings that each start with an encoded number agree on the
/// number and on the rest.
pub proof fn lemma_rlp_uint_prefix(n1: nat, n2: nat, x1: Seq<u8>, x2: Seq<u8>)
    requires
        n1 < 0x1_0000_0000_0000_0000,
        n2 < 0x1_0000_0000_0000_0000,
        rlp_uint(n1) + x1 == rlp_uint(n2) + x2,
    ensures
        n1 == n2,
        x1 == x2,
{
    let b1 = be_bytes(n1);
    let b2 = be_bytes(n2);
    lemma_be_bytes_len_u64(n1);
    lemma_be_bytes_len_u64(n2);
    lemma_rlp_string_head(b1);
    lemma_rlp_string_head(b2);
    let u1 = rlp_string(b1);
    let u2 = rlp_string(b2);
    assert((u1 + x1)[0] == u1[0]);
    assert((u2 + x2)[0] == u2[0]);
    let single1 = b1.len() == 1 && b1[0] < 0x80;
    let single2 = b2.len() == 1 && b2[0] < 0x80;
    if single1 && single2 {
        crate::bytes::lemma_concat_split(u1, x1, u2, x2);
        lemma_be_bytes_injective(n1, n2);
    } else if !single1 && !single2 {
        assert(u1[0] == 0x80 + b1.len());
        assert(u2[0] == 0x80 + b2.len());
        assert(b1.len() == b2.len());
        assert(u1.len() == u2.len());
        crate::bytes::lemma_concat_split(u1, x1, u2, x2);
        crate::bytes::lemma_concat_split(
            seq![(0x80 + b1.len()) as u8],
            b1,
            seq![(0x80 + b2.len()) as u8],
            b2,
        );
        lemma_be_bytes_injective(n1, n2);
    } else {
        // One encoding starts below 0x80, the other at or above it.
        assert(u1[0] == u2[0]);
        assert(false);
    }
}

/// A byte string's encoding determines the string and whatever follows it:
/// two equal byte sequences that each start with an encoded string agree on
/// the string and on the rest.
pub proof fn lemma_rlp_string_prefix(s1: Seq<u8>, s2: Seq<u8>, x1: Seq<u8>, x2: Seq<u8>)
    requires
        s1.len() < 0x1_0000_0000_0000_0000,
        s2.len() < 0x1_0000_0000_0000_0000,
        rlp_string(s1) + x1 == rlp_string(s2) + x2,
    ensures
        s1 == s2,
        x1 == x2,
{
    lemma_rlp_string_head(s1);
    lemma_rlp_string_head(s2);
    let u1 = rlp_string(s1);
    let u2 = rlp_string(s2);
    assert((u1 + x1)[0] == u1[0]);
    assert((u2 + x2)[0] == u2[0]);
    let single1 = s1.len() == 1 && s1[0] < 0x80;
    let single2 = s2.len() == 1 && s2[0] < 0x80;
    if single1 && single2 {
        crate::bytes::lemma_concat_split(u1, x1, u2, x2);
    } else if !single1 && !single2 && s1.len() <= 55 && s2.len() <= 55 {
        assert(u1[0] == 0x80 + s1.len());
        assert(u2[0] == 0x80 + s2.len());
        assert(s1.len() == s2.len());
        crate::bytes::lemma_concat_split(u1, x1, u2, x2);
        crate::bytes::lemma_concat_split(
            seq![(0x80 + s1.len()) as u8],
            s1,
            seq![(0x80 + s2.len()) as u8],
            s2,
        );
    } else if s1.len() > 55 && s2.len() > 55 {
        let b1 = be_bytes(s1.len() as nat);
        let b2 = be_bytes(s2.len() as nat);
        assert(u1[0] == 0xb7 + b1.len());
        assert(u2[0] == 0xb7 + b2.len());
        assert(b1.len() == b2.len());
        let h = u1[0];
        assert(u1 + x1 =~= seq![h] + (b1 + (s1 + x1)));
        assert(u2 + x2 =~= seq![h] + (b2 + (s2 + x2)));
        crate::bytes::lemma_cancel_left(seq![h], b1 + (s1 + x1), b2 + (s2 + x2));
        crate::bytes::lemma_concat_split(b1, s1 + x1, b2, s2 + x2);
        lemma_be_bytes_injective(s1.len() as nat, s2.len() as nat);
        crate::bytes::lemma_concat_split(s1, x1, s2, x2);
    } else {
        // The header byte ranges of different forms are disjoint.
        assert(u1[0] == u2[0]);
        assert(false);
    }
}

/// A list's encoding determines its payload and whatever follows it.
pub proof fn lemma_rlp_list_prefix(p1: Seq<u8>, p2: Seq<u8>, x1: Seq<u8>, x2: Seq<u8>)
    requires
        p1.len() < 0x1_0000_0000_0000_0000,
        p2.len() < 0x1_0000_0000_0000_0000,
        rlp_list(p1) + x1 == rlp_list(p2) + x2,
    ensures
        p1 == p2,
        x1 == x2,
{
    lemma_rlp_list_head(p1);
    lemma_rlp_list_head(p2);
    let u1 = rlp_list(p1);
    let u2 = rlp_list(p2);
    assert((u1 + x1)[0] == u1[0]);
    assert((u2 + x2)[0] == u2[0]);
    if p1.len() <= 55 && p2.len() <= 55 {
        assert(u1[0] == 0xc0 + p1.len());
        assert(u2[0] == 0xc0 + p2.len());
        assert(p1.len() == p2.len());
        crate::bytes::lemma_concat_split(u1, x1, u2, x2);
        crate::bytes::lemma_concat_split(
            seq![(0xc0 + p1.len()) as u8],
            p1,
            seq![(0xc0 + p2.len()) as u8],
            p2,
        );
    } else if p1.len() > 55 && p2.len() > 55 {
        let b1 = be_bytes(p1.len() as nat);
        let b2 = be_bytes(p2.len() as nat);
        assert(b1.len() == b2.len());
        let h = u1[0];
        assert(u1 + x1 =~= seq![h] + (b1 + (p1 + x1)));
        assert(u2 + x2 =~= seq![h] + (b2 + (p2 + x2)));
        crate::bytes::lemma_cancel_left(seq![h], b1 + (p1 + x1), b2 + (p2 + x2));
        crate::bytes::lemma_concat_split(b1, p1 + x1, b2, p2 + x2);
        lemma_be_bytes_injective(p1.len() as nat, p2.len() as nat);
        crate::bytes::lemma_concat_split(p1, x1, p2, x2);
    } else {
        assert(u1[0] == u2[0]);
        assert(false);
    }
}

/// Minimal big-endian bytes of `n`.
pub fn be_bytes_exec(n: u64) -> (r: Vec<u8>)
    ensures
        r@ == be_bytes(n as nat),
        r@.len() <= 8,
    decreases n,
{
    proof {
        lemma_be_bytes_len_u64(n as nat);
    }
    if n == 0 {
        Vec::new()
    } else {
        let mut r = be_bytes_exec(n / 256);
        r.push((n % 256) as u8);
        proof {
            assert(r@ =~= be_bytes((n / 256) as nat) + seq![(n as nat % 256) as u8]);
        }
        r
    }
}

/// Encodes a byte string, header included.
pub fn rlp_encode_bytes(s: &Vec<u8>) -> (r: Vec<u8>)
    ensures
        r@ == rlp_string(s@),
{
    let mut out: Vec<u8> = Vec::new();
    let n = s.len();
    if n == 1 && s[0] < 0x80 {
        out.push(s[0]);
        proof {
            assert(out@ =~= s@);
        }
    } else if n <= 55 {
        out.push(0x80 + (n as u8));
        append_bytes(&mut out, s);
        proof {
            assert(out@ =~= seq![(0x80 + s@.len()) as u8] + s@);
        }
    } else {
        let len_bytes = be_bytes_exec(n as u64);
        out.push(0xb7 + (len_bytes.len() as u8));
        append_bytes(&mut out, &len_bytes);
        append_bytes(&mut out, s);
        proof {
            assert(s@.len() as nat == n as nat);
            assert(out@ =~= seq![(0xb7 + be_bytes(s@.len() as nat).len()) as u8] + be_bytes(
                s@.len() as nat,
            ) + s@);
        }
    }
    out
}

/// Wraps an already-encoded payload as a list, header included.
pub fn rlp_encode_list(payload: &Vec<u8>) -> (r: Vec<u8>)
    ensures
        r@ == rlp_list(payload@),
{
    let mut out: Vec<u8> = Vec::new();
    let n = payload.len();
    if n <= 55 {
        out.push(0xc0 + (n as u8));
        append_bytes(&mut out, payload);
        proof {
            assert(out@ =~= seq![(0xc0 + payload@.len()) as u8] + payload@);
        }
    } else {
        let len_bytes = be_bytes_exec(n as u64);
        out.push(0xf7 + (len_bytes.len() as u8));
        append_bytes(&mut out, &len_bytes);
        append_bytes(&mut out, payload);
        proof {
            assert(out@ =~= seq![(0xf7 + be_bytes(payload@.len() as nat).len()) as u8] + be_bytes(
                payload@.len() as nat,
            ) + payload@);
        }
    }
    out
}

/// Encodes an unsigned number.
pub fn rlp_encode_uint(n: u64) -> (r: Vec<u8>)
    ensures
        r@ == rlp_uint(n as nat),
{
    let b = be_bytes_exec(n);
    rlp_encode_bytes(&b)
}

} // verus!
