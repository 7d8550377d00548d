//! Transaction receipts and their canonical byte encoding, the leaf preimage.
//!
//! The encoding is the protocol-mandated serialization of the ordered field
//! list — status, cumulative gas used, logs bloom, log entries — as a
//! recursive length-prefixed structure, with a leading type byte for typed
//! (non-legacy) receipts. Field order and encoding are fixed by protocol.

use vstd::prelude::*;

use crate::bytes::append_bytes;
use crate::errors::VerifyError;
use crate::hash::{Hash256, keccak256, keccak256_of};
use crate::rlp::{
    lemma_rlp_list_injective, lemma_rlp_string_injective, lemma_rlp_uint_prefix,
    rlp_encode_bytes, rlp_encode_list, rlp_encode_uint, rlp_list, rlp_string, rlp_uint,
};

verus! {

/// One log entry of a receipt: emitting address, ordered indexed topics, and
/// the opaque data payload.
#[derive(Debug)]
pub struct LogEntry {
    /// The emitting account's 20-byte address.
    pub address: Vec<u8>,
    /// The ordered 32-byte indexed topics.
    pub topics: Vec<Hash256>,
    /// The opaque event payload.
    pub data: Vec<u8>,
}

/// The fields of a receipt that the canonical encoding consumes.
#[derive(Debug)]
pub struct TransactionReceipt {
    /// Transaction-type discriminator: zero for a legacy receipt, otherwise
    /// the type byte that prefixes the typed encoding.
    pub tx_type: u8,
    /// Execution status; absent while the transaction is not yet mined.
    pub status: Option<u8>,
    /// Gas used by the block up to and including this transaction.
    pub cumulative_gas_used: u64,
    /// The 256-byte logs bloom filter.
    pub logs_bloom: Vec<u8>,
    /// The ordered log entries.
    pub logs: Vec<LogEntry>,
}

/// Concatenated encodings of a list of topics.
pub open spec fn topics_payload(topics: Seq<Seq<u8>>) -> Seq<u8>
    decreases topics.len(),
{
    if topics.len() == 0 {
        Seq::empty()
    } else {
        rlp_string(topics[0]) + topics_payload(topics.skip(1))
    }
}

/// Canonical encoding of one log entry: the list of address, topic list, and
/// data payload.
pub open spec fn log_canonical(l: LogEntry) -> Seq<u8> {
    rlp_list(
        rlp_string(l.address@) + rlp_list(
            topics_payload(l.topics@.map_values(|h: Hash256| h@)),
        ) + rlp_string(l.data@),
    )
}

/// Concatenated encodings of a list of log entries.
pub open spec fn logs_payload(logs: Seq<LogEntry>) -> Seq<u8>
    decreases logs.len(),
{
    if logs.len() == 0 {
        Seq::empty()
    } else {
        log_canonical(logs[0]) + logs_payload(logs.skip(1))
    }
}

/// The concatenated field encodings of a receipt: status, cumulative gas
/// used, logs bloom, and the log entry list, in that order.
pub open spec fn receipt_fields_payload(r: TransactionReceipt) -> Seq<u8> {
    rlp_uint(r.status.unwrap() as nat) + rlp_uint(r.cumulative_gas_used as nat) + rlp_string(
        r.logs_bloom@,
    ) + rlp_list(logs_payload(r.logs@))
}

/// Canonical encoding of a receipt, without the type byte: the list of
/// status, cumulative gas used, logs bloom, and log entries, in that order.
pub open spec fn receipt_payload(r: TransactionReceipt) -> Seq<u8> {
    rlp_list(receipt_fields_payload(r))
}

/// The full canonical encoding: a legacy receipt is its payload, a typed
/// receipt is the type byte followed by the payload.
pub open spec fn receipt_canonical(r: TransactionReceipt) -> Seq<u8> {
    if r.tx_type == 0 {
        receipt_payload(r)
    } else {
        seq![r.tx_type] + receipt_payload(r)
    }
}

/// Canonical encoding is deterministic: the encoding is a function of the
/// receipt's fields alone, so equal receipts always yield byte-identical
/// encodings.
pub proof fn lemma_canonical_deterministic(r1: TransactionReceipt, r2: TransactionReceipt)
    requires
        r1 == r2,
    ensures
        receipt_canonical(r1) == receipt_canonical(r2),
{
}

/// A topic list's concatenated encodings determine the topics themselves.
pub proof fn lemma_topics_payload_injective(t1: Seq<Seq<u8>>, t2: Seq<Seq<u8>>)
    requires
        topics_payload(t1) == topics_payload(t2),
        topics_payload(t1).len() < 0x1_0000_0000_0000_0000,
        topics_payload(t2).len() < 0x1_0000_0000_0000_0000,
    ensures
        t1 == t2,
    decreases t1.len(),
{
    if t1.len() == 0 && t2.len() == 0 {
        assert(t1 =~= t2);
    } else if t1.len() == 0 && t2.len() > 0 {
        assert(topics_payload(t2) == rlp_string(t2[0]) + topics_payload(t2.skip(1)));
        assert(rlp_string(t2[0]).len() >= 1);
        assert(false);
    } else if t1.len() > 0 && t2.len() == 0 {
        assert(topics_payload(t1) == rlp_string(t1[0]) + topics_payload(t1.skip(1)));
        assert(rlp_string(t1[0]).len() >= 1);
        assert(false);
    } else {
        assert(topics_payload(t1) == rlp_string(t1[0]) + topics_payload(t1.skip(1)));
        assert(topics_payload(t2) == rlp_string(t2[0]) + topics_payload(t2.skip(1)));
        assert(rlp_string(t1[0]).len() >= t1[0].len());
        assert(rlp_string(t2[0]).len() >= t2[0].len());
        crate::rlp::lemma_rlp_string_prefix(
            t1[0],
            t2[0],
            topics_payload(t1.skip(1)),
            topics_payload(t2.skip(1)),
        );
        lemma_topics_payload_injective(t1.skip(1), t2.skip(1));
        assert forall|i: int| 0 <= i < t1.len() implies t1[i] == t2[i] by {
            if i > 0 {
                assert(t1[i] == t1.skip(1)[i - 1]);
                assert(t2[i] == t2.skip(1)[i - 1]);
            }
        }
        assert(t1 =~= t2);
    }
}

/// The content of a log entry that its canonical encoding consumes: equal
/// content means equal encoding, and the lemmas below show the converse.
pub open spec fn log_views_equal(a: LogEntry, b: LogEntry) -> bool {
    &&& a.address@ == b.address@
    &&& a.topics@.map_values(|h: Hash256| h@) == b.topics@.map_values(|h: Hash256| h@)
    &&& a.data@ == b.data@
}

/// Two log lists with the same content, entry by entry.
pub open spec fn logs_views_equal(l1: Seq<LogEntry>, l2: Seq<LogEntry>) -> bool {
    l1.len() == l2.len() && (forall|i: int| 0 <= i < l1.len() ==> log_views_equal(l1[i], l2[i]))
}

/// A log's encoding determines its content and whatever follows it.
#[verifier::rlimit(60)]
pub proof fn lemma_log_canonical_prefix(x1: LogEntry, x2: LogEntry, rest1: Seq<u8>, rest2: Seq<u8>)
    requires
        log_canonical(x1) + rest1 == log_canonical(x2) + rest2,
        log_canonical(x1).len() < 0x1_0000_0000_0000_0000,
        log_canonical(x2).len() < 0x1_0000_0000_0000_0000,
    ensures
        log_views_equal(x1, x2),
        rest1 == rest2,
{
    let tp1 = x1.topics@.map_values(|h: Hash256| h@);
    let tp2 = x2.topics@.map_values(|h: Hash256| h@);
    let a1 = rlp_string(x1.address@);
    let a2 = rlp_string(x2.address@);
    let t1 = rlp_list(topics_payload(tp1));
    let t2 = rlp_list(topics_payload(tp2));
    let d1 = rlp_string(x1.data@);
    let d2 = rlp_string(x2.data@);
    let inner1 = a1 + t1 + d1;
    let inner2 = a2 + t2 + d2;
    assert(log_canonical(x1) == rlp_list(inner1));
    assert(log_canonical(x2) == rlp_list(inner2));
    assert(log_canonical(x1).len() >= inner1.len());
    assert(log_canonical(x2).len() >= inner2.len());
    crate::rlp::lemma_rlp_list_prefix(inner1, inner2, rest1, rest2);
    assert(inner1.len() == a1.len() + t1.len() + d1.len());
    assert(inner2.len() == a2.len() + t2.len() + d2.len());
    assert(a1.len() >= x1.address@.len());
    assert(a2.len() >= x2.address@.len());
    assert(inner1 =~= a1 + (t1 + d1));
    assert(inner2 =~= a2 + (t2 + d2));
    crate::rlp::lemma_rlp_string_prefix(x1.address@, x2.address@, t1 + d1, t2 + d2);
    assert(t1.len() >= topics_payload(tp1).len());
    assert(t2.len() >= topics_payload(tp2).len());
    crate::rlp::lemma_rlp_list_prefix(topics_payload(tp1), topics_payload(tp2), d1, d2);
    lemma_topics_payload_injective(tp1, tp2);
    assert(d1.len() >= x1.data@.len());
    assert(d2.len() >= x2.data@.len());
    lemma_rlp_string_injective(x1.data@, x2.data@);
}

/// The concatenated encodings of a log list determine every log's content.
pub proof fn lemma_logs_payload_views(l1: Seq<LogEntry>, l2: Seq<LogEntry>)
    requires
        logs_payload(l1) == logs_payload(l2),
        logs_payload(l1).len() < 0x1_0000_0000_0000_0000,
        logs_payload(l2).len() < 0x1_0000_0000_0000_0000,
    ensures
        logs_views_equal(l1, l2),
    decreases l1.len(),
{
    if l1.len() == 0 && l2.len() > 0 {
        assert(logs_payload(l2) == log_canonical(l2[0]) + logs_payload(l2.skip(1)));
        assert(log_canonical(l2[0]).len() >= 1);
        assert(false);
    } else if l1.len() > 0 && l2.len() == 0 {
        assert(logs_payload(l1) == log_canonical(l1[0]) + logs_payload(l1.skip(1)));
        assert(log_canonical(l1[0]).len() >= 1);
        assert(false);
    } else if l1.len() > 0 && l2.len() > 0 {
        assert(logs_payload(l1) == log_canonical(l1[0]) + logs_payload(l1.skip(1)));
        assert(logs_payload(l2) == log_canonical(l2[0]) + logs_payload(l2.skip(1)));
        lemma_log_canonical_prefix(l1[0], l2[0], logs_payload(l1.skip(1)), logs_payload(l2.skip(1)));
        lemma_logs_payload_views(l1.skip(1), l2.skip(1));
        assert forall|i: int| 0 <= i < l1.len() implies log_views_equal(l1[i], l2[i]) by {
            if i > 0 {
                assert(l1[i] == l1.skip(1)[i - 1]);
                assert(l2[i] == l2.skip(1)[i - 1]);
                assert(log_views_equal(l1.skip(1)[i - 1], l2.skip(1)[i - 1]));
            }
        }
    }
}

/// Two receipts with the same content, as far as the canonical encoding
/// consumes it.
pub open spec fn receipt_views_equal(r1: TransactionReceipt, r2: TransactionReceipt) -> bool {
    &&& r1.tx_type == r2.tx_type
    &&& r1.status == r2.status
    &&& r1.cumulative_gas_used == r2.cumulative_gas_used
    &&& r1.logs_bloom@ == r2.logs_bloom@
    &&& logs_views_equal(r1.logs@, r2.logs@)
}

/// The canonical encoding determines the whole receipt: equal encodings can
/// only come from receipts with equal content. The type byte of a typed
/// receipt is below `0x80` by protocol, which keeps it distinct from every
/// list header; and both receipts must fit the machine, their field payloads
/// shorter than a 64-bit length.
#[verifier::rlimit(100)]
pub proof fn lemma_canonical_views_determined(r1: TransactionReceipt, r2: TransactionReceipt)
    requires
        r1.status is Some,
        r2.status is Some,
        r1.tx_type < 0x80,
        r2.tx_type < 0x80,
        receipt_fields_payload(r1).len() < 0x1_0000_0000_0000_0000,
        receipt_fields_payload(r2).len() < 0x1_0000_0000_0000_0000,
        receipt_canonical(r1) == receipt_canonical(r2),
    ensures
        receipt_views_equal(r1, r2),
{
    let f1 = receipt_fields_payload(r1);
    let f2 = receipt_fields_payload(r2);
    let p1 = receipt_payload(r1);
    let p2 = receipt_payload(r2);
    crate::rlp::lemma_rlp_list_head(f1);
    crate::rlp::lemma_rlp_list_head(f2);
    // A list header is at least 0xc0 and a type byte below 0x80, so the two
    // encodings agree on the type byte.
    if r1.tx_type == 0 && r2.tx_type != 0 {
        assert(receipt_canonical(r1)[0] == p1[0]);
        assert(receipt_canonical(r2)[0] == r2.tx_type);
        assert(false);
    }
    if r1.tx_type != 0 && r2.tx_type == 0 {
        assert(receipt_canonical(r1)[0] == r1.tx_type);
        assert(receipt_canonical(r2)[0] == p2[0]);
        assert(false);
    }
    if r1.tx_type != 0 && r2.tx_type != 0 {
        assert(receipt_canonical(r1)[0] == r1.tx_type);
        assert(receipt_canonical(r2)[0] == r2.tx_type);
        crate::bytes::lemma_concat_split(seq![r1.tx_type], p1, seq![r2.tx_type], p2);
    }
    assert(rlp_list(f1) == rlp_list(f2));
    lemma_rlp_list_injective(f1, f2);
    // Peel the fields off the shared payload, in order.
    let u1 = rlp_uint(r1.status.unwrap() as nat);
    let u2 = rlp_uint(r2.status.unwrap() as nat);
    let g1 = rlp_uint(r1.cumulative_gas_used as nat);
    let g2 = rlp_uint(r2.cumulative_gas_used as nat);
    let b1 = rlp_string(r1.logs_bloom@);
    let b2 = rlp_string(r2.logs_bloom@);
    let lp1 = logs_payload(r1.logs@);
    let lp2 = logs_payload(r2.logs@);
    let l1 = rlp_list(lp1);
    let l2 = rlp_list(lp2);
    assert(f1 =~= u1 + (g1 + (b1 + l1)));
    assert(f2 =~= u2 + (g2 + (b2 + l2)));
    lemma_rlp_uint_prefix(
        r1.status.unwrap() as nat,
        r2.status.unwrap() as nat,
        g1 + (b1 + l1),
        g2 + (b2 + l2),
    );
    assert(r1.status == r2.status);
    lemma_rlp_uint_prefix(
        r1.cumulative_gas_used as nat,
        r2.cumulative_gas_used as nat,
        b1 + l1,
        b2 + l2,
    );
    // The field payload bounds the bloom and the log payload.
    assert(b1.len() >= r1.logs_bloom@.len());
    assert(b2.len() >= r2.logs_bloom@.len());
    assert(f1.len() == u1.len() + g1.len() + b1.len() + l1.len());
    assert(f2.len() == u2.len() + g2.len() + b2.len() + l2.len());
    crate::rlp::lemma_rlp_string_prefix(r1.logs_bloom@, r2.logs_bloom@, l1, l2);
    assert(l1.len() >= lp1.len());
    assert(l2.len() >= lp2.len());
    lemma_rlp_list_injective(lp1, lp2);
    lemma_logs_payload_views(r1.logs@, r2.logs@);
}

/// Canonical encoding differs whenever any field differs: receipts that do
/// not agree on their type byte, status, cumulative gas used, logs bloom, or
/// log contents encode to different bytes.
pub proof fn lemma_canonical_field_sensitive(r1: TransactionReceipt, r2: TransactionReceipt)
    requires
        r1.status is Some,
        r2.status is Some,
        r1.tx_type < 0x80,
        r2.tx_type < 0x80,
        receipt_fields_payload(r1).len() < 0x1_0000_0000_0000_0000,
        receipt_fields_payload(r2).len() < 0x1_0000_0000_0000_0000,
        !receipt_views_equal(r1, r2),
    ensures
        receipt_canonical(r1) != receipt_canonical(r2),
{
    if receipt_canonical(r1) == receipt_canonical(r2) {
        lemma_canonical_views_determined(r1, r2);
    }
}

/// Encodes one log entry.
fn encode_log(l: &LogEntry) -> (r: Vec<u8>)
    ensures
        r@ == log_canonical(*l),
{
    let ghost tps = l.topics@.map_values(|h: Hash256| h@);
    let mut topics_buf: Vec<u8> = Vec::new();
    let mut i: usize = 0;
    proof {
        assert(tps.skip(0) =~= tps);
    }
    while i < l.topics.len()
        invariant
            i <= l.topics@.len(),
            tps == l.topics@.map_values(|h: Hash256| h@),
            tps.len() == l.topics@.len(),
            topics_payload(tps) == topics_buf@ + topics_payload(tps.skip(i as int)),
        decreases l.topics@.len() - i,
    {
        let enc = rlp_encode_bytes(l.topics[i].bytes());
        append_bytes(&mut topics_buf, &enc);
        proof {
            assert(tps[i as int] == l.topics@[i as int]@);
            assert(tps.skip(i as int)[0] == tps[i as int]);
            assert(tps.skip(i as int).skip(1) =~= tps.skip(i + 1));
            assert(topics_payload(tps.skip(i as int)) == rlp_string(tps[i as int])
                + topics_payload(tps.skip(i + 1)));
            assert(topics_buf@ + topics_payload(tps.skip(i + 1)) =~= topics_payload(tps));
        }
        i = i + 1;
    }
    proof {
        assert(tps.skip(tps.len() as int) =~= Seq::<Seq<u8>>::empty());
        assert(topics_payload(Seq::<Seq<u8>>::empty()) == Seq::<u8>::empty());
        assert(topics_buf@ + Seq::<u8>::empty() =~= topics_buf@);
    }
    let topics_list = rlp_encode_list(&topics_buf);
    let addr_enc = rlp_encode_bytes(&l.address);
    let data_enc = rlp_encode_bytes(&l.data);
    let mut payload: Vec<u8> = Vec::new();
    append_bytes(&mut payload, &addr_enc);
    append_bytes(&mut payload, &topics_list);
    append_bytes(&mut payload, &data_enc);
    proof {
        assert(payload@ =~= rlp_string(l.address@) + rlp_list(topics_payload(tps)) + rlp_string(
            l.data@,
        ));
    }
    rlp_encode_list(&payload)
}

/// Turns a receipt into its canonical byte encoding, the leaf preimage.
///
/// Succeeds exactly when the status field is present; a receipt without it
/// (a pending, unmined transaction) is reported unavailable and is never
/// encoded or hashed.
pub fn canonicalize(r: &TransactionReceipt) -> (res: Result<Vec<u8>, VerifyError>)
    ensures
        res is Ok <==> r.status is Some,
        res matches Ok(bytes) ==> bytes@ == receipt_canonical(*r),
        res matches Err(e) ==> e == (VerifyError::ReceiptUnavailable),
{
    let status: u8 = match r.status {
        Some(s) => s,
        None => {
            return Err(VerifyError::ReceiptUnavailable);
        },
    };
    let mut logs_buf: Vec<u8> = Vec::new();
    let mut i: usize = 0;
    proof {
        assert(r.logs@.skip(0) =~= r.logs@);
    }
    while i < r.logs.len()
        invariant
            i <= r.logs@.len(),
            logs_payload(r.logs@) == logs_buf@ + logs_payload(r.logs@.skip(i as int)),
        decreases r.logs@.len() - i,
    {
        let enc = encode_log(&r.logs[i]);
        append_bytes(&mut logs_buf, &enc);
        proof {
            assert(r.logs@.skip(i as int)[0] == r.logs@[i as int]);
            assert(r.logs@.skip(i as int).skip(1) =~= r.logs@.skip(i + 1));
            assert(logs_payload(r.logs@.skip(i as int)) == log_canonical(r.logs@[i as int])
                + logs_payload(r.logs@.skip(i + 1)));
            assert(logs_buf@ + logs_payload(r.logs@.skip(i + 1)) =~= logs_payload(r.logs@));
        }
        i = i + 1;
    }
    proof {
        assert(r.logs@.skip(r.logs@.len() as int) =~= Seq::<LogEntry>::empty());
        assert(logs_payload(Seq::<LogEntry>::empty()) == Seq::<u8>::empty());
        assert(logs_buf@ + Seq::<u8>::empty() =~= logs_buf@);
    }
    let logs_list = rlp_encode_list(&logs_buf);
    let status_enc = rlp_encode_uint(status as u64);
    let gas_enc = rlp_encode_uint(r.cumulative_gas_used);
    let bloom_enc = rlp_encode_bytes(&r.logs_bloom);
    let mut payload: Vec<u8> = Vec::new();
    append_bytes(&mut payload, &status_enc);
    append_bytes(&mut payload, &gas_enc);
    append_bytes(&mut payload, &bloom_enc);
    append_bytes(&mut payload, &logs_list);
    proof {
        assert(payload@ =~= rlp_uint(r.status.unwrap() as nat) + rlp_uint(
            r.cumulative_gas_used as nat,
        ) + rlp_string(r.logs_bloom@) + rlp_list(logs_payload(r.logs@)));
    }
    let wrapped = rlp_encode_list(&payload);
    if r.tx_type == 0 {
        Ok(wrapped)
    } else {
        let mut out: Vec<u8> = Vec::new();
        out.push(r.tx_type);
        append_bytes(&mut out, &wrapped);
        proof {
            assert(out@ =~= seq![r.tx_type] + receipt_payload(*r));
        }
        Ok(out)
    }
}

/// The leaf hash of a receipt: the Keccak-256 digest of its canonical
/// encoding. Fails exactly when the receipt cannot be canonicalized.
pub fn leaf_hash(r: &TransactionReceipt) -> (res: Result<Hash256, VerifyError>)
    ensures
        res is Ok <==> r.status is Some,
        res matches Ok(h) ==> h@ == keccak256_of(receipt_canonical(*r)) && h.wf(),
        res matches Err(e) ==> e == (VerifyError::ReceiptUnavailable),
{
    match canonicalize(r) {
        Ok(bytes) => {
            let digest = keccak256(&bytes);
            Ok(Hash256::from_bytes_exact(digest))
        },
        Err(e) => Err(e),
    }
}

} // verus!
