//! The chain-level guarantees of the ledger, each stated once as a public
//! proof function over the same spec functions that the executable
//! contracts use.

use vstd::prelude::*;
use crate::block::block_digest;
use crate::block::block_encoding;
use crate::block::sealed;
use crate::block::Block;
use crate::chain::chain_valid;
use crate::chain::Blockchain;
use crate::digest::leading_zeros;
use crate::text::dec_of;
use crate::text::dec_of_int;
use crate::text::lemma_dec_of_int_injective;
use crate::transaction::encode_tx;
use crate::transaction::encode_txs;
use crate::transaction::views_of;
use crate::transaction::TransactionView;

verus! {

/// Mining determinism: on a sealed block whose stored fields are unchanged,
/// recomputing the digest reproduces exactly the stored hash.
pub proof fn lemma_mining_determinism(b: Block)
    requires
        sealed(b),
    ensures
        block_digest(b) == b.hash@,
{
}

/// Difficulty satisfaction: in a well-formed ledger, every block after
/// genesis carries a hash with at least `difficulty` leading zero digits.
pub proof fn lemma_difficulty_satisfaction(ledger: Blockchain, i: int)
    requires
        ledger.wf(),
        1 <= i < ledger.chain@.len(),
    ensures
        leading_zeros(ledger.chain@[i].hash@) >= ledger.difficulty,
{
}

/// Linkage: in a well-formed ledger, every block after genesis stores its
/// predecessor's hash as its own `previous_hash`.
pub proof fn lemma_chain_linkage(ledger: Blockchain, i: int)
    requires
        ledger.wf(),
        1 <= i < ledger.chain@.len(),
    ensures
        ledger.chain@[i].previous_hash@ == ledger.chain@[i - 1].hash@,
{
}

/// Every well-formed ledger validates; in particular a freshly created one,
/// whose chain is the genesis block alone.
pub proof fn lemma_wf_validates(ledger: Blockchain)
    requires
        ledger.wf(),
    ensures
        chain_valid(ledger.chain@),
{
}

proof fn lemma_cancel_left(c: Seq<char>, a: Seq<char>, b: Seq<char>)
    requires
        c + a == c + b,
    ensures
        a == b,
{
    assert((c + a).len() == c.len() + a.len());
    assert((c + b).len() == c.len() + b.len());
    assert(a.len() == b.len());
    assert forall|i: int| 0 <= i < a.len() implies a[i] == b[i] by {
        assert((c + a)[c.len() + i] == a[i]);
        assert((c + b)[c.len() + i] == b[i]);
    }
    assert(a =~= b);
}

proof fn lemma_cancel_right(a: Seq<char>, b: Seq<char>, c: Seq<char>)
    requires
        a + c == b + c,
    ensures
        a == b,
{
    assert((a + c).len() == a.len() + c.len());
    assert((b + c).len() == b.len() + c.len());
    assert(a.len() == b.len());
    assert forall|i: int| 0 <= i < a.len() implies a[i] == b[i] by {
        assert((a + c)[i] == a[i]);
        assert((b + c)[i] == b[i]);
    }
    assert(a =~= b);
}

proof fn lemma_encode_txs_split(ts: Seq<TransactionView>, k: int)
    requires
        0 <= k < ts.len(),
    ensures
        encode_txs(ts) == encode_txs(ts.subrange(0, k)) + encode_tx(ts[k]) + encode_txs(
            ts.subrange(k + 1, ts.len() as int),
        ),
    decreases k,
{
    if k == 0 {
        assert(ts.subrange(0, 0) =~= Seq::<TransactionView>::empty());
        assert(ts.drop_first() =~= ts.subrange(1, ts.len() as int));
        assert(encode_txs(ts) =~= encode_txs(ts.subrange(0, 0)) + encode_tx(ts[0]) + encode_txs(
            ts.subrange(1, ts.len() as int),
        ));
    } else {
        let tail = ts.drop_first();
        lemma_encode_txs_split(tail, k - 1);
        assert(tail[k - 1] == ts[k]);
        assert(tail.subrange(k, tail.len() as int) =~= ts.subrange(k + 1, ts.len() as int));
        assert(ts.subrange(0, k).drop_first() =~= tail.subrange(0, k - 1));
        assert(ts.subrange(0, k)[0] == ts[0]);
        assert(encode_txs(ts.subrange(0, k)) == encode_tx(ts[0]) + encode_txs(
            tail.subrange(0, k - 1),
        ));
        assert(encode_txs(ts) =~= encode_txs(ts.subrange(0, k)) + encode_tx(ts[k]) + encode_txs(
            ts.subrange(k + 1, ts.len() as int),
        ));
    }
}

/// Tamper evidence, the provable half: changing the amount of one record
/// inside a block, with everything else left as it was, always changes the
/// block's canonical encoding, the very input of the digest. That validation
/// then flips rests only on the hash function not colliding on the two
/// encodings, which nothing in this library states.
pub proof fn lemma_amount_changes_encoding(b1: Block, b2: Block, k: int)
    requires
        0 <= k < b1.transactions@.len(),
        b2.transactions@.len() == b1.transactions@.len(),
        b2.index == b1.index,
        b2.timestamp == b1.timestamp,
        b2.previous_hash@ == b1.previous_hash@,
        b2.nonce == b1.nonce,
        forall|j: int|
            0 <= j < b1.transactions@.len() && j != k ==> b2.transactions@[j]@ == #[trigger] b1.transactions@[j]@,
        b2.transactions@[k]@.from == b1.transactions@[k]@.from,
        b2.transactions@[k]@.to == b1.transactions@[k]@.to,
        b2.transactions@[k]@.timestamp == b1.transactions@[k]@.timestamp,
        b2.transactions@[k]@.amount != b1.transactions@[k]@.amount,
    ensures
        block_encoding(b1) != block_encoding(b2),
{
    let u1 = views_of(b1.transactions@);
    let u2 = views_of(b2.transactions@);
    assert forall|j: int| 0 <= j < u1.len() && j != k implies u1[j] == #[trigger] u2[j] by {
        assert(u1[j] == b1.transactions@[j]@);
        assert(u2[j] == b2.transactions@[j]@);
    }
    let t1 = u1[k];
    let t2 = u2[k];
    assert(t1 == b1.transactions@[k]@);
    assert(t2 == b2.transactions@[k]@);
    let e1 = encode_txs(u1);
    let e2 = encode_txs(u2);
    let head = dec_of(b1.index as nat) + seq!['|'] + dec_of_int(b1.timestamp as int) + seq!['|'];
    let bar: Seq<char> = seq!['|'];
    let prev = b1.previous_hash@;
    let tail = dec_of(b1.nonce as nat);
    assert(block_encoding(b1) == head + e1 + bar + prev + bar + tail);
    assert(block_encoding(b2) == head + e2 + bar + prev + bar + tail);
    if block_encoding(b1) == block_encoding(b2) {
        lemma_cancel_right(head + e1 + bar + prev + bar, head + e2 + bar + prev + bar, tail);
        lemma_cancel_right(head + e1 + bar + prev, head + e2 + bar + prev, bar);
        lemma_cancel_right(head + e1 + bar, head + e2 + bar, prev);
        lemma_cancel_right(head + e1, head + e2, bar);
        lemma_cancel_left(head, e1, e2);
        assert(u1.subrange(0, k) =~= u2.subrange(0, k));
        assert(u1.subrange(k + 1, u1.len() as int) =~= u2.subrange(k + 1, u2.len() as int));
        lemma_encode_txs_split(u1, k);
        lemma_encode_txs_split(u2, k);
        let p = encode_txs(u1.subrange(0, k));
        let s = encode_txs(u1.subrange(k + 1, u1.len() as int));
        assert(p + encode_tx(t1) + s == p + encode_tx(t2) + s);
        lemma_cancel_right(p + encode_tx(t1), p + encode_tx(t2), s);
        lemma_cancel_left(p, encode_tx(t1), encode_tx(t2));
        let g = t1.from + seq!['-', '>'] + t1.to + seq![':'];
        let w1 = dec_of_int(t1.amount);
        let w2 = dec_of_int(t2.amount);
        let at: Seq<char> = seq!['@'];
        let stamp = dec_of_int(t1.timestamp);
        let semi: Seq<char> = seq![';'];
        assert(encode_tx(t1) == g + w1 + at + stamp + semi);
        assert(encode_tx(t2) == g + w2 + at + stamp + semi);
        lemma_cancel_right(g + w1 + at + stamp, g + w2 + at + stamp, semi);
        lemma_cancel_right(g + w1 + at, g + w2 + at, stamp);
        lemma_cancel_right(g + w1, g + w2, at);
        lemma_cancel_left(g, w1, w2);
        lemma_dec_of_int_injective(t1.amount, t2.amount);
        assert(false);
    }
}

/// Idempotent validation: the verdict is a function of the chain contents
/// alone, so validations of an unmodified chain always agree.
pub proof fn lemma_validation_idempotent(first: Blockchain, second: Blockchain)
    requires
        first.chain@ == second.chain@,
    ensures
        chain_valid(first.chain@) == chain_valid(second.chain@),
{
}

} // verus!
