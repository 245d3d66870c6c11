//! Blocks: the canonical encoding of their content, digest recomputation,
//! and proof-of-work sealing by the nonce search.

use vstd::prelude::*;
use vstd::string::StringExecFns;
use crate::clock::now_seconds;
use crate::digest::bytes_to_hex;
use crate::digest::hex_of;
use crate::digest::leading_zeros;
use crate::digest::meets_difficulty;
use crate::digest::sha256_digest;
use crate::digest::sha256_of;
use crate::text::dec_of;
use crate::text::dec_of_int;
use crate::text::i64_to_dec;
use crate::text::u64_to_dec;
use crate::transaction::encode_txs;
use crate::transaction::encode_transactions;
use crate::transaction::views_of;
use crate::transaction::Transaction;
use crate::transaction::TransactionView;

verus! {

/// One block of the chain: a batch of records plus linkage metadata, sealed
/// by a stored digest of its own content.
#[derive(Debug)]
pub struct Block {
    pub index: u64,
    pub timestamp: i64,
    pub transactions: Vec<Transaction>,
    pub previous_hash: String,
    pub nonce: u64,
    pub hash: String,
}

/// The canonical character encoding of a block's hashed content, given
/// field by field: every field but the stored hash itself, in a fixed order
/// with fixed separators.
pub open spec fn content_encoding(
    index: u64,
    timestamp: i64,
    txs: Seq<TransactionView>,
    previous_hash: Seq<char>,
    nonce: u64,
) -> Seq<char> {
    dec_of(index as nat) + seq!['|'] + dec_of_int(timestamp as int) + seq!['|'] + encode_txs(txs)
        + seq!['|'] + previous_hash + seq!['|'] + dec_of(nonce as nat)
}

/// The digest of a block's content given field by field: SHA-256 of the
/// canonical encoding, rendered as lowercase hexadecimal.
pub open spec fn content_digest(
    index: u64,
    timestamp: i64,
    txs: Seq<TransactionView>,
    previous_hash: Seq<char>,
    nonce: u64,
) -> Seq<char> {
    hex_of(sha256_of(content_encoding(index, timestamp, txs, previous_hash, nonce)))
}

/// The canonical character encoding of a block's hashed content.
pub open spec fn block_encoding(b: Block) -> Seq<char> {
    content_encoding(b.index, b.timestamp, views_of(b.transactions@), b.previous_hash@, b.nonce)
}

/// The digest of a block's content: SHA-256 of the canonical encoding,
/// rendered as lowercase hexadecimal.
pub open spec fn block_digest(b: Block) -> Seq<char> {
    hex_of(sha256_of(block_encoding(b)))
}

/// Some 64-bit nonce gives this content a digest with at least `difficulty`
/// leading zero digits: the proof-of-work search can succeed on it.
pub open spec fn mineable(
    index: u64,
    timestamp: i64,
    txs: Seq<TransactionView>,
    previous_hash: Seq<char>,
    difficulty: nat,
) -> bool {
    exists|n: u64|
        leading_zeros(content_digest(index, timestamp, txs, previous_hash, n)) >= difficulty
}

/// The stored nonce is the first qualifying one: every smaller nonce fails
/// the difficulty on the same content, as the search order fixes.
pub open spec fn nonce_minimal(b: Block, difficulty: nat) -> bool {
    forall|n: u64|
        n < b.nonce ==> leading_zeros(
            content_digest(b.index, b.timestamp, views_of(b.transactions@), b.previous_hash@, n),
        ) < difficulty
}

/// A sealed block: the stored hash is exactly the digest recomputed from the
/// block's own content.
pub open spec fn sealed(b: Block) -> bool {
    b.hash@ == block_digest(b)
}

/// The fixed shape of the genesis block: position zero, no records, the
/// sentinel predecessor hash and the sentinel hash. Only its timestamp is
/// free.
pub open spec fn is_genesis(b: Block) -> bool {
    &&& b.index == 0
    &&& b.transactions@.len() == 0
    &&& b.previous_hash@ == seq!['0']
    &&& b.nonce == 0
    &&& b.hash@ == seq!['0']
}

impl Block {
    /// Recomputes the digest of this block's current content; the stored
    /// `hash` field plays no part in it.
    pub fn calculate_hash(&self) -> (h: String)
        ensures
            h@ == block_digest(*self),
            h@.len() == 64,
    {
        let mut data = u64_to_dec(self.index);
        data.append("|");
        let stamp = i64_to_dec(self.timestamp);
        data.append(stamp.as_str());
        data.append("|");
        let txs = encode_transactions(&self.transactions);
        data.append(txs.as_str());
        data.append("|");
        data.append(self.previous_hash.as_str());
        data.append("|");
        let nonce = u64_to_dec(self.nonce);
        data.append(nonce.as_str());
        proof {
            reveal_strlit("|");
            assert("|"@ =~= seq!['|']);
            assert(data@ =~= block_encoding(*self));
        }
        let digest = sha256_digest(data.as_str());
        proof {
            crate::digest::lemma_hex_of_len(digest@);
        }
        bytes_to_hex(&digest)
    }

    /// The proof-of-work search: starting at nonce zero, recompute the digest
    /// and keep counting until it has at least `difficulty` leading zero
    /// digits. Succeeds, storing the first qualifying nonce's digest, exactly
    /// when some 64-bit nonce qualifies; otherwise the whole nonce space was
    /// swept and the stored hash is left alone.
    fn mine_block(&mut self, difficulty: usize) -> (ok: bool)
        ensures
            final(self).index == old(self).index,
            final(self).timestamp == old(self).timestamp,
            final(self).transactions == old(self).transactions,
            final(self).previous_hash == old(self).previous_hash,
            ok == mineable(
                old(self).index,
                old(self).timestamp,
                views_of(old(self).transactions@),
                old(self).previous_hash@,
                difficulty as nat,
            ),
            ok ==> sealed(*final(self)) && leading_zeros(final(self).hash@) >= difficulty
                && nonce_minimal(*final(self), difficulty as nat),
            !ok ==> final(self).hash == old(self).hash,
    {
        self.nonce = 0;
        loop
            invariant
                self.index == old(self).index,
                self.timestamp == old(self).timestamp,
                self.transactions == old(self).transactions,
                self.previous_hash == old(self).previous_hash,
                self.hash == old(self).hash,
                forall|n: u64|
                    n < self.nonce ==> leading_zeros(
                        content_digest(
                            self.index,
                            self.timestamp,
                            views_of(self.transactions@),
                            self.previous_hash@,
                            n,
                        ),
                    ) < difficulty,
            decreases u64::MAX - self.nonce,
        {
            let h = self.calculate_hash();
            if meets_difficulty(h.as_str(), difficulty) {
                proof {
                    assert(leading_zeros(
                        content_digest(
                            old(self).index,
                            old(self).timestamp,
                            views_of(old(self).transactions@),
                            old(self).previous_hash@,
                            self.nonce,
                        ),
                    ) >= difficulty);
                }
                self.hash = h;
                return true;
            }
            if self.nonce == u64::MAX {
                proof {
                    assert forall|n: u64| leading_zeros(
                        content_digest(
                            self.index,
                            self.timestamp,
                            views_of(self.transactions@),
                            self.previous_hash@,
                            n,
                        ),
                    ) < difficulty by {
                        if n == u64::MAX {
                            assert(content_digest(
                                self.index,
                                self.timestamp,
                                views_of(self.transactions@),
                                self.previous_hash@,
                                n,
                            ) == h@);
                        }
                    }
                }
                return false;
            }
            self.nonce = self.nonce + 1;
        }
    }

    /// Builds a block over the given content, stamped with the current
    /// wall-clock time, and seals it by the proof-of-work search. Returns
    /// None only in the practically unreachable case that, for the sampled
    /// timestamp, no 64-bit nonce at all satisfies the difficulty.
    pub fn new(
        index: u64,
        transactions: Vec<Transaction>,
        previous_hash: String,
        difficulty: usize,
    ) -> (r: Option<Block>)
        ensures
            (r matches Some(b) ==> {
                &&& b.index == index
                &&& b.transactions == transactions
                &&& b.previous_hash == previous_hash
                &&& sealed(b)
                &&& leading_zeros(b.hash@) >= difficulty
                &&& nonce_minimal(b, difficulty as nat)
            }),
            (r is None ==> exists|ts: i64|
                !mineable(index, ts, views_of(transactions@), previous_hash@, difficulty as nat)),
    {
        let mut block = Block {
            index,
            timestamp: now_seconds(),
            transactions,
            previous_hash,
            nonce: 0,
            hash: String::new(),
        };
        let ok = block.mine_block(difficulty);
        if ok {
            Some(block)
        } else {
            proof {
                assert(!mineable(
                    index,
                    block.timestamp,
                    views_of(transactions@),
                    previous_hash@,
                    difficulty as nat,
                ));
            }
            None
        }
    }

    /// The fixed first block of every chain. Its sentinel hash neither
    /// satisfies the difficulty predicate nor matches a recomputed digest,
    /// and validation never re-checks it.
    pub fn genesis() -> (b: Block)
        ensures
            is_genesis(b),
    {
        let b = Block {
            index: 0,
            timestamp: now_seconds(),
            transactions: Vec::new(),
            previous_hash: String::from_str("0"),
            nonce: 0,
            hash: String::from_str("0"),
        };
        proof {
            reveal_strlit("0");
            assert("0"@ =~= seq!['0']);
        }
        b
    }
}

} // verus!
