//! The ledger: an append-only chain of sealed blocks, a pending buffer of
//! records, balance derivation by full replay, and chain-wide validation.

use vstd::prelude::*;
use vstd::string::StringExecFns;
use crate::block::block_digest;
use crate::block::is_genesis;
use crate::block::mineable;
use crate::block::nonce_minimal;
use crate::block::sealed;
use crate::block::Block;
use crate::digest::leading_zeros;
use crate::digest::meets_difficulty;
use crate::transaction::views_of;
use crate::transaction::Transaction;
use crate::transaction::TransactionView;

verus! {

/// A single-node ledger: the chain (position zero is genesis), the required
/// difficulty, the pending buffer, and the fixed reward per mined block.
#[derive(Debug)]
pub struct Blockchain {
    pub chain: Vec<Block>,
    pub difficulty: usize,
    pub pending_transactions: Vec<Transaction>,
    pub mining_reward: i64,
}

/// Chain integrity exactly as validation checks it: every block after
/// genesis stores the digest recomputed from its own content and points at
/// its predecessor's stored hash. Genesis itself is never re-checked.
pub open spec fn chain_valid(chain: Seq<Block>) -> bool {
    forall|i: int|
        1 <= i < chain.len() ==> {
            &&& (#[trigger] chain[i]).hash@ == block_digest(chain[i])
            &&& chain[i].previous_hash@ == chain[i - 1].hash@
        }
}

/// The content of the reward record that one mining call mints, given the
/// timestamp it was stamped with.
pub open spec fn reward_view(to: Seq<char>, amount: i64, ts: i64) -> TransactionView {
    TransactionView { from: "System"@, to: to, amount: amount as int, timestamp: ts as int }
}

/// The net movement that one record causes for one address: credited when
/// the address receives, debited when it sends.
pub open spec fn tx_delta(t: TransactionView, addr: Seq<char>) -> int {
    (if t.to == addr {
        t.amount
    } else {
        0
    }) - (if t.from == addr {
        t.amount
    } else {
        0
    })
}

/// The net movement of a record sequence for one address.
pub open spec fn txs_balance(ts: Seq<TransactionView>, addr: Seq<char>) -> int
    decreases ts.len(),
{
    if ts.len() == 0 {
        0
    } else {
        txs_balance(ts.drop_last(), addr) + tx_delta(ts.last(), addr)
    }
}

/// The net balance of an address over a whole chain, replayed from genesis.
pub open spec fn chain_balance(chain: Seq<Block>, addr: Seq<char>) -> int
    decreases chain.len(),
{
    if chain.len() == 0 {
        0
    } else {
        chain_balance(chain.drop_last(), addr) + txs_balance(
            views_of(chain.last().transactions@),
            addr,
        )
    }
}

/// How many records a chain holds in all of its blocks together.
pub open spec fn total_tx_count(chain: Seq<Block>) -> nat
    decreases chain.len(),
{
    if chain.len() == 0 {
        0
    } else {
        total_tx_count(chain.drop_last()) + chain.last().transactions@.len()
    }
}

/// Every amount of the sequence fits a 64-bit signed integer.
pub open spec fn amounts_in_range(ts: Seq<TransactionView>) -> bool {
    forall|k: int|
        0 <= k < ts.len() ==> -0x8000_0000_0000_0000 <= (#[trigger] ts[k]).amount
            < 0x8000_0000_0000_0000
}

proof fn lemma_views_amounts_in_range(ts: Seq<Transaction>)
    ensures
        amounts_in_range(views_of(ts)),
{
    assert forall|k: int| 0 <= k < views_of(ts).len() implies -0x8000_0000_0000_0000 <= (
    #[trigger] views_of(ts)[k]).amount < 0x8000_0000_0000_0000 by {
        assert(views_of(ts)[k] == ts[k]@);
    }
}

proof fn lemma_txs_balance_bound(ts: Seq<TransactionView>, addr: Seq<char>)
    requires
        amounts_in_range(ts),
    ensures
        -((ts.len() as int) * 0x8000_0000_0000_0000) <= txs_balance(ts, addr),
        txs_balance(ts, addr) <= (ts.len() as int) * 0x8000_0000_0000_0000,
    decreases ts.len(),
{
    if ts.len() > 0 {
        assert forall|k: int| 0 <= k < ts.drop_last().len() implies -0x8000_0000_0000_0000 <= (
        #[trigger] ts.drop_last()[k]).amount < 0x8000_0000_0000_0000 by {
            assert(ts.drop_last()[k] == ts[k]);
        }
        lemma_txs_balance_bound(ts.drop_last(), addr);
        assert(ts.last() == ts[ts.len() - 1]);
    }
}

proof fn lemma_chain_balance_bound(chain: Seq<Block>, addr: Seq<char>)
    ensures
        -((total_tx_count(chain) as int) * 0x8000_0000_0000_0000) <= chain_balance(chain, addr),
        chain_balance(chain, addr) <= (total_tx_count(chain) as int) * 0x8000_0000_0000_0000,
    decreases chain.len(),
{
    if chain.len() > 0 {
        lemma_chain_balance_bound(chain.drop_last(), addr);
        lemma_views_amounts_in_range(chain.last().transactions@);
        lemma_txs_balance_bound(views_of(chain.last().transactions@), addr);
    }
}

proof fn lemma_count_step(s: Seq<Block>, i: int)
    requires
        0 <= i < s.len(),
    ensures
        total_tx_count(s.subrange(0, i + 1)) == total_tx_count(s.subrange(0, i))
            + s[i].transactions@.len(),
{
    assert(s.subrange(0, i + 1).drop_last() =~= s.subrange(0, i));
    assert(s.subrange(0, i + 1).last() == s[i]);
}

proof fn lemma_count_prefix_le(s: Seq<Block>, i: int)
    requires
        0 <= i <= s.len(),
    ensures
        total_tx_count(s.subrange(0, i)) <= total_tx_count(s),
    decreases s.len() - i,
{
    if i == s.len() {
        assert(s.subrange(0, i) =~= s);
    } else {
        lemma_count_step(s, i);
        lemma_count_prefix_le(s, i + 1);
    }
}

fn clone_transactions(v: &Vec<Transaction>) -> (r: Vec<Transaction>)
    ensures
        r@ == v@,
{
    let mut r: Vec<Transaction> = Vec::new();
    let mut i: usize = 0;
    while i < v.len()
        invariant
            i <= v@.len(),
            r@ == v@.subrange(0, i as int),
        decreases v@.len() - i,
    {
        r.push(v[i].clone());
        proof {
            assert(r@ =~= v@.subrange(0, i as int + 1));
        }
        i = i + 1;
    }
    proof {
        assert(v@.subrange(0, v@.len() as int) =~= v@);
    }
    r
}

impl Blockchain {
    /// The ledger invariant: a never-empty chain opened by the genesis
    /// block, positions matching indices, and every later block sealed,
    /// meeting the difficulty, and linked to its predecessor.
    pub open spec fn wf(self) -> bool {
        &&& self.chain@.len() >= 1
        &&& is_genesis(self.chain@[0])
        &&& forall|i: int|
            0 <= i < self.chain@.len() ==> (#[trigger] self.chain@[i]).index == i
        &&& forall|i: int|
            1 <= i < self.chain@.len() ==> leading_zeros(
                (#[trigger] self.chain@[i]).hash@,
            ) >= self.difficulty
        &&& chain_valid(self.chain@)
    }

    /// A fresh ledger: genesis alone in the chain, a difficulty of four
    /// leading zero digits, an empty pending buffer, and a reward of one
    /// hundred per mined block.
    pub fn new() -> (r: Blockchain)
        ensures
            r.wf(),
            r.chain@.len() == 1,
            is_genesis(r.chain@[0]),
            chain_valid(r.chain@),
            r.difficulty == 4,
            r.pending_transactions@.len() == 0,
            r.mining_reward == 100,
    {
        let mut chain: Vec<Block> = Vec::new();
        chain.push(Block::genesis());
        Blockchain { chain, difficulty: 4, pending_transactions: Vec::new(), mining_reward: 100 }
    }

    fn get_latest_block(&self) -> (b: &Block)
        requires
            self.chain@.len() >= 1,
        ensures
            *b == self.chain@.last(),
    {
        &self.chain[self.chain.len() - 1]
    }

    /// Appends a record to the pending buffer. Nothing is validated; the
    /// record waits there until the next mining call.
    pub fn create_transaction(&mut self, transaction: Transaction)
        ensures
            final(self).pending_transactions@ == old(self).pending_transactions@.push(
                transaction,
            ),
            final(self).chain == old(self).chain,
            final(self).difficulty == old(self).difficulty,
            final(self).mining_reward == old(self).mining_reward,
    {
        self.pending_transactions.push(transaction);
    }

    /// Drains the pending buffer, together with a freshly stamped reward
    /// record from the system sender to the given recipient, into a new
    /// sealed block appended to the chain. Returns false, leaving the ledger
    /// exactly as it was, only in the practically unreachable case that, for
    /// the timestamps the clock handed out, no 64-bit nonce at all gives the
    /// new block's content a qualifying digest.
    pub fn mine_pending_transactions(&mut self, mining_reward_address: String) -> (ok: bool)
        requires
            old(self).wf(),
        ensures
            (ok ==> {
                &&& final(self).wf()
                &&& final(self).chain@.len() == old(self).chain@.len() + 1
                &&& final(self).chain@.subrange(0, old(self).chain@.len() as int) == old(
                    self,
                ).chain@
                &&& final(self).pending_transactions@.len() == 0
                &&& final(self).difficulty == old(self).difficulty
                &&& final(self).mining_reward == old(self).mining_reward
                &&& final(self).chain@.last().index == old(self).chain@.len()
                &&& final(self).chain@.last().previous_hash@ == old(self).chain@.last().hash@
                &&& sealed(final(self).chain@.last())
                &&& leading_zeros(final(self).chain@.last().hash@) >= old(self).difficulty
                &&& final(self).chain@.last().transactions@.len() == old(
                    self,
                ).pending_transactions@.len() + 1
                &&& final(self).chain@.last().transactions@.subrange(
                    0,
                    old(self).pending_transactions@.len() as int,
                ) == old(self).pending_transactions@
                &&& final(self).chain@.last().transactions@.last().from@ == "System"@
                &&& final(self).chain@.last().transactions@.last().to@
                    == mining_reward_address@
                &&& final(self).chain@.last().transactions@.last().amount == old(
                    self,
                ).mining_reward
                &&& nonce_minimal(final(self).chain@.last(), old(self).difficulty as nat)
            }),
            (!ok ==> *final(self) == *old(self)),
            (!ok ==> exists|reward_ts: i64, block_ts: i64|
                !(#[trigger] mineable(
                    old(self).chain@.len() as u64,
                    block_ts,
                    views_of(old(self).pending_transactions@).push(
                        reward_view(
                            mining_reward_address@,
                            old(self).mining_reward,
                            reward_ts,
                        ),
                    ),
                    old(self).chain@.last().hash@,
                    old(self).difficulty as nat,
                ))),
    {
        let reward = Transaction::new(
            String::from_str("System"),
            mining_reward_address,
            self.mining_reward,
        );
        let mut txs = clone_transactions(&self.pending_transactions);
        txs.push(reward);
        let previous_hash = self.get_latest_block().hash.clone();
        let mined = Block::new(self.chain.len() as u64, txs, previous_hash, self.difficulty);
        match mined {
            Some(b) => {
                proof {
                    assert(b.transactions@.subrange(
                        0,
                        old(self).pending_transactions@.len() as int,
                    ) =~= old(self).pending_transactions@);
                }
                self.chain.push(b);
                self.pending_transactions = Vec::new();
                proof {
                    let oc = old(self).chain@;
                    let nc = self.chain@;
                    assert(nc.subrange(0, oc.len() as int) =~= oc);
                    assert(nc.last() == b);
                    assert forall|i: int| 0 <= i < nc.len() implies (#[trigger] nc[i]).index
                        == i by {
                        if i < oc.len() {
                            assert(nc[i] == oc[i]);
                        }
                    }
                    assert forall|i: int| 1 <= i < nc.len() implies leading_zeros(
                        (#[trigger] nc[i]).hash@,
                    ) >= self.difficulty by {
                        if i < oc.len() {
                            assert(nc[i] == oc[i]);
                        }
                    }
                    assert forall|i: int| 1 <= i < nc.len() implies {
                        &&& (#[trigger] nc[i]).hash@ == block_digest(nc[i])
                        &&& nc[i].previous_hash@ == nc[i - 1].hash@
                    } by {
                        if i < oc.len() {
                            assert(nc[i] == oc[i]);
                            if i >= 1 {
                                assert(nc[i - 1] == oc[i - 1]);
                            }
                        } else {
                            assert(nc[i - 1] == oc[oc.len() - 1]);
                        }
                    }
                }
                true
            },
            None => {
                proof {
                    let ts = choose|ts: i64|
                        !(#[trigger] mineable(
                            self.chain@.len() as u64,
                            ts,
                            views_of(txs@),
                            previous_hash@,
                            self.difficulty as nat,
                        ));
                    assert(reward@ == reward_view(
                        mining_reward_address@,
                        old(self).mining_reward,
                        reward.timestamp,
                    ));
                    assert(views_of(txs@) =~= views_of(old(self).pending_transactions@).push(
                        reward_view(
                            mining_reward_address@,
                            old(self).mining_reward,
                            reward.timestamp,
                        ),
                    ));
                    assert(!mineable(
                        old(self).chain@.len() as u64,
                        ts,
                        views_of(old(self).pending_transactions@).push(
                            reward_view(
                                mining_reward_address@,
                                old(self).mining_reward,
                                reward.timestamp,
                            ),
                        ),
                        old(self).chain@.last().hash@,
                        old(self).difficulty as nat,
                    ));
                }
                false
            },
        }
    }

    /// The net balance of an address: a full replay of the chain, crediting
    /// the address for every record it receives and debiting it for every
    /// record it sends. The count bound is a machine limit: it keeps the
    /// replay's running sum within a 128-bit accumulator.
    pub fn get_balance(&self, address: &str) -> (r: i128)
        requires
            total_tx_count(self.chain@) <= 0x4000_0000_0000_0000,
        ensures
            r == chain_balance(self.chain@, address@),
    {
        let addr = String::from_str(address);
        let mut balance: i128 = 0;
        let mut i: usize = 0;
        proof {
            assert(self.chain@.subrange(0, 0) =~= Seq::<Block>::empty());
        }
        while i < self.chain.len()
            invariant
                addr@ == address@,
                i <= self.chain@.len(),
                total_tx_count(self.chain@) <= 0x4000_0000_0000_0000,
                balance == chain_balance(self.chain@.subrange(0, i as int), addr@),
            decreases self.chain@.len() - i,
        {
            let mut j: usize = 0;
            proof {
                assert(views_of(self.chain@[i as int].transactions@).subrange(0, 0)
                    =~= Seq::<TransactionView>::empty());
            }
            while j < self.chain[i].transactions.len()
                invariant
                    addr@ == address@,
                    i < self.chain@.len(),
                    j <= self.chain@[i as int].transactions@.len(),
                    total_tx_count(self.chain@) <= 0x4000_0000_0000_0000,
                    balance == chain_balance(self.chain@.subrange(0, i as int), addr@)
                        + txs_balance(
                        views_of(self.chain@[i as int].transactions@).subrange(0, j as int),
                        addr@,
                    ),
                decreases self.chain@[i as int].transactions@.len() - j,
            {
                proof {
                    let pre = self.chain@.subrange(0, i as int);
                    let u = views_of(self.chain@[i as int].transactions@);
                    lemma_chain_balance_bound(pre, addr@);
                    lemma_count_prefix_le(self.chain@, i as int + 1);
                    lemma_count_step(self.chain@, i as int);
                    lemma_views_amounts_in_range(self.chain@[i as int].transactions@);
                    assert forall|k: int| 0 <= k < u.subrange(0, j as int).len() implies
                        -0x8000_0000_0000_0000 <= (#[trigger] u.subrange(0, j as int)[k]).amount
                        < 0x8000_0000_0000_0000 by {
                        assert(u.subrange(0, j as int)[k] == u[k]);
                    }
                    lemma_txs_balance_bound(u.subrange(0, j as int), addr@);
                }
                let t = &self.chain[i].transactions[j];
                if t.to == addr {
                    balance = balance + (t.amount as i128);
                }
                if t.from == addr {
                    balance = balance - (t.amount as i128);
                }
                proof {
                    let u = views_of(self.chain@[i as int].transactions@);
                    assert(u.subrange(0, j as int + 1).drop_last() =~= u.subrange(0, j as int));
                    assert(u.subrange(0, j as int + 1).last() == u[j as int]);
                    assert(u[j as int] == self.chain@[i as int].transactions@[j as int]@);
                }
                j = j + 1;
            }
            proof {
                let u = views_of(self.chain@[i as int].transactions@);
                assert(u.subrange(0, u.len() as int) =~= u);
                assert(self.chain@.subrange(0, i as int + 1).drop_last() =~= self.chain@.subrange(
                    0,
                    i as int,
                ));
                assert(self.chain@.subrange(0, i as int + 1).last() == self.chain@[i as int]);
            }
            i = i + 1;
        }
        proof {
            assert(self.chain@.subrange(0, self.chain@.len() as int) =~= self.chain@);
        }
        balance
    }

    /// Replays the whole chain: true exactly when every block after genesis
    /// stores the digest recomputed from its current content and points at
    /// its predecessor's stored hash. Reading only, so repeated calls on an
    /// unmodified chain always agree.
    pub fn is_chain_valid(&self) -> (r: bool)
        ensures
            r == chain_valid(self.chain@),
    {
        let mut i: usize = 1;
        while i < self.chain.len()
            invariant
                1 <= i,
                forall|j: int|
                    1 <= j < i && j < self.chain@.len() ==> {
                        &&& (#[trigger] self.chain@[j]).hash@ == block_digest(self.chain@[j])
                        &&& self.chain@[j].previous_hash@ == self.chain@[j - 1].hash@
                    },
            decreases self.chain@.len() - i,
        {
            let current = &self.chain[i];
            let recomputed = current.calculate_hash();
            if !(current.hash == recomputed) {
                return false;
            }
            let previous = &self.chain[i - 1];
            if !(current.previous_hash == previous.hash) {
                return false;
            }
            i = i + 1;
        }
        true
    }

    /// Checks the whole ledger invariant at run time: a never-empty chain
    /// opened by the genesis shape, positions matching indices, and every
    /// later block sealed, meeting the difficulty, and linked. Exactly the
    /// `wf` predicate, decidable for a caller that cannot evaluate specs.
    #[verifier::rlimit(100)]
    #[verifier::spinoff_prover]
    pub fn check_well_formed(&self) -> (r: bool)
        ensures
            r == self.wf(),
    {
        proof {
            reveal_strlit("0");
            assert("0"@ =~= seq!['0']);
        }
        if self.chain.len() == 0 {
            return false;
        }
        let zero = String::from_str("0");
        let g = &self.chain[0];
        if g.index != 0 || g.transactions.len() != 0 || !(g.previous_hash == zero) || g.nonce != 0
            || !(g.hash == zero) {
            return false;
        }
        let mut i: usize = 1;
        while i < self.chain.len()
            invariant
                1 <= i,
                self.chain@.len() >= 1,
                is_genesis(self.chain@[0]),
                forall|j: int|
                    0 <= j < i && j < self.chain@.len() ==> (#[trigger] self.chain@[j]).index == j,
                forall|j: int|
                    1 <= j < i && j < self.chain@.len() ==> leading_zeros(
                        (#[trigger] self.chain@[j]).hash@,
                    ) >= self.difficulty,
                forall|j: int|
                    1 <= j < i && j < self.chain@.len() ==> {
                        &&& (#[trigger] self.chain@[j]).hash@ == block_digest(self.chain@[j])
                        &&& self.chain@[j].previous_hash@ == self.chain@[j - 1].hash@
                    },
            decreases self.chain@.len() - i,
        {
            let b = &self.chain[i];
            if b.index != i as u64 {
                return false;
            }
            if !meets_difficulty(b.hash.as_str(), self.difficulty) {
                return false;
            }
            let recomputed = b.calculate_hash();
            if !(b.hash == recomputed) {
                return false;
            }
            if !(b.previous_hash == self.chain[i - 1].hash) {
                return false;
            }
            i = i + 1;
        }
        true
    }
}

} // verus!
