//! The value-transfer record: immutable leaf data of a block, and its
//! canonical character encoding, the part of a block's content that the
//! digest commits to.

use vstd::prelude::*;
use vstd::string::StringExecFns;
use crate::clock::now_seconds;
use crate::text::dec_of_int;
use crate::text::i64_to_dec;

verus! {

/// A value-transfer record. The amount is a whole number of coin units; the
/// timestamp is whole seconds since the Unix epoch. Economic validity (sign
/// of the amount, distinct parties, sufficient balance) is deliberately not
/// checked anywhere.
#[derive(Debug)]
pub struct Transaction {
    pub from: String,
    pub to: String,
    pub amount: i64,
    pub timestamp: i64,
}

/// The mathematical content of a transaction.
pub struct TransactionView {
    pub from: Seq<char>,
    pub to: Seq<char>,
    pub amount: int,
    pub timestamp: int,
}

impl View for Transaction {
    type V = TransactionView;

    open spec fn view(&self) -> TransactionView {
        TransactionView {
            from: self.from@,
            to: self.to@,
            amount: self.amount as int,
            timestamp: self.timestamp as int,
        }
    }
}

impl Clone for Transaction {
    fn clone(&self) -> (r: Self)
        ensures
            r == *self,
    {
        Transaction {
            from: self.from.clone(),
            to: self.to.clone(),
            amount: self.amount,
            timestamp: self.timestamp,
        }
    }
}

impl Transaction {
    /// Creates a record of `amount` moving from `from` to `to`, stamped with
    /// the current wall-clock time.
    pub fn new(from: String, to: String, amount: i64) -> (t: Transaction)
        ensures
            t.from@ == from@,
            t.to@ == to@,
            t.amount == amount,
    {
        Transaction { from, to, amount, timestamp: now_seconds() }
    }
}

/// The contents of a transaction sequence, record by record.
pub open spec fn views_of(ts: Seq<Transaction>) -> Seq<TransactionView> {
    ts.map_values(|t: Transaction| t@)
}

/// The canonical encoding of one record: parties, amount and timestamp in a
/// fixed order with fixed separators, so that equal content always encodes
/// equally.
pub open spec fn encode_tx(t: TransactionView) -> Seq<char> {
    t.from + seq!['-', '>'] + t.to + seq![':'] + dec_of_int(t.amount) + seq!['@'] + dec_of_int(
        t.timestamp,
    ) + seq![';']
}

/// The canonical encoding of a record sequence: the records' encodings in
/// order, each closed by its own terminator.
pub open spec fn encode_txs(ts: Seq<TransactionView>) -> Seq<char>
    decreases ts.len(),
{
    if ts.len() == 0 {
        Seq::empty()
    } else {
        encode_tx(ts[0]) + encode_txs(ts.drop_first())
    }
}

proof fn lemma_encode_txs_snoc(ts: Seq<TransactionView>, t: TransactionView)
    ensures
        encode_txs(ts.push(t)) == encode_txs(ts) + encode_tx(t),
    decreases ts.len(),
{
    if ts.len() == 0 {
        assert(ts.push(t).drop_first() =~= ts);
        assert(encode_txs(ts.push(t)) =~= encode_txs(ts) + encode_tx(t));
    } else {
        assert(ts.push(t).drop_first() =~= ts.drop_first().push(t));
        lemma_encode_txs_snoc(ts.drop_first(), t);
        assert(encode_txs(ts.push(t)) =~= encode_txs(ts) + encode_tx(t));
    }
}

fn encode_transaction(t: &Transaction) -> (s: String)
    ensures
        s@ == encode_tx(t@),
{
    let mut s = t.from.clone();
    s.append("->");
    s.append(t.to.as_str());
    s.append(":");
    let amount = i64_to_dec(t.amount);
    s.append(amount.as_str());
    s.append("@");
    let stamp = i64_to_dec(t.timestamp);
    s.append(stamp.as_str());
    s.append(";");
    proof {
        reveal_strlit("->");
        reveal_strlit(":");
        reveal_strlit("@");
        reveal_strlit(";");
        assert("->"@ =~= seq!['-', '>']);
        assert(":"@ =~= seq![':']);
        assert("@"@ =~= seq!['@']);
        assert(";"@ =~= seq![';']);
        assert(s@ =~= encode_tx(t@));
    }
    s
}

/// Renders the canonical encoding of a whole record sequence.
pub fn encode_transactions(v: &Vec<Transaction>) -> (s: String)
    ensures
        s@ == encode_txs(views_of(v@)),
{
    let mut s = String::new();
    let mut i: usize = 0;
    while i < v.len()
        invariant
            i <= v@.len(),
            s@ == encode_txs(views_of(v@).subrange(0, i as int)),
        decreases v@.len() - i,
    {
        let piece = encode_transaction(&v[i]);
        s.append(piece.as_str());
        proof {
            let u = views_of(v@);
            lemma_encode_txs_snoc(u.subrange(0, i as int), u[i as int]);
            assert(u.subrange(0, i as int).push(u[i as int]) =~= u.subrange(0, i as int + 1));
            assert(s@ =~= encode_txs(u.subrange(0, i as int + 1)));
        }
        i = i + 1;
    }
    proof {
        assert(views_of(v@).subrange(0, views_of(v@).len() as int) =~= views_of(v@));
    }
    s
}

} // verus!
