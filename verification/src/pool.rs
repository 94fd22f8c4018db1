//! The transaction pool: a bounded, insertion-ordered set of admitted but
//! unfinalized transactions, keyed by transaction hash.

use vstd::prelude::*;

use crate::types::{RawTransaction, RawTransactionV, TxV};
use crate::util::{bytes_eq, copy_bytes, copy_raw_transaction};

verus! {

/// View of the pool's entries: hash and transaction, in insertion order.
pub open spec fn pool_view(s: Seq<(Vec<u8>, RawTransaction)>) -> Seq<(Seq<u8>, RawTransactionV)> {
    s.map_values(|e: (Vec<u8>, RawTransaction)| (e.0@, e.1@))
}

/// True when the entries hold `hash`.
pub open spec fn pool_has(s: Seq<(Seq<u8>, RawTransactionV)>, hash: Seq<u8>) -> bool {
    exists|i: int| 0 <= i < s.len() && (#[trigger] s[i]).0 == hash
}

/// True when a packaged proposal keeps the transaction: a normal transaction
/// still valid past `next_height`, or any utxo transaction with a body.
pub open spec fn spec_package_keep(t: RawTransactionV, next_height: u64) -> bool {
    match t.tx {
        Some(TxV::NormalTx(n)) => match n.transaction {
            Some(b) => b.valid_until_block > next_height,
            None => false,
        },
        Some(TxV::UtxoTx(u)) => u.transaction is Some,
        None => false,
    }
}

/// The entries a package at `next_height` returns, in order.
pub open spec fn spec_package(
    s: Seq<(Seq<u8>, RawTransactionV)>,
    next_height: u64,
) -> Seq<(Seq<u8>, RawTransactionV)>
    decreases s.len(),
{
    if s.len() == 0 {
        Seq::empty()
    } else {
        let rest = spec_package(s.drop_last(), next_height);
        if spec_package_keep(s.last().1, next_height) {
            rest.push(s.last())
        } else {
            rest
        }
    }
}

/// The entries left after removing every hash in `hashes`.
pub open spec fn spec_prune(
    s: Seq<(Seq<u8>, RawTransactionV)>,
    hashes: Seq<Seq<u8>>,
) -> Seq<(Seq<u8>, RawTransactionV)>
    decreases s.len(),
{
    if s.len() == 0 {
        Seq::empty()
    } else {
        let rest = spec_prune(s.drop_last(), hashes);
        if hashes.contains(s.last().0) {
            rest
        } else {
            rest.push(s.last())
        }
    }
}

/// The bounded in-memory set of admitted transactions.
pub struct Pool {
    pub package_limit: usize,
    pub txs: Vec<(Vec<u8>, RawTransaction)>,
}

impl Pool {
    /// The view of the pool's entries.
    pub open spec fn view(&self) -> Seq<(Seq<u8>, RawTransactionV)> {
        pool_view(self.txs@)
    }

    /// Hashes in the pool are unique.
    pub open spec fn wf(&self) -> bool {
        forall|i: int, j: int|
            0 <= i < j < self.view().len() ==> (#[trigger] self.view()[i]).0 != (
            #[trigger] self.view()[j]).0
    }

    /// An empty pool that will hold at most `package_limit` transactions.
    pub fn new(package_limit: usize) -> (r: Pool)
        ensures
            r.wf(),
            r.view().len() == 0,
            r.package_limit == package_limit,
    {
        Pool { package_limit, txs: Vec::new() }
    }

    /// The number of pooled transactions.
    pub fn len(&self) -> (r: usize)
        ensures
            r == self.view().len(),
    {
        self.txs.len()
    }

    /// Inserts the transaction under its hash. `true` comes back exactly
    /// when the hash is new and the pool is under its bound; otherwise the
    /// pool is unchanged.
    pub fn enqueue(&mut self, raw_tx: RawTransaction, tx_hash: Vec<u8>) -> (r: bool)
        requires
            old(self).wf(),
        ensures
            final(self).wf(),
            final(self).package_limit == old(self).package_limit,
            r == (!pool_has(old(self).view(), tx_hash@) && old(self).view().len() < old(
                self,
            ).package_limit),
            r ==> final(self).view() == old(self).view().push((tx_hash@, raw_tx@)),
            !r ==> final(self).view() == old(self).view(),
    {
        if self.txs.len() >= self.package_limit {
            return false;
        }
        if self.contains(&tx_hash) {
            return false;
        }
        self.txs.push((tx_hash, raw_tx));
        proof {
            assert(self.view() =~= old(self).view().push(
                (self.txs@.last().0@, self.txs@.last().1@),
            ));
        }
        true
    }

    /// True exactly when the pool holds `tx_hash`.
    pub fn contains(&self, tx_hash: &Vec<u8>) -> (r: bool)
        ensures
            r == pool_has(self.view(), tx_hash@),
    {
        let n = self.txs.len();
        let mut i: usize = 0;
        while i < n
            invariant
                n == self.txs@.len(),
                0 <= i <= n,
                forall|k: int| 0 <= k < i ==> (#[trigger] self.view()[k]).0 != tx_hash@,
            decreases n - i,
        {
            if bytes_eq(&self.txs[i].0, tx_hash) {
                proof {
                    assert(self.view()[i as int].0 == tx_hash@);
                }
                return true;
            }
            proof {
                assert(self.view()[i as int].0 == self.txs@[i as int].0@);
            }
            i += 1;
        }
        false
    }

    /// A copy of the pooled transaction under `tx_hash`, if any.
    pub fn pool_get_tx(&self, tx_hash: &Vec<u8>) -> (r: Option<RawTransaction>)
        ensures
            match r {
                Some(t) => exists|i: int|
                    0 <= i < self.view().len() && (#[trigger] self.view()[i]) == (tx_hash@, t@),
                None => !pool_has(self.view(), tx_hash@),
            },
    {
        let n = self.txs.len();
        let mut i: usize = 0;
        while i < n
            invariant
                n == self.txs@.len(),
                0 <= i <= n,
                forall|k: int| 0 <= k < i ==> (#[trigger] self.view()[k]).0 != tx_hash@,
            decreases n - i,
        {
            if bytes_eq(&self.txs[i].0, tx_hash) {
                let t = copy_raw_transaction(&self.txs[i].1);
                proof {
                    assert(self.view()[i as int] == (tx_hash@, t@));
                }
                return Some(t);
            }
            proof {
                assert(self.view()[i as int].0 == self.txs@[i as int].0@);
            }
            i += 1;
        }
        None
    }

    /// The hashes and transactions a proposal at `next_height` packages:
    /// every pooled transaction still valid past that height, in insertion
    /// order.
    pub fn package(&self, next_height: u64) -> (r: (Vec<Vec<u8>>, Vec<RawTransaction>))
        ensures
            ({
                let kept = spec_package(self.view(), next_height);
                &&& r.0@.len() == kept.len()
                &&& r.1@.len() == kept.len()
                &&& forall|j: int|
                    0 <= j < kept.len() ==> (#[trigger] r.0@[j])@ == kept[j].0 && r.1@[j]@
                        == kept[j].1
            }),
    {
        let mut hashes: Vec<Vec<u8>> = Vec::new();
        let mut txs: Vec<RawTransaction> = Vec::new();
        let n = self.txs.len();
        let mut i: usize = 0;
        proof {
            assert(self.view().take(0) =~= Seq::<(Seq<u8>, RawTransactionV)>::empty());
        }
        while i < n
            invariant
                n == self.txs@.len(),
                0 <= i <= n,
                hashes@.len() == spec_package(self.view().take(i as int), next_height).len(),
                txs@.len() == hashes@.len(),
                forall|j: int|
                    0 <= j < hashes@.len() ==> (#[trigger] hashes@[j])@ == spec_package(
                        self.view().take(i as int),
                        next_height,
                    )[j].0 && txs@[j]@ == spec_package(
                        self.view().take(i as int),
                        next_height,
                    )[j].1,
            decreases n - i,
        {
            let keep = match &self.txs[i].1.tx {
                Some(crate::types::Tx::NormalTx(t)) => match &t.transaction {
                    Some(b) => b.valid_until_block > next_height,
                    None => false,
                },
                Some(crate::types::Tx::UtxoTx(u)) => u.transaction.is_some(),
                None => false,
            };
            proof {
                assert(self.view().take(i as int + 1).drop_last() =~= self.view().take(i as int));
                assert(self.view().take(i as int + 1).last() == self.view()[i as int]);
                assert(self.view()[i as int] == (self.txs@[i as int].0@, self.txs@[i as int].1@));
                assert(keep == spec_package_keep(self.view()[i as int].1, next_height));
            }
            if keep {
                hashes.push(copy_bytes(&self.txs[i].0));
                txs.push(copy_raw_transaction(&self.txs[i].1));
            }
            i += 1;
        }
        proof {
            assert(self.view().take(n as int) =~= self.view());
        }
        (hashes, txs)
    }

    /// Removes every transaction whose hash is in `tx_hash_list`; the rest
    /// keep their order. Called once per finalized block.
    pub fn update(&mut self, tx_hash_list: &Vec<Vec<u8>>)
        requires
            old(self).wf(),
        ensures
            final(self).wf(),
            final(self).package_limit == old(self).package_limit,
            final(self).view() == spec_prune(
                old(self).view(),
                crate::types::bytes_view(tx_hash_list@),
            ),
    {
        let ghost hv = crate::types::bytes_view(tx_hash_list@);
        let mut kept: Vec<(Vec<u8>, RawTransaction)> = Vec::new();
        let n = self.txs.len();
        let mut i: usize = 0;
        proof {
            assert(self.view().take(0) =~= Seq::<(Seq<u8>, RawTransactionV)>::empty());
        }
        while i < n
            invariant
                n == self.txs@.len(),
                0 <= i <= n,
                hv == crate::types::bytes_view(tx_hash_list@),
                pool_view(kept@) == spec_prune(self.view().take(i as int), hv),
            decreases n - i,
        {
            let drop = crate::util::contains_hash(tx_hash_list, &self.txs[i].0);
            proof {
                assert(self.view().take(i as int + 1).drop_last() =~= self.view().take(i as int));
                assert(self.view().take(i as int + 1).last() == self.view()[i as int]);
                assert(self.view()[i as int] == (self.txs@[i as int].0@, self.txs@[i as int].1@));
            }
            if !drop {
                let h = copy_bytes(&self.txs[i].0);
                let t = copy_raw_transaction(&self.txs[i].1);
                kept.push((h, t));
                proof {
                    assert(pool_view(kept@) =~= spec_prune(
                        self.view().take(i as int + 1),
                        hv,
                    ));
                }
            }
            i += 1;
        }
        proof {
            assert(self.view().take(n as int) =~= self.view());
        }
        self.txs = kept;
        proof {
            lemma_prune_keeps_uniqueness(old(self).view(), hv);
        }
    }
}

/// Pruning keeps every surviving entry an entry of the original, order and
/// uniqueness included.
pub proof fn lemma_prune_keeps_uniqueness(
    s: Seq<(Seq<u8>, RawTransactionV)>,
    hashes: Seq<Seq<u8>>,
)
    ensures
        forall|j: int|
            0 <= j < spec_prune(s, hashes).len() ==> s.contains(
                #[trigger] spec_prune(s, hashes)[j],
            ),
        (forall|i: int, j: int| 0 <= i < j < s.len() ==> (#[trigger] s[i]).0 != (
        #[trigger] s[j]).0) ==> (forall|i: int, j: int|
            0 <= i < j < spec_prune(s, hashes).len() ==> (#[trigger] spec_prune(s, hashes)[i]).0
                != (#[trigger] spec_prune(s, hashes)[j]).0),
    decreases s.len(),
{
    if s.len() == 0 {
    } else {
        lemma_prune_subseq(s, hashes);
    }
}

/// The pruned sequence is a subsequence: there is a strictly increasing map
/// from its indices into the original.
pub proof fn lemma_prune_subseq(s: Seq<(Seq<u8>, RawTransactionV)>, hashes: Seq<Seq<u8>>)
    ensures
        spec_prune(s, hashes).len() <= s.len(),
        forall|j: int|
            #![trigger spec_prune(s, hashes)[j]]
            0 <= j < spec_prune(s, hashes).len() ==> exists|i: int|
                #![trigger s[i]]
                0 <= i < s.len() && s[i] == spec_prune(s, hashes)[j] && j <= i,
        forall|i: int, j: int|
            #![trigger spec_prune(s, hashes)[i], spec_prune(s, hashes)[j]]
            0 <= i < j < spec_prune(s, hashes).len() ==> exists|a: int, b: int|
                #![trigger s[a], s[b]]
                0 <= a < b < s.len() && s[a] == spec_prune(s, hashes)[i] && s[b] == spec_prune(
                    s,
                    hashes,
                )[j],
        forall|j: int|
            0 <= j < spec_prune(s, hashes).len() ==> s.contains(
                #[trigger] spec_prune(s, hashes)[j],
            ),
    decreases s.len(),
{
    if s.len() == 0 {
    } else {
        let rest = spec_prune(s.drop_last(), hashes);
        lemma_prune_subseq(s.drop_last(), hashes);
        assert forall|j: int| #![trigger rest[j]] 0 <= j < rest.len() implies exists|i: int|
            #![trigger s[i]]
            0 <= i < s.len() && s[i] == rest[j] && j <= i by {
            let i = choose|i: int|
                #![trigger s.drop_last()[i]]
                0 <= i < s.drop_last().len() && s.drop_last()[i] == rest[j] && j <= i;
            assert(s[i] == rest[j]);
        }
        if !hashes.contains(s.last().0) {
            let pruned = spec_prune(s, hashes);
            assert(pruned == rest.push(s.last()));
            assert forall|j: int|
                #![trigger pruned[j]]
                0 <= j < pruned.len() implies exists|i: int|
                #![trigger s[i]]
                0 <= i < s.len() && s[i] == pruned[j] && j <= i by {
                if j < rest.len() {
                    let i = choose|i: int|
                        #![trigger s.drop_last()[i]]
                        0 <= i < s.drop_last().len() && s.drop_last()[i] == rest[j] && j <= i;
                    assert(s[i] == pruned[j]);
                } else {
                    assert(pruned[j] == s.last());
                    assert(s[s.len() - 1] == pruned[j]);
                }
            }
        }
        assert forall|i: int, j: int|
            #![trigger spec_prune(s, hashes)[i], spec_prune(s, hashes)[j]]
            0 <= i < j < spec_prune(s, hashes).len() implies exists|
            a: int,
            b: int,
        |
            #![trigger s[a], s[b]]
            0 <= a < b < s.len() && s[a] == spec_prune(s, hashes)[i] && s[b] == spec_prune(
                s,
                hashes,
            )[j] by {
            let pruned = spec_prune(s, hashes);
            if j < rest.len() {
                let (a, b) = choose|a: int, b: int|
                    #![trigger s.drop_last()[a], s.drop_last()[b]]
                    0 <= a < b < s.drop_last().len() && s.drop_last()[a] == rest[i] && s
                        .drop_last()[b] == rest[j];
                assert(s[a] == pruned[i] && s[b] == pruned[j]);
            } else {
                let a = choose|a: int|
                    #![trigger s.drop_last()[a]]
                    0 <= a < s.drop_last().len() && s.drop_last()[a] == rest[i] && i <= a;
                assert(pruned[j] == s.last());
                assert(s[a] == pruned[i] && s[s.len() - 1] == pruned[j]);
            }
        }
        assert forall|j: int| 0 <= j < spec_prune(s, hashes).len() implies s.contains(
            #[trigger] spec_prune(s, hashes)[j],
        ) by {
            let i = choose|i: int|
                #![trigger s[i]]
                0 <= i < s.len() && s[i] == spec_prune(s, hashes)[j] && j <= i;
            assert(s[i] == spec_prune(s, hashes)[j]);
        }
    }
}

} // verus!
