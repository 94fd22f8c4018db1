//! Byte-level helpers: comparison, deep copies, and hash-list membership.
//!
//! Deep copies exist because the contracts of this crate speak over views;
//! each helper's contract pins the view of the copy to the view of the
//! original.

use vstd::prelude::*;

use crate::types::{
    bytes_view, body_view, Block, BlockHeader, CompactBlockBody, RawTransaction, Transaction, Tx,
    UnverifiedTransaction, UnverifiedUtxoTransaction, UtxoTransaction, Witness,
};

verus! {

/// True exactly when the two byte strings hold the same bytes.
pub fn bytes_eq(a: &Vec<u8>, b: &Vec<u8>) -> (r: bool)
    ensures
        r <==> a@ == b@,
{
    if a.len() != b.len() {
        return false;
    }
    let n = a.len();
    let mut i: usize = 0;
    while i < n
        invariant
            n == a@.len(),
            n == b@.len(),
            0 <= i <= n,
            forall|j: int| 0 <= j < i ==> a@[j] == b@[j],
        decreases n - i,
    {
        if a[i] != b[i] {
            return false;
        }
        i += 1;
    }
    proof {
        assert(a@ =~= b@);
    }
    true
}

/// A fresh byte vector holding the same bytes.
pub fn copy_bytes(v: &Vec<u8>) -> (r: Vec<u8>)
    ensures
        r@ == v@,
{
    let r = v.clone();
    proof {
        assert(forall|i: int| 0 <= i < v@.len() ==> r@[i] == v@[i]);
        assert(r@ =~= v@);
    }
    r
}

/// A fresh list of byte vectors with the same contents.
pub fn copy_bytes_list(v: &Vec<Vec<u8>>) -> (r: Vec<Vec<u8>>)
    ensures
        bytes_view(r@) == bytes_view(v@),
        r@.len() == v@.len(),
{
    let mut r: Vec<Vec<u8>> = Vec::new();
    let n = v.len();
    let mut i: usize = 0;
    while i < n
        invariant
            n == v@.len(),
            0 <= i <= n,
            r@.len() == i,
            forall|j: int| 0 <= j < i ==> #[trigger] r@[j]@ == v@[j]@,
        decreases n - i,
    {
        r.push(copy_bytes(&v[i]));
        i += 1;
    }
    proof {
        assert(bytes_view(r@) =~= bytes_view(v@));
    }
    r
}

/// True exactly when `list` holds a byte string equal to `h`.
pub fn contains_hash(list: &Vec<Vec<u8>>, h: &Vec<u8>) -> (r: bool)
    ensures
        r <==> bytes_view(list@).contains(h@),
{
    let n = list.len();
    let mut i: usize = 0;
    while i < n
        invariant
            n == list@.len(),
            0 <= i <= n,
            forall|j: int| 0 <= j < i ==> #[trigger] list@[j]@ != h@,
        decreases n - i,
    {
        if bytes_eq(&list[i], h) {
            proof {
                assert(bytes_view(list@)[i as int] == h@);
            }
            return true;
        }
        i += 1;
    }
    proof {
        assert forall|j: int| 0 <= j < bytes_view(list@).len() implies bytes_view(list@)[j]
            != h@ by {
            assert(list@[j]@ != h@);
        }
    }
    false
}

/// A fresh witness with the same view.
pub fn copy_witness(w: &Witness) -> (r: Witness)
    ensures
        r@ == w@,
{
    Witness { sender: copy_bytes(&w.sender), signature: copy_bytes(&w.signature) }
}

/// A fresh transaction body with the same view.
pub fn copy_transaction(t: &Transaction) -> (r: Transaction)
    ensures
        r@ == t@,
{
    Transaction {
        version: t.version,
        to: copy_bytes(&t.to),
        nonce: copy_bytes(&t.nonce),
        quota: t.quota,
        valid_until_block: t.valid_until_block,
        data: copy_bytes(&t.data),
        value: copy_bytes(&t.value),
        chain_id: copy_bytes(&t.chain_id),
    }
}

/// A fresh utxo transaction body with the same view.
pub fn copy_utxo_transaction(t: &UtxoTransaction) -> (r: UtxoTransaction)
    ensures
        r@ == t@,
{
    UtxoTransaction {
        version: t.version,
        pre_tx_hash: copy_bytes(&t.pre_tx_hash),
        output: copy_bytes(&t.output),
        lock_id: t.lock_id,
    }
}

/// A fresh raw transaction with the same view.
pub fn copy_raw_transaction(t: &RawTransaction) -> (r: RawTransaction)
    ensures
        r@ == t@,
{
    match &t.tx {
        None => RawTransaction { tx: None },
        Some(Tx::NormalTx(n)) => {
            let inner = match &n.transaction {
                Some(tx) => Some(copy_transaction(tx)),
                None => None,
            };
            let w = match &n.witness {
                Some(w) => Some(copy_witness(w)),
                None => None,
            };
            RawTransaction {
                tx: Some(
                    Tx::NormalTx(
                        UnverifiedTransaction {
                            transaction: inner,
                            transaction_hash: copy_bytes(&n.transaction_hash),
                            witness: w,
                        },
                    ),
                ),
            }
        },
        Some(Tx::UtxoTx(u)) => {
            let inner = match &u.transaction {
                Some(tx) => Some(copy_utxo_transaction(tx)),
                None => None,
            };
            let mut ws: Vec<Witness> = Vec::new();
            let n = u.witnesses.len();
            let mut i: usize = 0;
            while i < n
                invariant
                    n == u.witnesses@.len(),
                    0 <= i <= n,
                    ws@.len() == i,
                    forall|j: int| 0 <= j < i ==> #[trigger] ws@[j]@ == u.witnesses@[j]@,
                decreases n - i,
            {
                ws.push(copy_witness(&u.witnesses[i]));
                i += 1;
            }
            proof {
                assert(ws@.map_values(|w: Witness| w@) =~= u.witnesses@.map_values(
                    |w: Witness| w@,
                ));
            }
            RawTransaction {
                tx: Some(
                    Tx::UtxoTx(
                        UnverifiedUtxoTransaction {
                            transaction: inner,
                            transaction_hash: copy_bytes(&u.transaction_hash),
                            witnesses: ws,
                        },
                    ),
                ),
            }
        },
    }
}

/// A fresh block body with the same view.
pub fn copy_body(body: &Vec<RawTransaction>) -> (r: Vec<RawTransaction>)
    ensures
        body_view(r@) == body_view(body@),
        r@.len() == body@.len(),
{
    let mut r: Vec<RawTransaction> = Vec::new();
    let n = body.len();
    let mut i: usize = 0;
    while i < n
        invariant
            n == body@.len(),
            0 <= i <= n,
            r@.len() == i,
            forall|j: int| 0 <= j < i ==> #[trigger] r@[j]@ == body@[j]@,
        decreases n - i,
    {
        r.push(copy_raw_transaction(&body[i]));
        i += 1;
    }
    proof {
        assert(body_view(r@) =~= body_view(body@));
    }
    r
}

/// A fresh header with the same view.
pub fn copy_header(h: &BlockHeader) -> (r: BlockHeader)
    ensures
        r@ == h@,
{
    BlockHeader {
        prevhash: copy_bytes(&h.prevhash),
        timestamp: h.timestamp,
        height: h.height,
        transactions_root: copy_bytes(&h.transactions_root),
        proposer: copy_bytes(&h.proposer),
    }
}

/// A fresh block with the same view.
pub fn copy_block(b: &Block) -> (r: Block)
    ensures
        r@ == b@,
{
    Block {
        version: b.version,
        header: copy_header(&b.header),
        body: copy_body(&b.body),
        proof: copy_bytes(&b.proof),
    }
}

/// A fresh compact body with the same view.
pub fn copy_compact_body(b: &CompactBlockBody) -> (r: CompactBlockBody)
    ensures
        r@ == b@,
{
    CompactBlockBody { tx_hashes: copy_bytes_list(&b.tx_hashes) }
}

} // verus!
