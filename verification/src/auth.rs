//! The authenticator: structural admission checks for transactions and the
//! bounded replay-prevention window over the last `BLOCKLIMIT` finalized
//! blocks. It owns the chained system configuration.
//!
//! Hashing and signature recovery belong to the key-management service;
//! callers pass its verdicts in, and the decision taken here is verified for
//! every possible verdict.

use vstd::prelude::*;

use crate::error::Error;
use crate::types::{
    bytes_view, CompactBlockBody, RawTransaction, RawTransactionV, Transaction, TransactionV, Tx,
    TxV, UnverifiedUtxoTransaction, WitnessV,
};
use crate::util::{bytes_eq, contains_hash, copy_bytes, copy_bytes_list};
use crate::utxo_set::{spec_apply_utxo, spec_update_ok, SystemConfig};
use crate::BLOCKLIMIT;

verus! {

/// The verdicts of the key-management service on one raw transaction:
/// whether the claimed hash matches the encoded body, and the address
/// recovered from each witness's signature. `None` stands for a service
/// failure.
pub struct KmsVerdict {
    pub hash_ok: Option<bool>,
    pub recovered: Vec<Option<Vec<u8>>>,
}

/// View of the recovered addresses.
pub open spec fn recovered_view(l: Seq<Option<Vec<u8>>>) -> Seq<Option<Seq<u8>>> {
    l.map_values(
        |o: Option<Vec<u8>>|
            match o {
                Some(a) => Some(a@),
                None => None,
            },
    )
}

/// Per-transaction validation and replay prevention.
pub struct Authentication {
    /// The transaction hashes of each block in the replay window, keyed by
    /// height; heights are unique.
    pub history_hashes: Vec<(u64, Vec<Vec<u8>>)>,
    pub current_block_number: u64,
    pub sys_config: SystemConfig,
}

/// True when some entry of the window list is keyed by `h`.
pub open spec fn has_h(s: Seq<(u64, Vec<Vec<u8>>)>, h: u64) -> bool {
    exists|i: int| 0 <= i < s.len() && (#[trigger] s[i]).0 == h
}

/// The hash list of the entry keyed by `h`.
pub open spec fn hashes_of(s: Seq<(u64, Vec<Vec<u8>>)>, h: u64) -> Seq<Seq<u8>>
    recommends
        has_h(s, h),
{
    let i = choose|i: int| 0 <= i < s.len() && (#[trigger] s[i]).0 == h;
    bytes_view(s[i].1@)
}

/// True when the keys of the window list are unique.
pub open spec fn unique_heights(s: Seq<(u64, Vec<Vec<u8>>)>) -> bool {
    forall|i: int, j: int| 0 <= i < j < s.len() ==> (#[trigger] s[i]).0 != (#[trigger] s[j]).0
}

/// With unique keys, any entry keyed by `h` gives the hash list of `h`.
pub proof fn lemma_hashes_of_at(s: Seq<(u64, Vec<Vec<u8>>)>, h: u64, i: int)
    requires
        unique_heights(s),
        0 <= i < s.len(),
        s[i].0 == h,
    ensures
        hashes_of(s, h) == bytes_view(s[i].1@),
{
    let j = choose|j: int| 0 <= j < s.len() && (#[trigger] s[j]).0 == h;
    if i < j {
        assert(s[i].0 != s[j].0);
    } else if j < i {
        assert(s[j].0 != s[i].0);
    }
}

impl Authentication {
    /// Heights in the window are unique and the configuration is well
    /// formed.
    pub open spec fn wf(&self) -> bool {
        &&& unique_heights(self.history_hashes@)
        &&& self.sys_config.wf()
    }

    /// The finalized height the window is current for.
    pub open spec fn spec_current_block_number(&self) -> u64 {
        self.current_block_number
    }

    /// The system configuration as the authenticator holds it.
    pub open spec fn spec_sys_config(&self) -> crate::utxo_set::SystemConfigV {
        self.sys_config@
    }

    /// True when the window holds an entry for height `h`.
    pub open spec fn has_height(&self, h: u64) -> bool {
        has_h(self.history_hashes@, h)
    }

    /// The hashes recorded for height `h`.
    pub open spec fn hashes_at(&self, h: u64) -> Seq<Seq<u8>>
        recommends
            self.has_height(h),
    {
        hashes_of(self.history_hashes@, h)
    }

    /// True when some block of the window contains `hash`.
    pub open spec fn window_contains(&self, hash: Seq<u8>) -> bool {
        exists|i: int, j: int|
            0 <= i < self.history_hashes@.len() && 0 <= j < self.history_hashes@[i].1@.len()
                && self.history_hashes@[i].1@[j]@ == hash
    }

    /// A fresh authenticator around the given configuration, with an empty
    /// window.
    pub fn new(sys_config: SystemConfig) -> (r: Authentication)
        requires
            sys_config.wf(),
        ensures
            r.wf(),
            r.history_hashes@.len() == 0,
            r.spec_current_block_number() == 0,
            r.spec_sys_config() == sys_config@,
    {
        Authentication { history_hashes: Vec::new(), current_block_number: 0, sys_config }
    }

    /// A copy of the system configuration.
    pub fn get_system_config(&self) -> (r: SystemConfig)
        ensures
            r@ == self.spec_sys_config(),
            r.wf() == self.sys_config.wf(),
    {
        self.sys_config.get()
    }

    /// Applies a utxo transaction to the system configuration; the window is
    /// untouched. `true` comes back exactly when the transaction chains onto
    /// its slot's head with an acceptable payload.
    pub fn update_system_config(&mut self, utxo_tx: &UnverifiedUtxoTransaction) -> (r: bool)
        requires
            old(self).wf(),
        ensures
            final(self).wf(),
            r == spec_update_ok(old(self).spec_sys_config(), utxo_tx@),
            r ==> final(self).spec_sys_config() == spec_apply_utxo(
                old(self).spec_sys_config(),
                utxo_tx@,
            ),
            !r ==> final(self).spec_sys_config() == old(self).spec_sys_config(),
            final(self).history_hashes@ == old(self).history_hashes@,
            final(self).spec_current_block_number() == old(self).spec_current_block_number(),
    {
        self.sys_config.update(utxo_tx, false)
    }

    /// Records the hashes of the block finalized at height `h`, evicts the
    /// entry that falls out of the window, and advances the current height.
    pub fn insert_tx_hash(&mut self, h: u64, hash_list: Vec<Vec<u8>>)
        requires
            old(self).wf(),
        ensures
            final(self).wf(),
            final(self).spec_sys_config() == old(self).spec_sys_config(),
            final(self).spec_current_block_number() == (if h
                > old(self).spec_current_block_number() {
                h
            } else {
                old(self).spec_current_block_number()
            }),
            forall|h2: u64|
                final(self).has_height(h2) <==> (h2 == h || (old(self).has_height(h2) && !(h
                    >= BLOCKLIMIT && h2 == h - BLOCKLIMIT))),
            final(self).hashes_at(h) == bytes_view(hash_list@),
            forall|h2: u64|
                h2 != h && final(self).has_height(h2) ==> final(self).hashes_at(h2) == old(
                    self,
                ).hashes_at(h2),
    {
        let ghost pre = self.history_hashes@;
        remove_entry(&mut self.history_hashes, h);
        let ghost removed = self.history_hashes@;
        let copy = copy_bytes_list(&hash_list);
        self.history_hashes.push((h, copy));
        let ghost pushed = self.history_hashes@;
        proof {
            assert forall|h2: u64| has_h(pushed, h2) implies (h2 == h || has_h(removed, h2)) by {
                if h2 != h {
                    let i = choose|i: int|
                        0 <= i < pushed.len() && (#[trigger] pushed[i]).0 == h2;
                    assert(removed[i].0 == h2);
                }
            }
            assert forall|h2: u64| (h2 == h || has_h(removed, h2)) implies has_h(
                pushed,
                h2,
            ) by {
                if h2 == h {
                    assert(pushed[pushed.len() - 1].0 == h);
                } else {
                    let i = choose|i: int|
                        0 <= i < removed.len() && (#[trigger] removed[i]).0 == h2;
                    assert(pushed[i].0 == h2);
                }
            }
            assert(unique_heights(pushed)) by {
                assert forall|i: int, j: int| 0 <= i < j < pushed.len() implies (
                #[trigger] pushed[i]).0 != (#[trigger] pushed[j]).0 by {
                    if j == pushed.len() - 1 {
                        assert(removed[i].0 == pushed[i].0);
                        assert(!has_h(removed, h));
                    }
                }
            }
            lemma_hashes_of_at(pushed, h, pushed.len() - 1);
            assert forall|h2: u64| h2 != h && has_h(pushed, h2) implies hashes_of(pushed, h2)
                == hashes_of(removed, h2) by {
                let i = choose|i: int|
                    0 <= i < removed.len() && (#[trigger] removed[i]).0 == h2;
                lemma_hashes_of_at(removed, h2, i);
                lemma_hashes_of_at(pushed, h2, i);
            }
        }
        if h >= BLOCKLIMIT {
            remove_entry(&mut self.history_hashes, h - BLOCKLIMIT);
            proof {
                assert(h != h - BLOCKLIMIT || BLOCKLIMIT == 0);
                lemma_hashes_of_at(
                    self.history_hashes@,
                    h,
                    choose|i: int|
                        0 <= i < self.history_hashes@.len() && (
                        #[trigger] self.history_hashes@[i]).0 == h,
                );
            }
        }
        if h > self.current_block_number {
            self.current_block_number = h;
        }
    }

    /// Rejects a transaction hash that some block of the window already
    /// contains.
    pub fn check_tx_hash(&self, tx_hash: &Vec<u8>) -> (r: Result<(), Error>)
        ensures
            r is Ok <==> !self.window_contains(tx_hash@),
            r is Err ==> r == Result::<(), Error>::Err(Error::DuplicateTx),
    {
        let n = self.history_hashes.len();
        let mut i: usize = 0;
        while i < n
            invariant
                n == self.history_hashes@.len(),
                0 <= i <= n,
                forall|k: int, j: int|
                    0 <= k < i && 0 <= j < (#[trigger] self.history_hashes@[k]).1@.len()
                        ==> (#[trigger] self.history_hashes@[k].1@[j])@ != tx_hash@,
            decreases n - i,
        {
            if contains_hash(&self.history_hashes[i].1, tx_hash) {
                proof {
                    let j = choose|j: int|
                        0 <= j < bytes_view(self.history_hashes@[i as int].1@).len() && bytes_view(
                            self.history_hashes@[i as int].1@,
                        )[j] == tx_hash@;
                    assert(self.history_hashes@[i as int].1@[j]@ == tx_hash@);
                }
                return Err(Error::DuplicateTx);
            }
            proof {
                let entry = self.history_hashes@[i as int].1@;
                assert forall|j: int| 0 <= j < entry.len() implies (entry[j])@ != tx_hash@ by {
                    assert(bytes_view(entry)[j] == entry[j]@);
                }
            }
            i += 1;
        }
        Ok(())
    }
}

impl Authentication {
    /// Structural checks on a normal transaction body, against the live
    /// configuration and the current height.
    pub fn check_transaction(&self, tx: &Transaction) -> (r: Result<(), Error>)
        ensures
            r == spec_check_transaction(
                self.spec_sys_config().chain_id,
                self.spec_current_block_number(),
                tx@,
            ),
    {
        if tx.version != 0 {
            return Err(Error::InvalidVersion);
        }
        if tx.nonce.len() > 128 {
            return Err(Error::InvalidNonce);
        }
        if tx.valid_until_block <= self.current_block_number || (tx.valid_until_block as u128)
            > (self.current_block_number as u128) + (BLOCKLIMIT as u128) {
            return Err(Error::InvalidValidUntil);
        }
        if tx.value.len() != 32 {
            return Err(Error::InvalidValue);
        }
        if tx.chain_id.len() != 32 || !bytes_eq(&tx.chain_id, &self.sys_config.chain_id) {
            return Err(Error::InvalidChainId);
        }
        Ok(())
    }

    /// The decision the authenticator takes on a raw transaction, given the
    /// key-management verdicts.
    pub open spec fn spec_check_raw_tx(
        &self,
        raw: RawTransactionV,
        hash_ok: Option<bool>,
        rec: Seq<Option<Seq<u8>>>,
    ) -> Result<Seq<u8>, Error> {
        match raw.tx {
            None => Err(Error::EmptyBody),
            Some(TxV::NormalTx(t)) => {
                if t.witness is None {
                    Err(Error::EmptyWitness)
                } else {
                    match t.transaction {
                        None => Err(Error::EmptyBody),
                        Some(body) => match spec_check_transaction(
                            self.spec_sys_config().chain_id,
                            self.spec_current_block_number(),
                            body,
                        ) {
                            Err(e) => Err(e),
                            Ok(_) => {
                                if self.window_contains(t.transaction_hash) {
                                    Err(Error::DuplicateTx)
                                } else {
                                    match hash_ok {
                                        None => Err(Error::KmsUnavailable),
                                        Some(false) => Err(Error::InvalidHash),
                                        Some(true) => {
                                            if rec.len() == 0 || rec[0] is None {
                                                Err(Error::KmsUnavailable)
                                            } else if rec[0]->Some_0 != t.witness->Some_0.sender {
                                                Err(Error::InvalidSender)
                                            } else {
                                                Ok(t.transaction_hash)
                                            }
                                        },
                                    }
                                }
                            },
                        },
                    }
                }
            },
            Some(TxV::UtxoTx(t)) => match t.transaction {
                None => Err(Error::EmptyBody),
                Some(_) => match hash_ok {
                    None => Err(Error::KmsUnavailable),
                    Some(false) => Err(Error::InvalidHash),
                    Some(true) => match spec_check_witnesses(t.witnesses, rec) {
                        Err(e) => Err(e),
                        Ok(_) => Ok(t.transaction_hash),
                    },
                },
            },
        }
    }

    /// The full admission check. The caller supplies the key-management
    /// verdicts: whether the claimed hash matches the encoded body, and the
    /// address recovered from each witness. The result is exactly the
    /// decision of [`Self::spec_check_raw_tx`]; an accepted normal
    /// transaction is never one the replay window already holds.
    pub fn check_raw_tx(&self, raw_tx: &RawTransaction, verdict: &KmsVerdict) -> (r: Result<
        Vec<u8>,
        Error,
    >)
        ensures
            match r {
                Ok(h) => self.spec_check_raw_tx(
                    raw_tx@,
                    verdict.hash_ok,
                    recovered_view(verdict.recovered@),
                ) == Result::<Seq<u8>, Error>::Ok(h@),
                Err(e) => self.spec_check_raw_tx(
                    raw_tx@,
                    verdict.hash_ok,
                    recovered_view(verdict.recovered@),
                ) == Result::<Seq<u8>, Error>::Err(e),
            },
            (r is Ok && (raw_tx@.tx matches Some(TxV::NormalTx(_)))) ==> !self.window_contains(
                r->Ok_0@,
            ),
    {
        let ghost rec = recovered_view(verdict.recovered@);
        let tx = match &raw_tx.tx {
            Some(tx) => tx,
            None => {
                return Err(Error::EmptyBody);
            },
        };
        match tx {
            Tx::NormalTx(t) => {
                let witness = match &t.witness {
                    Some(w) => w,
                    None => {
                        return Err(Error::EmptyWitness);
                    },
                };
                let body = match &t.transaction {
                    Some(b) => b,
                    None => {
                        return Err(Error::EmptyBody);
                    },
                };
                match self.check_transaction(body) {
                    Err(e) => {
                        return Err(e);
                    },
                    Ok(_) => {},
                }
                match self.check_tx_hash(&t.transaction_hash) {
                    Err(e) => {
                        return Err(e);
                    },
                    Ok(_) => {},
                }
                match verdict.hash_ok {
                    None => Err(Error::KmsUnavailable),
                    Some(false) => Err(Error::InvalidHash),
                    Some(true) => {
                        if verdict.recovered.len() == 0 {
                            return Err(Error::KmsUnavailable);
                        }
                        match &verdict.recovered[0] {
                            None => Err(Error::KmsUnavailable),
                            Some(addr) => {
                                if !bytes_eq(addr, &witness.sender) {
                                    Err(Error::InvalidSender)
                                } else {
                                    Ok(copy_bytes(&t.transaction_hash))
                                }
                            },
                        }
                    },
                }
            },
            Tx::UtxoTx(t) => {
                match &t.transaction {
                    Some(_) => {},
                    None => {
                        return Err(Error::EmptyBody);
                    },
                }
                match verdict.hash_ok {
                    None => Err(Error::KmsUnavailable),
                    Some(false) => Err(Error::InvalidHash),
                    Some(true) => {
                        match check_witnesses(&t.witnesses, &verdict.recovered) {
                            Err(e) => Err(e),
                            Ok(_) => Ok(copy_bytes(&t.transaction_hash)),
                        }
                    },
                }
            },
        }
    }

    /// Backfills the window at startup from the stored bodies of the last
    /// `BLOCKLIMIT` blocks: `bodies[k]` is the compact body of height
    /// `spec_init_begin(init_block_number) + k`.
    pub fn init(&mut self, init_block_number: u64, bodies: &Vec<CompactBlockBody>)
        requires
            old(self).wf(),
            old(self).history_hashes@.len() == 0,
            bodies@.len() == spec_init_count(init_block_number),
        ensures
            final(self).wf(),
            final(self).spec_sys_config() == old(self).spec_sys_config(),
            final(self).spec_current_block_number() == init_block_number,
            forall|h2: u64|
                final(self).has_height(h2) <==> (init_block_number > 0 && spec_init_begin(
                    init_block_number,
                ) <= h2 <= init_block_number),
            forall|h2: u64|
                final(self).has_height(h2) ==> final(self).hashes_at(h2) == bodies@[h2
                    - spec_init_begin(init_block_number)]@.tx_hashes,
    {
        let begin: u64 = if init_block_number >= BLOCKLIMIT {
            init_block_number - BLOCKLIMIT + 1
        } else {
            1u64
        };
        let count = bodies.len();
        let mut k: usize = 0;
        while k < count
            invariant
                begin == spec_init_begin(init_block_number),
                count == bodies@.len(),
                count == spec_init_count(init_block_number),
                begin + count - 1 <= init_block_number <= u64::MAX,
                0 <= k <= count,
                self.history_hashes@.len() == k,
                self.sys_config == old(self).sys_config,
                self.current_block_number == old(self).current_block_number,
                forall|j: int|
                    0 <= j < k ==> (#[trigger] self.history_hashes@[j]).0 == begin + j,
                forall|j: int|
                    0 <= j < k ==> bytes_view((#[trigger] self.history_hashes@[j]).1@)
                        == bodies@[j]@.tx_hashes,
            decreases count - k,
        {
            let hashes = copy_bytes_list(&bodies[k].tx_hashes);
            self.history_hashes.push((begin + (k as u64), hashes));
            k += 1;
        }
        self.current_block_number = init_block_number;
        proof {
            assert(unique_heights(self.history_hashes@));
            assert forall|h2: u64| final(self).has_height(h2) implies (init_block_number > 0
                && spec_init_begin(init_block_number) <= h2 <= init_block_number) by {
                let i = choose|i: int|
                    0 <= i < self.history_hashes@.len() && (#[trigger] self.history_hashes@[i]).0
                        == h2;
                assert(h2 == begin + i);
            }
            assert forall|h2: u64| (init_block_number > 0 && spec_init_begin(init_block_number)
                <= h2 <= init_block_number) implies final(self).has_height(h2) by {
                assert(self.history_hashes@[h2 - begin].0 == h2);
            }
            assert forall|h2: u64| final(self).has_height(h2) implies final(self).hashes_at(h2)
                == bodies@[h2 - spec_init_begin(init_block_number)]@.tx_hashes by {
                lemma_hashes_of_at(self.history_hashes@, h2, h2 - begin);
            }
        }
    }
}

/// Structural validity of a normal transaction body: protocol version zero,
/// a bounded nonce, a lifetime within `(current, current + BLOCKLIMIT]`, a
/// 32-byte value, and the configured chain id.
pub open spec fn spec_check_transaction(
    cfg_chain_id: Seq<u8>,
    current: u64,
    t: TransactionV,
) -> Result<(), Error> {
    if t.version != 0 {
        Err(Error::InvalidVersion)
    } else if t.nonce.len() > 128 {
        Err(Error::InvalidNonce)
    } else if t.valid_until_block <= current || t.valid_until_block > current as int
        + BLOCKLIMIT as int {
        Err(Error::InvalidValidUntil)
    } else if t.value.len() != 32 {
        Err(Error::InvalidValue)
    } else if t.chain_id.len() != 32 || t.chain_id != cfg_chain_id {
        Err(Error::InvalidChainId)
    } else {
        Ok(())
    }
}

/// The verdict on a list of witnesses: a service failure on any of them
/// first, then a recovered address that differs from the declared sender,
/// else success.
pub open spec fn spec_check_witnesses(
    ws: Seq<WitnessV>,
    rec: Seq<Option<Seq<u8>>>,
) -> Result<(), Error>
    decreases ws.len(),
{
    if ws.len() == 0 {
        Ok(())
    } else if rec.len() == 0 || rec.first() is None {
        Err(Error::KmsUnavailable)
    } else if rec.first()->Some_0 != ws.first().sender {
        Err(Error::InvalidSender)
    } else {
        spec_check_witnesses(ws.drop_first(), rec.drop_first())
    }
}

/// First height of the window backfilled at startup for `init` (the backfill
/// starts at height 1: the genesis block carries no transactions).
pub open spec fn spec_init_begin(init: u64) -> u64 {
    if init >= BLOCKLIMIT {
        (init - BLOCKLIMIT + 1) as u64
    } else {
        1u64
    }
}

/// Number of blocks backfilled at startup for `init`.
pub open spec fn spec_init_count(init: u64) -> int {
    if init == 0 {
        0
    } else {
        init - spec_init_begin(init) + 1
    }
}

/// Compares each witness's declared sender with the recovered address.
fn check_witnesses(ws: &Vec<crate::types::Witness>, rec: &Vec<Option<Vec<u8>>>) -> (r: Result<
    (),
    Error,
>)
    ensures
        r == spec_check_witnesses(
            ws@.map_values(|w: crate::types::Witness| w@),
            recovered_view(rec@),
        ),
{
    let ghost wsv = ws@.map_values(|w: crate::types::Witness| w@);
    let ghost recv = recovered_view(rec@);
    let n = ws.len();
    let mut i: usize = 0;
    proof {
        assert(wsv.skip(0) =~= wsv);
        assert(recv.skip(0) =~= recv);
    }
    while i < n
        invariant
            n == ws@.len(),
            wsv == ws@.map_values(|w: crate::types::Witness| w@),
            recv == recovered_view(rec@),
            0 <= i <= n,
            i <= recv.len(),
            spec_check_witnesses(wsv, recv) == spec_check_witnesses(
                wsv.skip(i as int),
                recv.skip(i as int),
            ),
        decreases n - i,
    {
        proof {
            assert(wsv.skip(i as int).len() > 0);
            assert(wsv.skip(i as int).first() == wsv[i as int]);
        }
        if i >= rec.len() {
            proof {
                assert(recv.skip(i as int).len() == 0);
            }
            return Err(Error::KmsUnavailable);
        }
        proof {
            assert(recv.skip(i as int).first() == recv[i as int]);
            assert(wsv.skip(i as int).drop_first() =~= wsv.skip(i as int + 1));
            assert(recv.skip(i as int).drop_first() =~= recv.skip(i as int + 1));
        }
        match &rec[i] {
            None => {
                return Err(Error::KmsUnavailable);
            },
            Some(addr) => {
                if !bytes_eq(addr, &ws[i].sender) {
                    return Err(Error::InvalidSender);
                }
            },
        }
        i += 1;
    }
    proof {
        assert(wsv.skip(n as int).len() == 0);
    }
    Ok(())
}

/// What the window holds is exactly what its blocks hold: a hash is in
/// the window precisely when the hash list of some recorded height
/// contains it. With `window_exact`, the window after finalizing height
/// `h` therefore holds exactly the transaction hashes of the blocks in
/// `(h - BLOCKLIMIT, h]`.
pub proof fn lemma_window_contents(a: Authentication)
    requires
        a.wf(),
    ensures
        forall|hash: Seq<u8>|
            #[trigger] a.window_contains(hash) <==> exists|h2: u64|
                #[trigger] a.has_height(h2) && a.hashes_at(h2).contains(hash),
{
    assert forall|hash: Seq<u8>| #[trigger] a.window_contains(hash) implies exists|h2: u64|
        #[trigger] a.has_height(h2) && a.hashes_at(h2).contains(hash) by {
        let (i, j) = choose|i: int, j: int|
            0 <= i < a.history_hashes@.len() && 0 <= j < a.history_hashes@[i].1@.len()
                && a.history_hashes@[i].1@[j]@ == hash;
        let h2 = a.history_hashes@[i].0;
        lemma_hashes_of_at(a.history_hashes@, h2, i);
        assert(a.hashes_at(h2)[j] == hash);
        assert(a.has_height(h2) && a.hashes_at(h2).contains(hash));
    }
    assert forall|hash: Seq<u8>|
        (exists|h2: u64| #[trigger] a.has_height(h2) && a.hashes_at(h2).contains(
            hash,
        )) implies #[trigger] a.window_contains(hash) by {
        let h2 = choose|h2: u64| #[trigger] a.has_height(h2) && a.hashes_at(h2).contains(hash);
        let i = choose|i: int|
            0 <= i < a.history_hashes@.len() && (#[trigger] a.history_hashes@[i]).0 == h2;
        lemma_hashes_of_at(a.history_hashes@, h2, i);
        let j = choose|j: int|
            0 <= j < a.hashes_at(h2).len() && a.hashes_at(h2)[j] == hash;
        assert(a.history_hashes@[i].1@[j]@ == hash);
    }
}

/// The window is exact for height `h`: it holds exactly the heights in
/// `(h - BLOCKLIMIT, h]`, the genesis height included while it is in range.
pub open spec fn window_exact(a: Authentication, h: u64) -> bool {
    forall|h2: u64| a.has_height(h2) <==> (h2 <= h && h2 + BLOCKLIMIT as int > h)
}

/// The history-window bound: recording the next height keeps the window
/// exact. Together with the contract of `insert_tx_hash`, which pins the
/// hashes stored for each height, the window after finalizing height `h`
/// holds exactly the transaction hashes of the blocks in
/// `(h - BLOCKLIMIT, h]`.
pub proof fn lemma_window_advances(pre: Authentication, post: Authentication, h: u64)
    requires
        h >= 1,
        window_exact(pre, (h - 1) as u64),
        forall|h2: u64|
            post.has_height(h2) <==> (h2 == h || (pre.has_height(h2) && !(h >= BLOCKLIMIT && h2
                == h - BLOCKLIMIT))),
    ensures
        window_exact(post, h),
{
    assert forall|h2: u64| post.has_height(h2) implies (h2 <= h && h2 + BLOCKLIMIT as int
        > h) by {
        if h2 != h {
            assert(pre.has_height(h2));
        }
    }
    assert forall|h2: u64| (h2 <= h && h2 + BLOCKLIMIT as int > h) implies post.has_height(
        h2,
    ) by {
        if h2 != h {
            assert(h2 <= h - 1 && h2 + BLOCKLIMIT as int > h - 1);
            assert(pre.has_height(h2));
            assert(!(h >= BLOCKLIMIT && h2 == h - BLOCKLIMIT));
        }
    }
}

/// Removes the entry keyed by `h`, if one exists; everything else is kept,
/// in order.
fn remove_entry(list: &mut Vec<(u64, Vec<Vec<u8>>)>, h: u64)
    requires
        unique_heights(old(list)@),
    ensures
        unique_heights(final(list)@),
        !has_h(final(list)@, h),
        forall|h2: u64| h2 != h ==> (has_h(final(list)@, h2) <==> has_h(old(list)@, h2)),
        forall|h2: u64|
            h2 != h && has_h(old(list)@, h2) ==> hashes_of(final(list)@, h2) == hashes_of(
                old(list)@,
                h2,
            ),
        !has_h(old(list)@, h) ==> final(list)@ == old(list)@,
{
    let ghost pre = list@;
    let n = list.len();
    let mut i: usize = 0;
    while i < n
        invariant
            pre == old(list)@,
            n == pre.len(),
            0 <= i <= n,
            list@ == pre,
            forall|k: int| 0 <= k < i ==> (#[trigger] pre[k]).0 != h,
            unique_heights(pre),
        decreases n - i,
    {
        if list[i].0 == h {
            list.remove(i);
            proof {
                let post = list@;
                pre.remove_ensures(i as int);
                assert(post == pre.remove(i as int));
                assert forall|h2: u64| h2 != h implies (has_h(post, h2) <==> has_h(
                    pre,
                    h2,
                )) by {
                    if has_h(post, h2) {
                        let k = choose|k: int| 0 <= k < post.len() && (#[trigger] post[k]).0 == h2;
                        if k < i {
                            assert(pre[k].0 == h2);
                        } else {
                            assert(pre[k + 1].0 == h2);
                        }
                    }
                    if has_h(pre, h2) {
                        let k = choose|k: int| 0 <= k < pre.len() && (#[trigger] pre[k]).0 == h2;
                        if k < i {
                            assert(post[k].0 == h2);
                        } else {
                            assert(k != i);
                            assert(post[k - 1].0 == h2);
                        }
                    }
                }
                assert(!has_h(post, h)) by {
                    if has_h(post, h) {
                        let k = choose|k: int| 0 <= k < post.len() && (#[trigger] post[k]).0 == h;
                        if k < i {
                            assert(pre[k].0 == h);
                        } else {
                            assert(pre[k + 1].0 == h);
                        }
                    }
                }
                assert(unique_heights(post)) by {
                    assert forall|a: int, b: int| 0 <= a < b < post.len() implies (
                    #[trigger] post[a]).0 != (#[trigger] post[b]).0 by {
                        let a2: int = if a < i { a } else { a + 1 };
                        let b2: int = if b < i { b } else { b + 1 };
                        assert(post[a].0 == pre[a2].0);
                        assert(post[b].0 == pre[b2].0);
                    }
                }
                assert forall|h2: u64| h2 != h && has_h(pre, h2) implies hashes_of(post, h2)
                    == hashes_of(pre, h2) by {
                    let k = choose|k: int| 0 <= k < pre.len() && (#[trigger] pre[k]).0 == h2;
                    lemma_hashes_of_at(pre, h2, k);
                    if k < i {
                        assert(post[k].0 == h2 && post[k].1 == pre[k].1);
                        lemma_hashes_of_at(post, h2, k);
                    } else {
                        assert(k != i);
                        assert(post[k - 1].0 == h2 && post[k - 1].1 == pre[k].1);
                        lemma_hashes_of_at(post, h2, k - 1);
                    }
                }
            }
            return;
        }
        i += 1;
    }
}

} // verus!
