//! The chained system configuration: six parameter slots, each advanced only
//! by a utxo transaction whose `pre_tx_hash` names the slot's current head.

use vstd::prelude::*;

use crate::codec::spec_u32_from_be;
use crate::types::{bytes_view, UnverifiedUtxoTransaction, UnverifiedUtxoTransactionV};
use crate::util::{bytes_eq, copy_bytes, copy_bytes_list};

verus! {

/// Slot of the protocol version.
pub const LOCK_ID_VERSION: u64 = 1000;

/// Slot of the chain identifier.
pub const LOCK_ID_CHAIN_ID: u64 = 1001;

/// Slot of the admin address.
pub const LOCK_ID_ADMIN: u64 = 1002;

/// Slot of the block interval, in seconds.
pub const LOCK_ID_BLOCK_INTERVAL: u64 = 1003;

/// Slot of the validator set.
pub const LOCK_ID_VALIDATORS: u64 = 1004;

/// Slot of the emergency brake.
pub const LOCK_ID_EMERGENCY_BRAKE: u64 = 1005;

/// One past the last slot.
pub const LOCK_ID_BUTTON: u64 = 1006;

/// The number of slots.
pub const UTXO_SLOTS: u64 = 6;

/// The mutable chain-wide parameters, with one head hash per slot.
#[derive(Debug, Clone, PartialEq, Eq)]
pub struct SystemConfig {
    pub version: u32,
    pub chain_id: Vec<u8>,
    pub admin: Vec<u8>,
    pub block_interval: u32,
    pub validators: Vec<Vec<u8>>,
    pub emergency_brake: bool,
    /// Head transaction hash of each slot, indexed by `lock_id - LOCK_ID_VERSION`.
    pub utxo_tx_hashes: Vec<Vec<u8>>,
}

#[verifier::ext_equal]
pub ghost struct SystemConfigV {
    pub version: u32,
    pub chain_id: Seq<u8>,
    pub admin: Seq<u8>,
    pub block_interval: u32,
    pub validators: Seq<Seq<u8>>,
    pub emergency_brake: bool,
    pub utxo_tx_hashes: Seq<Seq<u8>>,
}

impl View for SystemConfig {
    type V = SystemConfigV;

    open spec fn view(&self) -> SystemConfigV {
        SystemConfigV {
            version: self.version,
            chain_id: self.chain_id@,
            admin: self.admin@,
            block_interval: self.block_interval,
            validators: bytes_view(self.validators@),
            emergency_brake: self.emergency_brake,
            utxo_tx_hashes: bytes_view(self.utxo_tx_hashes@),
        }
    }
}

/// The 32-zero-byte hash that seeds every slot.
pub open spec fn spec_zero32() -> Seq<u8> {
    Seq::new(32, |i: int| 0u8)
}

/// True of every lock id that selects a slot.
pub open spec fn spec_valid_lock_id(lock_id: u64) -> bool {
    LOCK_ID_VERSION <= lock_id < LOCK_ID_BUTTON
}

/// The 20-byte pieces of a concatenation of addresses.
pub open spec fn spec_chunks20(s: Seq<u8>) -> Seq<Seq<u8>> {
    Seq::new((s.len() / 20) as nat, |k: int| s.subrange(20 * k, 20 * k + 20))
}

/// True of a payload that the slot accepts: a u32 for the version and the
/// block interval, the fixed widths for chain id and admin, whole addresses
/// for the validator set, anything for the brake.
pub open spec fn spec_payload_ok(lock_id: u64, output: Seq<u8>) -> bool {
    if lock_id == LOCK_ID_VERSION {
        output.len() == 4
    } else if lock_id == LOCK_ID_CHAIN_ID {
        output.len() == 32
    } else if lock_id == LOCK_ID_ADMIN {
        output.len() == 20
    } else if lock_id == LOCK_ID_BLOCK_INTERVAL {
        output.len() == 4
    } else if lock_id == LOCK_ID_VALIDATORS {
        output.len() % 20 == 0
    } else {
        true
    }
}

/// True when the configuration accepts the utxo transaction: a body is
/// present, the lock id selects a slot, the chained hash names the slot's
/// current head, and the payload fits the slot.
pub open spec fn spec_update_ok(c: SystemConfigV, t: UnverifiedUtxoTransactionV) -> bool {
    match t.transaction {
        Some(inner) => {
            &&& spec_valid_lock_id(inner.lock_id)
            &&& inner.pre_tx_hash == c.utxo_tx_hashes[inner.lock_id - LOCK_ID_VERSION]
            &&& spec_payload_ok(inner.lock_id, inner.output)
        },
        None => false,
    }
}

/// The configuration after an accepted utxo transaction: the selected slot's
/// payload is replaced and its head hash becomes the transaction's hash.
pub open spec fn spec_apply_utxo(c: SystemConfigV, t: UnverifiedUtxoTransactionV) -> SystemConfigV
    recommends
        spec_update_ok(c, t),
{
    let inner = t.transaction->Some_0;
    let heads = c.utxo_tx_hashes.update(
        inner.lock_id - LOCK_ID_VERSION,
        t.transaction_hash,
    );
    if inner.lock_id == LOCK_ID_VERSION {
        SystemConfigV { version: spec_u32_from_be(inner.output), utxo_tx_hashes: heads, ..c }
    } else if inner.lock_id == LOCK_ID_CHAIN_ID {
        SystemConfigV { chain_id: inner.output, utxo_tx_hashes: heads, ..c }
    } else if inner.lock_id == LOCK_ID_ADMIN {
        SystemConfigV { admin: inner.output, utxo_tx_hashes: heads, ..c }
    } else if inner.lock_id == LOCK_ID_BLOCK_INTERVAL {
        SystemConfigV {
            block_interval: spec_u32_from_be(inner.output),
            utxo_tx_hashes: heads,
            ..c
        }
    } else if inner.lock_id == LOCK_ID_VALIDATORS {
        SystemConfigV { validators: spec_chunks20(inner.output), utxo_tx_hashes: heads, ..c }
    } else {
        SystemConfigV { emergency_brake: inner.output.len() > 0, utxo_tx_hashes: heads, ..c }
    }
}

impl SystemConfig {
    /// One head hash per slot.
    pub open spec fn wf(&self) -> bool {
        self.utxo_tx_hashes@.len() == UTXO_SLOTS
    }

    /// A configuration whose slots all start at the 32-zero-byte genesis
    /// head.
    pub fn new(
        version: u32,
        chain_id: Vec<u8>,
        admin: Vec<u8>,
        block_interval: u32,
        validators: Vec<Vec<u8>>,
        emergency_brake: bool,
    ) -> (r: SystemConfig)
        ensures
            r.wf(),
            r@.version == version,
            r@.chain_id == chain_id@,
            r@.admin == admin@,
            r@.block_interval == block_interval,
            r@.validators == bytes_view(validators@),
            r@.emergency_brake == emergency_brake,
            forall|k: int| 0 <= k < UTXO_SLOTS ==> #[trigger] r@.utxo_tx_hashes[k] == spec_zero32(),
    {
        let mut heads: Vec<Vec<u8>> = Vec::new();
        let mut k: u64 = 0;
        while k < UTXO_SLOTS
            invariant
                0 <= k <= UTXO_SLOTS,
                heads@.len() == k,
                forall|j: int| 0 <= j < k ==> #[trigger] heads@[j]@ == spec_zero32(),
            decreases UTXO_SLOTS - k,
        {
            let mut zero: Vec<u8> = Vec::new();
            let mut b: usize = 0;
            while b < 32
                invariant
                    0 <= b <= 32,
                    zero@.len() == b,
                    forall|i: int| 0 <= i < b ==> zero@[i] == 0u8,
                decreases 32 - b,
            {
                zero.push(0u8);
                b += 1;
            }
            proof {
                assert(zero@ =~= spec_zero32());
            }
            heads.push(zero);
            k += 1;
        }
        SystemConfig {
            version,
            chain_id,
            admin,
            block_interval,
            validators,
            emergency_brake,
            utxo_tx_hashes: heads,
        }
    }

    /// The head transaction hash of the slot, or `None` when `lock_id`
    /// selects no slot.
    pub fn head_tx_hash(&self, lock_id: u64) -> (r: Option<&Vec<u8>>)
        requires
            self.wf(),
        ensures
            match r {
                Some(h) => spec_valid_lock_id(lock_id) && h@ == self@.utxo_tx_hashes[lock_id
                    - LOCK_ID_VERSION],
                None => !spec_valid_lock_id(lock_id),
            },
    {
        if LOCK_ID_VERSION <= lock_id && lock_id < LOCK_ID_BUTTON {
            Some(&self.utxo_tx_hashes[(lock_id - LOCK_ID_VERSION) as usize])
        } else {
            None
        }
    }

    /// A copy of the whole configuration.
    pub fn get(&self) -> (r: SystemConfig)
        ensures
            r@ == self@,
            r.wf() == self.wf(),
    {
        let r = SystemConfig {
            version: self.version,
            chain_id: copy_bytes(&self.chain_id),
            admin: copy_bytes(&self.admin),
            block_interval: self.block_interval,
            validators: copy_bytes_list(&self.validators),
            emergency_brake: self.emergency_brake,
            utxo_tx_hashes: copy_bytes_list(&self.utxo_tx_hashes),
        };
        proof {
            assert(r@ =~= self@);
        }
        r
    }

    /// Applies a utxo transaction. The slot advances and `true` comes back
    /// exactly when the transaction chains onto the slot's current head with
    /// an acceptable payload; otherwise nothing changes. With `strict` the
    /// caller asserts the record replays cleanly, as at startup.
    pub fn update(&mut self, utxo_tx: &UnverifiedUtxoTransaction, strict: bool) -> (r: bool)
        requires
            old(self).wf(),
            strict ==> spec_update_ok(old(self)@, utxo_tx@),
        ensures
            final(self).wf(),
            r == spec_update_ok(old(self)@, utxo_tx@),
            r ==> final(self)@ == spec_apply_utxo(old(self)@, utxo_tx@),
            !r ==> final(self)@ == old(self)@,
    {
        let inner = match &utxo_tx.transaction {
            Some(inner) => inner,
            None => {
                return false;
            },
        };
        let lock_id = inner.lock_id;
        if lock_id < LOCK_ID_VERSION || lock_id >= LOCK_ID_BUTTON {
            return false;
        }
        let slot = (lock_id - LOCK_ID_VERSION) as usize;
        if !bytes_eq(&inner.pre_tx_hash, &self.utxo_tx_hashes[slot]) {
            return false;
        }
        let output = &inner.output;
        if lock_id == LOCK_ID_VERSION {
            if output.len() != 4 {
                return false;
            }
            self.version = u32_from_be_vec(output);
        } else if lock_id == LOCK_ID_CHAIN_ID {
            if output.len() != 32 {
                return false;
            }
            self.chain_id = copy_bytes(output);
        } else if lock_id == LOCK_ID_ADMIN {
            if output.len() != 20 {
                return false;
            }
            self.admin = copy_bytes(output);
        } else if lock_id == LOCK_ID_BLOCK_INTERVAL {
            if output.len() != 4 {
                return false;
            }
            self.block_interval = u32_from_be_vec(output);
        } else if lock_id == LOCK_ID_VALIDATORS {
            if output.len() % 20 != 0 {
                return false;
            }
            self.validators = chunks20(output);
        } else {
            self.emergency_brake = output.len() > 0;
        }
        let head = copy_bytes(&utxo_tx.transaction_hash);
        self.utxo_tx_hashes.set(slot, head);
        proof {
            assert(bytes_view(self.utxo_tx_hashes@) =~= old(self)@.utxo_tx_hashes.update(
                lock_id - LOCK_ID_VERSION,
                utxo_tx@.transaction_hash,
            ));
            assert(self@ =~= spec_apply_utxo(old(self)@, utxo_tx@));
        }
        true
    }
}

/// The u32 read from a four-byte big-endian vector.
pub fn u32_from_be_vec(v: &Vec<u8>) -> (r: u32)
    requires
        v@.len() == 4,
    ensures
        r == spec_u32_from_be(v@),
{
    ((v[0] as u32) << 24) | ((v[1] as u32) << 16) | ((v[2] as u32) << 8) | (v[3] as u32)
}

/// Splits a concatenation of 20-byte addresses into the addresses.
pub fn chunks20(s: &Vec<u8>) -> (r: Vec<Vec<u8>>)
    requires
        s@.len() % 20 == 0,
    ensures
        bytes_view(r@) == spec_chunks20(s@),
{
    let mut r: Vec<Vec<u8>> = Vec::new();
    let n = s.len() / 20;
    proof {
        assert(s@.len() == 20 * (s@.len() / 20) + s@.len() % 20);
    }
    let mut k: usize = 0;
    let mut pos: usize = 0;
    while k < n
        invariant
            s@.len() % 20 == 0,
            s@.len() <= usize::MAX,
            n == s@.len() / 20,
            20 * (n as int) == s@.len(),
            0 <= k <= n,
            pos == 20 * k,
            r@.len() == k,
            forall|j: int|
                0 <= j < k ==> #[trigger] r@[j]@ == s@.subrange(20 * j, 20 * j + 20),
        decreases n - k,
    {
        proof {
            assert(pos as int + 20 == 20 * ((k as int) + 1));
            assert(20 * ((k as int) + 1) <= 20 * (n as int));
        }
        let piece = vstd::slice::slice_to_vec(
            vstd::slice::slice_subrange(s.as_slice(), pos, pos + 20),
        );
        r.push(piece);
        pos += 20;
        k += 1;
    }
    proof {
        assert(bytes_view(r@) =~= spec_chunks20(s@));
    }
    r
}

} // verus!
