//! The controller facade: owns the chain (which owns the authenticator and
//! the pool) and exposes the operations the RPC surface, the consensus
//! engine, and the network handler call.
//!
//! Every operation that needs a collaborator service takes that service's
//! answer as an argument; the surrounding process performs the calls.

use vstd::prelude::*;

use crate::auth::{Authentication, KmsVerdict};
use crate::chain::{Chain, CommitResult, FinalizeOutcome, ProcessResult};
use crate::error::Error;
use crate::genesis::GenesisBlock;
use crate::pool::{pool_has, Pool};
use crate::types::{Block, CompactBlockBody, NetworkMsg, ProposalEnum, RawTransaction};
use crate::util::copy_bytes;
use crate::utxo_set::SystemConfig;

verus! {

/// Default bound of the transaction pool.
pub const DEFAULT_PACKAGE_LIMIT: usize = 500;

/// What a network message asks the node to do: admit a transaction heard
/// from a peer, take in a block while syncing, or nothing for an unknown
/// message type.
pub enum NetworkAction {
    GotRawTx(RawTransaction),
    GotBlock(Block),
    Ignored,
}

/// The message type tag of gossiped raw transactions.
pub open spec fn spec_raw_tx_tag() -> Seq<u8> {
    seq![114u8, 97u8, 119u8, 95u8, 116u8, 120u8]
}

/// The message type tag of synced blocks.
pub open spec fn spec_block_tag() -> Seq<u8> {
    seq![98u8, 108u8, 111u8, 99u8, 107u8]
}

/// The byte tag `raw_tx`.
pub fn raw_tx_tag() -> (r: Vec<u8>)
    ensures
        r@ == spec_raw_tx_tag(),
{
    let mut r: Vec<u8> = Vec::new();
    r.push(114u8);
    r.push(97u8);
    r.push(119u8);
    r.push(95u8);
    r.push(116u8);
    r.push(120u8);
    proof {
        assert(r@ =~= spec_raw_tx_tag());
    }
    r
}

/// The byte tag `block`.
pub fn block_tag() -> (r: Vec<u8>)
    ensures
        r@ == spec_block_tag(),
{
    let mut r: Vec<u8> = Vec::new();
    r.push(98u8);
    r.push(108u8);
    r.push(111u8);
    r.push(99u8);
    r.push(107u8);
    proof {
        assert(r@ =~= spec_block_tag());
    }
    r
}

/// The integration point of the node: admission, proposals, commits, and
/// network messages all pass through here.
pub struct Controller {
    pub chain: Chain,
}

impl Controller {
    /// The chain and everything it owns are well formed.
    pub open spec fn wf(&self) -> bool {
        self.chain.wf()
    }

    /// A controller at the given finalized head, around a fresh pool and
    /// an authenticator holding the given system configuration.
    pub fn new(
        block_delay_number: u32,
        current_block_number: u64,
        current_block_hash: Vec<u8>,
        sys_config: SystemConfig,
        genesis: GenesisBlock,
        key_id: u64,
        node_address: Vec<u8>,
    ) -> (r: Controller)
        requires
            sys_config.wf(),
            2 * (block_delay_number as int) + 2 <= usize::MAX,
        ensures
            r.wf(),
            r.chain.block_number == current_block_number,
            r.chain.block_hash@ == current_block_hash@,
            r.chain.block_delay_number == block_delay_number,
            r.chain.auth.spec_sys_config() == sys_config@,
            r.chain.auth.history_hashes@.len() == 0,
            r.chain.pool.view().len() == 0,
            r.chain.pool.package_limit == DEFAULT_PACKAGE_LIMIT,
            r.chain.main_chain@.len() == 0,
            r.chain.candidate_block is None,
    {
        let auth = Authentication::new(sys_config);
        let pool = Pool::new(DEFAULT_PACKAGE_LIMIT);
        let chain = Chain::new(
            block_delay_number,
            current_block_number,
            current_block_hash,
            pool,
            auth,
            genesis,
            key_id,
            node_address,
        );
        Controller { chain }
    }

    /// Startup: backfill the replay window from the stored bodies, then
    /// finalize the genesis block if the chain is empty. The returned
    /// outcome, if any, is the genesis write set to apply.
    pub fn init(
        &mut self,
        init_block_number: u64,
        block_is_new: bool,
        bodies: &Vec<CompactBlockBody>,
    ) -> (r: Option<FinalizeOutcome>)
        requires
            old(self).wf(),
            old(self).chain.auth.history_hashes@.len() == 0,
            bodies@.len() == crate::auth::spec_init_count(init_block_number),
        ensures
            final(self).wf(),
            r is Some <==> init_block_number == 0,
            final(self).chain.auth.spec_sys_config() == old(self).chain.auth.spec_sys_config(),
            final(self).chain.block_number == old(self).chain.block_number,
            final(self).chain.block_hash == old(self).chain.block_hash,
            final(self).chain.main_chain == old(self).chain.main_chain,
            final(self).chain.fork_tree == old(self).chain.fork_tree,
            init_block_number > 0 ==> ({
                &&& final(self).chain.auth.spec_current_block_number() == init_block_number
                &&& final(self).chain.pool == old(self).chain.pool
                &&& forall|h2: u64|
                    final(self).chain.auth.has_height(h2) <==> crate::auth::spec_init_begin(
                        init_block_number,
                    ) <= h2 <= init_block_number
                &&& forall|h2: u64|
                    final(self).chain.auth.has_height(h2)
                        ==> final(self).chain.auth.hashes_at(h2) == bodies@[h2
                        - crate::auth::spec_init_begin(init_block_number)]@.tx_hashes
            }),
            r matches Some(o) ==> ({
                &&& o.block@.header.height == 0
                &&& o.block@.header.prevhash == old(self).chain.genesis.prevhash@
                &&& o.block@.body.len() == 0
                &&& o.block@.proof.len() == 0
                &&& crate::chain::spec_finalize_outcome_ok(
                    o,
                    o.block@,
                    old(self).chain.block_hash@,
                    block_is_new,
                    old(self).chain.auth.spec_sys_config(),
                )
                &&& forall|h2: u64| final(self).chain.auth.has_height(h2) <==> h2 == 0
                &&& final(self).chain.auth.hashes_at(0) == Seq::<Seq<u8>>::empty()
            }),
    {
        self.chain.init_auth(init_block_number, bodies);
        let r = self.chain.init(init_block_number, block_is_new);
        proof {
            if r is Some {
                let o = r->Some_0;
                assert(crate::types::spec_body_tx_hashes(o.block@.body) =~= Seq::<
                    Seq<u8>,
                >::empty());
            }
        }
        r
    }

    /// The finalized height, or with `is_pending` the pending tip height.
    pub fn rpc_get_block_number(&self, is_pending: bool) -> (r: u64)
        requires
            is_pending ==> self.chain.block_number + self.chain.main_chain@.len()
                <= u64::MAX,
        ensures
            is_pending ==> r == self.chain.block_number + self.chain.main_chain@.len(),
            !is_pending ==> r == self.chain.block_number,
    {
        self.chain.get_block_number(is_pending)
    }

    /// Admits a raw transaction: the authenticator checks it against the
    /// key-management verdicts, and an accepted transaction enters the
    /// pool under its hash. The caller gossips it on success.
    pub fn rpc_send_raw_transaction(&mut self, raw_tx: RawTransaction, verdict: &KmsVerdict)
        -> (r: Result<Vec<u8>, Error>)
        requires
            old(self).wf(),
        ensures
            final(self).wf(),
            ({
                let check = old(self).chain.auth.spec_check_raw_tx(
                    raw_tx@,
                    verdict.hash_ok,
                    crate::auth::recovered_view(verdict.recovered@),
                );
                match check {
                    Err(e) => r matches Err(e2) && e2 == e && (*final(self) == *old(self)),
                    Ok(h) => {
                        if !pool_has(old(self).chain.pool.view(), h) && old(
                            self,
                        ).chain.pool.view().len() < old(self).chain.pool.package_limit {
                            &&& r matches Ok(h2) && h2@ == h
                            &&& final(self).chain.pool.view() == old(
                                self,
                            ).chain.pool.view().push((h, raw_tx@))
                        } else {
                            &&& r matches Err(e2) && e2 == Error::DuplicateTx
                            &&& final(self).chain.pool.view() == old(self).chain.pool.view()
                            &&& final(self).chain.auth == old(self).chain.auth
                            &&& final(self).chain.block_number == old(self).chain.block_number
                            &&& final(self).chain.main_chain == old(self).chain.main_chain
                            &&& final(self).chain.candidate_block == old(self).chain.candidate_block
                        }
                    },
                }
            }),
    {
        let tx_hash = match self.chain.auth.check_raw_tx(&raw_tx, verdict) {
            Ok(h) => h,
            Err(e) => {
                return Err(e);
            },
        };
        let hash_copy = copy_bytes(&tx_hash);
        let is_ok = self.chain.pool.enqueue(raw_tx, hash_copy);
        if is_ok {
            Ok(tx_hash)
        } else {
            Err(Error::DuplicateTx)
        }
    }

    /// A copy of the system configuration, per-slot head hashes included,
    /// as the RPC surface reports it.
    pub fn rpc_get_system_config(&self) -> (r: SystemConfig)
        ensures
            r@ == self.chain.auth.spec_sys_config(),
    {
        self.chain.get_system_config()
    }

    /// A copy of the pooled transaction under `tx_hash`, if the pool holds
    /// it; the storage fallback is the caller's.
    pub fn rpc_get_transaction(&self, tx_hash: &Vec<u8>) -> (r: Option<RawTransaction>)
        ensures
            match r {
                Some(t) => exists|i: int|
                    0 <= i < self.chain.pool.view().len() && (#[trigger] self.chain.pool.view()[
                    i]) == (tx_hash@, t@),
                None => !pool_has(self.chain.pool.view(), tx_hash@),
            },
    {
        self.chain.chain_get_tx(tx_hash)
    }

    /// The candidate proposal for the consensus engine, around the anchor
    /// data the caller loaded: with a candidate and the anchor present the
    /// assembled encoding comes back, without a candidate `NoCandidate`,
    /// and without the anchor `NoEarlyStatus`.
    pub fn chain_get_proposal(&self, pre_info: Option<(Vec<u8>, Vec<u8>)>) -> (r: Result<
        (u64, Vec<u8>),
        Error,
    >)
        ensures
            (r == Result::<(u64, Vec<u8>), Error>::Err(Error::NoCandidate) <==> self
                .chain.candidate_block is None),
            (r == Result::<(u64, Vec<u8>), Error>::Err(Error::NoEarlyStatus) <==> (self
                .chain.candidate_block is Some && pre_info is None)),
            ((self.chain.candidate_block is Some && pre_info is Some) ==> r is Ok),
            r matches Ok(p) ==> ({
                let c = self.chain.candidate_block->Some_0;
                let info = pre_info->Some_0;
                &&& p.0 == c.0
                &&& p.1@ == crate::codec::spec_enc_proposal_enum(
                    crate::types::ProposalEnumV {
                        proposal: Some(
                            crate::types::BftProposalV {
                                proposal: Some(
                                    crate::types::BlockV { proof: Seq::empty(), ..c.2@ },
                                ),
                                pre_state_root: info.0@,
                                pre_proof: info.1@,
                            },
                        ),
                    },
                )
            }),
    {
        self.chain.get_proposal(pre_info)
    }

    /// Checks a proposal received from the consensus engine against the
    /// anchor data the caller loaded: in range, it passes exactly when the
    /// anchors match.
    pub fn chain_check_proposal(
        &self,
        h: u64,
        proposal: &ProposalEnum,
        state_root: &Vec<u8>,
        proof: &Vec<u8>,
    ) -> (r: Result<bool, Error>)
        ensures
            crate::chain::spec_check_proposal_post(
                self.chain,
                h,
                *proposal,
                state_root@,
                proof@,
                r,
            ),
            r matches Ok(b) ==> b,
    {
        self.chain.check_proposal(h, proposal, state_root, proof)
    }

    /// Commits a decided proposal, with the full contract of
    /// [`Chain::commit_block`]: every refusal with its exact cause and
    /// frame, and on success the adopted chain and the pinned finalization
    /// outcomes.
    pub fn chain_commit_block(
        &mut self,
        height: u64,
        proposal: &Vec<u8>,
        proof: &Vec<u8>,
        block_hash: &Vec<u8>,
        archived_heights: &Vec<u64>,
    ) -> (r: CommitResult)
        requires
            old(self).wf(),
        ensures
            final(self).wf(),
            final(self).chain.block_delay_number == old(self).chain.block_delay_number,
            crate::chain::spec_commit_post(
                old(self).chain,
                final(self).chain,
                height,
                proposal@,
                proof@,
                block_hash@,
                archived_heights@,
                r,
            ),
    {
        self.chain.commit_block(height, proposal, proof, block_hash, archived_heights)
    }

    /// Processes a block while syncing, with the full contract of
    /// [`Chain::process_block`]: every refusal with its exact cause and an
    /// unchanged chain, and on success the head advance and the pinned
    /// finalization outcome.
    pub fn chain_process_block(
        &mut self,
        block: Block,
        block_hash: &Vec<u8>,
        consensus_result: &Result<bool, Vec<u8>>,
        verdicts: &Vec<KmsVerdict>,
        block_is_new: bool,
    ) -> (r: ProcessResult)
        requires
            old(self).wf(),
            verdicts@.len() == block@.body.len(),
        ensures
            final(self).wf(),
            crate::chain::spec_process_post(
                old(self).chain,
                final(self).chain,
                block,
                block_hash@,
                *consensus_result,
                verdicts@,
                block_is_new,
                r,
            ),
    {
        self.chain.process_block(block, block_hash, consensus_result, verdicts, block_is_new)
    }

    /// Classifies a message heard from the network: a gossiped raw
    /// transaction or a synced block is decoded with the chain's codec,
    /// anything else is ignored. The caller performs the action.
    pub fn process_network_msg(&self, msg: &NetworkMsg) -> (r: Result<NetworkAction, Error>)
        ensures
            ({
                let dec_tx = crate::codec::spec_dec_raw_transaction(msg.msg@, 0);
                let dec_block = crate::codec::spec_dec_block(msg.msg@, 0);
                if msg.msg_type@ == spec_raw_tx_tag() {
                    match r {
                        Ok(NetworkAction::GotRawTx(tx)) => dec_tx matches Some(p) && p.0 == tx@
                            && p.1 == msg.msg@.len(),
                        Err(e) => e == Error::DecodeError && (dec_tx is None || dec_tx->Some_0.1
                            != msg.msg@.len()),
                        _ => false,
                    }
                } else if msg.msg_type@ == spec_block_tag() {
                    match r {
                        Ok(NetworkAction::GotBlock(b)) => dec_block matches Some(p) && p.0 == b@
                            && p.1 == msg.msg@.len(),
                        Err(e) => e == Error::DecodeError && (dec_block is None
                            || dec_block->Some_0.1 != msg.msg@.len()),
                        _ => false,
                    }
                } else {
                    r matches Ok(a) && a is Ignored
                }
            }),
    {
        let raw_tag = raw_tx_tag();
        let blk_tag = block_tag();
        if crate::util::bytes_eq(&msg.msg_type, &raw_tag) {
            match crate::codec::dec_raw_transaction(&msg.msg, 0) {
                Some((tx, consumed)) => {
                    if consumed == msg.msg.len() {
                        Ok(NetworkAction::GotRawTx(tx))
                    } else {
                        Err(Error::DecodeError)
                    }
                },
                None => Err(Error::DecodeError),
            }
        } else if crate::util::bytes_eq(&msg.msg_type, &blk_tag) {
            match crate::codec::dec_block(&msg.msg, 0) {
                Some((b, consumed)) => {
                    if consumed == msg.msg.len() {
                        Ok(NetworkAction::GotBlock(b))
                    } else {
                        Err(Error::DecodeError)
                    }
                },
                None => Err(Error::DecodeError),
            }
        } else {
            Ok(NetworkAction::Ignored)
        }
    }
}

} // verus!
