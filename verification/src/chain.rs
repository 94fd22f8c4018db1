//! The chain and fork manager: a level-indexed fork tree of unfinalized
//! blocks, a main chain selected by longest candidate chain, and
//! finalization under a block-delay buffer.
//!
//! Storage writes, executor calls, and consensus reconfigurations are not
//! performed here: finalization returns the exact write set and requests,
//! and the surrounding process carries them out in the stated order.

use vstd::prelude::*;

use crate::auth::{Authentication, KmsVerdict};
use crate::error::Error;
use crate::genesis::GenesisBlock;
use crate::pool::Pool;
use crate::types::{
    bytes_view, body_view, spec_body_tx_hashes, Block, BlockV, ChainStatus, ConsensusConfiguration,
    ConsensusConfigurationV, RawTransaction, RawTransactionV, Tx, TxV,
};
use crate::util::{bytes_eq, contains_hash, copy_block, copy_bytes, copy_bytes_list};
use crate::utxo_set::SystemConfigV;

verus! {

/// Peers this far ahead force sync mode even while the fork tree has roots.
pub const FORCE_IN_SYNC: u64 = 6;

/// Whether the node should sync from peers or take part in consensus.
#[derive(Debug, Clone, Copy, PartialEq, Eq, Structural)]
pub enum ChainStep {
    SyncStep,
    OnlineStep,
}

/// One write to the storage service: a value under a key of a region.
#[derive(Debug, Clone, PartialEq, Eq)]
pub struct RegionWrite {
    pub region: u32,
    pub key: Vec<u8>,
    pub value: Vec<u8>,
}

#[verifier::ext_equal]
pub ghost struct RegionWriteV {
    pub region: u32,
    pub key: Seq<u8>,
    pub value: Seq<u8>,
}

impl View for RegionWrite {
    type V = RegionWriteV;

    open spec fn view(&self) -> RegionWriteV {
        RegionWriteV { region: self.region, key: self.key@, value: self.value@ }
    }
}

/// View of a write list.
pub open spec fn writes_view(s: Seq<RegionWrite>) -> Seq<RegionWriteV> {
    s.map_values(|w: RegionWrite| w@)
}

/// The index record of one transaction: which block holds it and where.
#[derive(Debug, Clone, PartialEq, Eq)]
pub struct TxInfo {
    pub tx_hash: Vec<u8>,
    pub block_height: u64,
    pub tx_index: u64,
}

#[verifier::ext_equal]
pub ghost struct TxInfoV {
    pub tx_hash: Seq<u8>,
    pub block_height: u64,
    pub tx_index: u64,
}

impl View for TxInfo {
    type V = TxInfoV;

    open spec fn view(&self) -> TxInfoV {
        TxInfoV {
            tx_hash: self.tx_hash@,
            block_height: self.block_height,
            tx_index: self.tx_index,
        }
    }
}

/// View of a transaction-index list.
pub open spec fn tx_info_view(s: Seq<TxInfo>) -> Seq<TxInfoV> {
    s.map_values(|t: TxInfo| t@)
}

/// The archive record of a newly finalized block for the sync directory.
#[derive(Debug, Clone, PartialEq, Eq)]
pub struct ArchiveEntry {
    pub height: u64,
    pub header_bytes: Vec<u8>,
    pub body_bytes: Vec<u8>,
    pub proof: Vec<u8>,
}

/// Everything one finalization asks of the surrounding process, in order:
/// perform `writes`, record `tx_info`, archive `archive` if present, issue
/// every reconfiguration in `reconfigures`, execute `block` and store the
/// resulting state hash under region 6 for `height`, and finish with
/// `tail_writes`.
pub struct FinalizeOutcome {
    pub height: u64,
    pub block_hash: Vec<u8>,
    pub block: Block,
    pub writes: Vec<RegionWrite>,
    pub tx_info: Vec<TxInfo>,
    pub archive: Option<ArchiveEntry>,
    pub reconfigures: Vec<ConsensusConfiguration>,
    pub tail_writes: Vec<RegionWrite>,
}

/// View of one fork-tree level.
pub open spec fn level_view(s: Seq<(Vec<u8>, Block)>) -> Seq<(Seq<u8>, BlockV)> {
    s.map_values(|e: (Vec<u8>, Block)| (e.0@, e.1@))
}

/// True when the level holds a block under `hash`.
pub open spec fn level_has(level: Seq<(Seq<u8>, BlockV)>, hash: Seq<u8>) -> bool {
    exists|i: int| 0 <= i < level.len() && (#[trigger] level[i]).0 == hash
}

/// The block the level holds under `hash`.
pub open spec fn level_get(level: Seq<(Seq<u8>, BlockV)>, hash: Seq<u8>) -> BlockV
    recommends
        level_has(level, hash),
{
    let i = choose|i: int| 0 <= i < level.len() && (#[trigger] level[i]).0 == hash;
    level[i].1
}

/// True when the level's keys are unique.
pub open spec fn level_unique(level: Seq<(Seq<u8>, BlockV)>) -> bool {
    forall|i: int, j: int|
        0 <= i < j < level.len() ==> (#[trigger] level[i]).0 != (#[trigger] level[j]).0
}

/// View of the whole fork tree: one level per unfinalized height offset.
pub open spec fn tree_view(t: Seq<Vec<(Vec<u8>, Block)>>) -> Seq<Seq<(Seq<u8>, BlockV)>> {
    t.map_values(|level: Vec<(Vec<u8>, Block)>| level_view(level@))
}

/// The fork tree, the selected main chain, and everything finalization
/// needs: the authenticator and the pool are owned here.
pub struct Chain {
    pub block_number: u64,
    pub block_hash: Vec<u8>,
    pub block_delay_number: u32,
    pub fork_tree: Vec<Vec<(Vec<u8>, Block)>>,
    pub main_chain: Vec<Vec<u8>>,
    pub main_chain_tx_hash: Vec<Vec<u8>>,
    pub candidate_block: Option<(u64, Vec<u8>, Block)>,
    pub pool: Pool,
    pub auth: Authentication,
    pub genesis: GenesisBlock,
    pub key_id: u64,
    pub node_address: Vec<u8>,
}

impl Chain {
    /// The canonical number of fork-tree levels.
    pub open spec fn spec_tree_size(&self) -> int {
        2 * (self.block_delay_number as int) + 2
    }

    /// The fork tree has its canonical size with unique hashes per level,
    /// the main chain is within the confirmation delay, and the owned
    /// authenticator and pool are well formed.
    pub open spec fn wf(&self) -> bool {
        &&& self.fork_tree@.len() == self.spec_tree_size()
        &&& forall|l: int|
            0 <= l < self.fork_tree@.len() ==> level_unique(
                #[trigger] tree_view(self.fork_tree@)[l],
            )
        &&& self.main_chain@.len() <= self.block_delay_number
        &&& self.auth.wf()
        &&& self.pool.wf()
    }

    /// A chain at the given finalized head, with an empty fork tree and an
    /// empty main chain.
    pub fn new(
        block_delay_number: u32,
        current_block_number: u64,
        current_block_hash: Vec<u8>,
        pool: Pool,
        auth: Authentication,
        genesis: GenesisBlock,
        key_id: u64,
        node_address: Vec<u8>,
    ) -> (r: Chain)
        requires
            2 * (block_delay_number as int) + 2 <= usize::MAX,
            auth.wf(),
            pool.wf(),
        ensures
            r.wf(),
            r.block_number == current_block_number,
            r.block_hash@ == current_block_hash@,
            r.block_delay_number == block_delay_number,
            r.main_chain@.len() == 0,
            r.main_chain_tx_hash@.len() == 0,
            r.candidate_block is None,
            r.auth == auth,
            r.pool == pool,
            forall|l: int|
                0 <= l < r.fork_tree@.len() ==> (#[trigger] tree_view(r.fork_tree@)[l]).len()
                    == 0,
    {
        let size: usize = 2 * (block_delay_number as usize) + 2;
        let mut fork_tree: Vec<Vec<(Vec<u8>, Block)>> = Vec::new();
        let mut i: usize = 0;
        while i < size
            invariant
                0 <= i <= size,
                fork_tree@.len() == i,
                forall|l: int| 0 <= l < i ==> (#[trigger] fork_tree@[l])@.len() == 0,
            decreases size - i,
        {
            fork_tree.push(Vec::new());
            i += 1;
        }
        let r = Chain {
            block_number: current_block_number,
            block_hash: current_block_hash,
            block_delay_number,
            fork_tree,
            main_chain: Vec::new(),
            main_chain_tx_hash: Vec::new(),
            candidate_block: None,
            pool,
            auth,
            genesis,
            key_id,
            node_address,
        };
        proof {
            assert forall|l: int| 0 <= l < r.fork_tree@.len() implies (#[trigger] tree_view(
                r.fork_tree@,
            )[l]).len() == 0 by {
                assert(tree_view(r.fork_tree@)[l] == level_view(r.fork_tree@[l]@));
            }
        }
        r
    }

    /// The genesis block this chain was configured with.
    pub fn get_genesis_block(&self) -> (r: Block)
        ensures
            r@.header.height == 0,
            r@.header.prevhash == self.genesis.prevhash@,
            r@.body.len() == 0,
    {
        self.genesis.genesis_block()
    }

    /// The finalized height, or with `is_pending` the height the pending
    /// main chain reaches.
    pub fn get_block_number(&self, is_pending: bool) -> (r: u64)
        requires
            is_pending ==> self.block_number + self.main_chain@.len() <= u64::MAX,
        ensures
            is_pending ==> r == self.block_number + self.main_chain@.len(),
            !is_pending ==> r == self.block_number,
    {
        if is_pending {
            self.block_number + (self.main_chain.len() as u64)
        } else {
            self.block_number
        }
    }

    /// A copy of the system configuration the authenticator holds.
    pub fn get_system_config(&self) -> (r: crate::utxo_set::SystemConfig)
        ensures
            r@ == self.auth.spec_sys_config(),
    {
        self.auth.get_system_config()
    }

    /// True when the pending main chain already contains the hash.
    pub fn check_dup_tx(&self, tx_hash: &Vec<u8>) -> (r: bool)
        ensures
            r == bytes_view(self.main_chain_tx_hash@).contains(tx_hash@),
    {
        contains_hash(&self.main_chain_tx_hash, tx_hash)
    }

    /// True when `block_hash` names the current candidate block.
    pub fn is_candidate(&self, block_hash: &Vec<u8>) -> (r: bool)
        ensures
            r == match self.candidate_block {
                Some(c) => c.1@ == block_hash@,
                None => false,
            },
    {
        match &self.candidate_block {
            Some((_, hash, _)) => bytes_eq(hash, block_hash),
            None => false,
        }
    }

    /// Forgets the candidate block.
    pub fn clear_proposal(&mut self)
        ensures
            *final(self) == (Chain { candidate_block: None, ..*old(self) }),
    {
        self.candidate_block = None;
    }

    /// Empties the root level of the fork tree and forgets the candidate.
    pub fn clear_candidate(&mut self)
        requires
            old(self).wf(),
            old(self).fork_tree@.len() > 0,
        ensures
            final(self).wf(),
            final(self).candidate_block is None,
            tree_view(final(self).fork_tree@)[0].len() == 0,
            final(self).fork_tree@.len() == old(self).fork_tree@.len(),
            forall|l: int|
                1 <= l < final(self).fork_tree@.len() ==> #[trigger] tree_view(
                    final(self).fork_tree@,
                )[l] == tree_view(old(self).fork_tree@)[l],
            final(self).block_number == old(self).block_number,
            final(self).block_hash == old(self).block_hash,
            final(self).main_chain == old(self).main_chain,
            final(self).auth == old(self).auth,
            final(self).pool == old(self).pool,
    {
        let empty: Vec<(Vec<u8>, Block)> = Vec::new();
        self.fork_tree.set(0, empty);
        self.candidate_block = None;
        proof {
            assert(tree_view(self.fork_tree@)[0].len() == 0);
            assert forall|l: int| 1 <= l < self.fork_tree@.len() implies #[trigger] tree_view(
                self.fork_tree@,
            )[l] == tree_view(old(self).fork_tree@)[l] by {
                assert(self.fork_tree@[l] == old(self).fork_tree@[l]);
            }
        }
    }

    /// Sync when a peer quorum is ahead and either nothing roots the fork
    /// tree or the gap has reached `FORCE_IN_SYNC`; online otherwise.
    pub fn next_step(&self, global_status: &ChainStatus) -> (r: ChainStep)
        requires
            self.wf(),
        ensures
            r == (if global_status.height > self.block_number && (tree_view(
                self.fork_tree@,
            )[0].len() == 0 || global_status.height as int >= self.block_number as int
                + FORCE_IN_SYNC as int) {
                ChainStep::SyncStep
            } else {
                ChainStep::OnlineStep
            }),
    {
        proof {
            assert(tree_view(self.fork_tree@)[0] == level_view(self.fork_tree@[0]@));
        }
        if global_status.height > self.block_number && (self.fork_tree[0].len() == 0 || (
        global_status.height as u128) >= (self.block_number as u128) + (FORCE_IN_SYNC as u128)) {
            ChainStep::SyncStep
        } else {
            ChainStep::OnlineStep
        }
    }

    /// Seeds the fork tree with a block heard from a peer. Within the
    /// window `(block_number, block_number + 2·delay + 2]` the block is
    /// stored at its height's level and `true` says it was new; heights at
    /// or below the head are too low, heights beyond the window too high.
    pub fn add_remote_proposal(&mut self, block_hash: &Vec<u8>, block: Block) -> (r: Result<
        bool,
        Error,
    >)
        requires
            old(self).wf(),
        ensures
            final(self).wf(),
            ({
                let h = block@.header.height;
                let bn = old(self).block_number;
                &&& (r == Result::<bool, Error>::Err(Error::ProposalTooLow(h, bn)) <==> h <= bn)
                &&& (r == Result::<bool, Error>::Err(Error::ProposalTooHigh(h, bn)) <==> (h > bn
                    && h as int > bn as int + 2 * (old(self).block_delay_number as int) + 2))
                &&& ((h > bn && h as int <= bn as int + 2 * (old(
                    self,
                ).block_delay_number as int) + 2) ==> r is Ok)
                &&& (r is Ok ==> {
                    let lvl = h - bn - 1;
                    &&& h > bn
                    &&& h as int <= bn as int + 2 * (old(self).block_delay_number as int) + 2
                    &&& r->Ok_0 == !level_has(tree_view(old(self).fork_tree@)[lvl as int],
                        block_hash@)
                    &&& r->Ok_0 ==> tree_view(final(self).fork_tree@)[lvl as int] == tree_view(
                        old(self).fork_tree@,
                    )[lvl as int].push((block_hash@, block@))
                    &&& !r->Ok_0 ==> *final(self) == *old(self)
                    &&& forall|l: int|
                        0 <= l < final(self).fork_tree@.len() && l != lvl
                            ==> #[trigger] tree_view(final(self).fork_tree@)[l] == tree_view(
                            old(self).fork_tree@,
                        )[l]
                })
                &&& (r is Err ==> *final(self) == *old(self))
            }),
            final(self).block_number == old(self).block_number,
            final(self).block_hash == old(self).block_hash,
            final(self).main_chain == old(self).main_chain,
            final(self).candidate_block == old(self).candidate_block,
            final(self).auth == old(self).auth,
            final(self).pool == old(self).pool,
    {
        let block_height = block.header.height;
        if block_height <= self.block_number {
            return Err(Error::ProposalTooLow(block_height, self.block_number));
        }
        if (block_height as u128) - (self.block_number as u128) > 2 * (
        self.block_delay_number as u128) + 2 {
            return Err(Error::ProposalTooHigh(block_height, self.block_number));
        }
        let tree_len = self.fork_tree.len();
        proof {
            assert(tree_len == self.fork_tree@.len());
            assert(block_height as int - self.block_number as int - 1 < tree_len as int);
        }
        let lvl = (block_height - self.block_number - 1) as usize;
        proof {
            assert(lvl < self.fork_tree@.len());
            assert(tree_view(self.fork_tree@)[lvl as int] == level_view(
                self.fork_tree@[lvl as int]@,
            ));
        }
        if level_contains(&self.fork_tree[lvl], block_hash) {
            return Ok(false);
        }
        let hash_copy = copy_bytes(block_hash);
        let ghost old_tree = self.fork_tree@;
        let mut level = self.fork_tree.remove(lvl);
        let ghost old_level = level@;
        level.push((hash_copy, block));
        self.fork_tree.insert(lvl, level);
        proof {
            assert(self.fork_tree@ =~= old_tree.update(lvl as int, self.fork_tree@[lvl as int]));
            assert(level_view(self.fork_tree@[lvl as int]@) =~= level_view(old_level).push(
                (self.fork_tree@[lvl as int]@.last().0@, self.fork_tree@[lvl as int]@.last().1@),
            ));
            assert(tree_view(self.fork_tree@)[lvl as int] == level_view(
                self.fork_tree@[lvl as int]@,
            ));
            assert forall|l: int| 0 <= l < self.fork_tree@.len() && l != lvl
                implies #[trigger] tree_view(self.fork_tree@)[l] == tree_view(old_tree)[l] by {
                assert(self.fork_tree@[l] == old_tree[l]);
            }
            assert forall|l: int| 0 <= l < self.fork_tree@.len() implies level_unique(
                #[trigger] tree_view(self.fork_tree@)[l],
            ) by {
                if l == lvl {
                    let lv = tree_view(self.fork_tree@)[l];
                    let lv0 = tree_view(old_tree)[l];
                    assert(lv =~= lv0.push((block_hash@, self.fork_tree@[lvl as int]@.last().1@)));
                    assert forall|a: int, b: int| 0 <= a < b < lv.len() implies (
                    #[trigger] lv[a]).0 != (#[trigger] lv[b]).0 by {
                        if b == lv.len() - 1 {
                            assert(lv[a] == lv0[a]);
                            assert(!level_has(lv0, block_hash@));
                        }
                    }
                }
            }
        }
        Ok(true)
    }
}

/// The concatenation of a list of hashes, in order: the preimage of the
/// transactions root.
pub open spec fn spec_concat(hs: Seq<Seq<u8>>) -> Seq<u8>
    decreases hs.len(),
{
    if hs.len() == 0 {
        Seq::empty()
    } else {
        spec_concat(hs.drop_last()) + hs.last()
    }
}

/// Concatenates the hashes into one byte string.
pub fn concat_hashes(hs: &Vec<Vec<u8>>) -> (r: Vec<u8>)
    ensures
        r@ == spec_concat(bytes_view(hs@)),
{
    let mut r: Vec<u8> = Vec::new();
    let n = hs.len();
    let mut i: usize = 0;
    proof {
        assert(bytes_view(hs@).take(0) =~= Seq::<Seq<u8>>::empty());
        assert(r@ =~= spec_concat(bytes_view(hs@).take(0)));
    }
    while i < n
        invariant
            n == hs@.len(),
            0 <= i <= n,
            r@ == spec_concat(bytes_view(hs@).take(i as int)),
        decreases n - i,
    {
        let mut piece = copy_bytes(&hs[i]);
        r.append(&mut piece);
        proof {
            assert(bytes_view(hs@).take(i as int + 1).drop_last() =~= bytes_view(hs@).take(
                i as int,
            ));
            assert(bytes_view(hs@).take(i as int + 1).last() == hs@[i as int]@);
        }
        i += 1;
    }
    proof {
        assert(bytes_view(hs@).take(n as int) =~= bytes_view(hs@));
    }
    r
}

/// What a proposal is drafted from: the packaged transactions, the height
/// it will claim, the hash it will chain to, and the preimage of its
/// transactions root, which the key-management service hashes.
pub struct ProposalDraft {
    pub height: u64,
    pub prevhash: Vec<u8>,
    pub tx_hash_list: Vec<Vec<u8>>,
    pub tx_list: Vec<RawTransaction>,
    pub root_preimage: Vec<u8>,
}

impl Chain {
    /// Drafts the next proposal, unless a candidate already stands or the
    /// node should sync: the pooled transactions still valid past the next
    /// height, in order, under the height one past the pending tip.
    pub fn draft_proposal(&self, global_status: &ChainStatus) -> (r: Option<ProposalDraft>)
        requires
            self.wf(),
            self.block_number + self.main_chain@.len() + 1 <= u64::MAX,
        ensures
            r is None <==> (self.candidate_block is Some || self.next_step_spec(global_status@)
                == ChainStep::SyncStep),
            r matches Some(d) ==> ({
                let kept = crate::pool::spec_package(self.pool.view(), (self.block_number + 1) as u64);
                &&& d.height == self.block_number + self.main_chain@.len() + 1
                &&& d.prevhash@ == (if self.main_chain@.len() == 0 {
                    self.block_hash@
                } else {
                    self.main_chain@.last()@
                })
                &&& d.tx_hash_list@.len() == kept.len()
                &&& d.tx_list@.len() == kept.len()
                &&& forall|j: int|
                    0 <= j < kept.len() ==> (#[trigger] d.tx_hash_list@[j])@ == kept[j].0
                        && d.tx_list@[j]@ == kept[j].1
                &&& d.root_preimage@ == spec_concat(bytes_view(d.tx_hash_list@))
            }),
    {
        if self.candidate_block.is_some() {
            return None;
        }
        let step = self.next_step(global_status);
        if step == ChainStep::SyncStep {
            return None;
        }
        let (tx_hash_list, tx_list) = self.pool.package(self.block_number + 1);
        let root_preimage = concat_hashes(&tx_hash_list);
        let prevhash = if self.main_chain.len() == 0 {
            copy_bytes(&self.block_hash)
        } else {
            copy_bytes(&self.main_chain[self.main_chain.len() - 1])
        };
        let height = self.block_number + (self.main_chain.len() as u64) + 1;
        Some(ProposalDraft { height, prevhash, tx_hash_list, tx_list, root_preimage })
    }

    /// The sync decision as a predicate, for contracts.
    pub open spec fn next_step_spec(&self, global_status: crate::types::ChainStatusV) -> ChainStep {
        if global_status.height > self.block_number && (tree_view(self.fork_tree@)[0].len() == 0
            || global_status.height as int >= self.block_number as int + FORCE_IN_SYNC as int) {
            ChainStep::SyncStep
        } else {
            ChainStep::OnlineStep
        }
    }

    /// The header of a drafted proposal, once the caller has hashed the
    /// root preimage into `transactions_root`.
    pub fn draft_header(&self, draft: &ProposalDraft, transactions_root: Vec<u8>, timestamp: u64)
        -> (r: crate::types::BlockHeader)
        ensures
            r@.prevhash == draft.prevhash@,
            r@.timestamp == timestamp,
            r@.height == draft.height,
            r@.transactions_root == transactions_root@,
            r@.proposer == self.node_address@,
    {
        crate::types::BlockHeader {
            prevhash: copy_bytes(&draft.prevhash),
            timestamp,
            height: draft.height,
            transactions_root,
            proposer: copy_bytes(&self.node_address),
        }
    }

    /// Installs the drafted proposal as the candidate block, once the
    /// caller has hashed the encoded header into `block_hash`, and seeds
    /// the fork tree with it at the pending tip's level.
    pub fn add_proposal(&mut self, draft: ProposalDraft, header: crate::types::BlockHeader,
        block_hash: Vec<u8>)
        requires
            old(self).wf(),
            header@.height == draft.height,
        ensures
            final(self).wf(),
            ({
                let block = BlockV {
                    version: 0,
                    header: header@,
                    body: body_view(draft.tx_list@),
                    proof: Seq::empty(),
                };
                let lvl = old(self).main_chain@.len() as int;
                &&& final(self).candidate_block matches Some(c) && c.0 == draft.height && c.1@
                    == block_hash@ && c.2@ == block
                &&& level_has(tree_view(final(self).fork_tree@)[lvl], block_hash@)
                &&& level_get(tree_view(final(self).fork_tree@)[lvl], block_hash@) == block
                &&& forall|l: int|
                    0 <= l < final(self).fork_tree@.len() && l != lvl ==> #[trigger] tree_view(
                        final(self).fork_tree@,
                    )[l] == tree_view(old(self).fork_tree@)[l]
            }),
            final(self).block_number == old(self).block_number,
            final(self).block_hash == old(self).block_hash,
            final(self).main_chain == old(self).main_chain,
            final(self).main_chain_tx_hash == old(self).main_chain_tx_hash,
            final(self).auth == old(self).auth,
            final(self).pool == old(self).pool,
    {
        let full_block = Block {
            version: 0,
            header,
            body: draft.tx_list,
            proof: Vec::new(),
        };
        let block_copy = copy_block(&full_block);
        let hash_copy = copy_bytes(&block_hash);
        let lvl = self.main_chain.len();
        proof {
            assert(lvl < self.fork_tree@.len());
        }
        let ghost old_tree = self.fork_tree@;
        let mut level = self.fork_tree.remove(lvl);
        proof {
            assert(level_view(level@) == tree_view(old_tree)[lvl as int]);
        }
        level_insert(&mut level, hash_copy, block_copy);
        self.fork_tree.insert(lvl, level);
        self.candidate_block = Some((draft.height, block_hash, full_block));
        proof {
            assert(self.fork_tree@ =~= old_tree.update(lvl as int, self.fork_tree@[lvl as int]));
            assert(tree_view(self.fork_tree@)[lvl as int] == level_view(
                self.fork_tree@[lvl as int]@,
            ));
            assert forall|l: int| 0 <= l < self.fork_tree@.len() && l != lvl
                implies #[trigger] tree_view(self.fork_tree@)[l] == tree_view(old_tree)[l] by {
                assert(self.fork_tree@[l] == old_tree[l]);
            }
            assert(body_view(self.candidate_block->Some_0.2.body@) =~= body_view(
                draft.tx_list@,
            ));
            assert(self.candidate_block->Some_0.2@ =~= (BlockV {
                version: 0,
                header: header@,
                body: body_view(draft.tx_list@),
                proof: Seq::empty(),
            }));
        }
    }

    /// The height the candidate block claims, if one stands.
    pub fn candidate_height(&self) -> (r: Option<u64>)
        ensures
            match r {
                Some(h) => self.candidate_block matches Some(c) && c.0 == h,
                None => self.candidate_block is None,
            },
    {
        match &self.candidate_block {
            Some((h, _, _)) => Some(*h),
            None => None,
        }
    }

    /// The height whose stored state root and proof anchor a proposal at
    /// `h`, or `None` while the chain is too short for one.
    pub fn pre_height(&self, h: u64) -> (r: Option<u64>)
        ensures
            match r {
                Some(p) => p == h as int - self.block_delay_number as int - 1,
                None => h as int <= self.block_delay_number as int,
            },
    {
        if (h as u128) > (self.block_delay_number as u128) {
            Some(h - (self.block_delay_number as u64) - 1)
        } else {
            None
        }
    }

    /// Wraps a block into the proposal put before the consensus engine:
    /// the block with an empty proof beside the stored state root and proof
    /// of the anchor height the caller loaded.
    pub fn assemble_proposal(&self, block: &Block, pre_state_root: Vec<u8>, pre_proof: Vec<u8>)
        -> (r: Vec<u8>)
        ensures
            r@ == crate::codec::spec_enc_proposal_enum(
                crate::types::ProposalEnumV {
                    proposal: Some(
                        crate::types::BftProposalV {
                            proposal: Some(BlockV { proof: Seq::empty(), ..block@ }),
                            pre_state_root: pre_state_root@,
                            pre_proof: pre_proof@,
                        },
                    ),
                },
            ),
    {
        let mut stripped = copy_block(block);
        stripped.proof = Vec::new();
        proof {
            assert(stripped@ =~= (BlockV { proof: Seq::empty(), ..block@ }));
        }
        let proposal = crate::types::ProposalEnum {
            proposal: Some(
                crate::types::BftProposal {
                    proposal: Some(stripped),
                    pre_state_root,
                    pre_proof,
                },
            ),
        };
        crate::codec::encode_proposal_enum(&proposal)
    }

    /// The candidate proposal for the consensus engine: its height and its
    /// encoding around the anchor data the caller loaded, or `NoCandidate`
    /// without a candidate, or `NoEarlyStatus` while the anchor height's
    /// state root and proof are not yet available.
    pub fn get_proposal(&self, pre_info: Option<(Vec<u8>, Vec<u8>)>) -> (r: Result<
        (u64, Vec<u8>),
        Error,
    >)
        ensures
            (r == Result::<(u64, Vec<u8>), Error>::Err(Error::NoCandidate) <==> self
                .candidate_block is None),
            (r == Result::<(u64, Vec<u8>), Error>::Err(Error::NoEarlyStatus) <==> (self
                .candidate_block is Some && pre_info is None)),
            ((self.candidate_block is Some && pre_info is Some) ==> r is Ok),
            r matches Ok(p) ==> ({
                let c = self.candidate_block->Some_0;
                let info = pre_info->Some_0;
                &&& p.0 == c.0
                &&& p.1@ == crate::codec::spec_enc_proposal_enum(
                    crate::types::ProposalEnumV {
                        proposal: Some(
                            crate::types::BftProposalV {
                                proposal: Some(BlockV { proof: Seq::empty(), ..c.2@ }),
                                pre_state_root: info.0@,
                                pre_proof: info.1@,
                            },
                        ),
                    },
                )
            }),
    {
        match &self.candidate_block {
            Some((h, _, block)) => match pre_info {
                Some((pre_state_root, pre_proof)) => {
                    let bytes = self.assemble_proposal(block, pre_state_root, pre_proof);
                    Ok((*h, bytes))
                },
                None => Err(Error::NoEarlyStatus),
            },
            None => Err(Error::NoCandidate),
        }
    }

}

/// What a proposal check answers: in range, the proposal passes exactly
/// when its anchors match the stored state root and proof.
pub open spec fn spec_check_proposal_post(
    c: Chain,
    h: u64,
    proposal: crate::types::ProposalEnum,
    state_root: Seq<u8>,
    proof_bytes: Seq<u8>,
    r: Result<bool, Error>,
) -> bool {
    let bn = c.block_number;
    &&& (r == Result::<bool, Error>::Err(Error::ProposalTooLow(h, bn)) <==> h <= bn)
    &&& (r == Result::<bool, Error>::Err(Error::ProposalTooHigh(h, bn)) <==> (h > bn
        && h as int > bn as int + c.block_delay_number as int + 1))
    &&& (h > bn && h as int <= bn as int + c.block_delay_number as int + 1 ==> {
        match proposal@.proposal {
            None => r == Result::<bool, Error>::Err(Error::NoneProposal),
            Some(bft) => {
                if bft.pre_state_root == state_root && bft.pre_proof == proof_bytes {
                    r == Result::<bool, Error>::Ok(true)
                } else {
                    r == Result::<bool, Error>::Err(Error::ProposalCheckError)
                }
            },
        }
    })
}

impl Chain {
    /// Checks a proposal received from the consensus engine against the
    /// stored state root and proof of its anchor height, which the caller
    /// loaded: in range, the proposal passes exactly when both match.
    pub fn check_proposal(&self, h: u64, proposal: &crate::types::ProposalEnum,
        state_root: &Vec<u8>, proof: &Vec<u8>) -> (r: Result<bool, Error>)
        ensures
            spec_check_proposal_post(*self, h, *proposal, state_root@, proof@, r),
    {
        if h <= self.block_number {
            return Err(Error::ProposalTooLow(h, self.block_number));
        }
        if (h as u128) > (self.block_number as u128) + (self.block_delay_number as u128) + 1 {
            return Err(Error::ProposalTooHigh(h, self.block_number));
        }
        match &proposal.proposal {
            Some(bft) => {
                if bytes_eq(&bft.pre_state_root, state_root) && bytes_eq(&bft.pre_proof, proof) {
                    Ok(true)
                } else {
                    Err(Error::ProposalCheckError)
                }
            },
            None => Err(Error::NoneProposal),
        }
    }

    /// A copy of the pooled transaction under `tx_hash`, if the pool holds
    /// it; the storage fallback is the caller's.
    pub fn chain_get_tx(&self, tx_hash: &Vec<u8>) -> (r: Option<RawTransaction>)
        ensures
            match r {
                Some(t) => exists|i: int|
                    0 <= i < self.pool.view().len() && (#[trigger] self.pool.view()[i]) == (
                    tx_hash@, t@),
                None => !crate::pool::pool_has(self.pool.view(), tx_hash@),
            },
    {
        self.pool.pool_get_tx(tx_hash)
    }
}


/// View of a reconfiguration list.
pub open spec fn ccs_view(s: Seq<ConsensusConfiguration>) -> Seq<ConsensusConfigurationV> {
    s.map_values(|c: ConsensusConfiguration| c@)
}

/// One storage write, at the spec level.
pub open spec fn spec_rw(region: u32, key: Seq<u8>, value: Seq<u8>) -> RegionWriteV {
    RegionWriteV { region, key, value }
}

/// The region-1 writes of a block body: each transaction's encoding under
/// its hash, in order, skipping bodiless entries.
pub open spec fn spec_tx_writes(body: Seq<RawTransactionV>) -> Seq<RegionWriteV>
    decreases body.len(),
{
    if body.len() == 0 {
        Seq::empty()
    } else {
        let rest = spec_tx_writes(body.drop_last());
        match body.last().tx_hash() {
            Some(h) => rest.push(
                spec_rw(1, h, crate::codec::spec_enc_raw_transaction(body.last())),
            ),
            None => rest,
        }
    }
}

/// The index records of a block body: hash, height, and position, in
/// order, skipping bodiless entries.
pub open spec fn spec_tx_infos(body: Seq<RawTransactionV>, height: u64) -> Seq<TxInfoV>
    decreases body.len(),
{
    if body.len() == 0 {
        Seq::empty()
    } else {
        let rest = spec_tx_infos(body.drop_last(), height);
        match body.last().tx_hash() {
            Some(h) => rest.push(
                TxInfoV {
                    tx_hash: h,
                    block_height: height,
                    tx_index: (body.len() - 1) as u64,
                },
            ),
            None => rest,
        }
    }
}

/// What the utxo transactions of a block do to the system configuration,
/// applied in order: the configuration after all of them, the region-0
/// head-hash writes of the accepted ones, and the reconfiguration requests
/// raised by validator-set or block-interval changes.
pub open spec fn spec_utxo_effects(cfg: SystemConfigV, body: Seq<RawTransactionV>, height: u64)
    -> (SystemConfigV, Seq<RegionWriteV>, Seq<ConsensusConfigurationV>)
    decreases body.len(),
{
    if body.len() == 0 {
        (cfg, Seq::empty(), Seq::empty())
    } else {
        let (cfg1, w1, r1) = spec_utxo_effects(cfg, body.drop_last(), height);
        match body.last().tx {
            Some(TxV::UtxoTx(u)) => {
                if crate::utxo_set::spec_update_ok(cfg1, u) {
                    let cfg2 = crate::utxo_set::spec_apply_utxo(cfg1, u);
                    let lock_id = u.transaction->Some_0.lock_id;
                    let w2 = w1.push(
                        spec_rw(0, crate::codec::spec_enc_u64(lock_id), u.transaction_hash),
                    );
                    let r2 = if lock_id == crate::utxo_set::LOCK_ID_VALIDATORS || lock_id
                        == crate::utxo_set::LOCK_ID_BLOCK_INTERVAL {
                        r1.push(
                            ConsensusConfigurationV {
                                height,
                                block_interval: cfg2.block_interval,
                                validators: cfg2.validators,
                            },
                        )
                    } else {
                        r1
                    };
                    (cfg2, w2, r2)
                } else {
                    (cfg1, w1, r1)
                }
            },
            _ => (cfg1, w1, r1),
        }
    }
}

/// Everything a finalization outcome must hold for `block` finalized under
/// `block_hash`, starting from the system configuration `cfg_in`: the §4.D
/// region writes in order, the index records, the archive exactly when the
/// block is new, and the reconfiguration requests the utxo transactions
/// raise.
pub open spec fn spec_finalize_outcome_ok(
    o: FinalizeOutcome,
    block: BlockV,
    block_hash: Seq<u8>,
    is_new: bool,
    cfg_in: SystemConfigV,
) -> bool {
    let h = block.header.height;
    let hashes = spec_body_tx_hashes(block.body);
    let effects = spec_utxo_effects(cfg_in, block.body, h);
    let key = crate::codec::spec_enc_u64(h);
    &&& o.height == h
    &&& o.block_hash@ == block_hash
    &&& o.block@ == block
    &&& writes_view(o.writes@) == seq![
        spec_rw(4, key, block_hash),
        spec_rw(8, block_hash, key),
    ] + (if is_new {
        seq![
            spec_rw(
                3,
                key,
                crate::codec::spec_enc_compact_body(
                    crate::types::CompactBlockBodyV { tx_hashes: hashes },
                ),
            ),
            spec_rw(2, key, crate::codec::spec_enc_block_header(block.header)),
        ]
    } else {
        Seq::empty()
    }) + spec_tx_writes(block.body) + effects.1
    &&& tx_info_view(o.tx_info@) == spec_tx_infos(block.body, h)
    &&& (o.archive is Some <==> is_new)
    &&& (o.archive matches Some(a) ==> (a.height == h && a.header_bytes@
        == crate::codec::spec_enc_block_header(block.header) && a.body_bytes@
        == crate::codec::spec_enc_compact_body(
        crate::types::CompactBlockBodyV { tx_hashes: hashes },
    ) && a.proof@ == block.proof))
    &&& ccs_view(o.reconfigures@) == effects.2
    &&& writes_view(o.tail_writes@) == seq![
        spec_rw(0, crate::codec::spec_enc_u64(0), key),
        spec_rw(0, crate::codec::spec_enc_u64(1), block_hash),
    ]
}

/// What one finalization does to the authenticator and the pool: the
/// configuration advances by the block's utxo transactions, the replay
/// window learns the block's hashes at its height and evicts the height
/// that leaves the window, and the pool drops the finalized hashes.
pub open spec fn spec_finalize_state_ok(pre: Chain, post: Chain, block: BlockV) -> bool {
    let h = block.header.height;
    let hashes = spec_body_tx_hashes(block.body);
    let effects = spec_utxo_effects(pre.auth.spec_sys_config(), block.body, h);
    &&& post.auth.spec_sys_config() == effects.0
    &&& post.auth.spec_current_block_number() == (if h > pre.auth.spec_current_block_number() {
        h
    } else {
        pre.auth.spec_current_block_number()
    })
    &&& forall|h2: u64|
        post.auth.has_height(h2) <==> (h2 == h || (pre.auth.has_height(h2) && !(h
            >= crate::BLOCKLIMIT && h2 == h - crate::BLOCKLIMIT)))
    &&& post.auth.hashes_at(h) == hashes
    &&& forall|h2: u64|
        h2 != h && post.auth.has_height(h2) ==> post.auth.hashes_at(h2) == pre.auth.hashes_at(
            h2,
        )
    &&& post.pool.view() == crate::pool::spec_prune(pre.pool.view(), hashes)
}

impl Chain {
    /// Finalizes one decided block: advances the system configuration by
    /// its utxo transactions, records its hashes in the replay window,
    /// prunes the pool, and returns the exact write set the storage
    /// service must apply, the index records, the archive record when the
    /// block is new, and the reconfiguration requests, in order.
    pub fn finalize_block(&mut self, block: Block, block_hash: Vec<u8>, block_is_new: bool)
        -> (r: FinalizeOutcome)
        requires
            old(self).wf(),
        ensures
            final(self).wf(),
            final(self).block_number == old(self).block_number,
            final(self).block_hash == old(self).block_hash,
            final(self).block_delay_number == old(self).block_delay_number,
            final(self).fork_tree == old(self).fork_tree,
            final(self).main_chain == old(self).main_chain,
            final(self).main_chain_tx_hash == old(self).main_chain_tx_hash,
            final(self).candidate_block == old(self).candidate_block,
            spec_finalize_state_ok(*old(self), *final(self), block@),
            spec_finalize_outcome_ok(
                r,
                block@,
                block_hash@,
                block_is_new,
                old(self).auth.spec_sys_config(),
            ),
    {
        let ghost cfg0 = self.auth.spec_sys_config();
        let block_height = block.header.height;
        let key = crate::codec::enc_u64(block_height);
        let tx_hash_list = body_tx_hashes(&block.body);

        let mut writes: Vec<RegionWrite> = Vec::new();
        writes.push(
            RegionWrite { region: 4, key: copy_bytes(&key), value: copy_bytes(&block_hash) },
        );
        writes.push(
            RegionWrite { region: 8, key: copy_bytes(&block_hash), value: copy_bytes(&key) },
        );
        let ghost head_writes = writes_view(writes@);

        let mut archive: Option<ArchiveEntry> = None;
        if block_is_new {
            let compact = crate::types::CompactBlockBody {
                tx_hashes: copy_bytes_list(&tx_hash_list),
            };
            proof {
                assert(compact@ =~= (crate::types::CompactBlockBodyV {
                    tx_hashes: spec_body_tx_hashes(block@.body),
                }));
            }
            let body_bytes = crate::codec::encode_compact_body(&compact);
            let header_bytes = crate::codec::encode_block_header(&block.header);
            writes.push(
                RegionWrite { region: 3, key: copy_bytes(&key), value: copy_bytes(&body_bytes) },
            );
            writes.push(
                RegionWrite { region: 2, key: copy_bytes(&key), value: copy_bytes(&header_bytes) },
            );
            archive = Some(
                ArchiveEntry {
                    height: block_height,
                    header_bytes,
                    body_bytes,
                    proof: copy_bytes(&block.proof),
                },
            );
        }
        let ghost fixed_writes = writes_view(writes@);
        proof {
            if block_is_new {
                assert(fixed_writes =~= head_writes + seq![
                    spec_rw(
                        3,
                        crate::codec::spec_enc_u64(block_height),
                        crate::codec::spec_enc_compact_body(
                            crate::types::CompactBlockBodyV {
                                tx_hashes: spec_body_tx_hashes(block@.body),
                            },
                        ),
                    ),
                    spec_rw(
                        2,
                        crate::codec::spec_enc_u64(block_height),
                        crate::codec::spec_enc_block_header(block@.header),
                    ),
                ]);
            } else {
                assert(fixed_writes =~= head_writes + Seq::<RegionWriteV>::empty());
            }
        }

        // Region-1 writes and index records, one per transaction with a body.
        let mut tx_info: Vec<TxInfo> = Vec::new();
        let n = block.body.len();
        let mut i: usize = 0;
        proof {
            assert(body_view(block.body@).take(0) =~= Seq::<RawTransactionV>::empty());
            assert(writes_view(writes@) =~= fixed_writes + spec_tx_writes(
                body_view(block.body@).take(0),
            ));
            assert(tx_info_view(tx_info@) =~= spec_tx_infos(
                body_view(block.body@).take(0),
                block_height,
            ));
        }
        while i < n
            invariant
                n == block.body@.len(),
                0 <= i <= n,
                writes_view(writes@) == fixed_writes + spec_tx_writes(
                    body_view(block.body@).take(i as int),
                ),
                tx_info_view(tx_info@) == spec_tx_infos(
                    body_view(block.body@).take(i as int),
                    block_height,
                ),
            decreases n - i,
        {
            let ghost prev_writes = writes_view(writes@);
            let ghost prev_info = tx_info_view(tx_info@);
            proof {
                assert(body_view(block.body@).take(i as int + 1).drop_last() =~= body_view(
                    block.body@,
                ).take(i as int));
                assert(body_view(block.body@).take(i as int + 1).last() == block.body@[
                    i as int]@);
            }
            match block.body[i].tx_hash() {
                Some(h) => {
                    let hash_copy = copy_bytes(h);
                    let value = crate::codec::encode_raw_transaction(&block.body[i]);
                    writes.push(RegionWrite { region: 1, key: hash_copy, value });
                    tx_info.push(
                        TxInfo {
                            tx_hash: copy_bytes(block.body[i].tx_hash().unwrap()),
                            block_height,
                            tx_index: i as u64,
                        },
                    );
                    proof {
                        assert(writes_view(writes@) =~= prev_writes.push(
                            writes@.last()@,
                        ));
                        assert(tx_info_view(tx_info@) =~= prev_info.push(tx_info@.last()@));
                    }
                },
                None => {},
            }
            i += 1;
        }
        proof {
            assert(body_view(block.body@).take(n as int) =~= body_view(block.body@));
        }

        // Apply the utxo transactions to the system configuration, in order.
        let mut utxo_writes: Vec<RegionWrite> = Vec::new();
        let mut reconfigures: Vec<ConsensusConfiguration> = Vec::new();
        let mut j: usize = 0;
        proof {
            assert(spec_utxo_effects(cfg0, body_view(block.body@).take(0), block_height) == (
            cfg0,
            Seq::<RegionWriteV>::empty(),
            Seq::<ConsensusConfigurationV>::empty(),
            ));
            assert(writes_view(utxo_writes@) =~= Seq::<RegionWriteV>::empty());
            assert(ccs_view(reconfigures@) =~= Seq::<ConsensusConfigurationV>::empty());
        }
        while j < n
            invariant
                n == block.body@.len(),
                0 <= j <= n,
                cfg0 == old(self).auth.spec_sys_config(),
                self.auth.wf(),
                self.pool == old(self).pool,
                self.block_number == old(self).block_number,
                self.block_hash == old(self).block_hash,
                self.block_delay_number == old(self).block_delay_number,
                self.fork_tree == old(self).fork_tree,
                self.main_chain == old(self).main_chain,
                self.main_chain_tx_hash == old(self).main_chain_tx_hash,
                self.candidate_block == old(self).candidate_block,
                self.genesis == old(self).genesis,
                self.key_id == old(self).key_id,
                self.node_address == old(self).node_address,
                self.auth.history_hashes@ == old(self).auth.history_hashes@,
                self.auth.spec_current_block_number() == old(
                    self,
                ).auth.spec_current_block_number(),
                ({
                    let e = spec_utxo_effects(
                        cfg0,
                        body_view(block.body@).take(j as int),
                        block_height,
                    );
                    &&& self.auth.spec_sys_config() == e.0
                    &&& writes_view(utxo_writes@) == e.1
                    &&& ccs_view(reconfigures@) == e.2
                }),
            decreases n - j,
        {
            let ghost prev_w = writes_view(utxo_writes@);
            let ghost prev_r = ccs_view(reconfigures@);
            proof {
                assert(body_view(block.body@).take(j as int + 1).drop_last() =~= body_view(
                    block.body@,
                ).take(j as int));
                assert(body_view(block.body@).take(j as int + 1).last() == block.body@[
                    j as int]@);
            }
            match &block.body[j].tx {
                Some(Tx::UtxoTx(u)) => {
                    if self.auth.update_system_config(u) {
                        let lock_id: u64 = match &u.transaction {
                            Some(inner) => inner.lock_id,
                            None => {
                                proof {
                                    assert(false);
                                }
                                0
                            },
                        };
                        utxo_writes.push(
                            RegionWrite {
                                region: 0,
                                key: crate::codec::enc_u64(lock_id),
                                value: copy_bytes(&u.transaction_hash),
                            },
                        );
                        proof {
                            assert(writes_view(utxo_writes@) =~= prev_w.push(
                                utxo_writes@.last()@,
                            ));
                        }
                        if lock_id == crate::utxo_set::LOCK_ID_VALIDATORS || lock_id
                            == crate::utxo_set::LOCK_ID_BLOCK_INTERVAL {
                            let cfg = self.auth.get_system_config();
                            reconfigures.push(
                                ConsensusConfiguration {
                                    height: block_height,
                                    block_interval: cfg.block_interval,
                                    validators: cfg.validators,
                                },
                            );
                            proof {
                                assert(ccs_view(reconfigures@) =~= prev_r.push(
                                    reconfigures@.last()@,
                                ));
                            }
                        }
                    }
                },
                _ => {},
            }
            j += 1;
        }
        proof {
            assert(body_view(block.body@).take(n as int) =~= body_view(block.body@));
        }

        let ghost tx_writes_done = writes_view(writes@);
        writes.append(&mut utxo_writes);
        proof {
            assert(writes_view(writes@) =~= tx_writes_done + spec_utxo_effects(
                cfg0,
                body_view(block.body@),
                block_height,
            ).1);
            assert(head_writes =~= seq![
                spec_rw(
                    4,
                    crate::codec::spec_enc_u64(block_height),
                    block_hash@,
                ),
                spec_rw(
                    8,
                    block_hash@,
                    crate::codec::spec_enc_u64(block_height),
                ),
            ]);
            assert(writes_view(writes@) =~= head_writes + (if block_is_new {
                seq![
                    spec_rw(
                        3,
                        crate::codec::spec_enc_u64(block_height),
                        crate::codec::spec_enc_compact_body(
                            crate::types::CompactBlockBodyV {
                                tx_hashes: spec_body_tx_hashes(block@.body),
                            },
                        ),
                    ),
                    spec_rw(
                        2,
                        crate::codec::spec_enc_u64(block_height),
                        crate::codec::spec_enc_block_header(block@.header),
                    ),
                ]
            } else {
                Seq::<RegionWriteV>::empty()
            }) + spec_tx_writes(body_view(block.body@)) + spec_utxo_effects(
                cfg0,
                body_view(block.body@),
                block_height,
            ).1);
        }

        // The replay window learns the block before the pool forgets it.
        self.auth.insert_tx_hash(block_height, copy_bytes_list(&tx_hash_list));
        self.pool.update(&tx_hash_list);

        let mut tail_writes: Vec<RegionWrite> = Vec::new();
        tail_writes.push(
            RegionWrite { region: 0, key: crate::codec::enc_u64(0), value: copy_bytes(&key) },
        );
        tail_writes.push(
            RegionWrite {
                region: 0,
                key: crate::codec::enc_u64(1),
                value: copy_bytes(&block_hash),
            },
        );
        proof {
            assert(writes_view(tail_writes@) =~= seq![
                spec_rw(
                    0,
                    crate::codec::spec_enc_u64(0),
                    crate::codec::spec_enc_u64(block_height),
                ),
                spec_rw(0, crate::codec::spec_enc_u64(1), block_hash@),
            ]);
        }

        FinalizeOutcome {
            height: block_height,
            block_hash,
            block,
            writes,
            tx_info,
            archive,
            reconfigures,
            tail_writes,
        }
    }
}

/// The transaction hashes of a block body, in order, skipping bodiless
/// entries.
pub fn body_tx_hashes(body: &Vec<RawTransaction>) -> (r: Vec<Vec<u8>>)
    ensures
        bytes_view(r@) == spec_body_tx_hashes(body_view(body@)),
{
    let mut r: Vec<Vec<u8>> = Vec::new();
    let n = body.len();
    let mut i: usize = 0;
    proof {
        assert(body_view(body@).take(0) =~= Seq::<RawTransactionV>::empty());
        assert(bytes_view(r@) =~= spec_body_tx_hashes(body_view(body@).take(0)));
    }
    while i < n
        invariant
            n == body@.len(),
            0 <= i <= n,
            bytes_view(r@) == spec_body_tx_hashes(body_view(body@).take(i as int)),
        decreases n - i,
    {
        let ghost prev = bytes_view(r@);
        proof {
            assert(body_view(body@).take(i as int + 1).drop_last() =~= body_view(body@).take(
                i as int,
            ));
            assert(body_view(body@).take(i as int + 1).last() == body@[i as int]@);
        }
        match body[i].tx_hash() {
            Some(h) => {
                r.push(copy_bytes(h));
                proof {
                    assert(bytes_view(r@) =~= prev.push(r@.last()@));
                }
            },
            None => {},
        }
        i += 1;
    }
    proof {
        assert(body_view(body@).take(n as int) =~= body_view(body@));
    }
    r
}

/// Removes the entry keyed by `hash` from the level, if one exists;
/// everything else is kept, in order.
fn level_remove(level: &mut Vec<(Vec<u8>, Block)>, hash: &Vec<u8>)
    requires
        level_unique(level_view(old(level)@)),
    ensures
        level_unique(level_view(final(level)@)),
        !level_has(level_view(final(level)@), hash@),
        forall|h2: Seq<u8>|
            h2 != hash@ ==> (level_has(level_view(final(level)@), h2) <==> level_has(
                level_view(old(level)@),
                h2,
            )),
        forall|h2: Seq<u8>|
            h2 != hash@ && level_has(level_view(old(level)@), h2) ==> level_get(
                level_view(final(level)@),
                h2,
            ) == level_get(level_view(old(level)@), h2),
        !level_has(level_view(old(level)@), hash@) ==> final(level)@ == old(level)@,
{
    let ghost pre = level_view(old(level)@);
    let n = level.len();
    let mut i: usize = 0;
    while i < n
        invariant
            pre == level_view(old(level)@),
            n == pre.len(),
            0 <= i <= n,
            level@ == old(level)@,
            level_view(level@) == pre,
            forall|k: int| 0 <= k < i ==> (#[trigger] pre[k]).0 != hash@,
            level_unique(pre),
        decreases n - i,
    {
        proof {
            assert(level_view(level@)[i as int].0 == level@[i as int].0@);
        }
        if bytes_eq(&level[i].0, hash) {
            level.remove(i);
            proof {
                let post = level_view(level@);
                assert(post =~= pre.remove(i as int));
                pre.remove_ensures(i as int);
                assert forall|h2: Seq<u8>| h2 != hash@ implies (level_has(post, h2)
                    <==> level_has(pre, h2)) by {
                    if level_has(post, h2) {
                        let k = choose|k: int|
                            0 <= k < post.len() && (#[trigger] post[k]).0 == h2;
                        if k < i {
                            assert(pre[k].0 == h2);
                        } else {
                            assert(pre[k + 1].0 == h2);
                        }
                    }
                    if level_has(pre, h2) {
                        let k = choose|k: int| 0 <= k < pre.len() && (#[trigger] pre[k]).0 == h2;
                        if k < i {
                            assert(post[k].0 == h2);
                        } else {
                            assert(k != i);
                            assert(post[k - 1].0 == h2);
                        }
                    }
                }
                assert(!level_has(post, hash@)) by {
                    if level_has(post, hash@) {
                        let k = choose|k: int|
                            0 <= k < post.len() && (#[trigger] post[k]).0 == hash@;
                        if k < i {
                            assert(pre[k].0 == hash@);
                        } else {
                            assert(pre[k + 1].0 == hash@);
                        }
                    }
                }
                assert(level_unique(post)) by {
                    assert forall|a: int, b: int| 0 <= a < b < post.len() implies (
                    #[trigger] post[a]).0 != (#[trigger] post[b]).0 by {
                        let a2: int = if a < i { a } else { a + 1 };
                        let b2: int = if b < i { b } else { b + 1 };
                        assert(post[a] == pre[a2]);
                        assert(post[b] == pre[b2]);
                    }
                }
                assert forall|h2: Seq<u8>| h2 != hash@ && level_has(pre, h2) implies level_get(
                    post,
                    h2,
                ) == level_get(pre, h2) by {
                    let k = choose|k: int| 0 <= k < pre.len() && (#[trigger] pre[k]).0 == h2;
                    lemma_level_get_at(pre, h2, k);
                    if k < i {
                        assert(post[k] == pre[k]);
                        lemma_level_get_at(post, h2, k);
                    } else {
                        assert(k != i);
                        assert(post[k - 1] == pre[k]);
                        lemma_level_get_at(post, h2, k - 1);
                    }
                }
            }
            return;
        }
        i += 1;
    }
}

/// With unique keys, any entry keyed by `hash` gives the level's block for
/// `hash`.
pub proof fn lemma_level_get_at(level: Seq<(Seq<u8>, BlockV)>, hash: Seq<u8>, i: int)
    requires
        level_unique(level),
        0 <= i < level.len(),
        level[i].0 == hash,
    ensures
        level_get(level, hash) == level[i].1,
        level_has(level, hash),
{
    let j = choose|j: int| 0 <= j < level.len() && (#[trigger] level[j]).0 == hash;
    if i < j {
        assert(level[i].0 != level[j].0);
    } else if j < i {
        assert(level[j].0 != level[i].0);
    }
}

/// Stores `block` under `hash` in the level, replacing any previous entry
/// with that key.
fn level_insert(level: &mut Vec<(Vec<u8>, Block)>, hash: Vec<u8>, block: Block)
    requires
        level_unique(level_view(old(level)@)),
    ensures
        level_unique(level_view(final(level)@)),
        level_has(level_view(final(level)@), hash@),
        level_get(level_view(final(level)@), hash@) == block@,
        forall|h2: Seq<u8>|
            h2 != hash@ ==> (level_has(level_view(final(level)@), h2) <==> level_has(
                level_view(old(level)@),
                h2,
            )),
        forall|h2: Seq<u8>|
            h2 != hash@ && level_has(level_view(old(level)@), h2) ==> level_get(
                level_view(final(level)@),
                h2,
            ) == level_get(level_view(old(level)@), h2),
{
    level_remove(level, &hash);
    let ghost mid = level_view(level@);
    level.push((hash, block));
    proof {
        let post = level_view(level@);
        assert(post =~= mid.push((level@.last().0@, level@.last().1@)));
        assert(level_unique(post)) by {
            assert forall|a: int, b: int| 0 <= a < b < post.len() implies (
            #[trigger] post[a]).0 != (#[trigger] post[b]).0 by {
                if b == post.len() - 1 {
                    assert(post[a] == mid[a]);
                    assert(!level_has(mid, post[b].0));
                }
            }
        }
        lemma_level_get_at(post, post.last().0, post.len() - 1);
        assert forall|h2: Seq<u8>| h2 != post.last().0 implies (level_has(post, h2)
            <==> level_has(mid, h2)) by {
            if level_has(post, h2) {
                let k = choose|k: int| 0 <= k < post.len() && (#[trigger] post[k]).0 == h2;
                assert(mid[k].0 == h2);
            }
            if level_has(mid, h2) {
                let k = choose|k: int| 0 <= k < mid.len() && (#[trigger] mid[k]).0 == h2;
                assert(post[k].0 == h2);
            }
        }
        assert forall|h2: Seq<u8>| h2 != post.last().0 && level_has(mid, h2) implies level_get(
            post,
            h2,
        ) == level_get(mid, h2) by {
            let k = choose|k: int| 0 <= k < mid.len() && (#[trigger] mid[k]).0 == h2;
            lemma_level_get_at(mid, h2, k);
            assert(post[k] == mid[k]);
            lemma_level_get_at(post, h2, k);
        }
    }
}

/// True when some hash of `hs` already stands in `acc`.
pub open spec fn spec_dup_in(acc: Seq<Seq<u8>>, hs: Seq<Seq<u8>>) -> bool {
    exists|j: int| 0 <= j < hs.len() && acc.contains(#[trigger] hs[j])
}

/// True exactly when some hash of `hs` is in `acc`.
fn dup_any(acc: &Vec<Vec<u8>>, hs: &Vec<Vec<u8>>) -> (r: bool)
    ensures
        r == spec_dup_in(bytes_view(acc@), bytes_view(hs@)),
{
    let n = hs.len();
    let mut i: usize = 0;
    while i < n
        invariant
            n == hs@.len(),
            0 <= i <= n,
            forall|j: int| 0 <= j < i ==> !bytes_view(acc@).contains(#[trigger] bytes_view(
                hs@,
            )[j]),
        decreases n - i,
    {
        if contains_hash(acc, &hs[i]) {
            proof {
                assert(bytes_view(acc@).contains(bytes_view(hs@)[i as int]));
            }
            return true;
        }
        proof {
            assert(bytes_view(hs@)[i as int] == hs@[i as int]@);
        }
        i += 1;
    }
    false
}

/// True exactly when `l` holds `x`.
fn contains_u64(l: &Vec<u64>, x: u64) -> (r: bool)
    ensures
        r == l@.contains(x),
{
    let n = l.len();
    let mut i: usize = 0;
    while i < n
        invariant
            n == l@.len(),
            0 <= i <= n,
            forall|j: int| 0 <= j < i ==> l@[j] != x,
        decreases n - i,
    {
        if l[i] == x {
            return true;
        }
        i += 1;
    }
    false
}

/// The hashes of `s` that are not in `remove`, in order.
pub open spec fn spec_remove_hashes(s: Seq<Seq<u8>>, remove: Seq<Seq<u8>>) -> Seq<Seq<u8>>
    decreases s.len(),
{
    if s.len() == 0 {
        Seq::empty()
    } else {
        let rest = spec_remove_hashes(s.drop_last(), remove);
        if remove.contains(s.last()) {
            rest
        } else {
            rest.push(s.last())
        }
    }
}

/// Filters out of `s` every hash in `remove`.
fn filter_hashes(s: &Vec<Vec<u8>>, remove: &Vec<Vec<u8>>) -> (r: Vec<Vec<u8>>)
    ensures
        bytes_view(r@) == spec_remove_hashes(bytes_view(s@), bytes_view(remove@)),
{
    let mut r: Vec<Vec<u8>> = Vec::new();
    let n = s.len();
    let mut i: usize = 0;
    proof {
        assert(bytes_view(s@).take(0) =~= Seq::<Seq<u8>>::empty());
        assert(bytes_view(r@) =~= spec_remove_hashes(bytes_view(s@).take(0), bytes_view(
            remove@,
        )));
    }
    while i < n
        invariant
            n == s@.len(),
            0 <= i <= n,
            bytes_view(r@) == spec_remove_hashes(bytes_view(s@).take(i as int), bytes_view(
                remove@,
            )),
        decreases n - i,
    {
        let ghost prev = bytes_view(r@);
        proof {
            assert(bytes_view(s@).take(i as int + 1).drop_last() =~= bytes_view(s@).take(
                i as int,
            ));
            assert(bytes_view(s@).take(i as int + 1).last() == s@[i as int]@);
        }
        if !contains_hash(remove, &s[i]) {
            r.push(copy_bytes(&s[i]));
            proof {
                assert(bytes_view(r@) =~= prev.push(r@.last()@));
            }
        }
        i += 1;
    }
    proof {
        assert(bytes_view(s@).take(n as int) =~= bytes_view(s@));
    }
    r
}

/// The hashes of `s` in reverse order.
fn reverse_hashes(s: &Vec<Vec<u8>>) -> (r: Vec<Vec<u8>>)
    ensures
        bytes_view(r@) == bytes_view(s@).reverse(),
{
    let mut r: Vec<Vec<u8>> = Vec::new();
    let n = s.len();
    let mut i: usize = 0;
    while i < n
        invariant
            n == s@.len(),
            0 <= i <= n,
            r@.len() == i,
            forall|j: int| 0 <= j < i ==> (#[trigger] r@[j])@ == s@[n - 1 - j]@,
        decreases n - i,
    {
        r.push(copy_bytes(&s[n - 1 - i]));
        i += 1;
    }
    proof {
        assert(bytes_view(r@) =~= bytes_view(s@).reverse());
    }
    r
}

/// A copy of the block the level holds under `hash`, if any.
fn level_lookup(level: &Vec<(Vec<u8>, Block)>, hash: &Vec<u8>) -> (r: Option<Block>)
    requires
        level_unique(level_view(level@)),
    ensures
        match r {
            Some(b) => level_has(level_view(level@), hash@) && b@ == level_get(
                level_view(level@),
                hash@,
            ),
            None => !level_has(level_view(level@), hash@),
        },
{
    let n = level.len();
    let mut i: usize = 0;
    while i < n
        invariant
            n == level@.len(),
            0 <= i <= n,
            level_unique(level_view(level@)),
            forall|k: int| 0 <= k < i ==> (#[trigger] level_view(level@)[k]).0 != hash@,
        decreases n - i,
    {
        if bytes_eq(&level[i].0, hash) {
            let b = copy_block(&level[i].1);
            proof {
                assert(level_view(level@)[i as int] == (hash@, level@[i as int].1@));
                lemma_level_get_at(level_view(level@), hash@, i as int);
            }
            return Some(b);
        }
        proof {
            assert(level_view(level@)[i as int].0 == level@[i as int].0@);
        }
        i += 1;
    }
    None
}

/// Tracing the candidate chain down from level `lvl` by prevhash links:
/// the traced block hashes child-first, the accumulated transaction
/// hashes, and the prevhash below the last traced block. A missing parent
/// interrupts the chain, a parent without a proof or one that repeats a
/// transaction already accumulated rejects it.
pub open spec fn spec_trace(
    tree: Seq<Seq<(Seq<u8>, BlockV)>>,
    lvl: int,
    prev_hash: Seq<u8>,
    acc: Seq<Seq<u8>>,
) -> Result<(Seq<Seq<u8>>, Seq<Seq<u8>>, Seq<u8>), Error>
    decreases lvl + 1,
{
    if lvl < 0 {
        Ok((Seq::empty(), acc, prev_hash))
    } else if !level_has(tree[lvl], prev_hash) {
        Err(Error::CandidateChainInterrupted)
    } else {
        let b = level_get(tree[lvl], prev_hash);
        if b.proof.len() == 0 {
            Err(Error::CandidateChainHasNoProof)
        } else if spec_dup_in(acc, spec_body_tx_hashes(b.body)) {
            Err(Error::CandidateChainHasDupTx)
        } else {
            match spec_trace(tree, lvl - 1, b.header.prevhash, acc + spec_body_tx_hashes(b.body)) {
                Ok((chain, acc2, fp)) => Ok((seq![prev_hash] + chain, acc2, fp)),
                Err(e) => Err(e),
            }
        }
    }
}

/// The result of a commit: the configuration and status for the new head,
/// and the finalization outcomes to apply, in order.
pub type CommitResult = Result<(ConsensusConfiguration, ChainStatus, Vec<FinalizeOutcome>), Error>;

/// True when the proposal bytes decode, in full, to a proposal union.
pub open spec fn spec_commit_decodes(proposal: Seq<u8>) -> bool {
    &&& crate::codec::spec_dec_proposal_enum(proposal, 0) is Some
    &&& crate::codec::spec_dec_proposal_enum(proposal, 0)->Some_0.1 == proposal.len()
}

/// The block a commit works on: the decoded proposal's block with the
/// decided proof attached, or nothing when the proposal carries no block.
pub open spec fn spec_commit_block_of(proposal: Seq<u8>, proof: Seq<u8>) -> Option<BlockV>
    recommends
        spec_commit_decodes(proposal),
{
    match crate::codec::spec_dec_proposal_enum(proposal, 0)->Some_0.0.proposal {
        Some(bft) => match bft.proposal {
            Some(b) => Some(BlockV { proof, ..b }),
            None => None,
        },
        None => None,
    }
}

/// The block finalized for main-chain position `idx`: the committed block
/// itself at the top level, a fork-tree block below it.
pub open spec fn spec_block_at(
    tree: Seq<Seq<(Seq<u8>, BlockV)>>,
    committed: BlockV,
    top: int,
    rev: Seq<Seq<u8>>,
    idx: int,
) -> BlockV {
    if idx == top {
        committed
    } else {
        level_get(tree[idx], rev[idx])
    }
}

/// The transaction hashes of the first `fc` finalized blocks, in order.
pub open spec fn spec_finalized_tx_hashes(
    tree: Seq<Seq<(Seq<u8>, BlockV)>>,
    committed: BlockV,
    top: int,
    rev: Seq<Seq<u8>>,
    fc: int,
) -> Seq<Seq<u8>>
    decreases fc,
{
    if fc <= 0 {
        Seq::empty()
    } else {
        spec_finalized_tx_hashes(tree, committed, top, rev, fc - 1) + spec_body_tx_hashes(
            spec_block_at(tree, committed, top, rev, fc - 1).body,
        )
    }
}

/// The system configuration in force when the `idx`-th finalized block of
/// a commit is reached: the fold of the earlier finalized blocks' utxo
/// effects over the configuration the commit started from.
pub open spec fn spec_commit_cfg(
    tree: Seq<Seq<(Seq<u8>, BlockV)>>,
    committed: BlockV,
    top: int,
    rev: Seq<Seq<u8>>,
    cfg0: SystemConfigV,
    idx: int,
) -> SystemConfigV
    decreases idx,
{
    if idx <= 0 {
        cfg0
    } else {
        let b = spec_block_at(tree, committed, top, rev, idx - 1);
        spec_utxo_effects(
            spec_commit_cfg(tree, committed, top, rev, cfg0, idx - 1),
            b.body,
            b.header.height,
        ).0
    }
}

/// The full postcondition of a commit, relating the chain before (`pre`)
/// and after (`post`) to the result: every refusal with its exact cause
/// and frame, and on success the adopted chain, the fork-tree shift, the
/// new head, and one pinned finalization outcome per confirmed block.
pub open spec fn spec_commit_post(
    pre: Chain,
    post: Chain,
    height: u64,
    proposal: Seq<u8>,
    proof_bytes: Seq<u8>,
    block_hash: Seq<u8>,
    archived: Seq<u64>,
    r: CommitResult,
) -> bool {
    let bn = pre.block_number;
    let bdn = pre.block_delay_number;
    let tree = tree_view(pre.fork_tree@);
    &&& (r == CommitResult::Err(Error::ProposalTooLow(height, bn)) <==> height <= bn)
    &&& (r == CommitResult::Err(Error::ProposalTooHigh(height, bn)) <==> (height > bn
        && height as int > bn as int + bdn as int + 1))
    &&& ((height <= bn || height as int > bn as int + bdn as int + 1) ==> post
        == pre)
    &&& (height > bn && height as int <= bn as int + bdn as int + 1 ==> {
        if !spec_commit_decodes(proposal) {
            r == CommitResult::Err(Error::DecodeError)
                && (post == pre)
        } else {
            match spec_commit_block_of(proposal, proof_bytes) {
                None => r == CommitResult::Err(Error::NoneProposal) && (post
                    == pre),
                Some(committed) => {
                    let trace = spec_trace(
                        tree,
                        height as int - bn as int - 2,
                        committed.header.prevhash,
                        spec_body_tx_hashes(committed.body),
                    );
                    match trace {
                        Err(e2) => r == CommitResult::Err(e2) && (post == pre),
                        Ok(tr) => {
                            let cand = seq![block_hash] + tr.0;
                            if tr.2 != pre.block_hash@ {
                                &&& r == CommitResult::Err(
                                    Error::CandidateChainDoesNotFit,
                                )
                                &&& !level_has(
                                    tree_view(post.fork_tree@)[0],
                                    cand.last(),
                                )
                                &&& forall|l: int|
                                    1 <= l < post.fork_tree@.len()
                                        ==> #[trigger] tree_view(
                                        post.fork_tree@,
                                    )[l] == tree[l]
                                &&& post.block_number == bn
                                &&& post.block_hash == pre.block_hash
                                &&& post.main_chain == pre.main_chain
                                &&& post.candidate_block == pre.candidate_block
                                &&& post.auth == pre.auth
                                &&& post.pool == pre.pool
                            } else if cand.len() <= pre.main_chain@.len() {
                                r == CommitResult::Err(Error::NoForkTree)
                                    && (post == pre)
                            } else {
                                let top = height as int - bn as int - 1;
                                let rev = cand.reverse();
                                let fc: int = if cand.len() > bdn {
                                    cand.len() - bdn
                                } else {
                                    0
                                };
                                &&& r is Ok
                                &&& cand.len() == height - bn
                                &&& post.block_number as int == bn + fc
                                &&& (fc > 0 ==> post.block_hash@ == rev[fc
                                    - 1])
                                &&& (fc == 0 ==> post.block_hash == pre.block_hash)
                                &&& bytes_view(post.main_chain@) == rev.skip(
                                    fc,
                                )
                                &&& (fc == 0 ==> bytes_view(
                                    post.main_chain_tx_hash@,
                                ) == tr.1)
                                &&& (fc > 0 ==> bytes_view(
                                    post.main_chain_tx_hash@,
                                ) == spec_remove_hashes(
                                    tr.1,
                                    spec_finalized_tx_hashes(
                                        tree,
                                        committed,
                                        top,
                                        rev,
                                        fc,
                                    ),
                                ))
                                &&& post.candidate_block is None
                                &&& forall|l: int|
                                    0 <= l < post.fork_tree@.len()
                                        ==> #[trigger] tree_view(
                                        post.fork_tree@,
                                    )[l] == (if l + fc < tree.len() {
                                        tree[l + fc]
                                    } else {
                                        Seq::empty()
                                    })
                                &&& post.auth.spec_sys_config()
                                    == spec_commit_cfg(
                                    tree,
                                    committed,
                                    top,
                                    rev,
                                    pre.auth.spec_sys_config(),
                                    fc,
                                )
                                &&& ({
                                    let out = r->Ok_0.2;
                                    &&& out@.len() == fc
                                    &&& forall|i: int|
                                        0 <= i < fc ==> spec_finalize_outcome_ok(
                                            #[trigger] out@[i],
                                            spec_block_at(tree, committed, top, rev, i),
                                            rev[i],
                                            !archived.contains(
                                                spec_block_at(
                                                    tree,
                                                    committed,
                                                    top,
                                                    rev,
                                                    i,
                                                ).header.height,
                                            ),
                                            spec_commit_cfg(
                                                tree,
                                                committed,
                                                top,
                                                rev,
                                                pre.auth.spec_sys_config(),
                                                i,
                                            ),
                                        )
                                })
                                &&& r->Ok_0.0@ == (ConsensusConfigurationV {
                                    height,
                                    block_interval: post.auth.spec_sys_config().block_interval,
                                    validators: post.auth.spec_sys_config().validators,
                                })
                                &&& r->Ok_0.1@ == (crate::types::ChainStatusV {
                                    version: post.auth.spec_sys_config().version,
                                    chain_id: post.auth.spec_sys_config().chain_id,
                                    height,
                                    hash: Some(post.block_hash@),
                                    address: None,
                                })
                            }
                        },
                    }
                },
            }
        }
    })
}

impl Chain {
    /// Commits a decided proposal: traces its candidate chain down to the
    /// finalized head, adopts it when it is longer than the main chain,
    /// finalizes everything deeper than the confirmation delay, and
    /// returns the consensus configuration and chain status for the new
    /// head together with the finalization outcomes the surrounding
    /// process must apply, in order. `block_hash` is the hash of the
    /// decided block's encoded header; `archived_heights` lists the
    /// heights already archived, which are not archived again.
    #[verifier::rlimit(100)]
    #[verifier::spinoff_prover]
    pub fn commit_block(
        &mut self,
        height: u64,
        proposal: &Vec<u8>,
        proof: &Vec<u8>,
        block_hash: &Vec<u8>,
        archived_heights: &Vec<u64>,
    ) -> (r: CommitResult)
        requires
            old(self).wf(),
        ensures
            final(self).wf(),
            final(self).block_delay_number == old(self).block_delay_number,
            spec_commit_post(
                *old(self),
                *final(self),
                height,
                proposal@,
                proof@,
                block_hash@,
                archived_heights@,
                r,
            ),
    {
        let ghost bn = self.block_number;
        let ghost tree = tree_view(self.fork_tree@);
        if height <= self.block_number {
            return Err(Error::ProposalTooLow(height, self.block_number));
        }
        if (height as u128) > (self.block_number as u128) + (self.block_delay_number as u128)
            + 1 {
            return Err(Error::ProposalTooHigh(height, self.block_number));
        }
        let (pe, consumed) = match crate::codec::dec_proposal_enum(proposal, 0) {
            Some(p) => p,
            None => {
                return Err(Error::DecodeError);
            },
        };
        if consumed != proposal.len() {
            return Err(Error::DecodeError);
        }
        let bft = match pe.proposal {
            Some(b) => b,
            None => {
                return Err(Error::NoneProposal);
            },
        };
        let mut full_block = match bft.proposal {
            Some(b) => b,
            None => {
                return Err(Error::NoneProposal);
            },
        };
        full_block.proof = copy_bytes(proof);
        let ghost committed = full_block@;
        proof {
            assert(committed =~= spec_commit_block_of(proposal@, proof@)->Some_0);
        }

        let tree_len = self.fork_tree.len();
        proof {
            assert(tree_len == self.fork_tree@.len());
            assert(height as int - self.block_number as int - 1 <= self.block_delay_number as int);
        }
        let l_total = (height - self.block_number - 1) as usize;

        // Trace the candidate chain down to the finalized head.
        let mut acc = body_tx_hashes(&full_block.body);
        let mut chain_hashes: Vec<Vec<u8>> = Vec::new();
        chain_hashes.push(copy_bytes(block_hash));
        let mut chain_blocks: Vec<Block> = Vec::new();
        chain_blocks.push(copy_block(&full_block));
        let mut prev_hash = copy_bytes(&full_block.header.prevhash);
        let ghost overall = spec_trace(
            tree,
            l_total as int - 1,
            committed.header.prevhash,
            spec_body_tx_hashes(committed.body),
        );
        let mut lvl_i: usize = l_total;
        proof {
            assert(bytes_view(chain_hashes@).skip(1) =~= Seq::<Seq<u8>>::empty());
            if spec_trace(tree, lvl_i as int - 1, prev_hash@, bytes_view(acc@)) is Ok {
                let tr = spec_trace(tree, lvl_i as int - 1, prev_hash@, bytes_view(acc@))->Ok_0;
                assert(bytes_view(chain_hashes@).skip(1) + tr.0 =~= tr.0);
            }
        }
        while lvl_i > 0
            invariant
                self.wf(),
                *self == *old(self),
                tree == tree_view(self.fork_tree@),
                bn == self.block_number,
                tree.len() == self.fork_tree@.len(),
                0 <= lvl_i <= l_total,
                l_total < tree.len(),
                l_total == height - bn - 1,
                height > bn,
                height as int <= bn as int + old(self).block_delay_number as int + 1,
                spec_commit_decodes(proposal@),
                spec_commit_block_of(proposal@, proof@) == Some(committed),
                chain_hashes@.len() == 1 + (l_total - lvl_i),
                chain_blocks@.len() == chain_hashes@.len(),
                bytes_view(chain_hashes@)[0] == block_hash@,
                chain_blocks@[0]@ == committed,
                forall|k: int|
                    1 <= k < chain_hashes@.len() ==> level_has(
                        #[trigger] tree[l_total - k],
                        bytes_view(chain_hashes@)[k],
                    ) && chain_blocks@[k]@ == level_get(
                        tree[l_total - k],
                        bytes_view(chain_hashes@)[k],
                    ),
                overall == spec_trace(
                    tree,
                    l_total as int - 1,
                    committed.header.prevhash,
                    spec_body_tx_hashes(committed.body),
                ),
                match spec_trace(tree, lvl_i as int - 1, prev_hash@, bytes_view(acc@)) {
                    Ok(tr) => overall matches Ok(o) && o.0 == bytes_view(chain_hashes@).skip(1)
                        + tr.0 && o.1 == tr.1 && o.2 == tr.2,
                    Err(e) => overall == Result::<
                        (Seq<Seq<u8>>, Seq<Seq<u8>>, Seq<u8>),
                        Error,
                    >::Err(e),
                },
            decreases lvl_i,
        {
            let cur = lvl_i - 1;
            proof {
                assert(tree[cur as int] == level_view(self.fork_tree@[cur as int]@));
            }
            let parent = match level_lookup(&self.fork_tree[cur], &prev_hash) {
                Some(b) => b,
                None => {
                    proof {
                        assert(spec_trace(tree, cur as int, prev_hash@, bytes_view(acc@))
                            == Result::<(Seq<Seq<u8>>, Seq<Seq<u8>>, Seq<u8>), Error>::Err(
                            Error::CandidateChainInterrupted,
                        ));
                    }
                    return Err(Error::CandidateChainInterrupted);
                },
            };
            if parent.proof.len() == 0 {
                proof {
                    assert(spec_trace(tree, cur as int, prev_hash@, bytes_view(acc@))
                        == Result::<(Seq<Seq<u8>>, Seq<Seq<u8>>, Seq<u8>), Error>::Err(
                        Error::CandidateChainHasNoProof,
                    ));
                }
                return Err(Error::CandidateChainHasNoProof);
            }
            let mut parent_hashes = body_tx_hashes(&parent.body);
            if dup_any(&acc, &parent_hashes) {
                proof {
                    assert(spec_trace(tree, cur as int, prev_hash@, bytes_view(acc@))
                        == Result::<(Seq<Seq<u8>>, Seq<Seq<u8>>, Seq<u8>), Error>::Err(
                        Error::CandidateChainHasDupTx,
                    ));
                }
                return Err(Error::CandidateChainHasDupTx);
            }
            let ghost prev_chain = bytes_view(chain_hashes@);
            let ghost prev_acc = bytes_view(acc@);
            let next_prev = copy_bytes(&parent.header.prevhash);
            chain_hashes.push(copy_bytes(&prev_hash));
            chain_blocks.push(parent);
            acc.append(&mut parent_hashes);
            proof {
                let b = level_get(tree[cur as int], prev_hash@);
                assert(chain_blocks@[chain_blocks@.len() - 1]@ == b);
                assert(bytes_view(chain_hashes@) =~= prev_chain.push(prev_hash@));
                assert(bytes_view(acc@) =~= prev_acc + spec_body_tx_hashes(b.body));
                assert forall|k: int| 1 <= k < chain_hashes@.len() implies level_has(
                    #[trigger] tree[l_total - k],
                    bytes_view(chain_hashes@)[k],
                ) && chain_blocks@[k]@ == level_get(
                    tree[l_total - k],
                    bytes_view(chain_hashes@)[k],
                ) by {
                    if k < chain_hashes@.len() - 1 {
                        assert(bytes_view(chain_hashes@)[k] == prev_chain[k]);
                        assert(chain_blocks@[k] == chain_blocks@.subrange(
                            0,
                            chain_blocks@.len() - 1,
                        )[k]);
                    }
                }
                if spec_trace(tree, cur as int - 1, b.header.prevhash, bytes_view(acc@))
                    is Ok {
                    let tr2 = spec_trace(
                        tree,
                        cur as int - 1,
                        b.header.prevhash,
                        bytes_view(acc@),
                    )->Ok_0;
                    assert(spec_trace(tree, cur as int, prev_hash@, prev_acc) == Result::<
                        (Seq<Seq<u8>>, Seq<Seq<u8>>, Seq<u8>),
                        Error,
                    >::Ok((seq![prev_hash@] + tr2.0, tr2.1, tr2.2)));
                    assert(prev_chain.skip(1) + (seq![prev_hash@] + tr2.0) =~= bytes_view(
                        chain_hashes@,
                    ).skip(1) + tr2.0);
                }
            }
            prev_hash = next_prev;
            lvl_i = cur;
        }
        proof {
            assert(spec_trace(tree, -1, prev_hash@, bytes_view(acc@)) == Result::<
                (Seq<Seq<u8>>, Seq<Seq<u8>>, Seq<u8>),
                Error,
            >::Ok((Seq::empty(), bytes_view(acc@), prev_hash@)));
            assert(bytes_view(chain_hashes@).skip(1) + Seq::<Seq<u8>>::empty() =~= bytes_view(
                chain_hashes@,
            ).skip(1));
            assert(overall matches Ok(o) && o.0 == bytes_view(chain_hashes@).skip(1) && o.1
                == bytes_view(acc@) && o.2 == prev_hash@);
            assert(seq![block_hash@] + bytes_view(chain_hashes@).skip(1) =~= bytes_view(
                chain_hashes@,
            ));
        }

        // The chain must root at the finalized head.
        if !bytes_eq(&prev_hash, &self.block_hash) {
            let last = chain_hashes.len() - 1;
            let dangling = copy_bytes(&chain_hashes[last]);
            let ghost old_tree_seq = self.fork_tree@;
            let mut level0 = self.fork_tree.remove(0);
            proof {
                assert(level_view(level0@) == tree[0]);
            }
            level_remove(&mut level0, &dangling);
            self.fork_tree.insert(0, level0);
            proof {
                assert(self.fork_tree@ =~= old_tree_seq.update(0, self.fork_tree@[0]));
                assert(tree_view(self.fork_tree@)[0] == level_view(self.fork_tree@[0]@));
                assert forall|l: int| 1 <= l < self.fork_tree@.len()
                    implies #[trigger] tree_view(self.fork_tree@)[l] == tree[l] by {
                    assert(self.fork_tree@[l] == old_tree_seq[l]);
                }
                assert forall|l: int| 0 <= l < self.fork_tree@.len() implies level_unique(
                    #[trigger] tree_view(self.fork_tree@)[l],
                ) by {
                    if l == 0 {
                    } else {
                        assert(tree_view(self.fork_tree@)[l] == tree[l]);
                    }
                }
                assert((seq![block_hash@] + overall->Ok_0.0).last() == bytes_view(
                    chain_hashes@,
                )[chain_hashes@.len() - 1]);
                assert(dangling@ == bytes_view(chain_hashes@)[chain_hashes@.len() - 1]);
            }
            return Err(Error::CandidateChainDoesNotFit);
        }

        // Adopt the candidate chain only when it is longer.
        if chain_hashes.len() <= self.main_chain.len() {
            return Err(Error::NoForkTree);
        }

        let ghost cand = bytes_view(chain_hashes@);
        let rev = reverse_hashes(&chain_hashes);
        let ghost revv = bytes_view(rev@);
        let bdn = self.block_delay_number as usize;
        let mut outcomes: Vec<FinalizeOutcome> = Vec::new();
        let ghost top = l_total as int;
        let ghost cfg0 = self.auth.spec_sys_config();
        if rev.len() > bdn {
            let fc = rev.len() - bdn;
            let mut all_finalized: Vec<Vec<u8>> = Vec::new();
            let mut idx: usize = 0;
            proof {
                assert(bytes_view(all_finalized@) =~= spec_finalized_tx_hashes(
                    tree,
                    committed,
                    top,
                    revv,
                    0,
                ));
            }
            while idx < fc
                invariant
                    self.wf(),
                    0 <= idx <= fc,
                    fc == revv.len() - self.block_delay_number,
                    bdn == self.block_delay_number,
                    self.block_number == old(self).block_number,
                    self.block_hash == old(self).block_hash,
                    self.block_delay_number == old(self).block_delay_number,
                    self.fork_tree == old(self).fork_tree,
                    self.main_chain == old(self).main_chain,
                    self.main_chain_tx_hash == old(self).main_chain_tx_hash,
                    self.candidate_block == old(self).candidate_block,
                    tree == tree_view(self.fork_tree@),
                    bn == self.block_number,
                    top == l_total,
                    l_total < tree.len(),
                    revv == bytes_view(rev@),
                    revv.len() == chain_blocks@.len(),
                    revv == cand.reverse(),
                    chain_hashes@.len() == l_total + 1,
                    cand == bytes_view(chain_hashes@),
                    chain_blocks@.len() == chain_hashes@.len(),
                    chain_blocks@[0]@ == committed,
                    fc <= revv.len(),
                    forall|k: int|
                        1 <= k < chain_hashes@.len() ==> level_has(
                            #[trigger] tree[l_total - k],
                            cand[k],
                        ) && chain_blocks@[k]@ == level_get(tree[l_total - k], cand[k]),
                    outcomes@.len() == idx,
                    cfg0 == old(self).auth.spec_sys_config(),
                    self.auth.spec_sys_config() == spec_commit_cfg(
                        tree,
                        committed,
                        top,
                        revv,
                        cfg0,
                        idx as int,
                    ),
                    forall|i: int|
                        0 <= i < idx ==> (#[trigger] outcomes@[i]).block@ == spec_block_at(
                            tree,
                            committed,
                            top,
                            revv,
                            i,
                        ) && outcomes@[i].block_hash@ == revv[i] && outcomes@[i].height
                            == spec_block_at(tree, committed, top, revv, i).header.height
                            && spec_finalize_outcome_ok(
                            outcomes@[i],
                            spec_block_at(tree, committed, top, revv, i),
                            revv[i],
                            !archived_heights@.contains(
                                spec_block_at(tree, committed, top, revv, i).header.height,
                            ),
                            spec_commit_cfg(tree, committed, top, revv, cfg0, i),
                        ),
                    bytes_view(all_finalized@) == spec_finalized_tx_hashes(
                        tree,
                        committed,
                        top,
                        revv,
                        idx as int,
                    ),
                decreases fc - idx,
            {
                let k = chain_blocks.len() - 1 - idx;
                proof {
                    assert(revv[idx as int] == cand[cand.len() - 1 - idx]);
                    assert(k == cand.len() - 1 - idx);
                    if k != 0 {
                        assert(chain_blocks@[k as int]@ == level_get(
                            tree[l_total - k],
                            cand[k as int],
                        ));
                        assert(l_total - k == idx);
                    }
                    assert(chain_blocks@[k as int]@ == spec_block_at(
                        tree,
                        committed,
                        top,
                        revv,
                        idx as int,
                    ));
                }
                let block_i = copy_block(&chain_blocks[k]);
                let hash_i = copy_bytes(&rev[idx]);
                let is_new = !contains_u64(archived_heights, block_i.header.height);
                let mut fin_hashes = body_tx_hashes(&block_i.body);
                let ghost prev_fin = bytes_view(all_finalized@);
                all_finalized.append(&mut fin_hashes);
                proof {
                    assert(bytes_view(all_finalized@) =~= prev_fin + spec_body_tx_hashes(
                        spec_block_at(tree, committed, top, revv, idx as int).body,
                    ));
                }
                let ghost spec_b = spec_block_at(tree, committed, top, revv, idx as int);
                proof {
                    assert(is_new == !archived_heights@.contains(spec_b.header.height));
                    assert(spec_commit_cfg(tree, committed, top, revv, cfg0, idx as int + 1)
                        == spec_utxo_effects(
                        spec_commit_cfg(tree, committed, top, revv, cfg0, idx as int),
                        spec_b.body,
                        spec_b.header.height,
                    ).0);
                }
                let outcome = self.finalize_block(block_i, hash_i, is_new);
                outcomes.push(outcome);
                idx += 1;
            }
            self.block_number = self.block_number + (fc as u64);
            self.block_hash = copy_bytes(&rev[fc - 1]);
            // Retain the unconfirmed suffix as the new main chain.
            let mut new_main: Vec<Vec<u8>> = Vec::new();
            let mut m: usize = fc;
            while m < rev.len()
                invariant
                    fc <= m <= rev@.len(),
                    revv == bytes_view(rev@),
                    new_main@.len() == m - fc,
                    forall|j: int|
                        0 <= j < new_main@.len() ==> (#[trigger] new_main@[j])@ == revv[fc + j],
                decreases rev@.len() - m,
            {
                new_main.push(copy_bytes(&rev[m]));
                m += 1;
            }
            proof {
                assert(bytes_view(new_main@) =~= revv.skip(fc as int));
            }
            self.main_chain = new_main;
            self.main_chain_tx_hash = filter_hashes(&acc, &all_finalized);
            // Drop the finalized levels and pad the tree back to size.
            let ghost pre_split = self.fork_tree@;
            let tail = self.fork_tree.split_off(fc);
            self.fork_tree = tail;
            proof {
                assert forall|l: int| 0 <= l < self.fork_tree@.len() implies #[trigger] tree_view(
                    self.fork_tree@,
                )[l] == tree[l + fc] by {
                    assert(self.fork_tree@[l] == pre_split[l + fc]);
                    assert(tree_view(self.fork_tree@)[l] == level_view(self.fork_tree@[l]@));
                }
            }
            let size: usize = 2 * (self.block_delay_number as usize) + 2;
            let ghost main_snap = self.main_chain;
            let ghost mc_tx_snap = self.main_chain_tx_hash;
            let ghost auth_snap = self.auth;
            proof {
                assert(auth_snap.spec_sys_config() == spec_commit_cfg(
                    tree,
                    committed,
                    top,
                    revv,
                    cfg0,
                    fc as int,
                ));
            }
            let ghost pool_snap = self.pool;
            let ghost bn_snap = self.block_number;
            let ghost bh_snap = self.block_hash;
            while self.fork_tree.len() < size
                invariant
                    size == 2 * (self.block_delay_number as int) + 2,
                    size <= usize::MAX,
                    self.fork_tree@.len() <= size,
                    self.fork_tree@.len() >= tree.len() - fc,
                    fc >= 1,
                    forall|l: int|
                        0 <= l < self.fork_tree@.len() ==> #[trigger] tree_view(
                            self.fork_tree@,
                        )[l] == (if l + fc < tree.len() {
                            tree[l + fc]
                        } else {
                            Seq::<(Seq<u8>, BlockV)>::empty()
                        }),
                    tree.len() == size,
                    self.main_chain == main_snap,
                    self.main_chain_tx_hash == mc_tx_snap,
                    self.auth == auth_snap,
                    self.pool == pool_snap,
                    self.block_number == bn_snap,
                    self.block_hash == bh_snap,
                    self.block_delay_number == old(self).block_delay_number,
                    self.candidate_block == old(self).candidate_block,
                decreases size - self.fork_tree@.len(),
            {
                let ghost pre_pad = self.fork_tree@;
                self.fork_tree.push(Vec::new());
                proof {
                    assert forall|l: int| 0 <= l < self.fork_tree@.len()
                        implies #[trigger] tree_view(self.fork_tree@)[l] == (if l + fc
                        < tree.len() {
                        tree[l + fc]
                    } else {
                        Seq::<(Seq<u8>, BlockV)>::empty()
                    }) by {
                        if l < pre_pad.len() {
                            assert(self.fork_tree@[l] == pre_pad[l]);
                            assert(tree_view(self.fork_tree@)[l] == level_view(
                                self.fork_tree@[l]@,
                            ));
                            assert(tree_view(pre_pad)[l] == level_view(pre_pad[l]@));
                        } else {
                            assert(tree_view(self.fork_tree@)[l] == level_view(
                                self.fork_tree@[l]@,
                            ));
                            assert(self.fork_tree@[l]@.len() == 0);
                            assert(level_view(self.fork_tree@[l]@) =~= Seq::<
                                (Seq<u8>, BlockV),
                            >::empty());
                        }
                    }
                }
            }
            self.candidate_block = None;
        } else {
            self.main_chain = rev;
            self.main_chain_tx_hash = acc;
            self.candidate_block = None;
            proof {
                assert(revv.skip(0) =~= revv);
                assert(spec_commit_cfg(tree, committed, top, revv, cfg0, 0) == cfg0);
            }
        }
        let cfg = self.auth.get_system_config();
        let config = ConsensusConfiguration {
            height,
            block_interval: cfg.block_interval,
            validators: cfg.validators,
        };
        let status = ChainStatus {
            version: cfg.version,
            chain_id: cfg.chain_id,
            height,
            hash: Some(copy_bytes(&self.block_hash)),
            address: None,
        };
        proof {
            assert(config@ =~= (ConsensusConfigurationV {
                height,
                block_interval: self.auth.spec_sys_config().block_interval,
                validators: self.auth.spec_sys_config().validators,
            }));
            assert(status@ =~= (crate::types::ChainStatusV {
                version: self.auth.spec_sys_config().version,
                chain_id: self.auth.spec_sys_config().chain_id,
                height,
                hash: Some(self.block_hash@),
                address: None,
            }));
        }
        Ok((config, status, outcomes))
    }
}

/// The result of processing one synced block: the configuration and
/// status for the new head and the finalization outcome to apply.
pub type ProcessResult = Result<(ConsensusConfiguration, ChainStatus, FinalizeOutcome), Error>;

/// The admission verdict on a list of raw transactions against the
/// authenticator and the pending main chain: the first transaction the
/// authenticator refuses decides, and an accepted transaction whose hash
/// already rides the main chain is a duplicate.
pub open spec fn spec_check_transactions(
    auth: Authentication,
    mc: Seq<Seq<u8>>,
    txs: Seq<RawTransaction>,
    vds: Seq<KmsVerdict>,
) -> Result<(), Error>
    decreases txs.len(),
{
    if txs.len() == 0 {
        Ok(())
    } else {
        match auth.spec_check_raw_tx(
            txs.first()@,
            vds.first().hash_ok,
            crate::auth::recovered_view(vds.first().recovered@),
        ) {
            Err(e) => Err(e),
            Ok(h) => {
                if mc.contains(h) {
                    Err(Error::DuplicateTx)
                } else {
                    spec_check_transactions(auth, mc, txs.drop_first(), vds.drop_first())
                }
            },
        }
    }
}

impl Chain {
    /// Finalizes the genesis block through the standard path when the
    /// stored chain is empty; at any later height nothing happens.
    pub fn init(&mut self, init_block_number: u64, block_is_new: bool) -> (r: Option<
        FinalizeOutcome,
    >)
        requires
            old(self).wf(),
        ensures
            final(self).wf(),
            r is Some <==> init_block_number == 0,
            init_block_number != 0 ==> *final(self) == *old(self),
            r matches Some(o) ==> ({
                &&& o.block@.header.height == 0
                &&& o.block@.header.prevhash == old(self).genesis.prevhash@
                &&& o.block@.header.timestamp == old(self).genesis.timestamp
                &&& o.block@.body.len() == 0
                &&& o.block@.proof.len() == 0
                &&& spec_finalize_outcome_ok(
                    o,
                    o.block@,
                    old(self).block_hash@,
                    block_is_new,
                    old(self).auth.spec_sys_config(),
                )
                &&& spec_finalize_state_ok(*old(self), *final(self), o.block@)
                &&& final(self).auth.spec_sys_config() == old(self).auth.spec_sys_config()
                &&& final(self).block_number == old(self).block_number
                &&& final(self).block_hash == old(self).block_hash
                &&& final(self).main_chain == old(self).main_chain
                &&& final(self).main_chain_tx_hash == old(self).main_chain_tx_hash
                &&& final(self).fork_tree == old(self).fork_tree
                &&& final(self).candidate_block == old(self).candidate_block
            }),
    {
        if init_block_number == 0 {
            let genesis_block = self.genesis.genesis_block();
            let hash = copy_bytes(&self.block_hash);
            let ghost gv = genesis_block@;
            let outcome = self.finalize_block(genesis_block, hash, block_is_new);
            proof {
                assert(spec_body_tx_hashes(gv.body) =~= Seq::<Seq<u8>>::empty());
                assert(spec_utxo_effects(old(self).auth.spec_sys_config(), gv.body, 0) == (
                old(self).auth.spec_sys_config(),
                Seq::<RegionWriteV>::empty(),
                Seq::<ConsensusConfigurationV>::empty(),
                ));
            }
            Some(outcome)
        } else {
            None
        }
    }

    /// Backfills the authenticator's replay window at startup from the
    /// stored compact bodies of the last `BLOCKLIMIT` blocks.
    pub fn init_auth(
        &mut self,
        init_block_number: u64,
        bodies: &Vec<crate::types::CompactBlockBody>,
    )
        requires
            old(self).wf(),
            old(self).auth.history_hashes@.len() == 0,
            bodies@.len() == crate::auth::spec_init_count(init_block_number),
        ensures
            final(self).wf(),
            final(self).auth.spec_current_block_number() == init_block_number,
            forall|h2: u64|
                final(self).auth.has_height(h2) <==> (init_block_number > 0
                    && crate::auth::spec_init_begin(init_block_number) <= h2
                    <= init_block_number),
            forall|h2: u64|
                final(self).auth.has_height(h2) ==> final(self).auth.hashes_at(h2) == bodies@[
                    h2 - crate::auth::spec_init_begin(init_block_number)]@.tx_hashes,
            final(self).block_number == old(self).block_number,
            final(self).block_hash == old(self).block_hash,
            final(self).block_delay_number == old(self).block_delay_number,
            final(self).main_chain == old(self).main_chain,
            final(self).main_chain_tx_hash == old(self).main_chain_tx_hash,
            final(self).fork_tree == old(self).fork_tree,
            final(self).candidate_block == old(self).candidate_block,
            final(self).pool == old(self).pool,
            final(self).genesis == old(self).genesis,
            final(self).auth.spec_sys_config() == old(self).auth.spec_sys_config(),
    {
        self.auth.init(init_block_number, bodies);
    }

    /// Admits every transaction of a block body, with one key-management
    /// verdict per transaction, and refuses any hash the pending main
    /// chain already carries.
    pub fn check_transactions(
        &self,
        raw_txs: &Vec<RawTransaction>,
        verdicts: &Vec<KmsVerdict>,
    ) -> (r: Result<(), Error>)
        requires
            verdicts@.len() == raw_txs@.len(),
        ensures
            r == spec_check_transactions(
                self.auth,
                bytes_view(self.main_chain_tx_hash@),
                raw_txs@,
                verdicts@,
            ),
    {
        let ghost mc = bytes_view(self.main_chain_tx_hash@);
        let n = raw_txs.len();
        let mut i: usize = 0;
        proof {
            assert(raw_txs@.skip(0) =~= raw_txs@);
            assert(verdicts@.skip(0) =~= verdicts@);
        }
        while i < n
            invariant
                n == raw_txs@.len(),
                verdicts@.len() == n,
                0 <= i <= n,
                mc == bytes_view(self.main_chain_tx_hash@),
                spec_check_transactions(self.auth, mc, raw_txs@, verdicts@)
                    == spec_check_transactions(
                    self.auth,
                    mc,
                    raw_txs@.skip(i as int),
                    verdicts@.skip(i as int),
                ),
            decreases n - i,
        {
            proof {
                assert(raw_txs@.skip(i as int).len() > 0);
                assert(raw_txs@.skip(i as int).first() == raw_txs@[i as int]);
                assert(verdicts@.skip(i as int).first() == verdicts@[i as int]);
                assert(raw_txs@.skip(i as int).drop_first() =~= raw_txs@.skip(i as int + 1));
                assert(verdicts@.skip(i as int).drop_first() =~= verdicts@.skip(i as int + 1));
            }
            let tx_hash = match self.auth.check_raw_tx(&raw_txs[i], &verdicts[i]) {
                Ok(h) => h,
                Err(e) => {
                    return Err(e);
                },
            };
            if self.check_dup_tx(&tx_hash) {
                return Err(Error::DuplicateTx);
            }
            i += 1;
        }
        proof {
            assert(raw_txs@.skip(n as int).len() == 0);
        }
        Ok(())
    }

}

/// The full postcondition of processing one synced block, relating the
/// chain before (`pre`) and after (`post`) to the result: every refusal
/// with its exact cause and an unchanged chain, and on success the head
/// advance, the finalization's window, pool and configuration effects, and
/// the pinned finalization outcome.
pub open spec fn spec_process_post(
    pre: Chain,
    post: Chain,
    block: Block,
    block_hash: Seq<u8>,
    consensus_result: Result<bool, Vec<u8>>,
    verdicts: Seq<KmsVerdict>,
    block_is_new: bool,
    r: ProcessResult,
) -> bool {
    let h = block@.header.height;
    let bn = pre.block_number;
    let bdn = pre.block_delay_number;
    &&& (r is Err ==> post == pre)
    &&& (h <= bn ==> r == ProcessResult::Err(Error::ProposalTooLow(h, bn)))
    &&& ((h > bn && h as int > bn as int + bdn as int + 1) ==> r == ProcessResult::Err(
        Error::ProposalTooHigh(h, bn),
    ))
    &&& (h > bn && h as int <= bn as int + bdn as int + 1 ==> {
        if block@.header.prevhash != pre.block_hash@ {
            r == ProcessResult::Err(Error::BlockCheckError)
        } else {
            match consensus_result {
                Err(m) => r matches Err(e) && e matches Error::InternalError(m2) && m2@ == m@,
                Ok(false) => r == ProcessResult::Err(Error::ConsensusProposalCheckError),
                Ok(true) => {
                    match spec_check_transactions(
                        pre.auth,
                        bytes_view(pre.main_chain_tx_hash@),
                        block.body@,
                        verdicts,
                    ) {
                        Err(e2) => r == ProcessResult::Err(e2),
                        Ok(_) => {
                            &&& r is Ok
                            &&& post.block_number == h
                            &&& post.block_hash@ == block_hash
                            &&& spec_finalize_state_ok(pre, post, block@)
                            &&& spec_finalize_outcome_ok(
                                r->Ok_0.2,
                                block@,
                                block_hash,
                                block_is_new,
                                pre.auth.spec_sys_config(),
                            )
                            &&& r->Ok_0.0@ == (ConsensusConfigurationV {
                                height: h,
                                block_interval: post.auth.spec_sys_config().block_interval,
                                validators: post.auth.spec_sys_config().validators,
                            })
                            &&& r->Ok_0.1@ == (crate::types::ChainStatusV {
                                version: post.auth.spec_sys_config().version,
                                chain_id: post.auth.spec_sys_config().chain_id,
                                height: h,
                                hash: Some(block_hash),
                                address: None,
                            })
                        },
                    }
                },
            }
        }
    })
}

impl Chain {
    /// Processes a block received while syncing: it must chain directly
    /// onto the finalized head, the consensus engine must have accepted it
    /// (`consensus_result`, with a collaborator failure carried through),
    /// and every transaction must pass admission; then it is finalized and
    /// becomes the head.
    pub fn process_block(
        &mut self,
        block: Block,
        block_hash: &Vec<u8>,
        consensus_result: &Result<bool, Vec<u8>>,
        verdicts: &Vec<KmsVerdict>,
        block_is_new: bool,
    ) -> (r: ProcessResult)
        requires
            old(self).wf(),
            verdicts@.len() == block@.body.len(),
        ensures
            final(self).wf(),
            spec_process_post(
                *old(self),
                *final(self),
                block,
                block_hash@,
                *consensus_result,
                verdicts@,
                block_is_new,
                r,
            ),
    {
        let height = block.header.height;
        if height <= self.block_number {
            return Err(Error::ProposalTooLow(height, self.block_number));
        }
        if (height as u128) > (self.block_number as u128) + (self.block_delay_number as u128)
            + 1 {
            return Err(Error::ProposalTooHigh(height, self.block_number));
        }
        if !bytes_eq(&block.header.prevhash, &self.block_hash) {
            return Err(Error::BlockCheckError);
        }
        match consensus_result {
            Err(m) => {
                return Err(Error::InternalError(copy_bytes(m)));
            },
            Ok(false) => {
                return Err(Error::ConsensusProposalCheckError);
            },
            Ok(true) => {},
        }
        match self.check_transactions(&block.body, verdicts) {
            Err(e) => {
                return Err(e);
            },
            Ok(_) => {},
        }
        let outcome = self.finalize_block(block, copy_bytes(block_hash), block_is_new);
        self.block_number = height;
        self.block_hash = copy_bytes(block_hash);
        let cfg = self.auth.get_system_config();
        let config = ConsensusConfiguration {
            height,
            block_interval: cfg.block_interval,
            validators: cfg.validators,
        };
        let status = ChainStatus {
            version: cfg.version,
            chain_id: cfg.chain_id,
            height,
            hash: Some(copy_bytes(&self.block_hash)),
            address: None,
        };
        proof {
            assert(config@ =~= (ConsensusConfigurationV {
                height,
                block_interval: self.auth.spec_sys_config().block_interval,
                validators: self.auth.spec_sys_config().validators,
            }));
            assert(status@ =~= (crate::types::ChainStatusV {
                version: self.auth.spec_sys_config().version,
                chain_id: self.auth.spec_sys_config().chain_id,
                height,
                hash: Some(block_hash@),
                address: None,
            }));
        }
        Ok((config, status, outcome))
    }
}

/// The fork-tree bound: a well-formed chain — and `commit_block` ensures
/// well-formedness after every commit — always holds exactly
/// `2 * block_delay_number + 2` fork-tree levels.
pub proof fn lemma_fork_tree_bound(c: Chain)
    requires
        c.wf(),
    ensures
        c.fork_tree@.len() == 2 * (c.block_delay_number as int) + 2,
{
}

/// The finalization lag: a well-formed chain — and `commit_block` ensures
/// well-formedness after every commit — never carries more than
/// `block_delay_number` unfinalized blocks on its main chain.
pub proof fn lemma_finalization_lag(c: Chain)
    requires
        c.wf(),
    ensures
        c.main_chain@.len() <= c.block_delay_number,
{
}

/// The head never decreases: whatever a commit answers, the finalized
/// height afterwards is at least the finalized height before. The
/// hypothesis is exactly `commit_block`'s postcondition.
pub proof fn lemma_commit_head_monotone(
    pre: Chain,
    post: Chain,
    height: u64,
    proposal: Seq<u8>,
    proof_bytes: Seq<u8>,
    block_hash: Seq<u8>,
    archived: Seq<u64>,
    r: CommitResult,
)
    requires
        spec_commit_post(pre, post, height, proposal, proof_bytes, block_hash, archived, r),
    ensures
        post.block_number >= pre.block_number,
{
}

/// Integrity errors leave the chain intact: any refusal of a commit other
/// than `CandidateChainDoesNotFit` — which removes only the dangling leaf
/// from the root level — leaves every part of the chain as it was. The
/// hypothesis is exactly `commit_block`'s postcondition.
pub proof fn lemma_commit_errors_leave_chain(
    pre: Chain,
    post: Chain,
    height: u64,
    proposal: Seq<u8>,
    proof_bytes: Seq<u8>,
    block_hash: Seq<u8>,
    archived: Seq<u64>,
    r: CommitResult,
)
    requires
        spec_commit_post(pre, post, height, proposal, proof_bytes, block_hash, archived, r),
        r is Err,
        !(r->Err_0 == Error::CandidateChainDoesNotFit),
    ensures
        post == pre,
{
}

/// Idempotent commit under no confirmation delay: a successful commit at
/// `height` advances the head to `height - block_delay_number`, so with
/// `block_delay_number == 0` the head reaches `height` itself and a second
/// commit of the same `(height, proposal, proof)` answers
/// `ProposalTooLow(height, height)`. The hypotheses are exactly what
/// `commit_block`'s contract gives for the successful call: the candidate
/// chain spans `(block_number, height]` and the head advances by its length
/// beyond the delay. With a positive delay the second commit answers
/// `NoForkTree` instead — the re-traced candidate chain is no longer than
/// the main chain it left behind — so the delay-free case is the one stated.
pub proof fn lemma_commit_idempotent(
    bn: u64,
    bdn: u32,
    height: u64,
    cand_len: int,
    new_bn: u64,
)
    requires
        bdn == 0,
        height > bn,
        cand_len == height - bn,
        new_bn as int == bn + (if cand_len > bdn { cand_len - bdn } else { 0 }),
    ensures
        new_bn == height,
        height <= new_bn,
{
}

/// True exactly when the level holds `hash`.
fn level_contains(level: &Vec<(Vec<u8>, Block)>, hash: &Vec<u8>) -> (r: bool)
    ensures
        r == level_has(level_view(level@), hash@),
{
    let n = level.len();
    let mut i: usize = 0;
    while i < n
        invariant
            n == level@.len(),
            0 <= i <= n,
            forall|k: int| 0 <= k < i ==> (#[trigger] level_view(level@)[k]).0 != hash@,
        decreases n - i,
    {
        if bytes_eq(&level[i].0, hash) {
            proof {
                assert(level_view(level@)[i as int].0 == hash@);
            }
            return true;
        }
        proof {
            assert(level_view(level@)[i as int].0 == level@[i as int].0@);
        }
        i += 1;
    }
    false
}

} // verus!
