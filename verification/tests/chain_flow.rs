//! End-to-end chain flow: genesis, remote proposals, commits with the
//! longest-chain rule, and the finalization write set.

use controller::chain::{Chain, ChainStep};
use controller::auth::Authentication;
use controller::codec::{enc_u64, encode_block_header, encode_proposal_enum};
use controller::controller::{Controller, NetworkAction};
use controller::error::Error;
use controller::genesis::GenesisBlock;
use controller::pool::Pool;
use controller::types::{
    BftProposal, Block, BlockHeader, ProposalEnum, RawTransaction, Transaction, Tx,
    UnverifiedTransaction, UnverifiedUtxoTransaction, UtxoTransaction, Witness,
};
use controller::utxo_set::{SystemConfig, LOCK_ID_EMERGENCY_BRAKE, LOCK_ID_VALIDATORS};

fn sys_config() -> SystemConfig {
    SystemConfig::new(0, vec![0u8; 32], vec![0u8; 20], 6, vec![], false)
}

fn new_chain(block_delay_number: u32) -> Chain {
    Chain::new(
        block_delay_number,
        0,
        vec![0u8; 32],
        Pool::new(500),
        Authentication::new(sys_config()),
        GenesisBlock::new(0, vec![0u8; 32]),
        0,
        vec![1u8; 20],
    )
}

fn block_at(height: u64, prevhash: Vec<u8>, body: Vec<RawTransaction>, proof: Vec<u8>) -> Block {
    Block {
        version: 0,
        header: BlockHeader {
            prevhash,
            timestamp: height * 3,
            height,
            transactions_root: vec![0u8; 32],
            proposer: vec![1u8; 20],
        },
        body,
        proof,
    }
}

fn proposal_bytes(block: &Block) -> Vec<u8> {
    let mut stripped = block.clone();
    stripped.proof = vec![];
    encode_proposal_enum(&ProposalEnum {
        proposal: Some(BftProposal {
            proposal: Some(stripped),
            pre_state_root: vec![0u8; 32],
            pre_proof: vec![],
        }),
    })
}

fn normal_tx(hash_byte: u8) -> RawTransaction {
    RawTransaction {
        tx: Some(Tx::NormalTx(UnverifiedTransaction {
            transaction: Some(Transaction {
                version: 0,
                to: vec![2u8; 20],
                nonce: b"abc".to_vec(),
                quota: 0,
                valid_until_block: 50,
                data: vec![],
                value: vec![0u8; 32],
                chain_id: vec![0u8; 32],
            }),
            transaction_hash: vec![hash_byte; 32],
            witness: Some(Witness { sender: vec![3u8; 20], signature: vec![4u8; 65] }),
        })),
    }
}

#[test]
fn remote_proposal_bounds() {
    let mut chain = new_chain(2);
    // Heights at or below the head are too low.
    let b0 = block_at(0, vec![0u8; 32], vec![], vec![1]);
    assert_eq!(
        chain.add_remote_proposal(&vec![10u8; 32], b0),
        Err(Error::ProposalTooLow(0, 0))
    );
    // Heights beyond block_number + 2 * delay + 2 are too high.
    let b7 = block_at(7, vec![0u8; 32], vec![], vec![1]);
    assert_eq!(
        chain.add_remote_proposal(&vec![17u8; 32], b7),
        Err(Error::ProposalTooHigh(7, 0))
    );
    // In range the block is stored once.
    let b1 = block_at(1, vec![0u8; 32], vec![], vec![1]);
    assert_eq!(chain.add_remote_proposal(&vec![11u8; 32], b1.clone()), Ok(true));
    assert_eq!(chain.add_remote_proposal(&vec![11u8; 32], b1), Ok(false));
}

#[test]
fn fork_extension() {
    let mut chain = new_chain(2);
    let h0 = vec![0u8; 32];
    let h1 = vec![11u8; 32];
    let h2 = vec![12u8; 32];
    let h3 = vec![13u8; 32];
    let b1 = block_at(1, h0.clone(), vec![], vec![1]);
    let b2 = block_at(2, h1.clone(), vec![], vec![1]);
    let b3 = block_at(3, h2.clone(), vec![], vec![1]);
    assert_eq!(chain.add_remote_proposal(&h1, b1), Ok(true));
    assert_eq!(chain.add_remote_proposal(&h2, b2), Ok(true));
    assert_eq!(chain.add_remote_proposal(&h3, b3.clone()), Ok(true));

    let bytes = proposal_bytes(&b3);
    let r = chain.commit_block(3, &bytes, &vec![1], &h3, &vec![]);
    let (_config, status, outcomes) = r.expect("commit must succeed");
    assert_eq!(chain.block_number, 1);
    assert_eq!(chain.main_chain, vec![h2.clone(), h3.clone()]);
    assert_eq!(chain.main_chain.len(), 2);
    assert_eq!(chain.fork_tree.len(), 6);
    assert_eq!(outcomes.len(), 1);
    assert_eq!(outcomes[0].height, 1);
    assert_eq!(outcomes[0].block_hash, h1);
    assert_eq!(status.height, 3);
    assert_eq!(status.hash, Some(h1));
}

#[test]
fn duplicate_tx_across_candidate_chain() {
    let mut chain = new_chain(2);
    let h0 = vec![0u8; 32];
    let h1 = vec![11u8; 32];
    let h2 = vec![12u8; 32];
    // Both bodies carry the same transaction hash.
    let b1 = block_at(1, h0.clone(), vec![normal_tx(5)], vec![1]);
    let b2 = block_at(2, h1.clone(), vec![normal_tx(5)], vec![1]);
    assert_eq!(chain.add_remote_proposal(&h1, b1), Ok(true));
    assert_eq!(chain.add_remote_proposal(&h2, b2.clone()), Ok(true));

    let bytes = proposal_bytes(&b2);
    let r = chain.commit_block(2, &bytes, &vec![1], &h2, &vec![]);
    assert_eq!(
        r.map(|_| ()),
        Err::<(), Error>(Error::CandidateChainHasDupTx)
    );
    // The chain is unchanged and ready for the next attempt.
    assert_eq!(chain.block_number, 0);
    assert!(chain.main_chain.is_empty());
}

#[test]
fn interrupted_and_unrooted_chains() {
    let mut chain = new_chain(2);
    let h1 = vec![11u8; 32];
    let h2 = vec![12u8; 32];
    // The parent at height 1 was never heard: the chain is interrupted.
    let b2 = block_at(2, h1.clone(), vec![], vec![1]);
    assert_eq!(chain.add_remote_proposal(&h2, b2.clone()), Ok(true));
    let bytes = proposal_bytes(&b2);
    assert_eq!(
        chain.commit_block(2, &bytes, &vec![1], &h2, &vec![]).map(|_| ()),
        Err::<(), Error>(Error::CandidateChainInterrupted)
    );
    // A height-1 block whose prevhash is foreign does not fit the head.
    let b1 = block_at(1, vec![9u8; 32], vec![], vec![1]);
    let h1b = vec![21u8; 32];
    assert_eq!(chain.add_remote_proposal(&h1b, b1.clone()), Ok(true));
    let bytes1 = proposal_bytes(&b1);
    assert_eq!(
        chain.commit_block(1, &bytes1, &vec![1], &h1b, &vec![]).map(|_| ()),
        Err::<(), Error>(Error::CandidateChainDoesNotFit)
    );
}

#[test]
fn parent_without_proof_is_refused() {
    let mut chain = new_chain(2);
    let h0 = vec![0u8; 32];
    let h1 = vec![11u8; 32];
    let h2 = vec![12u8; 32];
    let b1 = block_at(1, h0.clone(), vec![], vec![]);
    let b2 = block_at(2, h1.clone(), vec![], vec![1]);
    assert_eq!(chain.add_remote_proposal(&h1, b1), Ok(true));
    assert_eq!(chain.add_remote_proposal(&h2, b2.clone()), Ok(true));
    let bytes = proposal_bytes(&b2);
    assert_eq!(
        chain.commit_block(2, &bytes, &vec![1], &h2, &vec![]).map(|_| ()),
        Err::<(), Error>(Error::CandidateChainHasNoProof)
    );
}

#[test]
fn commit_bounds_and_idempotence() {
    // Without a confirmation delay a commit finalizes its height at once,
    // so the same commit repeated reports ProposalTooLow.
    let mut chain = new_chain(0);
    let h0 = vec![0u8; 32];
    let h1 = vec![11u8; 32];
    let b1 = block_at(1, h0.clone(), vec![], vec![1]);
    let bytes = proposal_bytes(&b1);
    let r = chain.commit_block(1, &bytes, &vec![7], &h1, &vec![]);
    let (_config, status, outcomes) = r.expect("first commit must succeed");
    assert_eq!(chain.block_number, 1);
    assert_eq!(status.height, 1);
    assert_eq!(outcomes.len(), 1);
    // The finalized block carries the decided proof.
    assert_eq!(outcomes[0].block.proof, vec![7]);
    let r2 = chain.commit_block(1, &bytes, &vec![7], &h1, &vec![]);
    assert_eq!(r2.map(|_| ()), Err::<(), Error>(Error::ProposalTooLow(1, 1)));
    // Heights beyond the window are refused outright, and out-of-range
    // commits leave every part of the chain as it was.
    let r3 = chain.commit_block(3, &bytes, &vec![7], &h1, &vec![]);
    assert_eq!(r3.map(|_| ()), Err::<(), Error>(Error::ProposalTooHigh(3, 1)));
    assert_eq!(chain.block_number, 1);
    assert_eq!(chain.block_hash, h1);
    assert!(chain.main_chain.is_empty());
}

#[test]
fn genesis_only_start() {
    let mut c = Controller::new(
        2,
        0,
        vec![42u8; 32],
        sys_config(),
        GenesisBlock::new(0, vec![0u8; 32]),
        0,
        vec![1u8; 20],
    );
    let outcome = c.init(0, true, &vec![]).expect("an empty chain finalizes genesis");
    assert_eq!(c.chain.block_number, 0);
    assert_eq!(outcome.height, 0);
    // Region 4, key u64(0): the genesis hash.
    assert_eq!(outcome.writes[0].region, 4);
    assert_eq!(outcome.writes[0].key, enc_u64(0));
    assert_eq!(outcome.writes[0].value, vec![42u8; 32]);
    // Region 0, key u64(0): the current height, zero.
    assert_eq!(outcome.tail_writes[0].region, 0);
    assert_eq!(outcome.tail_writes[0].key, enc_u64(0));
    assert_eq!(outcome.tail_writes[0].value, enc_u64(0));
    // The archive record carries the genesis header.
    let archive = outcome.archive.expect("a new block is archived");
    assert_eq!(archive.header_bytes, encode_block_header(&outcome.block.header));
}

#[test]
fn system_config_change_triggers_reconfigure() {
    let mut chain = new_chain(0);
    let h0 = vec![0u8; 32];
    let h1 = vec![11u8; 32];
    let utxo = RawTransaction {
        tx: Some(Tx::UtxoTx(UnverifiedUtxoTransaction {
            transaction: Some(UtxoTransaction {
                version: 0,
                pre_tx_hash: vec![0u8; 32],
                output: vec![9u8; 20],
                lock_id: LOCK_ID_VALIDATORS,
            }),
            transaction_hash: vec![66u8; 32],
            witnesses: vec![],
        })),
    };
    let b1 = block_at(1, h0.clone(), vec![utxo], vec![1]);
    let bytes = proposal_bytes(&b1);
    let r = chain.commit_block(1, &bytes, &vec![1], &h1, &vec![]);
    let (config, _status, outcomes) = r.expect("commit must succeed");
    // The validator set took the new payload.
    assert_eq!(config.validators, vec![vec![9u8; 20]]);
    assert_eq!(chain.get_system_config().validators, vec![vec![9u8; 20]]);
    // Exactly one reconfiguration was raised, for the finalized height.
    assert_eq!(outcomes.len(), 1);
    assert_eq!(outcomes[0].reconfigures.len(), 1);
    assert_eq!(outcomes[0].reconfigures[0].height, 1);
    assert_eq!(outcomes[0].reconfigures[0].validators, vec![vec![9u8; 20]]);
    // The slot's head hash was scheduled for region 0.
    let w = outcomes[0]
        .writes
        .iter()
        .find(|w| w.region == 0)
        .expect("an accepted utxo writes its slot head");
    assert_eq!(w.key, enc_u64(LOCK_ID_VALIDATORS));
    assert_eq!(w.value, vec![66u8; 32]);
}

#[test]
fn proposal_draft_and_check() {
    let mut chain = new_chain(2);
    let status = controller::types::ChainStatus {
        version: 0,
        chain_id: vec![0u8; 32],
        height: 0,
        hash: None,
        address: None,
    };
    let draft = chain.draft_proposal(&status).expect("an idle chain drafts");
    assert_eq!(draft.height, 1);
    assert_eq!(draft.prevhash, vec![0u8; 32]);
    let header = chain.draft_header(&draft, vec![8u8; 32], 99);
    let block_hash = vec![31u8; 32];
    chain.add_proposal(draft, header, block_hash.clone());
    assert!(chain.is_candidate(&block_hash));
    // With a candidate standing, no new draft is produced.
    assert!(chain.draft_proposal(&status).is_none());
    // The assembled proposal checks against matching anchor data.
    assert_eq!(
        chain.get_proposal(None).map(|_| ()),
        Err::<(), Error>(Error::NoEarlyStatus)
    );
    let (h, bytes) = chain
        .get_proposal(Some((vec![2u8; 32], vec![3u8; 32])))
        .expect("the candidate assembles");
    assert_eq!(h, 1);
    let (pe, used) = controller::codec::dec_proposal_enum(&bytes, 0).expect("must decode");
    assert_eq!(used, bytes.len());
    assert_eq!(
        chain.check_proposal(1, &pe, &vec![2u8; 32], &vec![3u8; 32]),
        Ok(true)
    );
    assert_eq!(
        chain.check_proposal(1, &pe, &vec![2u8; 32], &vec![4u8; 32]),
        Err(Error::ProposalCheckError)
    );
    assert_eq!(
        chain.check_proposal(0, &pe, &vec![2u8; 32], &vec![3u8; 32]),
        Err(Error::ProposalTooLow(0, 0))
    );
}

#[test]
fn sync_decision() {
    let chain = new_chain(2);
    let mut status = controller::types::ChainStatus {
        version: 0,
        chain_id: vec![0u8; 32],
        height: 0,
        hash: None,
        address: None,
    };
    // No peer is ahead: online.
    assert_eq!(chain.next_step(&status), ChainStep::OnlineStep);
    // A peer is ahead and the fork tree has no roots: sync.
    status.height = 1;
    assert_eq!(chain.next_step(&status), ChainStep::SyncStep);
}

#[test]
fn process_block_while_syncing() {
    let mut chain = new_chain(2);
    let h0 = vec![0u8; 32];
    let h1 = vec![11u8; 32];
    let b1 = block_at(1, h0.clone(), vec![normal_tx(5)], vec![1]);
    let verdicts = vec![controller::auth::KmsVerdict {
        hash_ok: Some(true),
        recovered: vec![Some(vec![3u8; 20])],
    }];
    let r = chain.process_block(b1, &h1, &Ok(true), &verdicts, true);
    let (_config, status, outcome) = r.expect("the synced block finalizes");
    assert_eq!(chain.block_number, 1);
    assert_eq!(chain.block_hash, h1);
    assert_eq!(status.height, 1);
    assert_eq!(outcome.height, 1);
    // The finalized transaction now rides the replay window.
    assert_eq!(
        chain.auth.check_tx_hash(&vec![5u8; 32]),
        Err(Error::DuplicateTx)
    );
    // A block that does not chain onto the head is refused.
    let b3 = block_at(2, vec![9u8; 32], vec![], vec![1]);
    assert_eq!(
        chain.process_block(b3, &vec![13u8; 32], &Ok(true), &vec![], true).map(|_| ()),
        Err::<(), Error>(Error::BlockCheckError)
    );
}

#[test]
fn network_messages_classify() {
    let c = Controller::new(
        2,
        0,
        vec![0u8; 32],
        sys_config(),
        GenesisBlock::new(0, vec![0u8; 32]),
        0,
        vec![1u8; 20],
    );
    let tx = normal_tx(5);
    let msg = controller::types::NetworkMsg {
        module: b"controller".to_vec(),
        msg_type: b"raw_tx".to_vec(),
        origin: 0,
        msg: controller::codec::encode_raw_transaction(&tx),
    };
    match c.process_network_msg(&msg) {
        Ok(NetworkAction::GotRawTx(t)) => assert_eq!(t, tx),
        _ => panic!("a gossiped raw transaction must decode"),
    }
    let bad = controller::types::NetworkMsg {
        module: b"controller".to_vec(),
        msg_type: b"raw_tx".to_vec(),
        origin: 0,
        msg: vec![3],
    };
    assert!(matches!(c.process_network_msg(&bad), Err(Error::DecodeError)));
    let unknown = controller::types::NetworkMsg {
        module: b"controller".to_vec(),
        msg_type: b"chain_status".to_vec(),
        origin: 0,
        msg: vec![],
    };
    assert!(matches!(
        c.process_network_msg(&unknown),
        Ok(NetworkAction::Ignored)
    ));
}

#[test]
fn malformed_commits_are_refused() {
    let mut chain = new_chain(2);
    // Bytes that are no proposal at all.
    assert_eq!(
        chain.commit_block(1, &vec![9, 9, 9], &vec![1], &vec![11u8; 32], &vec![]).map(|_| ()),
        Err::<(), Error>(Error::DecodeError)
    );
    // A proposal union carrying no proposal.
    let empty = encode_proposal_enum(&ProposalEnum { proposal: None });
    assert_eq!(
        chain.commit_block(1, &empty, &vec![1], &vec![11u8; 32], &vec![]).map(|_| ()),
        Err::<(), Error>(Error::NoneProposal)
    );
    // A proposal whose union decodes but whose block is absent.
    let no_block = encode_proposal_enum(&ProposalEnum {
        proposal: Some(BftProposal {
            proposal: None,
            pre_state_root: vec![0u8; 32],
            pre_proof: vec![],
        }),
    });
    assert_eq!(
        chain.commit_block(1, &no_block, &vec![1], &vec![11u8; 32], &vec![]).map(|_| ()),
        Err::<(), Error>(Error::NoneProposal)
    );
    // Trailing bytes after a well-formed proposal are refused.
    let b1 = block_at(1, vec![0u8; 32], vec![], vec![1]);
    let mut bytes = proposal_bytes(&b1);
    bytes.push(0);
    assert_eq!(
        chain.commit_block(1, &bytes, &vec![1], &vec![11u8; 32], &vec![]).map(|_| ()),
        Err::<(), Error>(Error::DecodeError)
    );
}

#[test]
fn archived_heights_skip_the_archive() {
    let mut chain = new_chain(0);
    let h1 = vec![11u8; 32];
    let b1 = block_at(1, vec![0u8; 32], vec![], vec![1]);
    let bytes = proposal_bytes(&b1);
    // Height 1 was archived before: no new archive record, no region-2 or
    // region-3 write.
    let r = chain.commit_block(1, &bytes, &vec![1], &h1, &vec![1]);
    let (_config, _status, outcomes) = r.expect("commit must succeed");
    assert!(outcomes[0].archive.is_none());
    assert!(outcomes[0].writes.iter().all(|w| w.region != 2 && w.region != 3));
}

#[test]
fn emergency_brake_toggles() {
    let mut cfg = sys_config();
    let on = UnverifiedUtxoTransaction {
        transaction: Some(UtxoTransaction {
            version: 0,
            pre_tx_hash: vec![0u8; 32],
            output: vec![1],
            lock_id: LOCK_ID_EMERGENCY_BRAKE,
        }),
        transaction_hash: vec![5u8; 32],
        witnesses: vec![],
    };
    assert!(cfg.update(&on, false));
    assert!(cfg.emergency_brake);
    let off = UnverifiedUtxoTransaction {
        transaction: Some(UtxoTransaction {
            version: 0,
            pre_tx_hash: vec![5u8; 32],
            output: vec![],
            lock_id: LOCK_ID_EMERGENCY_BRAKE,
        }),
        transaction_hash: vec![6u8; 32],
        witnesses: vec![],
    };
    assert!(cfg.update(&off, false));
    assert!(!cfg.emergency_brake);
}
