//! Transaction admission: structural checks, the replay window, the pool,
//! and the chained system configuration.

use controller::auth::{Authentication, KmsVerdict};
use controller::controller::Controller;
use controller::error::Error;
use controller::genesis::GenesisBlock;
use controller::pool::Pool;
use controller::types::{
    RawTransaction, Transaction, Tx, UnverifiedTransaction, UnverifiedUtxoTransaction,
    UtxoTransaction, Witness,
};
use controller::types::CompactBlockBody;
use controller::utxo_set::{
    SystemConfig, LOCK_ID_BLOCK_INTERVAL, LOCK_ID_VALIDATORS, LOCK_ID_VERSION,
};

fn sys_config() -> SystemConfig {
    SystemConfig::new(0, vec![0u8; 32], vec![0u8; 20], 6, vec![], false)
}

fn normal_tx(valid_until_block: u64, hash_byte: u8) -> RawTransaction {
    RawTransaction {
        tx: Some(Tx::NormalTx(UnverifiedTransaction {
            transaction: Some(Transaction {
                version: 0,
                to: vec![2u8; 20],
                nonce: b"abc".to_vec(),
                quota: 0,
                valid_until_block,
                data: vec![],
                value: vec![0u8; 32],
                chain_id: vec![0u8; 32],
            }),
            transaction_hash: vec![hash_byte; 32],
            witness: Some(Witness { sender: vec![3u8; 20], signature: vec![4u8; 65] }),
        })),
    }
}

fn good_verdict() -> KmsVerdict {
    KmsVerdict { hash_ok: Some(true), recovered: vec![Some(vec![3u8; 20])] }
}

#[test]
fn single_normal_tx_admission() {
    let mut c = Controller::new(
        2,
        0,
        vec![0u8; 32],
        sys_config(),
        GenesisBlock::new(0, vec![0u8; 32]),
        0,
        vec![1u8; 20],
    );
    let tx = normal_tx(50, 5);
    let r = c.rpc_send_raw_transaction(tx.clone(), &good_verdict());
    assert_eq!(r, Ok(vec![5u8; 32]));
    assert_eq!(c.chain.pool.len(), 1);
    // A second identical submission is a duplicate.
    let r2 = c.rpc_send_raw_transaction(tx, &good_verdict());
    assert_eq!(r2, Err(Error::DuplicateTx));
    assert_eq!(c.chain.pool.len(), 1);
}

#[test]
fn valid_until_rejection() {
    let auth = Authentication::new(sys_config());
    let tx = normal_tx(0, 5);
    let r = auth.check_raw_tx(&tx, &good_verdict());
    assert_eq!(r, Err(Error::InvalidValidUntil));
}

#[test]
fn structural_rejections() {
    let auth = Authentication::new(sys_config());

    let mut tx = normal_tx(50, 5);
    if let Some(Tx::NormalTx(ref mut t)) = tx.tx {
        t.transaction.as_mut().unwrap().version = 1;
    }
    assert_eq!(auth.check_raw_tx(&tx, &good_verdict()), Err(Error::InvalidVersion));

    let mut tx = normal_tx(50, 5);
    if let Some(Tx::NormalTx(ref mut t)) = tx.tx {
        t.transaction.as_mut().unwrap().nonce = vec![0u8; 129];
    }
    assert_eq!(auth.check_raw_tx(&tx, &good_verdict()), Err(Error::InvalidNonce));

    let mut tx = normal_tx(50, 5);
    if let Some(Tx::NormalTx(ref mut t)) = tx.tx {
        t.transaction.as_mut().unwrap().value = vec![0u8; 31];
    }
    assert_eq!(auth.check_raw_tx(&tx, &good_verdict()), Err(Error::InvalidValue));

    let mut tx = normal_tx(50, 5);
    if let Some(Tx::NormalTx(ref mut t)) = tx.tx {
        t.transaction.as_mut().unwrap().chain_id = vec![1u8; 32];
    }
    assert_eq!(auth.check_raw_tx(&tx, &good_verdict()), Err(Error::InvalidChainId));

    let mut tx = normal_tx(50, 5);
    if let Some(Tx::NormalTx(ref mut t)) = tx.tx {
        t.witness = None;
    }
    assert_eq!(auth.check_raw_tx(&tx, &good_verdict()), Err(Error::EmptyWitness));

    let mut tx = normal_tx(50, 5);
    if let Some(Tx::NormalTx(ref mut t)) = tx.tx {
        t.transaction = None;
    }
    assert_eq!(auth.check_raw_tx(&tx, &good_verdict()), Err(Error::EmptyBody));

    assert_eq!(
        auth.check_raw_tx(&RawTransaction { tx: None }, &good_verdict()),
        Err(Error::EmptyBody)
    );
}

#[test]
fn kms_verdicts_decide() {
    let auth = Authentication::new(sys_config());
    let tx = normal_tx(50, 5);

    let v = KmsVerdict { hash_ok: Some(false), recovered: vec![Some(vec![3u8; 20])] };
    assert_eq!(auth.check_raw_tx(&tx, &v), Err(Error::InvalidHash));

    let v = KmsVerdict { hash_ok: None, recovered: vec![Some(vec![3u8; 20])] };
    assert_eq!(auth.check_raw_tx(&tx, &v), Err(Error::KmsUnavailable));

    let v = KmsVerdict { hash_ok: Some(true), recovered: vec![None] };
    assert_eq!(auth.check_raw_tx(&tx, &v), Err(Error::KmsUnavailable));

    let v = KmsVerdict { hash_ok: Some(true), recovered: vec![Some(vec![9u8; 20])] };
    assert_eq!(auth.check_raw_tx(&tx, &v), Err(Error::InvalidSender));
}

#[test]
fn replay_window_rejects_and_evicts() {
    let mut auth = Authentication::new(sys_config());
    // Height 1 finalizes a block holding hash 5x32.
    auth.insert_tx_hash(1, vec![vec![5u8; 32]]);
    assert_eq!(auth.check_tx_hash(&vec![5u8; 32]), Err(Error::DuplicateTx));
    assert_eq!(auth.check_tx_hash(&vec![6u8; 32]), Ok(()));
    // A tx whose hash rides the window is refused at admission.
    let tx = normal_tx(50, 5);
    assert_eq!(auth.check_raw_tx(&tx, &good_verdict()), Err(Error::DuplicateTx));
    // Height 101 evicts height 1: the window spans (1, 101].
    auth.insert_tx_hash(101, vec![vec![7u8; 32]]);
    assert_eq!(auth.check_tx_hash(&vec![5u8; 32]), Ok(()));
    assert_eq!(auth.check_tx_hash(&vec![7u8; 32]), Err(Error::DuplicateTx));
}

#[test]
fn window_backfill_at_startup() {
    let mut auth = Authentication::new(sys_config());
    let bodies = vec![
        CompactBlockBody { tx_hashes: vec![vec![1u8; 32]] },
        CompactBlockBody { tx_hashes: vec![vec![2u8; 32]] },
        CompactBlockBody { tx_hashes: vec![vec![3u8; 32]] },
    ];
    auth.init(3, &bodies);
    assert_eq!(auth.check_tx_hash(&vec![2u8; 32]), Err(Error::DuplicateTx));
    assert_eq!(auth.check_tx_hash(&vec![4u8; 32]), Ok(()));
}

#[test]
fn utxo_admission_skips_replay_window() {
    let mut auth = Authentication::new(sys_config());
    auth.insert_tx_hash(1, vec![vec![6u8; 32]]);
    let tx = RawTransaction {
        tx: Some(Tx::UtxoTx(UnverifiedUtxoTransaction {
            transaction: Some(UtxoTransaction {
                version: 0,
                pre_tx_hash: vec![0u8; 32],
                output: vec![8u8; 20],
                lock_id: LOCK_ID_VALIDATORS,
            }),
            transaction_hash: vec![6u8; 32],
            witnesses: vec![Witness { sender: vec![3u8; 20], signature: vec![4u8; 65] }],
        })),
    };
    // The hash rides the window, but utxo transactions chain by pre-hash
    // instead of consulting the window.
    let v = good_verdict();
    assert_eq!(auth.check_raw_tx(&tx, &v), Ok(vec![6u8; 32]));
}

#[test]
fn system_config_chains_by_pre_hash() {
    let mut cfg = sys_config();
    let tx1 = UnverifiedUtxoTransaction {
        transaction: Some(UtxoTransaction {
            version: 0,
            pre_tx_hash: vec![0u8; 32],
            output: vec![0, 0, 0, 9],
            lock_id: LOCK_ID_VERSION,
        }),
        transaction_hash: vec![5u8; 32],
        witnesses: vec![],
    };
    assert!(cfg.update(&tx1, false));
    assert_eq!(cfg.version, 9);
    assert_eq!(cfg.utxo_tx_hashes[0], vec![5u8; 32]);

    // The stale head is refused and nothing changes.
    let tx2 = UnverifiedUtxoTransaction {
        transaction: Some(UtxoTransaction {
            version: 0,
            pre_tx_hash: vec![0u8; 32],
            output: vec![0, 0, 0, 10],
            lock_id: LOCK_ID_VERSION,
        }),
        transaction_hash: vec![6u8; 32],
        witnesses: vec![],
    };
    assert!(!cfg.update(&tx2, false));
    assert_eq!(cfg.version, 9);
    assert_eq!(cfg.utxo_tx_hashes[0], vec![5u8; 32]);

    // Chaining onto the advanced head succeeds: the head moves by exactly
    // one accepted update.
    let tx3 = UnverifiedUtxoTransaction {
        transaction: Some(UtxoTransaction {
            version: 0,
            pre_tx_hash: vec![5u8; 32],
            output: vec![0, 0, 0, 10],
            lock_id: LOCK_ID_VERSION,
        }),
        transaction_hash: vec![7u8; 32],
        witnesses: vec![],
    };
    assert!(cfg.update(&tx3, false));
    assert_eq!(cfg.version, 10);
    assert_eq!(cfg.utxo_tx_hashes[0], vec![7u8; 32]);
}

#[test]
fn system_config_payload_widths() {
    let mut cfg = sys_config();
    // A version payload must be four bytes.
    let bad = UnverifiedUtxoTransaction {
        transaction: Some(UtxoTransaction {
            version: 0,
            pre_tx_hash: vec![0u8; 32],
            output: vec![1, 2, 3],
            lock_id: LOCK_ID_VERSION,
        }),
        transaction_hash: vec![5u8; 32],
        witnesses: vec![],
    };
    assert!(!cfg.update(&bad, false));
    // Validators come as whole 20-byte addresses.
    let vals = UnverifiedUtxoTransaction {
        transaction: Some(UtxoTransaction {
            version: 0,
            pre_tx_hash: vec![0u8; 32],
            output: vec![9u8; 40],
            lock_id: LOCK_ID_VALIDATORS,
        }),
        transaction_hash: vec![8u8; 32],
        witnesses: vec![],
    };
    assert!(cfg.update(&vals, false));
    assert_eq!(cfg.validators, vec![vec![9u8; 20], vec![9u8; 20]]);
    // The block interval is a four-byte count of seconds.
    let ivl = UnverifiedUtxoTransaction {
        transaction: Some(UtxoTransaction {
            version: 0,
            pre_tx_hash: vec![0u8; 32],
            output: vec![0, 0, 0, 12],
            lock_id: LOCK_ID_BLOCK_INTERVAL,
        }),
        transaction_hash: vec![9u8; 32],
        witnesses: vec![],
    };
    assert!(cfg.update(&ivl, false));
    assert_eq!(cfg.block_interval, 12);
}

#[test]
fn pool_bounds_and_packaging() {
    let mut pool = Pool::new(2);
    assert!(pool.enqueue(normal_tx(50, 1), vec![1u8; 32]));
    assert!(!pool.enqueue(normal_tx(50, 1), vec![1u8; 32]));
    assert!(pool.enqueue(normal_tx(2, 2), vec![2u8; 32]));
    // The pool is full.
    assert!(!pool.enqueue(normal_tx(50, 3), vec![3u8; 32]));
    assert_eq!(pool.len(), 2);
    // Packaging at height 2 skips the transaction that expires by then.
    let (hashes, txs) = pool.package(2);
    assert_eq!(hashes, vec![vec![1u8; 32]]);
    assert_eq!(txs.len(), 1);
    // Finalization prunes by hash.
    pool.update(&vec![vec![1u8; 32]]);
    assert_eq!(pool.len(), 1);
    assert!(pool.pool_get_tx(&vec![1u8; 32]).is_none());
    assert!(pool.pool_get_tx(&vec![2u8; 32]).is_some());
}
