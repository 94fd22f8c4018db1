//! Round trips of the byte format: decoding an encoding gives the value
//! back, and re-encoding a decoded byte string gives the bytes back.

use controller::codec::{
    dec_block, dec_block_header, dec_compact_body, dec_proposal_enum, dec_raw_transaction,
    enc_u64, encode_block, encode_block_header, encode_compact_body, encode_proposal_enum,
    encode_raw_transaction,
};
use controller::types::{
    BftProposal, Block, BlockHeader, CompactBlockBody, ProposalEnum, RawTransaction, Transaction,
    Tx, UnverifiedTransaction, UnverifiedUtxoTransaction, UtxoTransaction, Witness,
};

fn sample_header() -> BlockHeader {
    BlockHeader {
        prevhash: vec![7u8; 32],
        timestamp: 123456789,
        height: 42,
        transactions_root: vec![9u8; 32],
        proposer: vec![1u8; 20],
    }
}

fn sample_normal_tx() -> RawTransaction {
    RawTransaction {
        tx: Some(Tx::NormalTx(UnverifiedTransaction {
            transaction: Some(Transaction {
                version: 0,
                to: vec![2u8; 20],
                nonce: b"abc".to_vec(),
                quota: 10_000,
                valid_until_block: 50,
                data: vec![],
                value: vec![0u8; 32],
                chain_id: vec![0u8; 32],
            }),
            transaction_hash: vec![5u8; 32],
            witness: Some(Witness {
                sender: vec![3u8; 20],
                signature: vec![4u8; 65],
            }),
        })),
    }
}

fn sample_utxo_tx() -> RawTransaction {
    RawTransaction {
        tx: Some(Tx::UtxoTx(UnverifiedUtxoTransaction {
            transaction: Some(UtxoTransaction {
                version: 0,
                pre_tx_hash: vec![0u8; 32],
                output: vec![8u8; 20],
                lock_id: 1004,
            }),
            transaction_hash: vec![6u8; 32],
            witnesses: vec![
                Witness { sender: vec![3u8; 20], signature: vec![4u8; 65] },
                Witness { sender: vec![13u8; 20], signature: vec![14u8; 65] },
            ],
        })),
    }
}

fn sample_block() -> Block {
    Block {
        version: 0,
        header: sample_header(),
        body: vec![sample_normal_tx(), sample_utxo_tx(), RawTransaction { tx: None }],
        proof: vec![11u8; 48],
    }
}

#[test]
fn u64_key_is_big_endian() {
    assert_eq!(enc_u64(0), vec![0u8; 8]);
    assert_eq!(enc_u64(1), vec![0, 0, 0, 0, 0, 0, 0, 1]);
    assert_eq!(enc_u64(0x0102030405060708), vec![1, 2, 3, 4, 5, 6, 7, 8]);
}

#[test]
fn header_round_trip() {
    let h = sample_header();
    let bytes = encode_block_header(&h);
    let (back, used) = dec_block_header(&bytes, 0).expect("header must decode");
    assert_eq!(used, bytes.len());
    assert_eq!(back, h);
    // Re-encoding the decoded header gives exactly the original bytes.
    assert_eq!(encode_block_header(&back), bytes);
}

#[test]
fn compact_body_round_trip() {
    let b = CompactBlockBody { tx_hashes: vec![vec![5u8; 32], vec![6u8; 32]] };
    let bytes = encode_compact_body(&b);
    let (back, used) = dec_compact_body(&bytes, 0).expect("body must decode");
    assert_eq!(used, bytes.len());
    assert_eq!(back, b);
    assert_eq!(encode_compact_body(&back), bytes);
}

#[test]
fn raw_transaction_round_trip() {
    for tx in [sample_normal_tx(), sample_utxo_tx(), RawTransaction { tx: None }] {
        let bytes = encode_raw_transaction(&tx);
        let (back, used) = dec_raw_transaction(&bytes, 0).expect("raw tx must decode");
        assert_eq!(used, bytes.len());
        assert_eq!(back, tx);
        assert_eq!(encode_raw_transaction(&back), bytes);
    }
}

#[test]
fn block_round_trip() {
    let b = sample_block();
    let bytes = encode_block(&b);
    let (back, used) = dec_block(&bytes, 0).expect("block must decode");
    assert_eq!(used, bytes.len());
    assert_eq!(back, b);
    assert_eq!(encode_block(&back), bytes);
}

#[test]
fn proposal_enum_round_trip() {
    let p = ProposalEnum {
        proposal: Some(BftProposal {
            proposal: Some(sample_block()),
            pre_state_root: vec![21u8; 32],
            pre_proof: vec![22u8; 48],
        }),
    };
    let bytes = encode_proposal_enum(&p);
    let (back, used) = dec_proposal_enum(&bytes, 0).expect("proposal must decode");
    assert_eq!(used, bytes.len());
    assert_eq!(back, p);
    assert_eq!(encode_proposal_enum(&back), bytes);
}

#[test]
fn truncated_bytes_are_refused() {
    let b = sample_block();
    let mut bytes = encode_block(&b);
    bytes.pop();
    assert!(dec_block(&bytes, 0).is_none());
}

#[test]
fn bad_tag_is_refused() {
    // 3 is no raw-transaction variant tag.
    let bytes = vec![3u8];
    assert!(dec_raw_transaction(&bytes, 0).is_none());
}
