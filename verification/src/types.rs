//! The data model of the chain: transactions, blocks, proposals, and the
//! status records exchanged with the consensus engine.
//!
//! Hashes and addresses are carried as plain byte vectors; the key-management
//! service that produces them is outside this crate. Every type has a
//! mathematical view (`@`) over which the contracts of the crate speak.

use vstd::prelude::*;

verus! {

/// View of a sequence of byte vectors as a sequence of byte sequences.
pub open spec fn bytes_view(s: Seq<Vec<u8>>) -> Seq<Seq<u8>> {
    s.map_values(|b: Vec<u8>| b@)
}

/// A signature over a transaction hash together with the address the signer
/// claims to be.
#[derive(Debug, Clone, PartialEq, Eq)]
pub struct Witness {
    pub sender: Vec<u8>,
    pub signature: Vec<u8>,
}

#[verifier::ext_equal]
pub ghost struct WitnessV {
    pub sender: Seq<u8>,
    pub signature: Seq<u8>,
}

impl View for Witness {
    type V = WitnessV;

    open spec fn view(&self) -> WitnessV {
        WitnessV { sender: self.sender@, signature: self.signature@ }
    }
}

/// The body of a normal (value-transfer) transaction.
#[derive(Debug, Clone, PartialEq, Eq)]
pub struct Transaction {
    pub version: u32,
    pub to: Vec<u8>,
    pub nonce: Vec<u8>,
    pub quota: u64,
    pub valid_until_block: u64,
    pub data: Vec<u8>,
    pub value: Vec<u8>,
    pub chain_id: Vec<u8>,
}

#[verifier::ext_equal]
pub ghost struct TransactionV {
    pub version: u32,
    pub to: Seq<u8>,
    pub nonce: Seq<u8>,
    pub quota: u64,
    pub valid_until_block: u64,
    pub data: Seq<u8>,
    pub value: Seq<u8>,
    pub chain_id: Seq<u8>,
}

impl View for Transaction {
    type V = TransactionV;

    open spec fn view(&self) -> TransactionV {
        TransactionV {
            version: self.version,
            to: self.to@,
            nonce: self.nonce@,
            quota: self.quota,
            valid_until_block: self.valid_until_block,
            data: self.data@,
            value: self.value@,
            chain_id: self.chain_id@,
        }
    }
}

/// The body of a system-configuration (utxo) transaction: it selects a slot
/// by `lock_id`, names the slot's current head by `pre_tx_hash`, and carries
/// the slot's new payload in `output`.
#[derive(Debug, Clone, PartialEq, Eq)]
pub struct UtxoTransaction {
    pub version: u32,
    pub pre_tx_hash: Vec<u8>,
    pub output: Vec<u8>,
    pub lock_id: u64,
}

#[verifier::ext_equal]
pub ghost struct UtxoTransactionV {
    pub version: u32,
    pub pre_tx_hash: Seq<u8>,
    pub output: Seq<u8>,
    pub lock_id: u64,
}

impl View for UtxoTransaction {
    type V = UtxoTransactionV;

    open spec fn view(&self) -> UtxoTransactionV {
        UtxoTransactionV {
            version: self.version,
            pre_tx_hash: self.pre_tx_hash@,
            output: self.output@,
            lock_id: self.lock_id,
        }
    }
}

/// A normal transaction as received: body, claimed hash, and one witness.
#[derive(Debug, Clone, PartialEq, Eq)]
pub struct UnverifiedTransaction {
    pub transaction: Option<Transaction>,
    pub transaction_hash: Vec<u8>,
    pub witness: Option<Witness>,
}

#[verifier::ext_equal]
pub ghost struct UnverifiedTransactionV {
    pub transaction: Option<TransactionV>,
    pub transaction_hash: Seq<u8>,
    pub witness: Option<WitnessV>,
}

impl View for UnverifiedTransaction {
    type V = UnverifiedTransactionV;

    open spec fn view(&self) -> UnverifiedTransactionV {
        UnverifiedTransactionV {
            transaction: match self.transaction {
                Some(t) => Some(t@),
                None => None,
            },
            transaction_hash: self.transaction_hash@,
            witness: match self.witness {
                Some(w) => Some(w@),
                None => None,
            },
        }
    }
}

/// A utxo transaction as received: body, claimed hash, and any number of
/// witnesses.
#[derive(Debug, Clone, PartialEq, Eq)]
pub struct UnverifiedUtxoTransaction {
    pub transaction: Option<UtxoTransaction>,
    pub transaction_hash: Vec<u8>,
    pub witnesses: Vec<Witness>,
}

#[verifier::ext_equal]
pub ghost struct UnverifiedUtxoTransactionV {
    pub transaction: Option<UtxoTransactionV>,
    pub transaction_hash: Seq<u8>,
    pub witnesses: Seq<WitnessV>,
}

impl View for UnverifiedUtxoTransaction {
    type V = UnverifiedUtxoTransactionV;

    open spec fn view(&self) -> UnverifiedUtxoTransactionV {
        UnverifiedUtxoTransactionV {
            transaction: match self.transaction {
                Some(t) => Some(t@),
                None => None,
            },
            transaction_hash: self.transaction_hash@,
            witnesses: self.witnesses@.map_values(|w: Witness| w@),
        }
    }
}

/// The two kinds of raw transaction.
#[derive(Debug, Clone, PartialEq, Eq)]
pub enum Tx {
    NormalTx(UnverifiedTransaction),
    UtxoTx(UnverifiedUtxoTransaction),
}

#[verifier::ext_equal]
pub ghost enum TxV {
    NormalTx(UnverifiedTransactionV),
    UtxoTx(UnverifiedUtxoTransactionV),
}

impl View for Tx {
    type V = TxV;

    open spec fn view(&self) -> TxV {
        match self {
            Tx::NormalTx(t) => TxV::NormalTx(t@),
            Tx::UtxoTx(t) => TxV::UtxoTx(t@),
        }
    }
}

/// A raw transaction as it travels between nodes; `tx` is absent in a
/// malformed submission and such a submission is rejected at admission.
#[derive(Debug, Clone, PartialEq, Eq)]
pub struct RawTransaction {
    pub tx: Option<Tx>,
}

#[verifier::ext_equal]
pub ghost struct RawTransactionV {
    pub tx: Option<TxV>,
}

impl View for RawTransaction {
    type V = RawTransactionV;

    open spec fn view(&self) -> RawTransactionV {
        RawTransactionV {
            tx: match self.tx {
                Some(t) => Some(t@),
                None => None,
            },
        }
    }
}

/// View of a block body as a sequence of raw-transaction views.
pub open spec fn body_view(s: Seq<RawTransaction>) -> Seq<RawTransactionV> {
    s.map_values(|t: RawTransaction| t@)
}

/// A block header; `prevhash` links the chain and the hash of the encoded
/// header identifies the block.
#[derive(Debug, Clone, PartialEq, Eq)]
pub struct BlockHeader {
    pub prevhash: Vec<u8>,
    pub timestamp: u64,
    pub height: u64,
    pub transactions_root: Vec<u8>,
    pub proposer: Vec<u8>,
}

#[verifier::ext_equal]
pub ghost struct BlockHeaderV {
    pub prevhash: Seq<u8>,
    pub timestamp: u64,
    pub height: u64,
    pub transactions_root: Seq<u8>,
    pub proposer: Seq<u8>,
}

impl View for BlockHeader {
    type V = BlockHeaderV;

    open spec fn view(&self) -> BlockHeaderV {
        BlockHeaderV {
            prevhash: self.prevhash@,
            timestamp: self.timestamp,
            height: self.height,
            transactions_root: self.transactions_root@,
            proposer: self.proposer@,
        }
    }
}

/// A full block. The proof is empty in proposals and populated at commit.
#[derive(Debug, Clone, PartialEq, Eq)]
pub struct Block {
    pub version: u32,
    pub header: BlockHeader,
    pub body: Vec<RawTransaction>,
    pub proof: Vec<u8>,
}

#[verifier::ext_equal]
pub ghost struct BlockV {
    pub version: u32,
    pub header: BlockHeaderV,
    pub body: Seq<RawTransactionV>,
    pub proof: Seq<u8>,
}

impl View for Block {
    type V = BlockV;

    open spec fn view(&self) -> BlockV {
        BlockV {
            version: self.version,
            header: self.header@,
            body: body_view(self.body@),
            proof: self.proof@,
        }
    }
}

/// The compact form of a block body: only the transaction hashes.
#[derive(Debug, Clone, PartialEq, Eq)]
pub struct CompactBlockBody {
    pub tx_hashes: Vec<Vec<u8>>,
}

#[verifier::ext_equal]
pub ghost struct CompactBlockBodyV {
    pub tx_hashes: Seq<Seq<u8>>,
}

impl View for CompactBlockBody {
    type V = CompactBlockBodyV;

    open spec fn view(&self) -> CompactBlockBodyV {
        CompactBlockBodyV { tx_hashes: bytes_view(self.tx_hashes@) }
    }
}

/// A proposal as handed to the consensus engine: the block with an empty
/// proof plus the historical state root and proof the peers must agree on.
#[derive(Debug, Clone, PartialEq, Eq)]
pub struct BftProposal {
    pub proposal: Option<Block>,
    pub pre_state_root: Vec<u8>,
    pub pre_proof: Vec<u8>,
}

#[verifier::ext_equal]
pub ghost struct BftProposalV {
    pub proposal: Option<BlockV>,
    pub pre_state_root: Seq<u8>,
    pub pre_proof: Seq<u8>,
}

impl View for BftProposal {
    type V = BftProposalV;

    open spec fn view(&self) -> BftProposalV {
        BftProposalV {
            proposal: match self.proposal {
                Some(b) => Some(b@),
                None => None,
            },
            pre_state_root: self.pre_state_root@,
            pre_proof: self.pre_proof@,
        }
    }
}

/// The tagged union wrapping every proposal put on the wire.
#[derive(Debug, Clone, PartialEq, Eq)]
pub struct ProposalEnum {
    pub proposal: Option<BftProposal>,
}

#[verifier::ext_equal]
pub ghost struct ProposalEnumV {
    pub proposal: Option<BftProposalV>,
}

impl View for ProposalEnum {
    type V = ProposalEnumV;

    open spec fn view(&self) -> ProposalEnumV {
        ProposalEnumV {
            proposal: match self.proposal {
                Some(p) => Some(p@),
                None => None,
            },
        }
    }
}

/// What the consensus engine needs after a reconfiguration or a commit.
#[derive(Debug, Clone, PartialEq, Eq)]
pub struct ConsensusConfiguration {
    pub height: u64,
    pub block_interval: u32,
    pub validators: Vec<Vec<u8>>,
}

#[verifier::ext_equal]
pub ghost struct ConsensusConfigurationV {
    pub height: u64,
    pub block_interval: u32,
    pub validators: Seq<Seq<u8>>,
}

impl View for ConsensusConfiguration {
    type V = ConsensusConfigurationV;

    open spec fn view(&self) -> ConsensusConfigurationV {
        ConsensusConfigurationV {
            height: self.height,
            block_interval: self.block_interval,
            validators: bytes_view(self.validators@),
        }
    }
}

/// The view of a chain head, local or of a peer.
#[derive(Debug, Clone, PartialEq, Eq)]
pub struct ChainStatus {
    pub version: u32,
    pub chain_id: Vec<u8>,
    pub height: u64,
    pub hash: Option<Vec<u8>>,
    pub address: Option<Vec<u8>>,
}

#[verifier::ext_equal]
pub ghost struct ChainStatusV {
    pub version: u32,
    pub chain_id: Seq<u8>,
    pub height: u64,
    pub hash: Option<Seq<u8>>,
    pub address: Option<Seq<u8>>,
}

impl View for ChainStatus {
    type V = ChainStatusV;

    open spec fn view(&self) -> ChainStatusV {
        ChainStatusV {
            version: self.version,
            chain_id: self.chain_id@,
            height: self.height,
            hash: match self.hash {
                Some(h) => Some(h@),
                None => None,
            },
            address: match self.address {
                Some(a) => Some(a@),
                None => None,
            },
        }
    }
}

impl RawTransactionV {
    /// The claimed hash of the transaction, when a body is present.
    pub open spec fn tx_hash(self) -> Option<Seq<u8>> {
        match self.tx {
            Some(TxV::NormalTx(t)) => Some(t.transaction_hash),
            Some(TxV::UtxoTx(t)) => Some(t.transaction_hash),
            None => None,
        }
    }
}

impl RawTransaction {
    /// The claimed hash of the transaction, when a body is present.
    pub fn tx_hash(&self) -> (r: Option<&Vec<u8>>)
        ensures
            match r {
                Some(h) => self@.tx_hash() == Some(h@),
                None => self@.tx_hash() is None,
            },
    {
        match &self.tx {
            Some(Tx::NormalTx(t)) => Some(&t.transaction_hash),
            Some(Tx::UtxoTx(t)) => Some(&t.transaction_hash),
            None => None,
        }
    }
}

/// The transaction hashes of a block body, in order, skipping entries whose
/// inner transaction is absent.
pub open spec fn spec_body_tx_hashes(body: Seq<RawTransactionV>) -> Seq<Seq<u8>>
    decreases body.len(),
{
    if body.len() == 0 {
        Seq::empty()
    } else {
        let rest = spec_body_tx_hashes(body.drop_last());
        match body.last().tx_hash() {
            Some(h) => rest.push(h),
            None => rest,
        }
    }
}

/// A message exchanged with peers through the network service.
#[derive(Debug, Clone, PartialEq, Eq)]
pub struct NetworkMsg {
    pub module: Vec<u8>,
    pub msg_type: Vec<u8>,
    pub origin: u64,
    pub msg: Vec<u8>,
}

} // verus!
