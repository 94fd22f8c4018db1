//! The single tagged error type of the core.
//!
//! Every public operation reports its failure through this enum; the only
//! panics the design allows live outside the core, in the process that
//! performs storage writes.

use vstd::prelude::*;

verus! {

/// Errors of the controller core.
///
/// Validation errors describe malformed incoming data; admission errors a
/// transaction the chain refuses; flow-control errors a request that is out
/// of range or too early; integrity errors a proposal that contradicts the
/// local fork tree.
#[derive(Debug, Clone, PartialEq, Eq)]
pub enum Error {
    InvalidVersion,
    InvalidNonce,
    InvalidValue,
    InvalidChainId,
    InvalidValidUntil,
    EmptyWitness,
    EmptyBody,
    NoneProposal,
    DuplicateTx,
    InvalidHash,
    InvalidSender,
    ProposalTooLow(u64, u64),
    ProposalTooHigh(u64, u64),
    NoCandidate,
    NoEarlyStatus,
    NoForkTree,
    ProposalCheckError,
    CandidateChainInterrupted,
    CandidateChainHasDupTx,
    CandidateChainHasNoProof,
    CandidateChainDoesNotFit,
    BlockCheckError,
    ConsensusProposalCheckError,
    KmsUnavailable,
    InternalError(Vec<u8>),
    EncodeError,
    DecodeError,
}

impl Error {
    /// A short stable name for the error, for callers that report it over an
    /// RPC boundary.
    pub fn kind(&self) -> (r: &'static str)
        ensures
            r@.len() > 0,
    {
        let s: &'static str = match self {
            Error::InvalidVersion => "invalid version",
            Error::InvalidNonce => "invalid nonce",
            Error::InvalidValue => "invalid value",
            Error::InvalidChainId => "invalid chain_id",
            Error::InvalidValidUntil => "invalid valid_until_block",
            Error::EmptyWitness => "witness is none",
            Error::EmptyBody => "tx is none",
            Error::NoneProposal => "no proposal found",
            Error::DuplicateTx => "dup",
            Error::InvalidHash => "invalid tx_hash",
            Error::InvalidSender => "invalid sender",
            Error::ProposalTooLow(_, _) => "proposal too low",
            Error::ProposalTooHigh(_, _) => "proposal too high",
            Error::NoCandidate => "no candidate block",
            Error::NoEarlyStatus => "no early status",
            Error::NoForkTree => "no fork tree",
            Error::ProposalCheckError => "proposal check failed",
            Error::CandidateChainInterrupted => "candidate chain interrupted",
            Error::CandidateChainHasDupTx => "candidate chain has dup tx",
            Error::CandidateChainHasNoProof => "candidate chain has no proof",
            Error::CandidateChainDoesNotFit => "candidate chain can't fit finalized block",
            Error::BlockCheckError => "block check failed",
            Error::ConsensusProposalCheckError => "consensus proposal check failed",
            Error::KmsUnavailable => "kms unavailable",
            Error::InternalError(_) => "internal error",
            Error::EncodeError => "encode failed",
            Error::DecodeError => "decode failed",
        };
        proof {
            reveal_strlit("invalid version");
            reveal_strlit("invalid nonce");
            reveal_strlit("invalid value");
            reveal_strlit("invalid chain_id");
            reveal_strlit("invalid valid_until_block");
            reveal_strlit("witness is none");
            reveal_strlit("tx is none");
            reveal_strlit("no proposal found");
            reveal_strlit("dup");
            reveal_strlit("invalid tx_hash");
            reveal_strlit("invalid sender");
            reveal_strlit("proposal too low");
            reveal_strlit("proposal too high");
            reveal_strlit("no candidate block");
            reveal_strlit("no early status");
            reveal_strlit("no fork tree");
            reveal_strlit("proposal check failed");
            reveal_strlit("candidate chain interrupted");
            reveal_strlit("candidate chain has dup tx");
            reveal_strlit("candidate chain has no proof");
            reveal_strlit("candidate chain can't fit finalized block");
            reveal_strlit("block check failed");
            reveal_strlit("consensus proposal check failed");
            reveal_strlit("kms unavailable");
            reveal_strlit("internal error");
            reveal_strlit("encode failed");
            reveal_strlit("decode failed");
        }
        s
    }
}

} // verus!
