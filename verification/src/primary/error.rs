//! Why a message was refused.

use crate::crypto::{CryptoError, Digest, PublicKey};
use vstd::prelude::*;

verus! {

/// Position of a header in the chain of its author.
pub type Height = u64;

/// Position of a decision in the output of consensus.
pub type Slot = u64;

/// Attempt at deciding a slot.
pub type ViewNumber = u64;

/// The result of processing a message of the dissemination layer.
pub type DagResult<T> = Result<T, DagError>;

/// Why a message of the dissemination layer was refused.
#[derive(Clone, Copy, Debug)]
pub enum DagError {
    /// Invalid signature.
    InvalidSignature(CryptoError),
    /// Invalid header id.
    InvalidHeaderId,
    /// Malformed header.
    MalformedHeader(Digest),
    /// Received message from unknown authority.
    UnknownAuthority(PublicKey),
    /// Authority appears in quorum more than once.
    AuthorityReuse(PublicKey),
    /// Received unexpected vote for header.
    UnexpectedVote(Digest),
    /// Received certificate without a quorum.
    CertificateRequiresQuorum,
    /// Parents of header are not a quorum.
    HeaderRequiresQuorum(Digest),
    /// Header (round) too old.
    HeaderTooOld(Digest, Height),
    /// Vote (round) too old.
    VoteTooOld(Digest, Height),
    /// Certificate (round) too old.
    CertificateTooOld(Digest, Height),
    /// Invalid vote invalidation.
    InvalidVoteInvalidation,
    /// Invalid special parent.
    InvalidSpecialParent,
    /// No slow quorum certificate is ready.
    InvalidSlowQCRequest,
}

/// The result of processing a message of the consensus layer.
pub type ConsensusResult<T> = Result<T, ConsensusError>;

/// Why a message of the consensus layer was refused.
#[derive(Clone, Copy, Debug)]
pub enum ConsensusError {
    /// Node is not in the committee.
    NotInCommittee(PublicKey),
    /// Invalid signature.
    InvalidSignature(CryptoError),
    /// Received more than one vote from an authority.
    AuthorityReuse(PublicKey),
    /// Received vote from unknown authority.
    UnknownAuthority(PublicKey),
    /// Received QC without a quorum.
    QCRequiresQuorum,
    /// Received TC without a quorum.
    TCRequiresQuorum,
    /// Malformed block.
    MalformedBlock(Digest),
    /// Received block from the wrong leader.
    WrongLeader { digest: Digest, leader: PublicKey, view: ViewNumber },
    /// Invalid payload.
    InvalidPayload,
    /// Message (view) too old.
    TooOld(Digest, ViewNumber),
    /// An error of the dissemination layer.
    DagError(DagError),
    /// Header proposer is not the block leader.
    WrongProposer,
    /// Received block for a round smaller than the current round.
    NonMonotonicRounds(Height, Height),
    /// Invalid header.
    InvalidHeader,
    /// Invalid ticket.
    InvalidTicket,
    /// Invalid quorum certificate, for the header and view given.
    InvalidQC(Digest, ViewNumber),
    /// Invalid timeout certificate, for the header and view given.
    InvalidTC(Digest, ViewNumber),
    /// Already voted in the view of the header.
    AlreadyVoted(Digest, ViewNumber),
}

/// Which log line an error deserves: messages that are merely late are not
/// worth a warning.
#[derive(Clone, Copy, Debug, PartialEq, Eq, Structural)]
pub enum Severity {
    Debug,
    Warning,
}

impl DagError {
    /// Which log line the error deserves.
    pub fn severity(&self) -> (severity: Severity)
        ensures
            severity == (if self is HeaderTooOld || self is VoteTooOld || self is CertificateTooOld {
                Severity::Debug
            } else {
                Severity::Warning
            }),
    {
        match self {
            DagError::HeaderTooOld(_, _) => Severity::Debug,
            DagError::VoteTooOld(_, _) => Severity::Debug,
            DagError::CertificateTooOld(_, _) => Severity::Debug,
            _ => Severity::Warning,
        }
    }
}

} // verus!
