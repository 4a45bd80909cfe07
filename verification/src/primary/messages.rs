//! The messages that primaries exchange.
//!
//! Every type that owns a collection has a model: the same data as a
//! mathematical value, which is what the contracts speak of.

use crate::bytes::{append_bytes, append_u32_le, append_u64_le, le_bytes};
use crate::collections::SortedMap;
use crate::config::{worker_in, Committee, WorkerId};
use crate::crypto::{
    batch_result, digest_of, hash_bytes, is_degenerate, signed_by, signer_output, votes_on,
    CryptoError, Digest, Hashable, PublicKey, SecretKey, Signature, Signer,
};
use crate::primary::error::{
    ConsensusError, ConsensusResult, DagError, DagResult, Height, Slot, ViewNumber,
};
use crate::quorum::{check_voters, quorum_fault, reaches, voters, weight, VoterFault};
use vstd::prelude::*;

verus! {

/// A header that a consensus instance proposes to commit.
#[derive(Clone, Copy, Debug)]
pub struct Proposal {
    pub header_digest: Digest,
    pub height: Height,
}

impl Proposal {
    /// A proposal for the header with the given digest.
    pub fn new(header_digest: Digest, height: Height) -> (proposal: Self)
        ensures
            proposal == (Proposal { header_digest, height }),
    {
        Proposal { header_digest, height }
    }
}

impl Default for Proposal {
    /// No header at height 0.
    fn default() -> (proposal: Self)
        ensures
            proposal.height == 0,
            proposal.header_digest@ == Seq::new(32, |i: int| 0u8),
    {
        Proposal { header_digest: Digest::default(), height: 0 }
    }
}

impl PartialEq for Proposal {
    fn eq(&self, other: &Self) -> (same: bool) {
        self.height == other.height && self.header_digest == other.header_digest
    }
}

impl vstd::std_specs::cmp::PartialEqSpecImpl for Proposal {
    open spec fn obeys_eq_spec() -> bool {
        true
    }

    open spec fn eq_spec(&self, other: &Self) -> bool {
        *self == *other
    }
}

impl Hashable for Proposal {
    open spec fn preimage(&self) -> Seq<u8> {
        self.header_digest@ + le_bytes(self.height as nat, 8)
    }

    fn digest(&self) -> (digest: Digest) {
        let mut buffer: Vec<u8> = Vec::new();
        append_bytes(&mut buffer, self.header_digest.0.as_slice());
        append_u64_le(&mut buffer, self.height);
        assert(buffer@ =~= self.preimage());
        hash_bytes(buffer.as_slice())
    }
}

/// One proposal per authority.
pub type Proposals = SortedMap<PublicKey, Proposal>;

/// The proposals as a list in key order.
pub type ProposalList = Seq<(PublicKey, Proposal)>;

/// The signatures of a quorum over one digest.
pub struct QC {
    pub id: Digest,
    pub votes: Vec<(PublicKey, Signature)>,
}

/// A quorum certificate as a value.
#[verifier::ext_equal]
pub struct QcModel {
    pub id: Digest,
    pub votes: Seq<(PublicKey, Signature)>,
}

/// A step of a consensus instance.
pub enum ConsensusMessage {
    /// Proposes to commit `proposals`. In a view after the first, `tc` shows
    /// that the previous view timed out.
    Prepare { slot: Slot, view: ViewNumber, tc: Option<TC>, proposals: Proposals },
    /// Shows that a quorum accepted the proposals.
    Confirm { slot: Slot, view: ViewNumber, qc: QC, proposals: Proposals },
    /// Shows that a quorum confirmed them.
    Commit { slot: Slot, view: ViewNumber, qc: QC, proposals: Proposals },
}

/// Which step a consensus message is.
#[derive(Clone, Copy, Debug, PartialEq, Eq, Structural)]
pub enum MessageKind {
    Prepare,
    Confirm,
    Commit,
}

/// A consensus message as a value: a Prepare has no `qc`, the others no `tc`.
#[verifier::ext_equal]
pub struct MessageModel {
    pub kind: MessageKind,
    pub slot: Slot,
    pub view: ViewNumber,
    pub tc: Option<TcModel>,
    pub qc: Option<QcModel>,
    pub proposals: ProposalList,
}

/// A replica gives up on a view of a slot.
pub struct Timeout {
    /// The slot and view the timeout is for.
    pub slot: Slot,
    pub view: ViewNumber,
    /// The highest QC the replica has for its state.
    pub high_qc: Option<ConsensusMessage>,
    pub author: PublicKey,
    pub signature: Signature,
}

/// A timeout as a value.
#[verifier::ext_equal]
pub struct TimeoutModel {
    pub slot: Slot,
    pub view: ViewNumber,
    pub high_qc: Option<MessageModel>,
    pub author: PublicKey,
    pub signature: Signature,
}

/// The timeouts of a quorum.
pub struct TC {
    pub slot: Slot,
    pub view: ViewNumber,
    pub timeouts: Vec<Timeout>,
}

/// A timeout certificate as a value.
#[verifier::ext_equal]
pub struct TcModel {
    pub slot: Slot,
    pub view: ViewNumber,
    pub timeouts: Seq<TimeoutModel>,
}

impl QC {
    /// The certificate as a value.
    pub open spec fn model(self) -> QcModel {
        QcModel { id: self.id, votes: self.votes@ }
    }
}

impl ConsensusMessage {
    /// The message as a value.
    pub open spec fn model(self) -> MessageModel
        decreases self,
    {
        match self {
            ConsensusMessage::Prepare { slot, view, tc, proposals } => MessageModel {
                kind: MessageKind::Prepare,
                slot,
                view,
                tc: match tc {
                    Some(tc) => Some(tc.model()),
                    None => None,
                },
                qc: None,
                proposals: proposals.pairs(),
            },
            ConsensusMessage::Confirm { slot, view, qc, proposals } => MessageModel {
                kind: MessageKind::Confirm,
                slot,
                view,
                tc: None,
                qc: Some(qc.model()),
                proposals: proposals.pairs(),
            },
            ConsensusMessage::Commit { slot, view, qc, proposals } => MessageModel {
                kind: MessageKind::Commit,
                slot,
                view,
                tc: None,
                qc: Some(qc.model()),
                proposals: proposals.pairs(),
            },
        }
    }
}

impl Timeout {
    /// The timeout as a value.
    pub open spec fn model(self) -> TimeoutModel
        decreases self,
    {
        TimeoutModel {
            slot: self.slot,
            view: self.view,
            high_qc: match self.high_qc {
                Some(message) => Some(message.model()),
                None => None,
            },
            author: self.author,
            signature: self.signature,
        }
    }
}

impl TC {
    /// The certificate as a value.
    pub open spec fn model(self) -> TcModel
        decreases self,
    {
        TcModel {
            slot: self.slot,
            view: self.view,
            timeouts: Seq::new(
                self.timeouts@.len(),
                |i: int|
                    if 0 <= i < self.timeouts@.len() {
                        self.timeouts@[i].model()
                    } else {
                        arbitrary()
                    },
            ),
        }
    }
}

/// A fresh copy of a list of votes.
pub fn copy_votes(votes: &Vec<(PublicKey, Signature)>) -> (copy: Vec<(PublicKey, Signature)>)
    ensures
        copy@ == votes@,
{
    let mut copy: Vec<(PublicKey, Signature)> = Vec::new();
    let mut i: usize = 0;
    while i < votes.len()
        invariant
            i <= votes@.len(),
            copy@ == votes@.take(i as int),
        decreases votes@.len() - i,
    {
        copy.push((votes[i].0, votes[i].1));
        assert(copy@ =~= votes@.take(i + 1));
        i += 1;
    }
    assert(copy@ =~= votes@);
    copy
}

impl QC {
    /// Another certificate with the same content.
    pub fn duplicate(&self) -> (qc: Self)
        ensures
            qc.model() == self.model(),
    {
        QC { id: self.id, votes: copy_votes(&self.votes) }
    }
}

impl ConsensusMessage {
    /// Another message with the same content.
    pub fn duplicate(&self) -> (message: Self)
        ensures
            message.model() == self.model(),
        decreases self,
    {
        match self {
            ConsensusMessage::Prepare { slot, view, tc, proposals } => {
                let tc_copy = match tc {
                    Some(tc) => Some(tc.duplicate()),
                    None => None,
                };
                ConsensusMessage::Prepare {
                    slot: *slot,
                    view: *view,
                    tc: tc_copy,
                    proposals: proposals.duplicate(),
                }
            },
            ConsensusMessage::Confirm { slot, view, qc, proposals } => ConsensusMessage::Confirm {
                slot: *slot,
                view: *view,
                qc: qc.duplicate(),
                proposals: proposals.duplicate(),
            },
            ConsensusMessage::Commit { slot, view, qc, proposals } => ConsensusMessage::Commit {
                slot: *slot,
                view: *view,
                qc: qc.duplicate(),
                proposals: proposals.duplicate(),
            },
        }
    }

    /// Which step the message is.
    pub fn kind(&self) -> (kind: MessageKind)
        ensures
            kind == self.model().kind,
    {
        match self {
            ConsensusMessage::Prepare { .. } => MessageKind::Prepare,
            ConsensusMessage::Confirm { .. } => MessageKind::Confirm,
            ConsensusMessage::Commit { .. } => MessageKind::Commit,
        }
    }

    /// The slot that the message decides on.
    pub fn slot(&self) -> (slot: Slot)
        ensures
            slot == self.model().slot,
    {
        match self {
            ConsensusMessage::Prepare { slot, .. } => *slot,
            ConsensusMessage::Confirm { slot, .. } => *slot,
            ConsensusMessage::Commit { slot, .. } => *slot,
        }
    }

    /// The view of the message.
    pub fn view_number(&self) -> (view: ViewNumber)
        ensures
            view == self.model().view,
    {
        match self {
            ConsensusMessage::Prepare { view, .. } => *view,
            ConsensusMessage::Confirm { view, .. } => *view,
            ConsensusMessage::Commit { view, .. } => *view,
        }
    }

    /// The headers that the message is about.
    pub fn proposals(&self) -> (proposals: &Proposals)
        ensures
            proposals.pairs() == self.model().proposals,
    {
        match self {
            ConsensusMessage::Prepare { proposals, .. } => proposals,
            ConsensusMessage::Confirm { proposals, .. } => proposals,
            ConsensusMessage::Commit { proposals, .. } => proposals,
        }
    }
}

impl Timeout {
    /// Another timeout with the same content.
    pub fn duplicate(&self) -> (timeout: Self)
        ensures
            timeout.model() == self.model(),
        decreases self,
    {
        let high_qc = match &self.high_qc {
            Some(message) => Some(message.duplicate()),
            None => None,
        };
        Timeout {
            slot: self.slot,
            view: self.view,
            high_qc,
            author: self.author,
            signature: self.signature,
        }
    }
}

/// The timeouts as values.
pub open spec fn timeout_models(timeouts: Seq<Timeout>) -> Seq<TimeoutModel> {
    Seq::new(timeouts.len(), |i: int| timeouts[i].model())
}

impl TC {
    /// Another certificate with the same content.
    pub fn duplicate(&self) -> (tc: Self)
        ensures
            tc.model() == self.model(),
        decreases self,
    {
        let mut timeouts: Vec<Timeout> = Vec::new();
        let mut i: usize = 0;
        while i < self.timeouts.len()
            invariant
                i <= self.timeouts@.len(),
                timeouts@.len() == i,
                forall|j: int|
                    0 <= j < i ==> (#[trigger] timeouts@[j]).model() == self.timeouts@[j].model(),
            decreases self.timeouts@.len() - i,
        {
            assert(decreases_to!(self => self.timeouts@[i as int]));
            timeouts.push(self.timeouts[i].duplicate());
            i += 1;
        }
        let tc = TC { slot: self.slot, view: self.view, timeouts };
        assert(tc.model().timeouts =~= self.model().timeouts);
        tc
    }
}

/// Whether two lists of proposals are the same.
pub fn same_proposals(a: &Proposals, b: &Proposals) -> (same: bool)
    ensures
        same == (a.pairs() == b.pairs()),
{
    let n = a.len();
    if n != b.len() {
        return false;
    }
    let mut i: usize = 0;
    while i < n
        invariant
            i <= n,
            n == a.pairs().len(),
            n == b.pairs().len(),
            forall|j: int| 0 <= j < i ==> a.pairs()[j] == b.pairs()[j],
        decreases n - i,
    {
        if a.key_at(i) != b.key_at(i) || *a.value_at(i) != *b.value_at(i) {
            return false;
        }
        i += 1;
    }
    assert(a.pairs() =~= b.pairs());
    true
}

/// Whether two lists of votes are the same.
pub fn same_votes(a: &Vec<(PublicKey, Signature)>, b: &Vec<(PublicKey, Signature)>) -> (same: bool)
    ensures
        same == (a@ == b@),
{
    if a.len() != b.len() {
        return false;
    }
    let mut i: usize = 0;
    while i < a.len()
        invariant
            i <= a@.len() == b@.len(),
            forall|j: int| 0 <= j < i ==> a@[j] == b@[j],
        decreases a@.len() - i,
    {
        if a[i].0 != b[i].0 || a[i].1 != b[i].1 {
            return false;
        }
        i += 1;
    }
    assert(a@ =~= b@);
    true
}

impl PartialEq for QC {
    fn eq(&self, other: &Self) -> (same: bool) {
        self.id == other.id && same_votes(&self.votes, &other.votes)
    }
}

impl vstd::std_specs::cmp::PartialEqSpecImpl for QC {
    open spec fn obeys_eq_spec() -> bool {
        true
    }

    open spec fn eq_spec(&self, other: &Self) -> bool {
        self.model() == other.model()
    }
}

impl ConsensusMessage {
    /// Whether two consensus messages have the same content.
    fn same_as(&self, other: &ConsensusMessage) -> (same: bool)
        ensures
            same == (self.model() == other.model()),
        decreases self,
    {
        match self {
            ConsensusMessage::Prepare { slot, view, tc, proposals } => match other {
                ConsensusMessage::Prepare {
                    slot: other_slot,
                    view: other_view,
                    tc: other_tc,
                    proposals: other_proposals,
                } => {
                    let same_ticket = match tc {
                        Some(tc) => match other_tc {
                            Some(other_tc) => tc.same_as(other_tc),
                            None => false,
                        },
                        None => other_tc.is_none(),
                    };
                    *slot == *other_slot && *view == *other_view && same_ticket && same_proposals(
                        proposals,
                        other_proposals,
                    )
                },
                _ => false,
            },
            ConsensusMessage::Confirm { slot, view, qc, proposals } => match other {
                ConsensusMessage::Confirm {
                    slot: other_slot,
                    view: other_view,
                    qc: other_qc,
                    proposals: other_proposals,
                } => *slot == *other_slot && *view == *other_view && *qc == *other_qc
                    && same_proposals(proposals, other_proposals),
                _ => false,
            },
            ConsensusMessage::Commit { slot, view, qc, proposals } => match other {
                ConsensusMessage::Commit {
                    slot: other_slot,
                    view: other_view,
                    qc: other_qc,
                    proposals: other_proposals,
                } => *slot == *other_slot && *view == *other_view && *qc == *other_qc
                    && same_proposals(proposals, other_proposals),
                _ => false,
            },
        }
    }
}

impl Timeout {
    /// Whether two timeouts have the same content.
    fn same_as(&self, other: &Timeout) -> (same: bool)
        ensures
            same == (self.model() == other.model()),
        decreases self,
    {
        let same_qc = match &self.high_qc {
            Some(message) => match &other.high_qc {
                Some(other_message) => message.same_as(other_message),
                None => false,
            },
            None => other.high_qc.is_none(),
        };
        self.slot == other.slot && self.view == other.view && same_qc && self.author == other.author
            && self.signature == other.signature
    }
}

impl TC {
    /// Whether two timeout certificates have the same content.
    fn same_as(&self, other: &TC) -> (same: bool)
        ensures
            same == (self.model() == other.model()),
        decreases self,
    {
        if self.slot != other.slot || self.view != other.view || self.timeouts.len()
            != other.timeouts.len() {
            assert(self.model().timeouts.len() == self.timeouts@.len());
            assert(other.model().timeouts.len() == other.timeouts@.len());
            return false;
        }
        let ghost models = self.model().timeouts;
        let ghost other_models = other.model().timeouts;
        let n: usize = self.timeouts.len();
        let mut i: usize = 0;
        while i < n
            invariant
                i <= n == self.timeouts@.len() == other.timeouts@.len(),
                models == self.model().timeouts,
                other_models == other.model().timeouts,
                models.len() == n == other_models.len(),
                forall|j: int| 0 <= j < i ==> models[j] == other_models[j],
            decreases n - i,
        {
            assert(models[i as int] == self.timeouts@[i as int].model());
            assert(other_models[i as int] == other.timeouts@[i as int].model());
            assert(decreases_to!(self => self.timeouts@[i as int]));
            if !self.timeouts[i].same_as(&other.timeouts[i]) {
                return false;
            }
            i += 1;
        }
        assert(models =~= other_models);
        true
    }
}

impl PartialEq for TC {
    fn eq(&self, other: &Self) -> (same: bool) {
        self.same_as(other)
    }
}

impl vstd::std_specs::cmp::PartialEqSpecImpl for TC {
    open spec fn obeys_eq_spec() -> bool {
        true
    }

    open spec fn eq_spec(&self, other: &Self) -> bool {
        self.model() == other.model()
    }
}

impl PartialEq for ConsensusMessage {
    fn eq(&self, other: &Self) -> (same: bool) {
        self.same_as(other)
    }
}

impl vstd::std_specs::cmp::PartialEqSpecImpl for ConsensusMessage {
    open spec fn obeys_eq_spec() -> bool {
        true
    }

    open spec fn eq_spec(&self, other: &Self) -> bool {
        self.model() == other.model()
    }
}

/// The header digests of the proposals, in key order.
pub open spec fn proposal_bytes(proposals: ProposalList) -> Seq<u8>
    decreases proposals.len(),
{
    if proposals.len() == 0 {
        Seq::empty()
    } else {
        proposal_bytes(proposals.drop_last()) + proposals.last().1.header_digest@
    }
}

/// The digest of the headers that a message proposes.
pub fn proposal_digest(consensus_message: &ConsensusMessage) -> (digest: Digest)
    ensures
        digest == digest_of(proposal_bytes(consensus_message.model().proposals)),
{
    let proposals = consensus_message.proposals();
    let n = proposals.len();
    let mut buffer: Vec<u8> = Vec::new();
    let mut i: usize = 0;
    assert(proposals.pairs().take(0).len() == 0);
    while i < n
        invariant
            i <= n,
            n == proposals.pairs().len(),
            buffer@ == proposal_bytes(proposals.pairs().take(i as int)),
        decreases n - i,
    {
        assert(proposals.pairs().take(i + 1).drop_last() =~= proposals.pairs().take(i as int));
        let proposal = *proposals.value_at(i);
        append_bytes(&mut buffer, proposal.header_digest.0.as_slice());
        i += 1;
    }
    assert(proposals.pairs().take(n as int) =~= proposals.pairs());
    hash_bytes(buffer.as_slice())
}

impl Hashable for QC {
    open spec fn preimage(&self) -> Seq<u8> {
        Seq::empty()
    }

    fn digest(&self) -> (digest: Digest) {
        let buffer: Vec<u8> = Vec::new();
        assert(buffer@ =~= self.preimage());
        hash_bytes(buffer.as_slice())
    }
}

/// The bytes that identify a consensus message: slot, view, the digest of its
/// QC if it has one, and a byte for its kind.
pub open spec fn message_bytes(message: MessageModel) -> Seq<u8> {
    let place = le_bytes(message.slot as nat, 8) + le_bytes(message.view as nat, 8);
    match message.kind {
        MessageKind::Prepare => place + seq![0u8],
        MessageKind::Confirm => place + digest_of(Seq::empty())@ + seq![1u8],
        MessageKind::Commit => place + digest_of(Seq::empty())@ + seq![2u8],
    }
}

impl Hashable for ConsensusMessage {
    open spec fn preimage(&self) -> Seq<u8> {
        message_bytes(self.model())
    }

    fn digest(&self) -> (digest: Digest) {
        let mut buffer: Vec<u8> = Vec::new();
        append_u64_le(&mut buffer, self.slot());
        append_u64_le(&mut buffer, self.view_number());
        match self {
            ConsensusMessage::Prepare { .. } => {
                buffer.push(0);
            },
            ConsensusMessage::Confirm { qc, .. } => {
                append_bytes(&mut buffer, qc.digest().0.as_slice());
                buffer.push(1);
            },
            ConsensusMessage::Commit { qc, .. } => {
                append_bytes(&mut buffer, qc.digest().0.as_slice());
                buffer.push(2);
            },
        }
        assert(buffer@ =~= self.preimage());
        hash_bytes(buffer.as_slice())
    }
}

/// Shows that enough authorities voted for a header.
pub struct Certificate {
    pub author: PublicKey,
    pub header_digest: Digest,
    pub height: Height,
    pub votes: Vec<(PublicKey, Signature)>,
}

/// A certificate as a value.
#[verifier::ext_equal]
pub struct CertificateModel {
    pub author: PublicKey,
    pub header_digest: Digest,
    pub height: Height,
    pub votes: Seq<(PublicKey, Signature)>,
}

/// A block of one author's chain: a list of batches, the certificate of the
/// block before, and steps of consensus instances.
pub struct Header {
    pub author: PublicKey,
    pub height: Height,
    pub payload: SortedMap<Digest, WorkerId>,
    pub parent_cert: Certificate,
    pub id: Digest,
    pub signature: Signature,
    /// Consensus messages by their digest.
    pub consensus_messages: SortedMap<Digest, ConsensusMessage>,
    /// Number of Prepare and Confirm messages.
    pub num_active_instances: usize,
    pub special: bool,
}

/// A header as a value.
#[verifier::ext_equal]
pub struct HeaderModel {
    pub author: PublicKey,
    pub height: Height,
    pub payload: Seq<(Digest, WorkerId)>,
    pub parent_cert: CertificateModel,
    pub id: Digest,
    pub signature: Signature,
    pub consensus_messages: Seq<(Digest, MessageModel)>,
    pub num_active_instances: usize,
    pub special: bool,
}

/// One authority's vote for a header and for the consensus messages in it.
pub struct Vote {
    /// The header we are voting for.
    pub id: Digest,
    pub height: Height,
    pub origin: PublicKey,
    pub author: PublicKey,
    pub signature: Signature,
    /// Signed digests of consensus messages.
    pub consensus_sigs: Vec<(Digest, Signature)>,
}

/// A vote as a value.
#[verifier::ext_equal]
pub struct VoteModel {
    pub id: Digest,
    pub height: Height,
    pub origin: PublicKey,
    pub author: PublicKey,
    pub signature: Signature,
    pub consensus_sigs: Seq<(Digest, Signature)>,
}

impl Certificate {
    /// The certificate as a value.
    pub open spec fn model(self) -> CertificateModel {
        CertificateModel {
            author: self.author,
            header_digest: self.header_digest,
            height: self.height,
            votes: self.votes@,
        }
    }

    /// Another certificate with the same content.
    pub fn duplicate(&self) -> (certificate: Self)
        ensures
            certificate.model() == self.model(),
    {
        Certificate {
            author: self.author,
            header_digest: self.header_digest,
            height: self.height,
            votes: copy_votes(&self.votes),
        }
    }
}

/// The consensus messages as values.
pub open spec fn message_models(messages: Seq<(Digest, ConsensusMessage)>) -> Seq<
    (Digest, MessageModel),
> {
    Seq::new(messages.len(), |i: int| (messages[i].0, messages[i].1.model()))
}

/// A fresh copy of a table of consensus messages.
pub fn copy_messages(messages: &SortedMap<Digest, ConsensusMessage>) -> (copy: SortedMap<
    Digest,
    ConsensusMessage,
>)
    ensures
        message_models(copy.pairs()) == message_models(messages.pairs()),
{
    let n = messages.len();
    let mut copy: SortedMap<Digest, ConsensusMessage> = SortedMap::new();
    let mut i: usize = 0;
    while i < n
        invariant
            i <= n,
            n == messages.pairs().len(),
            crate::collections::sorted(messages.pairs()),
            copy.pairs().len() == i,
            forall|j: int|
                0 <= j < i ==> (#[trigger] copy.pairs()[j]).0 == messages.pairs()[j].0
                    && copy.pairs()[j].1.model() == messages.pairs()[j].1.model(),
        decreases n - i,
    {
        let key = messages.key_at(i);
        let message = messages.value_at(i).duplicate();
        assert forall|j: int| 0 <= j < copy.pairs().len() implies crate::collections::Key::rank(
            (#[trigger] copy.pairs()[j]).0,
        ) < crate::collections::Key::rank(key) by {
            assert(crate::collections::Key::rank(messages.pairs()[j].0)
                < crate::collections::Key::rank(messages.pairs()[i as int].0));
        }
        copy.push_last(key, message);
        i += 1;
    }
    assert(message_models(copy.pairs()) =~= message_models(messages.pairs()));
    copy
}

impl Header {
    /// The header as a value.
    pub open spec fn model(self) -> HeaderModel {
        HeaderModel {
            author: self.author,
            height: self.height,
            payload: self.payload.pairs(),
            parent_cert: self.parent_cert.model(),
            id: self.id,
            signature: self.signature,
            consensus_messages: message_models(self.consensus_messages.pairs()),
            num_active_instances: self.num_active_instances,
            special: self.special,
        }
    }

    /// Another header with the same content.
    pub fn duplicate(&self) -> (header: Self)
        ensures
            header.model() == self.model(),
    {
        Header {
            author: self.author,
            height: self.height,
            payload: self.payload.duplicate(),
            parent_cert: self.parent_cert.duplicate(),
            id: self.id,
            signature: self.signature,
            consensus_messages: copy_messages(&self.consensus_messages),
            num_active_instances: self.num_active_instances,
            special: self.special,
        }
    }
}

impl Vote {
    /// The vote as a value.
    pub open spec fn model(self) -> VoteModel {
        VoteModel {
            id: self.id,
            height: self.height,
            origin: self.origin,
            author: self.author,
            signature: self.signature,
            consensus_sigs: self.consensus_sigs@,
        }
    }
}

/// The batches of a header with the workers that hold them.
pub open spec fn payload_bytes(payload: Seq<(Digest, WorkerId)>) -> Seq<u8>
    decreases payload.len(),
{
    if payload.len() == 0 {
        Seq::empty()
    } else {
        payload_bytes(payload.drop_last()) + payload.last().0@ + le_bytes(
            payload.last().1 as nat,
            4,
        )
    }
}

/// The bytes that a header id covers: author, height and payload.
pub open spec fn header_bytes(
    author: PublicKey,
    height: Height,
    payload: Seq<(Digest, WorkerId)>,
) -> Seq<u8> {
    author@ + le_bytes(height as nat, 8) + payload_bytes(payload)
}

/// The id that a header with the given content has.
pub open spec fn header_id(
    author: PublicKey,
    height: Height,
    payload: Seq<(Digest, WorkerId)>,
) -> Digest {
    digest_of(header_bytes(author, height, payload))
}

/// The id of an author's genesis header.
pub open spec fn genesis_id(author: PublicKey) -> Digest {
    header_id(author, 0, Seq::empty())
}

/// What the verification of a header answers: its id must cover its content,
/// its author must have stake and the workers that it names, and the signature
/// over the id must be the author's.
pub open spec fn header_verdict(header: HeaderModel, committee: &Committee) -> DagResult<()> {
    if header_id(header.author, header.height, header.payload) != header.id {
        Err(DagError::InvalidHeaderId)
    } else if committee.stake_spec(header.author) == 0 {
        Err(DagError::UnknownAuthority(header.author))
    } else if !workers_known(header, committee) {
        Err(DagError::MalformedHeader(header.id))
    } else if !signed_by(header.id, header.author, header.signature) {
        Err(DagError::InvalidSignature(CryptoError::InvalidSignature))
    } else {
        Ok(())
    }
}

/// Whether the author of a header has all the workers that it names.
pub open spec fn workers_known(header: HeaderModel, committee: &Committee) -> bool {
    forall|i: int|
        0 <= i < header.payload.len() ==> worker_in(
            committee@,
            header.author,
            (#[trigger] header.payload[i]).1,
        ) is Some
}

/// The bytes that a vote or a certificate for a header covers.
pub open spec fn vote_bytes(id: Digest, height: Height) -> Seq<u8> {
    id@ + le_bytes(height as nat, 8)
}

fn vote_digest(id: &Digest, height: Height) -> (digest: Digest)
    ensures
        digest == digest_of(vote_bytes(*id, height)),
{
    let mut buffer: Vec<u8> = Vec::new();
    append_bytes(&mut buffer, id.0.as_slice());
    append_u64_le(&mut buffer, height);
    assert(buffer@ =~= vote_bytes(*id, height));
    hash_bytes(buffer.as_slice())
}

/// How many of the messages are a Prepare or a Confirm.
pub open spec fn active_count(messages: Seq<(Digest, MessageModel)>) -> nat
    decreases messages.len(),
{
    if messages.len() == 0 {
        0
    } else {
        active_count(messages.drop_last()) + (if messages.last().1.kind != MessageKind::Commit {
            1nat
        } else {
            0nat
        })
    }
}

impl Header {
    /// A signed header.
    pub fn new(
        author: PublicKey,
        height: Height,
        payload: SortedMap<Digest, WorkerId>,
        parent_cert: Certificate,
        signer: &Signer,
        consensus_instances: SortedMap<Digest, ConsensusMessage>,
        num_active_instances: usize,
    ) -> (header: Self)
        ensures
            header.model() == (HeaderModel {
                author,
                height,
                payload: payload.pairs(),
                parent_cert: parent_cert.model(),
                id: header_id(author, height, payload.pairs()),
                signature: header.signature,
                consensus_messages: message_models(consensus_instances.pairs()),
                num_active_instances,
                special: false,
            }),
            header.signature@ == signer_output(signer.disabled(), signer.keypair(), header.id@),
            !signer.disabled() && author@ == signer.public_view() && !is_degenerate(
                header.signature,
            ) ==> signed_by(header.id, author, header.signature),
    {
        let mut header = Header {
            author,
            height,
            payload,
            parent_cert,
            id: Digest::default(),
            signature: Signature::default(),
            consensus_messages: consensus_instances,
            num_active_instances,
            special: false,
        };
        let id = header.digest();
        header.signature = signer.sign(&id);
        header.id = id;
        header
    }

    /// A header signed with a bare key, without payload.
    pub fn new_from_key(
        author: PublicKey,
        _view: ViewNumber,
        round: Height,
        secret: &SecretKey,
        _committee: &Committee,
    ) -> (header: Header)
        ensures
            header.model() == (HeaderModel {
                author,
                height: round,
                id: header_id(author, round, Seq::empty()),
                signature: header.signature,
                ..default_header()
            }),
            header.signature@ == crate::crypto::ed25519_signature(
                secret.keypair(),
                header.id@,
            ),
            author@ == secret.public_view() && !is_degenerate(header.signature) ==> signed_by(
                header.id,
                author,
                header.signature,
            ),
    {
        let mut header = Header::default();
        header.author = author;
        header.height = round;
        let id = header.digest();
        header.signature = Signature::new(&id, secret);
        header.id = id;
        header
    }

    /// Lets the header carry consensus messages. Those that are not decided yet
    /// count as active instances.
    pub fn carry(&mut self, messages: SortedMap<Digest, ConsensusMessage>)
        ensures
            final(self).model() == (HeaderModel {
                consensus_messages: message_models(messages.pairs()),
                num_active_instances: active_count(message_models(messages.pairs())) as usize,
                ..old(self).model()
            }),
            active_count(message_models(messages.pairs())) <= messages.pairs().len(),
    {
        let ghost models = message_models(messages.pairs());
        let n = messages.len();
        let mut active: usize = 0;
        let mut i: usize = 0;
        assert(models.take(0).len() == 0);
        while i < n
            invariant
                i <= n == messages.pairs().len(),
                models == message_models(messages.pairs()),
                active == active_count(models.take(i as int)),
                active <= i,
            decreases n - i,
        {
            let message = messages.value_at(i);
            assert(models.take(i + 1).drop_last() =~= models.take(i as int));
            assert(models[i as int].1 == message.model());
            if message.kind() != MessageKind::Commit {
                active += 1;
            }
            i += 1;
        }
        assert(models.take(n as int) =~= models);
        self.consensus_messages = messages;
        self.num_active_instances = active;
    }

    /// The genesis header of the first authority.
    pub fn genesis(committee: &Committee) -> (header: Self)
        requires
            committee.pairs().len() > 0,
        ensures
            header.model() == (HeaderModel { author: committee.pairs()[0].0, ..default_header() }),
    {
        let mut header = Header::default();
        header.author = committee.key_at(0);
        header
    }

    /// The genesis header of every authority.
    pub fn genesis_headers(committee: &Committee) -> (headers: SortedMap<PublicKey, Header>)
        ensures
            headers.pairs().len() == committee.pairs().len(),
            forall|i: int|
                0 <= i < headers.pairs().len() ==> (#[trigger] headers.pairs()[i]).0
                    == committee.pairs()[i].0 && headers.pairs()[i].1.model() == (HeaderModel {
                    author: committee.pairs()[i].0,
                    ..default_header()
                }),
    {
        let n = committee.size();
        let mut headers: SortedMap<PublicKey, Header> = SortedMap::new();
        let mut i: usize = 0;
        while i < n
            invariant
                i <= n,
                n == committee.pairs().len(),
                committee.wf(),
                headers.pairs().len() == i,
                forall|j: int|
                    0 <= j < i ==> (#[trigger] headers.pairs()[j]).0 == committee.pairs()[j].0
                        && headers.pairs()[j].1.model() == (HeaderModel {
                        author: committee.pairs()[j].0,
                        ..default_header()
                    }),
            decreases n - i,
        {
            let name = committee.key_at(i);
            let mut header = Header::default();
            header.author = name;
            assert forall|j: int| 0 <= j < headers.pairs().len() implies crate::collections::Key::rank(
                (#[trigger] headers.pairs()[j]).0,
            ) < crate::collections::Key::rank(name) by {
                assert(crate::collections::Key::rank(committee.pairs()[j].0)
                    < crate::collections::Key::rank(committee.pairs()[i as int].0));
            }
            headers.push_last(name, header);
            i += 1;
        }
        headers
    }

    /// The proposal of every authority's genesis header.
    pub fn genesis_proposals(committee: &Committee) -> (proposals: Proposals)
        ensures
            proposals.pairs() == genesis_proposal_list(committee),
    {
        let n = committee.size();
        let mut proposals: Proposals = SortedMap::new();
        let mut i: usize = 0;
        while i < n
            invariant
                i <= n,
                n == committee.pairs().len(),
                committee.wf(),
                proposals.pairs() == genesis_proposal_list(committee).take(i as int),
            decreases n - i,
        {
            let name = committee.key_at(i);
            let mut header = Header::default();
            header.author = name;
            assert forall|j: int| 0 <= j < proposals.pairs().len() implies crate::collections::Key::rank(
                (#[trigger] proposals.pairs()[j]).0,
            ) < crate::collections::Key::rank(name) by {
                assert(crate::collections::Key::rank(committee.pairs()[j].0)
                    < crate::collections::Key::rank(committee.pairs()[i as int].0));
            }
            proposals.push_last(name, Proposal { header_digest: header.digest(), height: 0 });
            assert(proposals.pairs() =~= genesis_proposal_list(committee).take(i + 1));
            i += 1;
        }
        assert(proposals.pairs() =~= genesis_proposal_list(committee));
        proposals
    }

    /// Checks that the header is what its author signed.
    pub fn verify(&self, committee: &Committee) -> (result: DagResult<()>)
        ensures
            result == header_verdict(self.model(), committee),
    {
        // Ensure the header id is well formed.
        let id = self.digest();
        if id != self.id {
            return Err(DagError::InvalidHeaderId);
        }
        // Ensure the authority has voting rights.
        if committee.stake(&self.author) == 0 {
            return Err(DagError::UnknownAuthority(self.author));
        }
        // Ensure all worker ids are correct.
        let n = self.payload.len();
        let mut i: usize = 0;
        while i < n
            invariant
                i <= n,
                n == self.payload.pairs().len(),
                forall|j: int|
                    0 <= j < i ==> worker_in(
                        committee@,
                        self.author,
                        (#[trigger] self.payload.pairs()[j]).1,
                    ) is Some,
                header_id(self.author, self.height, self.payload.pairs()) == self.id,
                committee.stake_spec(self.author) > 0,
            decreases n - i,
        {
            let worker_id = *self.payload.value_at(i);
            if committee.worker(&self.author, &worker_id).is_none() {
                assert(worker_in(committee@, self.model().author, self.model().payload[i as int].1)
                    is None);
                return Err(DagError::MalformedHeader(self.id));
            }
            i += 1;
        }
        // Check the signature.
        match self.signature.verify(&self.id, &self.author) {
            Ok(()) => Ok(()),
            Err(e) => Err(DagError::InvalidSignature(e)),
        }
    }

    /// The position of the header in its author's chain.
    pub fn height(&self) -> (height: Height)
        ensures
            height == self.height,
    {
        self.height
    }

    /// The author of the header.
    pub fn origin(&self) -> (origin: PublicKey)
        ensures
            origin == self.author,
    {
        self.author
    }

    /// The id that the header should have.
    pub fn digest(&self) -> (digest: Digest)
        ensures
            digest == header_id(self.author, self.height, self.payload.pairs()),
    {
        let buffer = self.content();
        hash_bytes(buffer.as_slice())
    }

    fn content(&self) -> (buffer: Vec<u8>)
        ensures
            buffer@ == header_bytes(self.author, self.height, self.payload.pairs()),
    {
        let mut buffer: Vec<u8> = Vec::new();
        append_bytes(&mut buffer, self.author.0.as_slice());
        append_u64_le(&mut buffer, self.height);
        append_payload(&mut buffer, &self.payload);
        assert(buffer@ =~= header_bytes(self.author, self.height, self.payload.pairs()));
        buffer
    }
}

/// Appends the batches of a header with the workers that hold them.
pub fn append_payload(buffer: &mut Vec<u8>, payload: &SortedMap<Digest, WorkerId>)
    ensures
        final(buffer)@ == old(buffer)@ + payload_bytes(payload.pairs()),
{
    let ghost head = buffer@;
    let ghost pairs = payload.pairs();
    let n = payload.len();
    let mut i: usize = 0;
    assert(buffer@ =~= head + payload_bytes(pairs.take(0)));
    while i < n
        invariant
            i <= n == pairs.len(),
            pairs == payload.pairs(),
            buffer@ == head + payload_bytes(pairs.take(i as int)),
        decreases n - i,
    {
        assert(pairs.take(i + 1).drop_last() =~= pairs.take(i as int));
        let digest = payload.key_at(i);
        let worker_id = *payload.value_at(i);
        append_bytes(buffer, digest.0.as_slice());
        append_u32_le(buffer, worker_id);
        assert(buffer@ =~= head + payload_bytes(pairs.take(i + 1)));
        i += 1;
    }
    assert(pairs.take(n as int) =~= pairs);
}

/// The proposal of every authority's genesis header, in key order.
pub open spec fn genesis_proposal_list(committee: &Committee) -> ProposalList {
    Seq::new(
        committee.pairs().len(),
        |i: int|
            (
                committee.pairs()[i].0,
                Proposal { header_digest: genesis_id(committee.pairs()[i].0), height: 0 },
            ),
    )
}

/// The all-zero key.
pub open spec fn zero_key() -> PublicKey {
    choose|key: PublicKey| #[trigger] key@ == Seq::new(32, |i: int| 0u8)
}

/// The all-zero digest.
pub open spec fn zero_digest() -> Digest {
    choose|digest: Digest| #[trigger] digest@ == Seq::new(32, |i: int| 0u8)
}

/// The all-zero signature.
pub open spec fn zero_signature() -> Signature {
    choose|signature: Signature| #[trigger] signature@ == Seq::new(64, |i: int| 0u8)
}

/// The certificate that a default certificate is.
pub open spec fn default_certificate() -> CertificateModel {
    CertificateModel {
        author: zero_key(),
        header_digest: zero_digest(),
        height: 0,
        votes: Seq::empty(),
    }
}

/// The header that a default header is.
pub open spec fn default_header() -> HeaderModel {
    HeaderModel {
        author: zero_key(),
        height: 0,
        payload: Seq::empty(),
        parent_cert: default_certificate(),
        id: zero_digest(),
        signature: zero_signature(),
        consensus_messages: Seq::empty(),
        num_active_instances: 0,
        special: false,
    }
}

/// The all-zero key.
pub fn make_zero_key() -> (key: PublicKey)
    ensures
        key == zero_key(),
{
    let key = PublicKey::default();
    proof {
        crate::crypto::lemma_public_key_extensional(key, zero_key());
    }
    key
}

/// The all-zero digest.
pub fn make_zero_digest() -> (digest: Digest)
    ensures
        digest == zero_digest(),
{
    let digest = Digest::default();
    proof {
        crate::crypto::lemma_digest_extensional(digest, zero_digest());
    }
    digest
}

/// The all-zero signature.
pub fn make_zero_signature() -> (signature: Signature)
    ensures
        signature == zero_signature(),
{
    let signature = Signature::default();
    proof {
        crate::crypto::lemma_signature_extensional(signature, zero_signature());
    }
    signature
}

impl Default for Certificate {
    fn default() -> (certificate: Self)
        ensures
            certificate.model() == default_certificate(),
    {
        Certificate {
            author: make_zero_key(),
            header_digest: make_zero_digest(),
            height: 0,
            votes: Vec::new(),
        }
    }
}

impl Default for Header {
    fn default() -> (header: Self)
        ensures
            header.model() == default_header(),
    {
        let header = Header {
            author: make_zero_key(),
            height: 0,
            payload: SortedMap::new(),
            parent_cert: Certificate::default(),
            id: make_zero_digest(),
            signature: make_zero_signature(),
            consensus_messages: SortedMap::new(),
            num_active_instances: 0,
            special: false,
        };
        assert(header.model() =~= default_header());
        header
    }
}

impl Default for QC {
    fn default() -> (qc: Self)
        ensures
            qc.model() == genesis_qc(),
    {
        QC { id: make_zero_digest(), votes: Vec::new() }
    }
}

impl Default for TC {
    fn default() -> (tc: Self)
        ensures
            tc.model() == genesis_tc(),
    {
        let tc = TC { slot: 0, view: 0, timeouts: Vec::new() };
        assert(tc.model().timeouts =~= Seq::empty());
        tc
    }
}

impl Hashable for Header {
    /// Unlike the id, this also covers the parent.
    open spec fn preimage(&self) -> Seq<u8> {
        header_bytes(self.author, self.height, self.payload.pairs())
            + self.parent_cert.header_digest@
    }

    fn digest(&self) -> (digest: Digest) {
        let mut buffer = self.content();
        append_bytes(&mut buffer, self.parent_cert.header_digest.0.as_slice());
        hash_bytes(buffer.as_slice())
    }
}

impl PartialEq for Header {
    /// Headers with the same id are the same.
    fn eq(&self, other: &Self) -> (same: bool) {
        self.id == other.id
    }
}

impl vstd::std_specs::cmp::PartialEqSpecImpl for Header {
    open spec fn obeys_eq_spec() -> bool {
        true
    }

    open spec fn eq_spec(&self, other: &Self) -> bool {
        self.id == other.id
    }
}

/// The genesis header can stand for the default header: they are told to be the
/// same, since both have the default id, though the author differs.
pub proof fn law_genesis_is_default(genesis: Header, default: Header, author: PublicKey)
    requires
        genesis.model() == (HeaderModel { author, ..default_header() }),
        default.model() == default_header(),
    ensures
        vstd::std_specs::cmp::PartialEqSpec::eq_spec(&genesis, &default),
{
    assert(genesis.model().id == default.model().id);
}

/// A header whose author signed its id verifies, if the author has stake and
/// the workers that the header names.
pub proof fn lemma_signed_header_verifies(header: HeaderModel, committee: &Committee)
    requires
        header.id == header_id(header.author, header.height, header.payload),
        committee.stake_spec(header.author) > 0,
        workers_known(header, committee),
        signed_by(header.id, header.author, header.signature),
    ensures
        header_verdict(header, committee) is Ok,
{
}

impl Hashable for Vote {
    open spec fn preimage(&self) -> Seq<u8> {
        vote_bytes(self.id, self.height)
    }

    fn digest(&self) -> (digest: Digest) {
        vote_digest(&self.id, self.height)
    }
}

impl Hashable for Certificate {
    open spec fn preimage(&self) -> Seq<u8> {
        vote_bytes(self.header_digest, self.height)
    }

    fn digest(&self) -> (digest: Digest) {
        vote_digest(&self.header_digest, self.height)
    }
}

impl PartialEq for Vote {
    /// Votes for the same header are the same, whoever cast them.
    fn eq(&self, other: &Self) -> (same: bool) {
        self.digest() == other.digest()
    }
}

impl vstd::std_specs::cmp::PartialEqSpecImpl for Vote {
    open spec fn obeys_eq_spec() -> bool {
        true
    }

    open spec fn eq_spec(&self, other: &Self) -> bool {
        digest_of(vote_bytes(self.id, self.height)) == digest_of(
            vote_bytes(other.id, other.height),
        )
    }
}

/// What the verification of a vote answers.
pub open spec fn vote_verdict(vote: VoteModel, committee: &Committee) -> DagResult<()> {
    if committee.stake_spec(vote.author) == 0 {
        Err(DagError::UnknownAuthority(vote.author))
    } else if !signed_by(digest_of(vote_bytes(vote.id, vote.height)), vote.author, vote.signature) {
        Err(DagError::InvalidSignature(CryptoError::InvalidSignature))
    } else {
        Ok(())
    }
}

impl Vote {
    /// A signed vote for `header`.
    pub fn new(
        header: &Header,
        author: &PublicKey,
        signer: &Signer,
        consensus_sigs: Vec<(Digest, Signature)>,
    ) -> (vote: Self)
        ensures
            vote.model() == (VoteModel {
                id: header.id,
                height: header.height,
                origin: header.author,
                author: *author,
                signature: vote.signature,
                consensus_sigs: consensus_sigs@,
            }),
            vote.signature@ == signer_output(
                signer.disabled(),
                signer.keypair(),
                digest_of(vote_bytes(header.id, header.height))@,
            ),
            !signer.disabled() && author@ == signer.public_view() && !is_degenerate(vote.signature)
                ==> signed_by(
                digest_of(vote_bytes(header.id, header.height)),
                *author,
                vote.signature,
            ),
    {
        let mut vote = Vote {
            id: header.id,
            height: header.height,
            origin: header.author,
            author: *author,
            signature: Signature::default(),
            consensus_sigs,
        };
        vote.signature = signer.sign(&vote.digest());
        vote
    }

    /// A vote for `header` signed with a bare key.
    pub fn new_from_key(
        header: Header,
        consensus_sigs: Vec<(Digest, Signature)>,
        author: PublicKey,
        secret: &SecretKey,
    ) -> (vote: Self)
        ensures
            vote.model() == (VoteModel {
                id: header.id,
                height: header.height,
                origin: header.author,
                author,
                signature: vote.signature,
                consensus_sigs: consensus_sigs@,
            }),
            vote.signature@ == crate::crypto::ed25519_signature(
                secret.keypair(),
                digest_of(vote_bytes(header.id, header.height))@,
            ),
            author@ == secret.public_view() && !is_degenerate(vote.signature) ==> signed_by(
                digest_of(vote_bytes(header.id, header.height)),
                author,
                vote.signature,
            ),
    {
        let mut vote = Vote {
            id: header.id,
            height: header.height(),
            origin: header.origin(),
            author,
            signature: Signature::default(),
            consensus_sigs,
        };
        vote.signature = Signature::new(&vote.digest(), secret);
        vote
    }

    /// Checks that the vote is what its author signed.
    pub fn verify(&self, committee: &Committee) -> (result: DagResult<()>)
        ensures
            result == vote_verdict(self.model(), committee),
    {
        // Ensure the authority has voting rights.
        if committee.stake(&self.author) == 0 {
            return Err(DagError::UnknownAuthority(self.author));
        }
        // Check the signature.
        match self.signature.verify(&self.digest(), &self.author) {
            Ok(()) => Ok(()),
            Err(e) => Err(DagError::InvalidSignature(e)),
        }
    }
}

/// A vote and the certificate for the same header are over the same digest, so
/// the signatures of votes are the signatures of the certificate.
pub proof fn lemma_vote_signs_certificate(vote: Vote, certificate: Certificate)
    requires
        vote.id == certificate.header_digest,
        vote.height == certificate.height,
    ensures
        vote.preimage() == certificate.preimage(),
{
}

impl PartialEq for Certificate {
    /// Certificates for the same header are the same, whoever voted.
    fn eq(&self, other: &Self) -> (same: bool) {
        self.header_digest == other.header_digest && self.height == other.height
    }
}

impl vstd::std_specs::cmp::PartialEqSpecImpl for Certificate {
    open spec fn obeys_eq_spec() -> bool {
        true
    }

    open spec fn eq_spec(&self, other: &Self) -> bool {
        self.header_digest == other.header_digest && self.height == other.height
    }
}

/// The certificate of the genesis header of `name`.
pub open spec fn genesis_certificate(name: PublicKey) -> CertificateModel {
    CertificateModel { author: name, header_digest: genesis_id(name), ..default_certificate() }
}

/// Whether a certificate is that of a genesis header.
pub open spec fn is_genesis(certificate: CertificateModel, committee: &Committee) -> bool {
    certificate.height == 0 && exists|i: int|
        0 <= i < committee.pairs().len() && certificate.header_digest == genesis_id(
            (#[trigger] committee.pairs()[i]).0,
        )
}

/// The error for a list of voters that is not a quorum.
pub open spec fn certificate_error(fault: VoterFault) -> DagError {
    match fault {
        VoterFault::Reused(name) => DagError::AuthorityReuse(name),
        VoterFault::Unknown(name) => DagError::UnknownAuthority(name),
        VoterFault::TooWeak => DagError::CertificateRequiresQuorum,
    }
}

/// The signatures that a certificate shows: its votes, over what a vote for its
/// header signs.
pub open spec fn certificate_items(certificate: CertificateModel) -> Seq<
    (PublicKey, Digest, Signature),
> {
    votes_on(
        digest_of(vote_bytes(certificate.header_digest, certificate.height)),
        certificate.votes,
    )
}

/// Whether `result` is what the verification of a certificate may answer:
/// genesis certificates pass, voters that are no quorum are named, and else the
/// check of exactly its signatures together decides.
pub open spec fn certificate_answer(
    certificate: CertificateModel,
    committee: &Committee,
    result: DagResult<()>,
) -> bool {
    if is_genesis(certificate, committee) {
        result is Ok
    } else {
        match quorum_fault(committee, voters(certificate.votes)) {
            Some(fault) => result == Err::<(), DagError>(certificate_error(fault)),
            None => match result {
                Ok(()) => batch_result(certificate_items(certificate), Ok(())),
                Err(DagError::InvalidSignature(e)) => batch_result(
                    certificate_items(certificate),
                    Err(e),
                ),
                Err(_) => false,
            },
        }
    }
}

impl Certificate {
    /// The certificates of all genesis headers, in key order.
    pub fn genesis(committee: &Committee) -> (certificates: Vec<Self>)
        ensures
            certificates@.len() == committee.pairs().len(),
            forall|i: int|
                0 <= i < certificates@.len() ==> (#[trigger] certificates@[i]).model()
                    == genesis_certificate(committee.pairs()[i].0),
    {
        let n = committee.size();
        let mut certificates: Vec<Certificate> = Vec::new();
        let mut i: usize = 0;
        while i < n
            invariant
                i <= n,
                n == committee.pairs().len(),
                certificates@.len() == i,
                forall|j: int|
                    0 <= j < i ==> (#[trigger] certificates@[j]).model() == genesis_certificate(
                        committee.pairs()[j].0,
                    ),
            decreases n - i,
        {
            certificates.push(Certificate::genesis_of(committee.key_at(i)));
            i += 1;
        }
        certificates
    }

    fn genesis_of(name: PublicKey) -> (certificate: Self)
        ensures
            certificate.model() == genesis_certificate(name),
    {
        let mut header = Header::default();
        header.author = name;
        let mut certificate = Certificate::default();
        certificate.header_digest = header.digest();
        certificate.author = name;
        certificate
    }

    /// The certificate of the genesis header of the first authority.
    pub fn genesis_cert(committee: &Committee) -> (certificate: Self)
        requires
            committee.pairs().len() > 0,
        ensures
            certificate.model() == (CertificateModel {
                header_digest: genesis_id(committee.pairs()[0].0),
                ..default_certificate()
            }),
    {
        let mut certificate = Certificate::default();
        certificate.header_digest = Header::genesis(committee).digest();
        certificate
    }

    /// The certificates of all genesis headers, by author.
    pub fn genesis_certs(committee: &Committee) -> (certificates: SortedMap<
        PublicKey,
        Certificate,
    >)
        ensures
            certificates.pairs().len() == committee.pairs().len(),
            forall|i: int|
                0 <= i < certificates.pairs().len() ==> (#[trigger] certificates.pairs()[i]).0
                    == committee.pairs()[i].0 && certificates.pairs()[i].1.model()
                    == genesis_certificate(committee.pairs()[i].0),
    {
        let n = committee.size();
        let mut certificates: SortedMap<PublicKey, Certificate> = SortedMap::new();
        let mut i: usize = 0;
        while i < n
            invariant
                i <= n,
                n == committee.pairs().len(),
                committee.wf(),
                certificates.pairs().len() == i,
                forall|j: int|
                    0 <= j < i ==> (#[trigger] certificates.pairs()[j]).0 == committee.pairs()[j].0
                        && certificates.pairs()[j].1.model() == genesis_certificate(
                        committee.pairs()[j].0,
                    ),
            decreases n - i,
        {
            let name = committee.key_at(i);
            assert forall|j: int|
                0 <= j < certificates.pairs().len() implies crate::collections::Key::rank(
                (#[trigger] certificates.pairs()[j]).0,
            ) < crate::collections::Key::rank(name) by {
                assert(crate::collections::Key::rank(committee.pairs()[j].0)
                    < crate::collections::Key::rank(committee.pairs()[i as int].0));
            }
            certificates.push_last(name, Certificate::genesis_of(name));
            i += 1;
        }
        certificates
    }

    /// Checks that the certificate is that of a genesis header, or shows the
    /// votes of a quorum of different authorities.
    ///
    /// The signatures are checked as one batch.
    pub fn verify(&self, committee: &Committee) -> (result: DagResult<()>)
        ensures
            certificate_answer(self.model(), committee, result),
    {
        // Genesis certificates are always valid.
        let genesis = Certificate::genesis(committee);
        let mut i: usize = 0;
        while i < genesis.len()
            invariant
                i <= genesis@.len(),
                genesis@.len() == committee.pairs().len(),
                forall|j: int|
                    0 <= j < genesis@.len() ==> (#[trigger] genesis@[j]).model()
                        == genesis_certificate(committee.pairs()[j].0),
                forall|j: int|
                    0 <= j < i ==> !((#[trigger] genesis@[j]).header_digest == self.header_digest
                        && genesis@[j].height == self.height),
            decreases genesis@.len() - i,
        {
            if genesis[i] == *self {
                assert(genesis@[i as int].model() == genesis_certificate(
                    committee.pairs()[i as int].0,
                ));
                assert(is_genesis(self.model(), committee));
                return Ok(());
            }
            i += 1;
        }
        assert(!is_genesis(self.model(), committee)) by {
            if is_genesis(self.model(), committee) {
                let j = choose|j: int|
                    0 <= j < committee.pairs().len() && self.header_digest == genesis_id(
                        (#[trigger] committee.pairs()[j]).0,
                    );
                assert(genesis@[j].model() == genesis_certificate(committee.pairs()[j].0));
                assert(genesis@[j].header_digest == self.header_digest);
            }
        }
        // Ensure the certificate has a quorum.
        match check_voters(committee, &self.votes) {
            Some(VoterFault::Reused(name)) => return Err(DagError::AuthorityReuse(name)),
            Some(VoterFault::Unknown(name)) => return Err(DagError::UnknownAuthority(name)),
            Some(VoterFault::TooWeak) => return Err(DagError::CertificateRequiresQuorum),
            None => {},
        }
        // Check the signatures.
        match Signature::verify_batch(&self.digest(), self.votes.as_slice()) {
            Ok(()) => Ok(()),
            Err(e) => Err(DagError::InvalidSignature(e)),
        }
    }

    /// The height of the certified header.
    pub fn height(&self) -> (height: Height)
        ensures
            height == self.height,
    {
        self.height
    }

    /// The author of the certified header.
    pub fn origin(&self) -> (origin: PublicKey)
        ensures
            origin == self.author,
    {
        self.author
    }

    /// Whether a quorum voted.
    pub fn is_special_valid(&self, committee: &Committee) -> (valid: bool)
        ensures
            valid == (weight(committee, voters(self.votes@)) >= committee.quorum()),
    {
        reaches(committee, &self.votes, committee.quorum_threshold())
    }

    /// Whether everyone voted.
    pub fn is_special_fast(&self, committee: &Committee) -> (fast: bool)
        ensures
            fast == (weight(committee, voters(self.votes@)) >= committee.total()),
    {
        reaches(committee, &self.votes, committee.fast_threshold())
    }
}

/// The certificate of a genesis header is recognised as one.
pub proof fn lemma_genesis_certificate_recognised(committee: &Committee, i: int)
    requires
        0 <= i < committee.pairs().len(),
    ensures
        is_genesis(genesis_certificate(committee.pairs()[i].0), committee),
{
}

/// Whether all entries agree.
pub fn matching_valids(vec: &Vec<u8>) -> (matching: bool)
    ensures
        matching == (forall|i: int, j: int|
            0 <= i < vec@.len() && 0 <= j < vec@.len() ==> vec@[i] == vec@[j]),
{
    let mut i: usize = 1;
    while i < vec.len()
        invariant
            1 <= i,
            i <= vec@.len() || vec@.len() == 0,
            forall|j: int| 0 <= j < i && j < vec@.len() ==> #[trigger] vec@[j] == vec@[0],
        decreases vec@.len() - i,
    {
        if vec[i] != vec[0] {
            assert(vec@[i as int] != vec@[0]);
            return false;
        }
        i += 1;
    }
    assert forall|a: int, b: int| 0 <= a < vec@.len() && 0 <= b < vec@.len() implies vec@[a]
        == vec@[b] by {
        assert(vec@[a] == vec@[0] && vec@[b] == vec@[0]);
    }
    true
}

/// The error for a list of voters that is not a quorum.
pub open spec fn qc_error(fault: VoterFault) -> ConsensusError {
    match fault {
        VoterFault::Reused(name) => ConsensusError::AuthorityReuse(name),
        VoterFault::Unknown(name) => ConsensusError::UnknownAuthority(name),
        VoterFault::TooWeak => ConsensusError::QCRequiresQuorum,
    }
}

/// The certificate before any vote.
pub open spec fn genesis_qc() -> QcModel {
    QcModel { id: zero_digest(), votes: Seq::empty() }
}

/// Whether `result` is what the verification of a quorum certificate may
/// answer: the genesis certificate passes, voters that are no quorum are named,
/// and else the check of exactly its signatures together decides.
pub open spec fn qc_answer(
    qc: QcModel,
    committee: &Committee,
    result: ConsensusResult<()>,
) -> bool {
    if qc == genesis_qc() {
        result is Ok
    } else {
        match quorum_fault(committee, voters(qc.votes)) {
            Some(fault) => result == Err::<(), ConsensusError>(qc_error(fault)),
            None => match result {
                Ok(()) => batch_result(votes_on(qc.id, qc.votes), Ok(())),
                Err(ConsensusError::InvalidSignature(e)) => batch_result(
                    votes_on(qc.id, qc.votes),
                    Err(e),
                ),
                Err(_) => false,
            },
        }
    }
}

impl QC {
    /// The certificate before any vote.
    pub fn genesis(_committee: &Committee) -> (qc: Self)
        ensures
            qc.model() == (QcModel { id: zero_digest(), votes: Seq::empty() }),
    {
        QC::default()
    }

    /// Checks that the certificate is the genesis certificate, or shows the
    /// signatures of a quorum of different authorities over its id.
    ///
    /// The signatures are checked as one batch.
    pub fn verify(&self, committee: &Committee) -> (result: ConsensusResult<()>)
        ensures
            qc_answer(self.model(), committee, result),
    {
        // The genesis QC is always valid.
        if QC::genesis(committee) == *self {
            return Ok(());
        }
        // Ensure the QC has a quorum.
        match check_voters(committee, &self.votes) {
            Some(VoterFault::Reused(name)) => return Err(ConsensusError::AuthorityReuse(name)),
            Some(VoterFault::Unknown(name)) => return Err(ConsensusError::UnknownAuthority(name)),
            Some(VoterFault::TooWeak) => return Err(ConsensusError::QCRequiresQuorum),
            None => {},
        }
        // Check the signatures.
        match Signature::verify_batch(&self.id, self.votes.as_slice()) {
            Ok(()) => Ok(()),
            Err(e) => Err(ConsensusError::InvalidSignature(e)),
        }
    }
}

impl Hashable for Timeout {
    open spec fn preimage(&self) -> Seq<u8> {
        Seq::empty()
    }

    fn digest(&self) -> (digest: Digest) {
        let buffer: Vec<u8> = Vec::new();
        assert(buffer@ =~= self.preimage());
        hash_bytes(buffer.as_slice())
    }
}

impl PartialEq for Timeout {
    fn eq(&self, other: &Self) -> (same: bool) {
        self.digest() == other.digest()
    }
}

impl vstd::std_specs::cmp::PartialEqSpecImpl for Timeout {
    open spec fn obeys_eq_spec() -> bool {
        true
    }

    open spec fn eq_spec(&self, other: &Self) -> bool {
        digest_of(self.preimage()) == digest_of(other.preimage())
    }
}

/// What the verification of a timeout answers.
pub open spec fn timeout_verdict(timeout: TimeoutModel, committee: &Committee) -> DagResult<()> {
    if committee.stake_spec(timeout.author) == 0 {
        Err(DagError::UnknownAuthority(timeout.author))
    } else if !signed_by(digest_of(Seq::empty()), timeout.author, timeout.signature) {
        Err(DagError::InvalidSignature(CryptoError::InvalidSignature))
    } else {
        Ok(())
    }
}

/// An optional consensus message as a value.
pub open spec fn optional_model(message: Option<ConsensusMessage>) -> Option<MessageModel> {
    match message {
        Some(message) => Some(message.model()),
        None => None,
    }
}

impl Timeout {
    /// A signed timeout.
    pub fn new(
        slot: Slot,
        view: ViewNumber,
        high_qc: Option<ConsensusMessage>,
        author: PublicKey,
        signer: &Signer,
    ) -> (timeout: Self)
        ensures
            timeout.model() == (TimeoutModel {
                slot,
                view,
                high_qc: optional_model(high_qc),
                author,
                signature: timeout.signature,
            }),
            timeout.signature@ == signer_output(
                signer.disabled(),
                signer.keypair(),
                digest_of(Seq::empty())@,
            ),
            !signer.disabled() && author@ == signer.public_view() && !is_degenerate(
                timeout.signature,
            ) ==> signed_by(digest_of(Seq::empty()), author, timeout.signature),
    {
        let mut timeout = Timeout { slot, view, high_qc, author, signature: Signature::default() };
        timeout.signature = signer.sign(&timeout.digest());
        timeout
    }

    /// A timeout signed with a bare key.
    pub fn new_from_key(
        high_qc: Option<ConsensusMessage>,
        slot: Slot,
        view: ViewNumber,
        author: PublicKey,
        secret: &SecretKey,
    ) -> (timeout: Self)
        ensures
            timeout.model() == (TimeoutModel {
                slot,
                view,
                high_qc: optional_model(high_qc),
                author,
                signature: timeout.signature,
            }),
            timeout.signature@ == crate::crypto::ed25519_signature(
                secret.keypair(),
                digest_of(Seq::empty())@,
            ),
            author@ == secret.public_view() && !is_degenerate(timeout.signature) ==> signed_by(
                digest_of(Seq::empty()),
                author,
                timeout.signature,
            ),
    {
        let mut timeout = Timeout { high_qc, slot, view, author, signature: Signature::default() };
        timeout.signature = Signature::new(&timeout.digest(), secret);
        timeout
    }

    /// Checks that the timeout is its author's.
    pub fn verify(&self, committee: &Committee) -> (result: DagResult<()>)
        ensures
            result == timeout_verdict(self.model(), committee),
    {
        // Ensure the authority has voting rights.
        if committee.stake(&self.author) == 0 {
            return Err(DagError::UnknownAuthority(self.author));
        }
        // Check the signature.
        match self.signature.verify(&self.digest(), &self.author) {
            Ok(()) => Ok(()),
            Err(e) => Err(DagError::InvalidSignature(e)),
        }
    }
}

/// What a walk over timeouts has found: the view it stands at, the proposals to
/// carry over, and whether they are final.
#[verifier::ext_equal]
pub struct Winner {
    pub view: ViewNumber,
    pub proposals: ProposalList,
    pub settled: bool,
}

/// What the timeouts ask the next view to propose: what the Confirm of the
/// highest view does, the earliest of those, unless there is a Commit; the
/// first Commit settles it.
pub open spec fn winner(timeouts: Seq<TimeoutModel>) -> Winner
    decreases timeouts.len(),
{
    if timeouts.len() == 0 {
        Winner { view: 0, proposals: Seq::empty(), settled: false }
    } else {
        let earlier = winner(timeouts.drop_last());
        let timeout = timeouts.last();
        match timeout.high_qc {
            Some(message) => if earlier.settled {
                earlier
            } else if message.kind == MessageKind::Commit {
                Winner { view: earlier.view, proposals: message.proposals, settled: true }
            } else if message.kind == MessageKind::Confirm && message.view > earlier.view {
                Winner { view: message.view, proposals: message.proposals, settled: false }
            } else {
                earlier
            },
            None => earlier,
        }
    }
}

/// Whether a timeout brings a message of the given kind.
pub open spec fn brings(timeout: TimeoutModel, kind: MessageKind) -> bool {
    timeout.high_qc is Some && timeout.high_qc->0.kind == kind
}

/// Unless there is a Commit, the highest QC wins: no Confirm among the timeouts
/// is of a higher view than that of the winner, and the proposals are those of
/// a Confirm of that view, if there is any Confirm of a view after 0.
pub proof fn law_highest_qc_wins(timeouts: Seq<TimeoutModel>)
    requires
        forall|i: int|
            0 <= i < timeouts.len() ==> !brings(#[trigger] timeouts[i], MessageKind::Commit),
    ensures
        !winner(timeouts).settled,
        forall|i: int|
            0 <= i < timeouts.len() && brings(#[trigger] timeouts[i], MessageKind::Confirm)
                ==> timeouts[i].high_qc->0.view <= winner(timeouts).view,
        winner(timeouts).view > 0 ==> exists|i: int|
            0 <= i < timeouts.len() && brings(#[trigger] timeouts[i], MessageKind::Confirm)
                && timeouts[i].high_qc->0.view == winner(timeouts).view
                && timeouts[i].high_qc->0.proposals == winner(timeouts).proposals,
        winner(timeouts).view == 0 ==> winner(timeouts).proposals.len() == 0,
    decreases timeouts.len(),
{
    if timeouts.len() > 0 {
        let front = timeouts.drop_last();
        assert forall|i: int| 0 <= i < front.len() implies !brings(
            #[trigger] front[i],
            MessageKind::Commit,
        ) by {
            assert(front[i] == timeouts[i]);
        }
        law_highest_qc_wins(front);
        assert(!brings(timeouts[timeouts.len() - 1], MessageKind::Commit));
        assert forall|i: int|
            0 <= i < timeouts.len() && brings(#[trigger] timeouts[i], MessageKind::Confirm) implies
            timeouts[i].high_qc->0.view <= winner(timeouts).view by {
            if i < front.len() {
                assert(front[i] == timeouts[i]);
            }
        }
        if winner(timeouts).view > 0 {
            if winner(timeouts) == winner(front) {
                let i = choose|i: int|
                    0 <= i < front.len() && brings(#[trigger] front[i], MessageKind::Confirm)
                        && front[i].high_qc->0.view == winner(front).view
                        && front[i].high_qc->0.proposals == winner(front).proposals;
                assert(timeouts[i] == front[i]);
            } else {
                assert(brings(timeouts[timeouts.len() - 1], MessageKind::Confirm));
            }
        }
    }
}

/// A Commit among the timeouts settles what the next view proposes: what the
/// first of them does.
pub proof fn law_first_commit_wins(timeouts: Seq<TimeoutModel>, i: int)
    requires
        0 <= i < timeouts.len(),
        brings(timeouts[i], MessageKind::Commit),
        forall|j: int| 0 <= j < i ==> !brings(#[trigger] timeouts[j], MessageKind::Commit),
    ensures
        winner(timeouts).settled,
        winner(timeouts).proposals == timeouts[i].high_qc->0.proposals,
{
    let front = timeouts.take(i);
    assert forall|j: int| 0 <= j < front.len() implies !brings(
        #[trigger] front[j],
        MessageKind::Commit,
    ) by {
        assert(front[j] == timeouts[j]);
    }
    law_highest_qc_wins(front);
    let upto = timeouts.take(i + 1);
    assert(upto.drop_last() =~= front);
    lemma_winner_settled(timeouts, i + 1);
}

/// Of Confirms of the same view the earliest wins.
pub proof fn law_earliest_confirm_wins(timeouts: Seq<TimeoutModel>, i: int)
    requires
        0 <= i < timeouts.len(),
        brings(timeouts[i], MessageKind::Confirm),
        timeouts[i].high_qc->0.view > 0,
        forall|j: int|
            0 <= j < timeouts.len() ==> !brings(#[trigger] timeouts[j], MessageKind::Commit),
        forall|j: int|
            0 <= j < i && brings(#[trigger] timeouts[j], MessageKind::Confirm)
                ==> timeouts[j].high_qc->0.view < timeouts[i].high_qc->0.view,
        forall|j: int|
            i < j < timeouts.len() && brings(#[trigger] timeouts[j], MessageKind::Confirm)
                ==> timeouts[j].high_qc->0.view <= timeouts[i].high_qc->0.view,
    ensures
        winner(timeouts).view == timeouts[i].high_qc->0.view,
        winner(timeouts).proposals == timeouts[i].high_qc->0.proposals,
    decreases timeouts.len(),
{
    let front = timeouts.drop_last();
    let n = timeouts.len() - 1;
    assert forall|j: int| 0 <= j < front.len() implies !brings(
        #[trigger] front[j],
        MessageKind::Commit,
    ) by {
        assert(front[j] == timeouts[j]);
    }
    assert(!brings(timeouts[n], MessageKind::Commit));
    law_highest_qc_wins(front);
    if i < n {
        assert forall|j: int|
            0 <= j < i && brings(#[trigger] front[j], MessageKind::Confirm) implies
            front[j].high_qc->0.view < front[i].high_qc->0.view by {
            assert(front[j] == timeouts[j]);
        }
        assert forall|j: int|
            i < j < front.len() && brings(#[trigger] front[j], MessageKind::Confirm) implies
            front[j].high_qc->0.view <= front[i].high_qc->0.view by {
            assert(front[j] == timeouts[j]);
        }
        law_earliest_confirm_wins(front, i);
        if brings(timeouts[n], MessageKind::Confirm) {
            assert(timeouts[n].high_qc->0.view <= timeouts[i].high_qc->0.view);
        }
    } else {
        if winner(front).view > 0 {
            let j = choose|j: int|
                0 <= j < front.len() && brings(#[trigger] front[j], MessageKind::Confirm)
                    && front[j].high_qc->0.view == winner(front).view
                    && front[j].high_qc->0.proposals == winner(front).proposals;
            assert(front[j] == timeouts[j]);
        }
    }
}

/// Once a Commit was found, later timeouts change nothing.
proof fn lemma_winner_settled(timeouts: Seq<TimeoutModel>, n: int)
    requires
        0 <= n <= timeouts.len(),
        winner(timeouts.take(n)).settled,
    ensures
        winner(timeouts) == winner(timeouts.take(n)),
    decreases timeouts.len(),
{
    if n == timeouts.len() {
        assert(timeouts.take(n) =~= timeouts);
    } else {
        assert(timeouts.drop_last().take(n) =~= timeouts.take(n));
        lemma_winner_settled(timeouts.drop_last(), n);
    }
}

/// The authors of timeouts, in order.
pub open spec fn timeout_authors(timeouts: Seq<TimeoutModel>) -> Seq<PublicKey> {
    Seq::new(timeouts.len(), |i: int| timeouts[i].author)
}

/// The error for a list of voters that is not a quorum.
pub open spec fn tc_error(fault: VoterFault) -> ConsensusError {
    match fault {
        VoterFault::Reused(name) => ConsensusError::AuthorityReuse(name),
        VoterFault::Unknown(name) => ConsensusError::UnknownAuthority(name),
        VoterFault::TooWeak => ConsensusError::TCRequiresQuorum,
    }
}

/// The certificate before any timeout.
pub open spec fn genesis_tc() -> TcModel {
    TcModel { slot: 0, view: 0, timeouts: Seq::empty() }
}

/// What the verification of a timeout certificate answers.
pub open spec fn tc_verdict(tc: TcModel, committee: &Committee) -> ConsensusResult<()> {
    if tc == genesis_tc() {
        Ok(())
    } else {
        match quorum_fault(committee, timeout_authors(tc.timeouts)) {
            Some(fault) => Err(tc_error(fault)),
            None => first_timeout_error(tc.timeouts, committee),
        }
    }
}

/// The first timeout that does not verify decides.
pub open spec fn first_timeout_error(
    timeouts: Seq<TimeoutModel>,
    committee: &Committee,
) -> ConsensusResult<()>
    decreases timeouts.len(),
{
    if timeouts.len() == 0 {
        Ok(())
    } else {
        let earlier = first_timeout_error(timeouts.drop_last(), committee);
        if earlier is Err {
            earlier
        } else {
            match timeout_verdict(timeouts.last(), committee) {
                Ok(()) => Ok(()),
                Err(e) => Err(ConsensusError::DagError(e)),
            }
        }
    }
}

proof fn lemma_first_timeout_error_stays(
    timeouts: Seq<TimeoutModel>,
    committee: &Committee,
    n: int,
)
    requires
        0 <= n <= timeouts.len(),
        first_timeout_error(timeouts.take(n), committee) is Err,
    ensures
        first_timeout_error(timeouts, committee) == first_timeout_error(
            timeouts.take(n),
            committee,
        ),
    decreases timeouts.len(),
{
    if n == timeouts.len() {
        assert(timeouts.take(n) =~= timeouts);
    } else {
        assert(timeouts.drop_last().take(n) =~= timeouts.take(n));
        lemma_first_timeout_error_stays(timeouts.drop_last(), committee, n);
    }
}

impl TC {
    /// A certificate of the given timeouts.
    pub fn new(_committee: &Committee, slot: Slot, view: ViewNumber, timeouts: Vec<Timeout>) -> (tc:
        Self)
        ensures
            tc.model() == (TcModel { slot, view, timeouts: timeout_models(timeouts@) }),
    {
        let tc = TC { slot, view, timeouts };
        assert(tc.model().timeouts =~= timeout_models(timeouts@));
        tc
    }

    /// The certificate before any timeout.
    pub fn genesis(_committee: &Committee) -> (tc: Self)
        ensures
            tc.model() == genesis_tc(),
    {
        TC::default()
    }

    /// The proposals that the next view has to carry over: those of the highest
    /// QC among the timeouts. Empty when there is none.
    pub fn get_winning_proposals(&self) -> (proposals: Proposals)
        ensures
            proposals.pairs() == winner(self.model().timeouts).proposals,
    {
        let ghost models = self.model().timeouts;
        let mut winning_proposals: Proposals = SortedMap::new();
        let mut winning_view: ViewNumber = 0;
        let mut i: usize = 0;
        while i < self.timeouts.len()
            invariant
                i <= self.timeouts@.len(),
                models == self.model().timeouts,
                winner(models.take(i as int)) == (Winner {
                    view: winning_view,
                    proposals: winning_proposals.pairs(),
                    settled: false,
                }),
            decreases self.timeouts@.len() - i,
        {
            let timeout = &self.timeouts[i];
            proof {
                assert(models.take(i + 1).drop_last() =~= models.take(i as int));
                assert(models[i as int] == timeout.model());
            }
            match &timeout.high_qc {
                Some(message) => match message {
                    ConsensusMessage::Confirm { view, proposals, .. } => {
                        // Update the highest QC view if we see a higher one.
                        if *view > winning_view {
                            winning_view = *view;
                            winning_proposals = proposals.duplicate();
                        }
                    },
                    ConsensusMessage::Commit { proposals, .. } => {
                        // Adopt the proposals of a commit QC.
                        proof {
                            lemma_winner_settled(models, i + 1);
                        }
                        return proposals.duplicate();
                    },
                    ConsensusMessage::Prepare { .. } => {},
                },
                None => {},
            }
            i += 1;
        }
        assert(models.take(self.timeouts@.len() as int) =~= models);
        winning_proposals
    }

    /// The certificate as it is: its timeouts already determine the winner.
    pub fn determine_winning_proposal(self, _committee: &Committee) -> (tc: Self)
        ensures
            tc == self,
    {
        self
    }

    /// The certificate as it is: its timeouts already determine the winner.
    pub fn set_winning_proposal(
        self,
        _header: Option<Header>,
        _cert: Option<Certificate>,
        _qc: Option<Certificate>,
    ) -> (tc: Self)
        ensures
            tc == self,
    {
        self
    }

    /// Every certificate determines a winner.
    pub fn validate_winning_proposal(&self, _committee: &Committee) -> (result: ConsensusResult<()>)
        ensures
            result is Ok,
    {
        Ok(())
    }

    /// Checks that the certificate is the genesis certificate, or shows the
    /// timeouts of a quorum of different authorities, each signed by its author.
    pub fn verify(&self, committee: &Committee) -> (result: ConsensusResult<()>)
        ensures
            result == tc_verdict(self.model(), committee),
    {
        // The genesis TC is always valid.
        if TC::genesis(committee) == *self {
            return Ok(());
        }
        let ghost models = self.model().timeouts;
        let mut votes: Vec<(PublicKey, Signature)> = Vec::new();
        let mut i: usize = 0;
        while i < self.timeouts.len()
            invariant
                i <= self.timeouts@.len(),
                models == self.model().timeouts,
                votes@.len() == i,
                forall|j: int| 0 <= j < i ==> (#[trigger] votes@[j]).0 == models[j].author,
            decreases self.timeouts@.len() - i,
        {
            assert(models[i as int] == self.timeouts@[i as int].model());
            votes.push((self.timeouts[i].author, self.timeouts[i].signature));
            i += 1;
        }
        assert(voters(votes@) =~= timeout_authors(models));
        // Ensure the TC has a quorum.
        match check_voters(committee, &votes) {
            Some(VoterFault::Reused(name)) => return Err(ConsensusError::AuthorityReuse(name)),
            Some(VoterFault::Unknown(name)) => return Err(ConsensusError::UnknownAuthority(name)),
            Some(VoterFault::TooWeak) => return Err(ConsensusError::TCRequiresQuorum),
            None => {},
        }
        // Verify each vote.
        let mut i: usize = 0;
        while i < self.timeouts.len()
            invariant
                i <= self.timeouts@.len(),
                models == self.model().timeouts,
                quorum_fault(committee, timeout_authors(models)) is None,
                first_timeout_error(models.take(i as int), committee) is Ok,
            decreases self.timeouts@.len() - i,
        {
            proof {
                assert(models.take(i + 1).drop_last() =~= models.take(i as int));
                assert(models[i as int] == self.timeouts@[i as int].model());
            }
            if let Err(e) = self.timeouts[i].verify(committee) {
                proof {
                    lemma_first_timeout_error_stays(models, committee, i + 1);
                }
                return Err(ConsensusError::DagError(e));
            }
            i += 1;
        }
        assert(models.take(self.timeouts@.len() as int) =~= models);
        Ok(())
    }
}

/// A view that was committed.
#[derive(Clone, Copy, Debug, PartialEq, Eq, Structural)]
pub struct Committment {
    pub commit_view: ViewNumber,
}

impl Default for Committment {
    fn default() -> (committment: Self)
        ensures
            committment.commit_view == 0,
    {
        Committment { commit_view: 0 }
    }
}

impl Hashable for Committment {
    open spec fn preimage(&self) -> Seq<u8> {
        le_bytes(self.commit_view as nat, 8)
    }

    fn digest(&self) -> (digest: Digest) {
        let mut buffer: Vec<u8> = Vec::new();
        append_u64_le(&mut buffer, self.commit_view);
        assert(buffer@ =~= self.preimage());
        hash_bytes(buffer.as_slice())
    }
}

/// A certificate that is not a genesis certificate passes only with votes of a
/// quorum of different authorities, and always if those are all signed by derived keys
/// over its header and height.
pub proof fn law_certificates_judged(
    certificate: CertificateModel,
    committee: &Committee,
    result: DagResult<()>,
)
    requires
        committee.wf(),
        certificate_answer(certificate, committee, result),
        certificate.height > 0,
    ensures
        ({
            let names = voters(certificate.votes);
            let digest = digest_of(
                certificate.header_digest@ + le_bytes(certificate.height as nat, 8),
            );
            let backed = names.no_duplicates() && (forall|i: int|
                0 <= i < names.len() ==> committee.stake_spec(#[trigger] names[i]) > 0)
                && committee.support_of(names.to_set()) >= committee.quorum();
            let signed = forall|i: int|
                0 <= i < certificate.votes.len() ==> crate::crypto::is_derived(
                    (#[trigger] certificate.votes[i]).0@,
                ) && signed_by(digest, certificate.votes[i].0, certificate.votes[i].1);
            &&& result is Ok ==> backed
            &&& backed && signed ==> result is Ok
        }),
{
    let names = voters(certificate.votes);
    crate::quorum::law_quorums_pass(committee, names);
    let items = certificate_items(certificate);
    let digest = digest_of(certificate.header_digest@ + le_bytes(certificate.height as nat, 8));
    if forall|i: int|
        0 <= i < certificate.votes.len() ==> crate::crypto::is_derived(
            (#[trigger] certificate.votes[i]).0@,
        ) && signed_by(digest, certificate.votes[i].0, certificate.votes[i].1) {
        assert forall|i: int| 0 <= i < items.len() implies crate::crypto::is_derived(
            (#[trigger] items[i]).0@,
        ) && signed_by(items[i].1, items[i].0, items[i].2) by {
            assert(items[i].0 == certificate.votes[i].0);
        }
        assert(crate::crypto::all_valid(items));
    }
}

/// The certificate of a quorum for a consensus message passes only with votes of
/// a quorum of different authorities, and always if those all signed its id by derived
/// keys.
pub proof fn law_quorum_certificates_judged(
    qc: QcModel,
    committee: &Committee,
    result: ConsensusResult<()>,
)
    requires
        committee.wf(),
        qc_answer(qc, committee, result),
        qc.votes.len() > 0,
    ensures
        ({
            let names = voters(qc.votes);
            let backed = names.no_duplicates() && (forall|i: int|
                0 <= i < names.len() ==> committee.stake_spec(#[trigger] names[i]) > 0)
                && committee.support_of(names.to_set()) >= committee.quorum();
            let signed = forall|i: int|
                0 <= i < qc.votes.len() ==> crate::crypto::is_derived(
                    (#[trigger] qc.votes[i]).0@,
                ) && signed_by(qc.id, qc.votes[i].0, qc.votes[i].1);
            &&& result is Ok ==> backed
            &&& backed && signed ==> result is Ok
        }),
{
    let names = voters(qc.votes);
    crate::quorum::law_quorums_pass(committee, names);
    let items = crate::crypto::votes_on(qc.id, qc.votes);
    if forall|i: int|
        0 <= i < qc.votes.len() ==> crate::crypto::is_derived(
            (#[trigger] qc.votes[i]).0@,
        ) && signed_by(qc.id, qc.votes[i].0, qc.votes[i].1) {
        assert forall|i: int| 0 <= i < items.len() implies crate::crypto::is_derived(
            (#[trigger] items[i]).0@,
        ) && signed_by(items[i].1, items[i].0, items[i].2) by {
            assert(items[i].0 == qc.votes[i].0);
        }
        assert(crate::crypto::all_valid(items));
    }
}

/// A timeout certificate passes exactly if it is that of the first view, or holds
/// sound timeouts of a quorum of different authorities.
pub proof fn law_timeout_certificates_judged(tc: TcModel, committee: &Committee)
    requires
        committee.wf(),
    ensures
        tc_verdict(tc, committee) is Ok <==> tc == (TcModel {
            slot: 0,
            view: 0,
            timeouts: Seq::empty(),
        }) || {
            let names = timeout_authors(tc.timeouts);
            &&& names.no_duplicates()
            &&& forall|i: int|
                0 <= i < names.len() ==> committee.stake_spec(#[trigger] names[i]) > 0
            &&& committee.support_of(names.to_set()) >= committee.quorum()
            &&& forall|i: int|
                0 <= i < tc.timeouts.len() ==> signed_by(
                    digest_of(Seq::empty()),
                    (#[trigger] tc.timeouts[i]).author,
                    tc.timeouts[i].signature,
                )
        },
{
    let names = timeout_authors(tc.timeouts);
    crate::quorum::law_quorums_pass(committee, names);
    lemma_timeouts_sound(tc.timeouts, committee);
    assert forall|i: int| 0 <= i < names.len() implies #[trigger] names[i]
        == tc.timeouts[i].author by {}
    if forall|i: int| 0 <= i < names.len() ==> committee.stake_spec(#[trigger] names[i]) > 0 {
        assert forall|i: int| 0 <= i < tc.timeouts.len() implies committee.stake_spec(
            (#[trigger] tc.timeouts[i]).author,
        ) > 0 by {
            assert(committee.stake_spec(names[i]) > 0);
        }
    }
}

proof fn lemma_timeouts_sound(timeouts: Seq<TimeoutModel>, committee: &Committee)
    ensures
        first_timeout_error(timeouts, committee) is Ok <==> {
            &&& forall|i: int|
                0 <= i < timeouts.len() ==> committee.stake_spec((#[trigger] timeouts[i]).author)
                    > 0
            &&& forall|i: int|
                0 <= i < timeouts.len() ==> signed_by(
                    digest_of(Seq::empty()),
                    (#[trigger] timeouts[i]).author,
                    timeouts[i].signature,
                )
        },
    decreases timeouts.len(),
{
    if timeouts.len() > 0 {
        let front = timeouts.drop_last();
        let n = timeouts.len() - 1;
        lemma_timeouts_sound(front, committee);
        assert forall|i: int| 0 <= i < front.len() implies #[trigger] front[i] == timeouts[i] by {}
        if first_timeout_error(timeouts, committee) is Ok {
            assert forall|i: int| 0 <= i < timeouts.len() implies committee.stake_spec(
                (#[trigger] timeouts[i]).author,
            ) > 0 && signed_by(
                digest_of(Seq::empty()),
                timeouts[i].author,
                timeouts[i].signature,
            ) by {
                if i < n {
                    assert(front[i] == timeouts[i]);
                }
            }
        } else if first_timeout_error(front, committee) is Ok {
            assert(timeouts[n] == timeouts.last());
        } else {
            if forall|i: int|
                0 <= i < timeouts.len() ==> committee.stake_spec((#[trigger] timeouts[i]).author)
                    > 0 && signed_by(
                    digest_of(Seq::empty()),
                    timeouts[i].author,
                    timeouts[i].signature,
                ) {
                assert forall|i: int| 0 <= i < front.len() implies committee.stake_spec(
                    (#[trigger] front[i]).author,
                ) > 0 && signed_by(
                    digest_of(Seq::empty()),
                    front[i].author,
                    front[i].signature,
                ) by {
                    assert(front[i] == timeouts[i]);
                }
            }
        }
    }
}

/// Everyone's genesis header is proposed at first, at height 0.
pub proof fn law_genesis_proposals_cover(committee: &Committee, i: int)
    requires
        0 <= i < committee.pairs().len(),
    ensures
        genesis_proposal_list(committee).len() == committee.pairs().len(),
        genesis_proposal_list(committee)[i].0 == committee.pairs()[i].0,
        genesis_proposal_list(committee)[i].1.height == 0,
        genesis_proposal_list(committee)[i].1.header_digest == digest_of(
            committee.pairs()[i].0@ + le_bytes(0, 8),
        ),
{
    let author = committee.pairs()[i].0;
    assert(author@ + le_bytes(0, 8) + payload_bytes(Seq::empty()) =~= author@ + le_bytes(0, 8));
}

} // verus!
