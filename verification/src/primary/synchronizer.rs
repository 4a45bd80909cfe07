//! Decides what is missing before a header can be processed.
//!
//! What is stored is looked up by the caller, who hands the answers in; the
//! commands that come back are for the task that fetches missing data.

use crate::bytes::{append_bytes, append_u32_le, le_bytes};
use crate::collections::SortedMap;
use crate::config::{Committee, WorkerId};
use crate::crypto::{digest_of, Digest, Hashable, PublicKey};
use crate::primary::error::{DagError, DagResult, Height};
use crate::primary::messages::{
    default_certificate, default_header, genesis_certificate, genesis_id, vote_bytes, Certificate,
    CertificateModel, ConsensusMessage, Header, HeaderModel, MessageModel, Proposal, ProposalList,
};
use vstd::prelude::*;

verus! {

/// A command for the task that fetches missing data.
pub enum WaiterMessage {
    /// Fetch these batches, and process the header again once they are here.
    SyncBatches(SortedMap<Digest, WorkerId>, Header),
    /// Fetch a header.
    SyncHeader(Digest),
    /// Fetch the header of a proposal by the given author with all its
    /// ancestors, and process the message again once they are here.
    SyncProposalHeaders(Proposal, PublicKey, ConsensusMessage),
    /// Process the certificate again once its header is here.
    SyncCertificate(Certificate),
}

/// A command as a value.
#[verifier::ext_equal]
pub enum WaiterModel {
    SyncBatches(Seq<(Digest, WorkerId)>, HeaderModel),
    SyncHeader(Digest),
    SyncProposalHeaders(Proposal, PublicKey, MessageModel),
    SyncCertificate(CertificateModel),
}

impl WaiterMessage {
    /// The command as a value.
    pub open spec fn model(self) -> WaiterModel {
        match self {
            WaiterMessage::SyncBatches(missing, header) => WaiterModel::SyncBatches(
                missing.pairs(),
                header.model(),
            ),
            WaiterMessage::SyncHeader(digest) => WaiterModel::SyncHeader(digest),
            WaiterMessage::SyncProposalHeaders(proposal, author, message) =>
                WaiterModel::SyncProposalHeaders(proposal, author, message.model()),
            WaiterMessage::SyncCertificate(certificate) => WaiterModel::SyncCertificate(
                certificate.model(),
            ),
        }
    }
}

/// The commands as values.
pub open spec fn waiter_models(commands: Seq<WaiterMessage>) -> Seq<WaiterModel> {
    Seq::new(commands.len(), |i: int| commands[i].model())
}

/// Checks if we have all batches and parents referenced by a header.
pub struct Synchronizer {
    /// The public key of this primary.
    name: PublicKey,
    /// The genesis certificates and their digests.
    genesis: Vec<(Digest, Certificate)>,
    /// Genesis header.
    genesis_header: Header,
}

/// The key under which a batch of a worker is stored.
pub open spec fn batch_key(digest: Digest, worker_id: WorkerId) -> Seq<u8> {
    digest@ + le_bytes(worker_id as nat, 4)
}

/// The entries of `payload` that are not stored.
pub open spec fn missing_batches(payload: Seq<(Digest, WorkerId)>, stored: Seq<bool>) -> Seq<
    (Digest, WorkerId),
>
    decreases payload.len(),
{
    if payload.len() == 0 {
        Seq::empty()
    } else {
        let earlier = missing_batches(payload.drop_last(), stored);
        if stored[payload.len() - 1] {
            earlier
        } else {
            earlier.push(payload.last())
        }
    }
}

proof fn lemma_missing_below(payload: Seq<(Digest, WorkerId)>, stored: Seq<bool>, bound: nat)
    requires
        forall|i: int|
            0 <= i < payload.len() ==> crate::collections::Key::rank((#[trigger] payload[i]).0)
                < bound,
    ensures
        forall|i: int|
            0 <= i < missing_batches(payload, stored).len() ==> crate::collections::Key::rank(
                (#[trigger] missing_batches(payload, stored)[i]).0,
            ) < bound,
    decreases payload.len(),
{
    if payload.len() > 0 {
        assert forall|i: int| 0 <= i < payload.drop_last().len() implies crate::collections::Key::rank(
            (#[trigger] payload.drop_last()[i]).0,
        ) < bound by {
            assert(payload.drop_last()[i] == payload[i]);
        }
        lemma_missing_below(payload.drop_last(), stored, bound);
        let earlier = missing_batches(payload.drop_last(), stored);
        assert(crate::collections::Key::rank(payload[payload.len() - 1].0) < bound);
        assert forall|i: int| 0 <= i < missing_batches(payload, stored).len() implies crate::collections::Key::rank(
            (#[trigger] missing_batches(payload, stored)[i]).0,
        ) < bound by {
            if i < earlier.len() {
                assert(missing_batches(payload, stored)[i] == earlier[i]);
            }
        }
    }
}

/// Which of a message's proposals are not stored, as commands to fetch them.
pub open spec fn missing_proposals(
    message: MessageModel,
    proposals: ProposalList,
    known: Map<Digest, ()>,
) -> Seq<WaiterModel>
    decreases proposals.len(),
{
    if proposals.len() == 0 {
        Seq::empty()
    } else {
        let earlier = missing_proposals(message, proposals.drop_last(), known);
        let (author, proposal) = proposals.last();
        if known.contains_key(proposal.header_digest) {
            earlier
        } else {
            earlier.push(WaiterModel::SyncProposalHeaders(proposal, author, message))
        }
    }
}

/// Whether a message's proposals are there and all stored.
pub open spec fn proposals_ready(message: MessageModel, known: Map<Digest, ()>) -> bool {
    message.proposals.len() > 0 && forall|i: int|
        0 <= i < message.proposals.len() ==> known.contains_key(
            (#[trigger] message.proposals[i]).1.header_digest,
        )
}

/// A chain of headers from a proposal downwards, as far as it lies above
/// `stop_height`: how many headers are taken before one reaches it. `heights`
/// are those of the ancestors.
pub open spec fn chain_steps(heights: Seq<Height>, current: Height, stop_height: Height) -> nat
    decreases heights.len(),
{
    if current <= stop_height || heights.len() == 0 {
        0
    } else {
        1 + chain_steps(heights.drop_first(), heights[0], stop_height)
    }
}

/// Of a chain of lower and lower headers that reaches the height, exactly those
/// above the height are taken.
pub proof fn law_chain_taken(heights: Seq<Height>, current: Height, stop_height: Height)
    requires
        chain_ends(heights, current, stop_height),
        forall|i: int| 0 <= i < heights.len() ==> (#[trigger] heights[i]) < current,
        forall|i: int, j: int| 0 <= i < j < heights.len() ==> #[trigger] heights[j] < #[trigger] heights[i],
    ensures
        ({
            let all = seq![current] + heights;
            let taken = chain_steps(heights, current, stop_height);
            &&& taken < all.len()
            &&& forall|i: int| 0 <= i < all.len() ==> (i < taken <==> #[trigger] all[i] > stop_height)
        }),
    decreases heights.len(),
{
    let all = seq![current] + heights;
    let taken = chain_steps(heights, current, stop_height);
    if current > stop_height {
        let rest = heights.drop_first();
        assert forall|i: int, j: int| 0 <= i < j < rest.len() implies #[trigger] rest[j] < #[trigger] rest[i] by {
            assert(heights[j + 1] < heights[i + 1]);
        }
        assert forall|i: int| 0 <= i < rest.len() implies #[trigger] rest[i] < heights[0] by {
            assert(heights[i + 1] < heights[0]);
        }
        law_chain_taken(rest, heights[0], stop_height);
        let below = seq![heights[0]] + rest;
        assert forall|i: int| 0 <= i < all.len() implies (i < taken <==> #[trigger] all[i]
            > stop_height) by {
            if i > 0 {
                assert(all[i] == below[i - 1]);
            }
        }
    } else {
        assert forall|i: int| 0 <= i < all.len() implies (i < taken <==> #[trigger] all[i]
            > stop_height) by {
            if i > 0 {
                assert(heights[i - 1] < current);
            }
        }
    }
}

/// Whether such a walk down the chain reaches the height.
pub open spec fn chain_ends(heights: Seq<Height>, current: Height, stop_height: Height) -> bool
    decreases heights.len(),
{
    current <= stop_height || (heights.len() > 0 && chain_ends(
        heights.drop_first(),
        heights[0],
        stop_height,
    ))
}

impl Synchronizer {
    /// The name of this primary.
    pub closed spec fn own_name(&self) -> PublicKey {
        self.name
    }

    /// The genesis certificates, by digest.
    pub closed spec fn genesis_digests(&self) -> Seq<Digest> {
        Seq::new(self.genesis@.len(), |i: int| self.genesis@[i].0)
    }

    /// The digest of the genesis header.
    pub closed spec fn genesis_digest(&self) -> Digest {
        genesis_id(self.genesis_header.author)
    }

    /// The genesis header.
    pub closed spec fn genesis_model(&self) -> HeaderModel {
        self.genesis_header.model()
    }

    /// What holds of every synchronizer: its genesis header is one.
    pub closed spec fn wf(&self) -> bool {
        self.genesis_header.height == 0 && self.genesis_header.payload.pairs().len() == 0
    }

    /// A synchronizer for `name`.
    pub fn new(name: PublicKey, committee: &Committee) -> (synchronizer: Self)
        requires
            committee.pairs().len() > 0,
        ensures
            synchronizer.wf(),
            synchronizer.own_name() == name,
            synchronizer.genesis_digest() == genesis_id(committee.pairs()[0].0),
            synchronizer.genesis_model() == (HeaderModel {
                author: committee.pairs()[0].0,
                ..default_header()
            }),
            synchronizer.genesis_digests() == Seq::new(
                committee.pairs().len(),
                |i: int| digest_of(vote_bytes(genesis_id(committee.pairs()[i].0), 0)),
            ),
    {
        let certificates = Certificate::genesis(committee);
        let mut genesis: Vec<(Digest, Certificate)> = Vec::new();
        let mut i: usize = 0;
        while i < certificates.len()
            invariant
                i <= certificates@.len(),
                certificates@.len() == committee.pairs().len(),
                forall|j: int|
                    0 <= j < certificates@.len() ==> (#[trigger] certificates@[j]).model()
                        == genesis_certificate(committee.pairs()[j].0),
                genesis@.len() == i,
                forall|j: int|
                    0 <= j < i ==> (#[trigger] genesis@[j]).0 == digest_of(
                        vote_bytes(genesis_id(committee.pairs()[j].0), 0),
                    ),
            decreases certificates@.len() - i,
        {
            assert(certificates@[i as int].model() == genesis_certificate(
                committee.pairs()[i as int].0,
            ));
            let certificate = certificates[i].duplicate();
            genesis.push((certificate.digest(), certificate));
            i += 1;
        }
        let synchronizer = Synchronizer {
            name,
            genesis,
            genesis_header: Header::genesis(committee),
        };
        assert(synchronizer.genesis_digests() =~= Seq::new(
            committee.pairs().len(),
            |i: int| digest_of(vote_bytes(genesis_id(committee.pairs()[i].0), 0)),
        ));
        assert(synchronizer.genesis_header.model().payload.len() == 0);
        synchronizer
    }

    /// The keys under which the batches of a header are stored, in order. A
    /// batch must come from the worker that the header names.
    pub fn payload_keys(header: &Header) -> (keys: Vec<Vec<u8>>)
        ensures
            keys@.len() == header.payload.pairs().len(),
            forall|i: int|
                0 <= i < keys@.len() ==> (#[trigger] keys@[i])@ == batch_key(
                    header.payload.pairs()[i].0,
                    header.payload.pairs()[i].1,
                ),
    {
        let n = header.payload.len();
        let mut keys: Vec<Vec<u8>> = Vec::new();
        let mut i: usize = 0;
        while i < n
            invariant
                i <= n,
                n == header.payload.pairs().len(),
                keys@.len() == i,
                forall|j: int|
                    0 <= j < i ==> (#[trigger] keys@[j])@ == batch_key(
                        header.payload.pairs()[j].0,
                        header.payload.pairs()[j].1,
                    ),
            decreases n - i,
        {
            let digest = header.payload.key_at(i);
            let worker_id = *header.payload.value_at(i);
            let mut key: Vec<u8> = Vec::new();
            append_bytes(&mut key, digest.0.as_slice());
            append_u32_le(&mut key, worker_id);
            assert(key@ =~= batch_key(digest, worker_id));
            keys.push(key);
            i += 1;
        }
        keys
    }

    /// The command to fetch the batches of a header that are not stored;
    /// `None` when there are none. `stored` tells for each batch, in order,
    /// whether it is. We don't store the payload of our own workers.
    pub fn missing_payload(&self, header: &Header, stored: &Vec<bool>) -> (command: Option<
        WaiterMessage,
    >)
        requires
            stored@.len() == header.payload.pairs().len(),
        ensures
            ({
                let missing = missing_batches(header.payload.pairs(), stored@);
                let suspended = header.author != self.own_name() && missing.len() > 0;
                &&& command is Some <==> suspended
                &&& command matches Some(command) ==> command.model() == WaiterModel::SyncBatches(
                    missing,
                    header.model(),
                )
            }),
    {
        if header.author == self.name {
            return None;
        }
        let n = header.payload.len();
        let mut missing: SortedMap<Digest, WorkerId> = SortedMap::new();
        let mut i: usize = 0;
        let ghost pairs = header.payload.pairs();
        while i < n
            invariant
                i <= n,
                n == pairs.len(),
                pairs == header.payload.pairs(),
                crate::collections::sorted(pairs),
                stored@.len() == n,
                missing.pairs() == missing_batches(pairs.take(i as int), stored@),
            decreases n - i,
        {
            assert(pairs.take(i + 1).drop_last() =~= pairs.take(i as int));
            let digest = header.payload.key_at(i);
            if !stored[i] {
                proof {
                    assert forall|j: int|
                        0 <= j < pairs.take(i as int).len() implies crate::collections::Key::rank(
                        (#[trigger] pairs.take(i as int)[j]).0,
                    ) < crate::collections::Key::rank(digest) by {
                        assert(crate::collections::Key::rank(pairs[j].0)
                            < crate::collections::Key::rank(pairs[i as int].0));
                    }
                    lemma_missing_below(
                        pairs.take(i as int),
                        stored@,
                        crate::collections::Key::rank(digest),
                    );
                }
                missing.push_last(digest, *header.payload.value_at(i));
            }
            i += 1;
        }
        assert(pairs.take(n as int) =~= pairs);
        if missing.is_empty() {
            return None;
        }
        Some(WaiterMessage::SyncBatches(missing, header.duplicate()))
    }

    /// The command to fetch a header.
    pub fn fetch_header(&self, header_digest: Digest) -> (command: WaiterMessage)
        ensures
            command.model() == WaiterModel::SyncHeader(header_digest),
    {
        WaiterMessage::SyncHeader(header_digest)
    }

    /// Headers have no special parents.
    pub fn get_special_parent(&self, _header: &Header, _sync: bool) -> (answer: (
        Option<Header>,
        bool,
    ))
        ensures
            answer.0 is None,
            !answer.1,
    {
        (None, false)
    }

    /// Whether the header of a certificate is there: it is a genesis header, or
    /// it is stored. If it is not, the command to wait for it.
    pub fn deliver_certificate(&self, certificate: &Certificate, stored: bool) -> (command: Option<
        WaiterMessage,
    >)
        ensures
            command is None <==> self.genesis_digests().contains(certificate.header_digest)
                || stored,
            command matches Some(command) ==> command.model() == WaiterModel::SyncCertificate(
                certificate.model(),
            ),
    {
        let mut i: usize = 0;
        while i < self.genesis.len()
            invariant
                i <= self.genesis@.len(),
                forall|j: int| 0 <= j < i ==> self.genesis@[j].0 != certificate.header_digest,
            decreases self.genesis@.len() - i,
        {
            if self.genesis[i].0 == certificate.header_digest {
                assert(self.genesis_digests()[i as int] == certificate.header_digest);
                return None;
            }
            i += 1;
        }
        assert(!self.genesis_digests().contains(certificate.header_digest)) by {
            if self.genesis_digests().contains(certificate.header_digest) {
                let j = choose|j: int|
                    0 <= j < self.genesis_digests().len() && self.genesis_digests()[j]
                        == certificate.header_digest;
                assert(self.genesis@[j].0 == certificate.header_digest);
            }
        }
        if stored {
            None
        } else {
            Some(WaiterMessage::SyncCertificate(certificate.duplicate()))
        }
    }

    /// A stand-in certificate for a header that is stored without one. It has
    /// the digest that the real certificate would have.
    pub fn dummy_certificate(header_digest: Digest) -> (certificate: Certificate)
        ensures
            certificate.model() == (CertificateModel { header_digest, ..default_certificate() }),
    {
        let mut certificate = Certificate::default();
        certificate.header_digest = header_digest;
        certificate
    }

    /// Whether a certificate can be delivered without its own votes, and the
    /// stand-in to deliver it with if there is no real one. `parent` is the
    /// header digest stored under the certificate's, if any, and `certified`
    /// whether a real certificate for that header is stored. When nothing is
    /// stored, the command to wait for it, or an error if there is to be no
    /// waiting.
    pub fn deliver_special_certificate(
        &self,
        certificate: &Certificate,
        sync: bool,
        parent: Option<Digest>,
        certified: bool,
    ) -> (answer: DagResult<(Option<Certificate>, bool, Option<WaiterMessage>)>)
        requires
            self.wf(),
        ensures
            special_answer(answer) == special_delivery(
                certificate.model(),
                self.genesis_digest(),
                sync,
                parent,
                certified,
            ),
    {
        let digest = certificate.header_digest;
        let genesis_digest = self.genesis_header.digest();
        assert(self.genesis_header.payload.pairs() =~= Seq::empty());
        if digest == genesis_digest {
            return Ok((Some(Synchronizer::dummy_certificate(genesis_digest)), true, None));
        }
        if let Some(header_digest) = parent {
            if certified {
                return Ok((None, true, None));
            } else {
                return Ok((Some(Synchronizer::dummy_certificate(header_digest)), true, None));
            }
        }
        if !sync {
            return Err(DagError::InvalidSpecialParent);
        }
        Ok((None, false, Some(WaiterMessage::SyncCertificate(certificate.duplicate()))))
    }

    /// The command to fetch the headers of a proposal, unless they are stored.
    pub fn start_proposal_sync(
        &self,
        proposal: Proposal,
        author: &PublicKey,
        consensus_message: ConsensusMessage,
        is_ready: bool,
    ) -> (command: Option<WaiterMessage>)
        ensures
            command is None <==> is_ready,
            command matches Some(command) ==> command.model() == WaiterModel::SyncProposalHeaders(
                proposal,
                *author,
                consensus_message.model(),
            ),
    {
        if is_ready {
            None
        } else {
            Some(WaiterMessage::SyncProposalHeaders(proposal, *author, consensus_message))
        }
    }

    /// Whether the header of a proposal is among those stored.
    pub fn is_proposal_ready(&self, proposal: &Proposal, known: &SortedMap<Digest, ()>) -> (ready: bool)
        ensures
            ready == known@.contains_key(proposal.header_digest),
    {
        known.contains_key(&proposal.header_digest)
    }

    /// Whether all proposals of a message are stored; commands to fetch those
    /// that are not are added to `commands`.
    pub fn get_proposals(
        &self,
        message: &ConsensusMessage,
        known: &SortedMap<Digest, ()>,
        commands: &mut Vec<WaiterMessage>,
    ) -> (ready: bool)
        ensures
            ready == proposals_ready(message.model(), known@),
            waiter_models(final(commands)@) == waiter_models(old(commands)@) + missing_proposals(
                message.model(),
                message.model().proposals,
                known@,
            ),
    {
        let proposals = message.proposals();
        let n = proposals.len();
        let ghost pairs = proposals.pairs();
        let mut ready = n > 0;
        let mut i: usize = 0;
        assert(waiter_models(commands@) =~= waiter_models(old(commands)@) + missing_proposals(
            message.model(),
            pairs.take(0),
            known@,
        ));
        while i < n
            invariant
                i <= n,
                n == pairs.len(),
                pairs == proposals.pairs(),
                pairs == message.model().proposals,
                ready == (n > 0 && forall|j: int|
                    0 <= j < i ==> known@.contains_key((#[trigger] pairs[j]).1.header_digest)),
                waiter_models(commands@) == waiter_models(old(commands)@) + missing_proposals(
                    message.model(),
                    pairs.take(i as int),
                    known@,
                ),
            decreases n - i,
        {
            let author = proposals.key_at(i);
            let proposal = *proposals.value_at(i);
            let ghost before = commands@;
            assert(pairs.take(i + 1).drop_last() =~= pairs.take(i as int));
            assert(pairs[i as int] == (author, proposal));
            let here = self.is_proposal_ready(&proposal, known);
            match self.start_proposal_sync(proposal, &author, message.duplicate(), here) {
                Some(command) => {
                    ready = false;
                    commands.push(command);
                    assert(waiter_models(commands@) =~= waiter_models(before).push(
                        commands@.last().model(),
                    ));
                    assert(waiter_models(commands@) =~= waiter_models(old(commands)@)
                        + missing_proposals(message.model(), pairs.take(i + 1), known@));
                },
                None => {},
            }
            i += 1;
        }
        assert(pairs.take(n as int) =~= pairs);
        ready
    }

    /// The headers of a proposal and its ancestors, down the chain that starts
    /// at the proposal's header, down to `stop_height`: those above it.
    pub fn get_all_headers_for_proposal(
        &self,
        proposal: &Proposal,
        stop_height: Height,
        chain: &Vec<Header>,
        is_ready: bool,
    ) -> (answer: DagResult<Vec<Header>>)
        requires
            // The chain goes on until it reaches the height.
            is_ready ==> chain@.len() > 0 && chain_ends(
                chain_heights(chain@).drop_first(),
                proposal.height,
                stop_height,
            ),
        ensures
            answer matches Err(e) ==> e == DagError::InvalidHeaderId,
            answer is Err <==> !is_ready,
            answer matches Ok(headers) ==> headers@.len() == chain_steps(
                chain_heights(chain@).drop_first(),
                proposal.height,
                stop_height,
            ) && forall|i: int|
                0 <= i < headers@.len() ==> (#[trigger] headers@[i]).model() == chain@[i].model(),
    {
        if !is_ready {
            return Err(DagError::InvalidHeaderId);
        }
        let ghost heights = chain_heights(chain@).drop_first();
        let ghost steps = chain_steps(heights, proposal.height, stop_height);
        let mut ancestors: Vec<Header> = Vec::new();
        let mut current_height: Height = proposal.height;
        let n: usize = chain.len();
        let mut i: usize = 0;
        assert(heights.skip(0) =~= heights);
        while current_height > stop_height
            invariant
                i < n,
                n == chain@.len(),
                heights == chain_heights(chain@).drop_first(),
                heights.len() == chain@.len() - 1,
                chain_ends(heights.skip(i as int), current_height, stop_height),
                i + chain_steps(heights.skip(i as int), current_height, stop_height) == steps,
                ancestors@.len() == i,
                forall|j: int|
                    0 <= j < i ==> (#[trigger] ancestors@[j]).model() == chain@[j].model(),
            decreases chain@.len() - i,
        {
            assert(heights.skip(i as int).len() > 0);
            ancestors.push(chain[i].duplicate());
            i += 1;
            proof {
                assert(heights.skip(i - 1).drop_first() =~= heights.skip(i as int));
            }
            current_height = chain[i].height;
        }
        Ok(ancestors)
    }

    /// The header with the given digest: the genesis header, or the one that is
    /// stored.
    pub fn get_header(&self, header_digest: Digest, stored: Option<Header>) -> (header: Option<
        Header,
    >)
        requires
            self.wf(),
        ensures
            optional_header(header) == (if header_digest == self.genesis_digest() {
                Some(self.genesis_model())
            } else {
                optional_header(stored)
            }),
    {
        assert(self.genesis_header.payload.pairs() =~= Seq::empty());
        if header_digest == self.genesis_header.digest() {
            Some(self.genesis_header.duplicate())
        } else {
            stored
        }
    }

    /// The header before `header`: the genesis header, or the one that is
    /// stored.
    pub fn get_parent_header(&self, header: &Header, stored: Option<Header>) -> (parent: Option<
        Header,
    >)
        requires
            self.wf(),
        ensures
            optional_header(parent) == (if header.parent_cert.header_digest
                == self.genesis_digest() {
                Some(self.genesis_model())
            } else {
                optional_header(stored)
            }),
    {
        self.get_header(header.parent_cert.header_digest, stored)
    }

    /// Whether the header before `header` is there.
    pub fn has_parent(&self, header: &Header, stored: bool) -> (found: bool)
        requires
            self.wf(),
        ensures
            found == (header.parent_cert.header_digest == self.genesis_digest() || stored),
    {
        assert(self.genesis_header.payload.pairs() =~= Seq::empty());
        header.parent_cert.header_digest == self.genesis_header.digest() || stored
    }
}

/// An optional header as a value.
pub open spec fn optional_header(header: Option<Header>) -> Option<HeaderModel> {
    match header {
        Some(header) => Some(header.model()),
        None => None,
    }
}

/// The heights of the headers of a chain.
pub open spec fn chain_heights(chain: Seq<Header>) -> Seq<Height> {
    Seq::new(chain.len(), |i: int| chain[i].height)
}

/// What the delivery of a certificate without its own votes answers.
pub open spec fn special_delivery(
    certificate: CertificateModel,
    genesis: Digest,
    sync: bool,
    parent: Option<Digest>,
    certified: bool,
) -> DagResult<(Option<CertificateModel>, bool, Option<WaiterModel>)> {
    if certificate.header_digest == genesis {
        Ok(
            (
                Some(CertificateModel { header_digest: genesis, ..default_certificate() }),
                true,
                None,
            ),
        )
    } else {
        match parent {
            Some(header_digest) => if certified {
                Ok((None, true, None))
            } else {
                Ok(
                    (
                        Some(CertificateModel { header_digest, ..default_certificate() }),
                        true,
                        None,
                    ),
                )
            },
            None => if sync {
                Ok((None, false, Some(WaiterModel::SyncCertificate(certificate))))
            } else {
                Err(DagError::InvalidSpecialParent)
            },
        }
    }
}

/// Such an answer as a value.
pub open spec fn special_answer(
    answer: DagResult<(Option<Certificate>, bool, Option<WaiterMessage>)>,
) -> DagResult<(Option<CertificateModel>, bool, Option<WaiterModel>)> {
    match answer {
        Ok((certificate, delivered, command)) => Ok(
            (
                match certificate {
                    Some(certificate) => Some(certificate.model()),
                    None => None,
                },
                delivered,
                match command {
                    Some(command) => Some(command.model()),
                    None => None,
                },
            ),
        ),
        Err(e) => Err(e),
    }
}

/// A special parent is delivered as soon as its header is stored. If that is not
/// certified, a certificate without votes stands for it; a missing one is
/// fetched where that is allowed, and is an error where it is not.
pub proof fn law_special_parents_delivered(
    certificate: CertificateModel,
    genesis: Digest,
    sync: bool,
    parent: Option<Digest>,
    certified: bool,
)
    ensures
        ({
            let answer = special_delivery(certificate, genesis, sync, parent, certified);
            let first = certificate.header_digest == genesis;
            &&& answer is Err <==> !first && parent is None && !sync
            &&& answer matches Ok((placeholder, delivered, command)) ==> {
                &&& delivered <==> first || parent is Some
                &&& command == (if delivered {
                    None
                } else {
                    Some(WaiterModel::SyncCertificate(certificate))
                })
                &&& placeholder is Some <==> first || (parent is Some && !certified)
                &&& placeholder matches Some(made) ==> {
                    &&& made.header_digest == (if first {
                        genesis
                    } else {
                        parent->0
                    })
                    &&& made.votes.len() == 0
                    &&& made.height == 0
                }
            }
        }),
{
}

} // verus!
