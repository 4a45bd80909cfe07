//! Makes new headers for the core to broadcast.
//!
//! Each event changes the state; after each, [`Proposer::tick`] says whether a
//! header is due. The caller keeps the timer.

use crate::collections::{as_map, lemma_as_map, lemma_listing, listing, sorted, SortedMap};
use crate::config::{key_order, leader_in, Committee, LeaderElector, WorkerId};
use crate::consensus::messages::{accept_bytes, Ticket, TicketModel};
use crate::crypto::{
    digest_of, is_degenerate, signature_with, signed_by, signer_output, Digest, Hashable, PublicKey,
    Signature, Signer,
};
use crate::primary::error::{Height, Slot, ViewNumber};
use crate::primary::messages::{
    default_certificate, genesis_id, header_id, make_zero_digest, zero_digest, Certificate,
    CertificateModel, Header, HeaderModel,
};
use vstd::prelude::*;

verus! {

/// Which consensus instance a header is about.
#[derive(Clone, Copy, Debug, PartialEq, Eq, Structural)]
pub struct ConsensusInfo {
    pub slot: Slot,
    pub view: ViewNumber,
}

/// What a header proposes to commit: the latest certificates, on the strength of a
/// ticket.
pub struct ConsensusProposal {
    pub ticket: Digest,
    pub proposals: SortedMap<PublicKey, Certificate>,
}

/// The certificate of our last header, and for each vote whether the voter took the
/// header's consensus part for valid.
pub struct Parent {
    pub certificate: Certificate,
    pub special_valids: Vec<bool>,
}

/// A header as the proposer makes it.
pub struct ProposedHeader {
    pub author: PublicKey,
    pub height: Height,
    pub payload: SortedMap<Digest, WorkerId>,
    pub parent_cert: Certificate,
    pub is_special: bool,
    pub consensus_info: Option<ConsensusInfo>,
    pub consensus_proposal: Option<ConsensusProposal>,
    pub view: ViewNumber,
    /// The height of our header before this one.
    pub special_parent_round: Height,
    pub ticket: Option<Ticket>,
    /// The round of the header proposed in the view before.
    pub prev_view_round: Height,
    /// The digest of the ticket.
    pub consensus_parent: Option<Digest>,
    pub id: Digest,
    pub signature: Signature,
}

/// A proposed header as a value.
#[verifier::ext_equal]
pub struct ProposedModel {
    pub author: PublicKey,
    pub height: Height,
    pub payload: Seq<(Digest, WorkerId)>,
    pub parent_cert: CertificateModel,
    pub is_special: bool,
    pub consensus_info: Option<ConsensusInfo>,
    pub consensus_proposal: Option<(Digest, Map<PublicKey, CertificateModel>)>,
    pub view: ViewNumber,
    pub special_parent_round: Height,
    pub ticket: Option<TicketModel>,
    pub prev_view_round: Height,
    pub consensus_parent: Option<Digest>,
    pub id: Digest,
    pub signature: Signature,
}

/// Certificates by author as values.
pub open spec fn cert_map(certificates: Map<PublicKey, Certificate>) -> Map<
    PublicKey,
    CertificateModel,
> {
    certificates.map_values(|certificate: Certificate| certificate.model())
}

/// A list of certificates as values.
pub open spec fn cert_list(certificates: Seq<(PublicKey, Certificate)>) -> Seq<
    (PublicKey, CertificateModel),
> {
    Seq::new(certificates.len(), |i: int| (certificates[i].0, certificates[i].1.model()))
}

impl ProposedHeader {
    /// The header as a value.
    pub open spec fn model(self) -> ProposedModel {
        ProposedModel {
            author: self.author,
            height: self.height,
            payload: self.payload.pairs(),
            parent_cert: self.parent_cert.model(),
            is_special: self.is_special,
            consensus_info: self.consensus_info,
            consensus_proposal: match self.consensus_proposal {
                Some(proposal) => Some((proposal.ticket, cert_map(proposal.proposals@))),
                None => None,
            },
            view: self.view,
            special_parent_round: self.special_parent_round,
            ticket: match self.ticket {
                Some(ticket) => Some(ticket.model()),
                None => None,
            },
            prev_view_round: self.prev_view_round,
            consensus_parent: self.consensus_parent,
            id: self.id,
            signature: self.signature,
        }
    }

    /// The header as the core broadcasts it, without consensus messages.
    pub fn into_header(self) -> (header: Header)
        ensures
            header.model() == (HeaderModel {
                author: self.author,
                height: self.height,
                payload: self.payload.pairs(),
                parent_cert: self.parent_cert.model(),
                id: self.id,
                signature: self.signature,
                consensus_messages: Seq::empty(),
                num_active_instances: 0,
                special: self.is_special,
            }),
    {
        let header = Header {
            author: self.author,
            height: self.height,
            payload: self.payload,
            parent_cert: self.parent_cert,
            id: self.id,
            signature: self.signature,
            consensus_messages: SortedMap::new(),
            num_active_instances: 0,
            special: self.is_special,
        };
        assert(crate::primary::messages::message_models(header.consensus_messages.pairs())
            =~= Seq::empty());
        header
    }
}

/// What the proposer is set up with.
pub struct ProposerEnv {
    pub name: PublicKey,
    /// The order in which authorities lead.
    pub order: Seq<PublicKey>,
    /// How many authorities must have grown for a new proposal.
    pub quorum: nat,
    /// The payload size at which a header is due, in bytes.
    pub header_size: usize,
    /// Whether signatures are zeros.
    pub disabled: bool,
    /// The key pair that signs.
    pub keypair: Seq<u8>,
    /// The public key that belongs to it.
    pub public: Seq<u8>,
}

/// What the proposer remembers.
#[verifier::ext_equal]
pub struct ProposerModel {
    /// The height of the last header.
    pub height: Height,
    pub last_header_id: Digest,
    pub last_header_round: Height,
    /// The certificate that the next header builds on, once it is there, and
    /// whether all votes for it were valid.
    pub last_parent: Option<(CertificateModel, Seq<bool>)>,
    /// The instance of the last special header.
    pub last_consensus_info: ConsensusInfo,
    /// What the last special header proposed.
    pub last_proposals: Map<PublicKey, CertificateModel>,
    /// The latest certificate of every author heard of.
    pub current_certs: Map<PublicKey, CertificateModel>,
    /// The batches that wait to be put into a header.
    pub digests: Seq<(Digest, WorkerId)>,
    pub payload_size: usize,
    pub view: ViewNumber,
    pub prev_view_round: Height,
    pub ticket: Option<TicketModel>,
}

/// The batches by digest; of two entries for one digest the later counts.
pub open spec fn payload_map(digests: Seq<(Digest, WorkerId)>) -> Map<Digest, WorkerId>
    decreases digests.len(),
{
    if digests.len() == 0 {
        Map::empty()
    } else {
        payload_map(digests.drop_last()).insert(digests.last().0, digests.last().1)
    }
}

/// Whether an author's chain grew since it was last proposed.
pub open spec fn has_grown(
    entry: (PublicKey, CertificateModel),
    last: Map<PublicKey, CertificateModel>,
) -> bool {
    !last.contains_key(entry.0) || entry.1.height > last[entry.0].height
}

/// How many of the listed authors' chains grew since they were last proposed.
pub open spec fn growth(
    current: Seq<(PublicKey, CertificateModel)>,
    last: Map<PublicKey, CertificateModel>,
) -> nat
    decreases current.len(),
{
    if current.len() == 0 {
        0
    } else {
        growth(current.drop_last(), last) + (if has_grown(current.last(), last) {
            1nat
        } else {
            0nat
        })
    }
}

/// Whether the next header proposes: we hold a ticket, and enough chains grew.
pub open spec fn proposes(env: ProposerEnv, s: ProposerModel) -> bool {
    s.ticket is Some && growth(listing(s.current_certs), s.last_proposals) >= env.quorum
}

/// Whether all votes for the parent were valid.
pub open spec fn all_valid_votes(valids: Seq<bool>) -> bool {
    forall|i: int| 0 <= i < valids.len() ==> #[trigger] valids[i]
}

/// The digest of a ticket.
pub open spec fn ticket_digest(ticket: TicketModel) -> Digest {
    digest_of(accept_bytes(ticket.hash, ticket.view, ticket.round))
}

/// The header that is made next, on the given parent.
pub open spec fn next_header(
    env: ProposerEnv,
    s: ProposerModel,
    parent: CertificateModel,
    special_propose: bool,
    special_consensus: bool,
) -> ProposedModel {
    let ticket = if special_propose {
        s.ticket
    } else {
        None
    };
    let digest = match ticket {
        Some(ticket) => ticket_digest(ticket),
        None => zero_digest(),
    };
    let payload = listing(payload_map(s.digests));
    let id = header_id(env.name, s.height, payload);
    ProposedModel {
        author: env.name,
        height: s.height,
        payload,
        parent_cert: parent,
        is_special: special_propose,
        consensus_info: if special_consensus {
            Some(s.last_consensus_info)
        } else if special_propose {
            Some(ConsensusInfo { slot: s.last_consensus_info.slot.wrapping_add(1), view: 1 })
        } else {
            None
        },
        consensus_proposal: if special_propose {
            Some((digest, s.current_certs))
        } else {
            None
        },
        view: s.view,
        special_parent_round: s.last_header_round,
        ticket,
        prev_view_round: s.prev_view_round,
        consensus_parent: if special_propose {
            Some(digest)
        } else {
            None
        },
        id,
        signature: signature_with(signer_output(env.disabled, env.keypair, id@)),
    }
}

/// What is left after `header` was made: the batches, the parent and the ticket
/// are used up.
pub open spec fn header_made(s: ProposerModel, header: ProposedModel) -> ProposerModel {
    ProposerModel {
        digests: Seq::empty(),
        ticket: if header.is_special {
            None
        } else {
            s.ticket
        },
        last_header_id: header.id,
        last_header_round: header.height,
        last_parent: None,
        last_consensus_info: match header.consensus_info {
            Some(info) => if header.is_special {
                info
            } else {
                s.last_consensus_info
            },
            None => s.last_consensus_info,
        },
        last_proposals: match header.consensus_proposal {
            Some((_, proposals)) => proposals,
            None => s.last_proposals,
        },
        ..s
    }
}

/// Whether a header is due: the parent's certificate is there, and there are
/// enough batches or enough time has passed.
pub open spec fn due(env: ProposerEnv, s: ProposerModel, timer_expired: bool) -> bool {
    (timer_expired || s.payload_size >= env.header_size) && s.last_parent is Some
}

/// Makes the header that is due.
pub open spec fn ticked(env: ProposerEnv, s: ProposerModel, timer_expired: bool) -> (
    ProposerModel,
    Option<ProposedModel>,
) {
    if due(env, s, timer_expired) {
        let (parent, valids) = s.last_parent->Some_0;
        let s1 = ProposerModel { height: s.height.wrapping_add(1), ..s };
        let header = next_header(env, s1, parent, proposes(env, s), all_valid_votes(valids));
        (ProposerModel { payload_size: 0, ..header_made(s1, header) }, Some(header))
    } else {
        (s, None)
    }
}

/// A ticket for the current view or a later one is kept for the next header that
/// proposes.
pub open spec fn ticket_taken(s: ProposerModel, ticket: TicketModel) -> ProposerModel {
    if ticket.view < s.view {
        s
    } else {
        ProposerModel {
            view: ticket.view.wrapping_add(1),
            prev_view_round: ticket.round,
            ticket: Some(ticket),
            ..s
        }
    }
}

/// The certificate of our last header, or of a later one, is what the next header
/// builds on.
pub open spec fn parent_taken(s: ProposerModel, certificate: CertificateModel, valids: Seq<bool>) -> ProposerModel {
    if certificate.height < s.height {
        s
    } else {
        ProposerModel {
            last_parent: Some((certificate, valids)),
            current_certs: s.current_certs.insert(certificate.author, certificate),
            ..s
        }
    }
}

/// A certificate of another author is kept if it is the highest of that author.
pub open spec fn certificate_taken(s: ProposerModel, certificate: CertificateModel) -> ProposerModel {
    if s.current_certs.contains_key(certificate.author) && certificate.height
        <= s.current_certs[certificate.author].height {
        s
    } else {
        ProposerModel {
            current_certs: s.current_certs.insert(certificate.author, certificate),
            ..s
        }
    }
}

/// A batch waits to be put into a header.
pub open spec fn digest_taken(s: ProposerModel, digest: Digest, worker_id: WorkerId) -> ProposerModel {
    ProposerModel {
        digests: s.digests.push((digest, worker_id)),
        payload_size: s.payload_size.saturating_add(32),
        ..s
    }
}

/// What the proposer remembers at first: the genesis certificate is there to build
/// the first header on.
pub open spec fn initial_proposer(first: PublicKey) -> ProposerModel {
    ProposerModel {
        height: 0,
        last_header_id: zero_digest(),
        last_header_round: 0,
        last_parent: Some(
            (
                CertificateModel { header_digest: genesis_id(first), ..default_certificate() },
                Seq::empty(),
            ),
        ),
        last_consensus_info: ConsensusInfo { slot: 0, view: 0 },
        last_proposals: Map::empty(),
        current_certs: Map::empty(),
        digests: Seq::empty(),
        payload_size: 0,
        view: 0,
        prev_view_round: 0,
        ticket: None,
    }
}

/// The proposer creates new headers and hands them to the core for broadcasting and
/// further processing.
pub struct Proposer {
    name: PublicKey,
    signer: Signer,
    committee: Committee,
    leader_elector: LeaderElector,
    header_size: usize,
    height: Height,
    last_header_id: Digest,
    last_header_round: Height,
    last_parent: Option<Parent>,
    last_consensus_info: ConsensusInfo,
    last_proposals: SortedMap<PublicKey, Certificate>,
    current_certs: SortedMap<PublicKey, Certificate>,
    digests: Vec<(Digest, WorkerId)>,
    payload_size: usize,
    view: ViewNumber,
    prev_view_round: Height,
    ticket: Option<Ticket>,
}

/// A fresh copy of a table of certificates.
fn copy_certificates(certificates: &SortedMap<PublicKey, Certificate>) -> (copy: SortedMap<
    PublicKey,
    Certificate,
>)
    ensures
        cert_map(copy@) == cert_map(certificates@),
{
    let n = certificates.len();
    let mut copy: SortedMap<PublicKey, Certificate> = SortedMap::new();
    let mut i: usize = 0;
    while i < n
        invariant
            i <= n == certificates.pairs().len(),
            sorted(certificates.pairs()),
            copy.pairs().len() == i,
            forall|j: int|
                0 <= j < i ==> (#[trigger] copy.pairs()[j]).0 == certificates.pairs()[j].0
                    && copy.pairs()[j].1.model() == certificates.pairs()[j].1.model(),
        decreases n - i,
    {
        let key = certificates.key_at(i);
        let certificate = certificates.value_at(i).duplicate();
        assert forall|j: int| 0 <= j < copy.pairs().len() implies crate::collections::Key::rank(
            (#[trigger] copy.pairs()[j]).0,
        ) < crate::collections::Key::rank(key) by {
            assert(crate::collections::Key::rank(certificates.pairs()[j].0)
                < crate::collections::Key::rank(certificates.pairs()[i as int].0));
        }
        copy.push_last(key, certificate);
        i += 1;
    }
    let _ = copy.len();
    proof {
        lemma_cert_list(certificates.pairs());
        lemma_cert_list(copy.pairs());
        assert(cert_list(copy.pairs()) =~= cert_list(certificates.pairs()));
    }
    copy
}

/// The list of certificates as values is the list of the values by author.
proof fn lemma_cert_list(pairs: Seq<(PublicKey, Certificate)>)
    requires
        sorted(pairs),
    ensures
        sorted(cert_list(pairs)),
        as_map(cert_list(pairs)) == cert_map(as_map(pairs)),
        cert_list(pairs) == listing(cert_map(as_map(pairs))),
{
    let list = cert_list(pairs);
    assert forall|i: int, j: int| 0 <= i < j < list.len() implies crate::collections::Key::rank(
        (#[trigger] list[i]).0,
    ) < crate::collections::Key::rank((#[trigger] list[j]).0) by {
        assert(crate::collections::Key::rank(pairs[i].0) < crate::collections::Key::rank(
            pairs[j].0,
        ));
    }
    lemma_as_map(pairs);
    lemma_as_map(list);
    assert forall|key: PublicKey| as_map(list).contains_key(key) <==> as_map(pairs).contains_key(
        key,
    ) by {
        if as_map(list).contains_key(key) {
            let i = choose|i: int| 0 <= i < list.len() && (#[trigger] list[i]).0 == key;
            assert(pairs[i].0 == key);
            assert(as_map(pairs).contains_key(pairs[i].0));
        }
        if as_map(pairs).contains_key(key) {
            let i = choose|i: int| 0 <= i < pairs.len() && (#[trigger] pairs[i]).0 == key;
            assert(list[i].0 == key);
            assert(as_map(list).contains_key(list[i].0));
        }
    }
    assert forall|key: PublicKey| as_map(list).contains_key(key) implies as_map(list)[key]
        == cert_map(as_map(pairs))[key] by {
        let i = choose|i: int| 0 <= i < list.len() && (#[trigger] list[i]).0 == key;
        assert(list[i].0 == pairs[i].0);
        assert(as_map(list)[list[i].0] == list[i].1);
        assert(as_map(pairs)[pairs[i].0] == pairs[i].1);
    }
    assert(as_map(list) =~= cert_map(as_map(pairs)));
    lemma_listing(list);
}

impl Proposer {
    /// What the proposer is set up with.
    pub closed spec fn env(&self) -> ProposerEnv {
        ProposerEnv {
            name: self.name,
            order: self.leader_elector.order(),
            quorum: self.committee.quorum(),
            header_size: self.header_size,
            disabled: self.signer.disabled(),
            keypair: self.signer.keypair(),
            public: self.signer.public_view(),
        }
    }

    /// What the proposer remembers.
    pub closed spec fn model(&self) -> ProposerModel {
        ProposerModel {
            height: self.height,
            last_header_id: self.last_header_id,
            last_header_round: self.last_header_round,
            last_parent: match self.last_parent {
                Some(parent) => Some((parent.certificate.model(), parent.special_valids@)),
                None => None,
            },
            last_consensus_info: self.last_consensus_info,
            last_proposals: cert_map(self.last_proposals@),
            current_certs: cert_map(self.current_certs@),
            digests: self.digests@,
            payload_size: self.payload_size,
            view: self.view,
            prev_view_round: self.prev_view_round,
            ticket: match self.ticket {
                Some(ticket) => Some(ticket.model()),
                None => None,
            },
        }
    }

    /// A proposer for a primary of `committee`; `None` if the committee is empty.
    pub fn new(name: PublicKey, committee: Committee, signer: Signer, header_size: usize) -> (
        proposer: Option<Self>)
        ensures
            proposer is Some <==> committee.pairs().len() > 0,
            proposer matches Some(proposer) ==> {
                &&& proposer.model() == initial_proposer(committee.pairs()[0].0)
                &&& proposer.env() == (ProposerEnv {
                    name,
                    order: key_order(committee.pairs()),
                    quorum: committee.quorum(),
                    header_size,
                    disabled: signer.disabled(),
                    keypair: signer.keypair(),
                    public: signer.public_view(),
                })
            },
    {
        let leader_elector = match LeaderElector::new(&committee) {
            Some(leader_elector) => leader_elector,
            None => return None,
        };
        let genesis = Certificate::genesis_cert(&committee);
        let genesis_parent = Header::genesis(&committee).id;
        let proposer = Proposer {
            name,
            signer,
            committee,
            leader_elector,
            header_size,
            height: 0,
            last_header_id: genesis_parent,
            last_header_round: 0,
            last_parent: Some(Parent { certificate: genesis, special_valids: Vec::new() }),
            last_consensus_info: ConsensusInfo { slot: 0, view: 0 },
            last_proposals: SortedMap::new(),
            current_certs: SortedMap::new(),
            digests: Vec::new(),
            payload_size: 0,
            view: 0,
            prev_view_round: 0,
            ticket: None,
        };
        assert(proposer.model() =~= initial_proposer(committee.pairs()[0].0));
        Some(proposer)
    }

    /// The leader of a view.
    pub fn get_leader(&self, view: ViewNumber) -> (leader: PublicKey)
        ensures
            leader == leader_in(self.env().order, view as nat),
    {
        self.leader_elector.get_view_leader(view)
    }

    /// Takes a ticket from consensus.
    pub fn receive_ticket(&mut self, ticket: Ticket)
        ensures
            final(self).env() == old(self).env(),
            final(self).model() == ticket_taken(old(self).model(), ticket.model()),
    {
        if ticket.view < self.view {
            // A proposal for the view already exists.
            return;
        }
        self.view = ticket.view.wrapping_add(1);
        self.prev_view_round = ticket.round;
        self.ticket = Some(ticket);
    }

    /// Takes the certificate of our own header.
    pub fn receive_parent(&mut self, parent: Parent)
        ensures
            final(self).env() == old(self).env(),
            final(self).model() == parent_taken(
                old(self).model(),
                parent.certificate.model(),
                parent.special_valids@,
            ),
    {
        if parent.certificate.height < self.height {
            return;
        }
        let ghost before = self.current_certs@;
        let ghost model = parent.certificate.model();
        let origin = parent.certificate.origin();
        self.current_certs.insert(origin, parent.certificate.duplicate());
        assert(cert_map(self.current_certs@) =~= cert_map(before).insert(origin, model));
        // Signal that we can propose a new header.
        self.last_parent = Some(parent);
    }

    /// Takes the certificate of another author's header.
    pub fn receive_certificate(&mut self, certificate: Certificate)
        ensures
            final(self).env() == old(self).env(),
            final(self).model() == certificate_taken(old(self).model(), certificate.model()),
    {
        let origin = certificate.origin();
        if let Some(known) = self.current_certs.get(&origin) {
            if certificate.height <= known.height {
                return;
            }
        }
        let ghost before = self.current_certs@;
        let ghost model = certificate.model();
        self.current_certs.insert(origin, certificate);
        assert(cert_map(self.current_certs@) =~= cert_map(before).insert(origin, model));
    }

    /// Takes the digest of a batch from one of our workers.
    pub fn receive_digest(&mut self, digest: Digest, worker_id: WorkerId)
        ensures
            final(self).env() == old(self).env(),
            final(self).model() == digest_taken(old(self).model(), digest, worker_id),
    {
        self.payload_size = self.payload_size.saturating_add(Digest::size());
        self.digests.push((digest, worker_id));
    }

    /// How many chains grew since they were last proposed.
    fn count_growth(&self) -> (count: usize)
        ensures
            count == growth(listing(self.model().current_certs), self.model().last_proposals),
    {
        let n = self.current_certs.len();
        let ghost list = cert_list(self.current_certs.pairs());
        let ghost last = cert_map(self.last_proposals@);
        proof {
            lemma_cert_list(self.current_certs.pairs());
        }
        let mut count: usize = 0;
        let mut i: usize = 0;
        assert(list.take(0).len() == 0);
        while i < n
            invariant
                i <= n == list.len(),
                list == cert_list(self.current_certs.pairs()),
                last == cert_map(self.last_proposals@),
                count == growth(list.take(i as int), last),
                count <= i,
            decreases n - i,
        {
            proof {
                assert(list.take(i + 1).drop_last() =~= list.take(i as int));
                assert(list.take(i + 1).last() == list[i as int]);
            }
            let key = self.current_certs.key_at(i);
            let height = self.current_certs.value_at(i).height;
            let grown = match self.last_proposals.get(&key) {
                Some(proposed) => height > proposed.height,
                None => true,
            };
            assert(grown == has_grown(list[i as int], last));
            if grown {
                count = count + 1;
            }
            i += 1;
        }
        assert(list.take(n as int) =~= list);
        count
    }

    /// The waiting batches by digest, which are used up.
    fn drain_digests(&mut self) -> (payload: SortedMap<Digest, WorkerId>)
        ensures
            final(self).env() == old(self).env(),
            final(self).model() == (ProposerModel { digests: Seq::empty(), ..old(self).model() }),
            payload.pairs() == listing(payload_map(old(self).model().digests)),
    {
        let ghost digests = self.digests@;
        let mut payload: SortedMap<Digest, WorkerId> = SortedMap::new();
        let mut i: usize = 0;
        let _ = payload.len();
        proof {
            lemma_listing(payload.pairs());
            assert(digests.take(0).len() == 0);
        }
        while i < self.digests.len()
            invariant
                i <= digests.len(),
                *self == *old(self),
                digests == self.digests@,
                payload@ == payload_map(digests.take(i as int)),
                payload.pairs() == listing(payload@),
            decreases digests.len() - i,
        {
            assert(digests.take(i + 1).drop_last() =~= digests.take(i as int));
            payload.insert(self.digests[i].0, self.digests[i].1);
            i += 1;
        }
        assert(digests.take(i as int) =~= digests);
        self.digests = Vec::new();
        assert(self.model() =~= (ProposerModel { digests: Seq::empty(), ..old(self).model() }));
        payload
    }

    /// Makes a header on the given parent.
    fn make_header(&mut self, parent: Certificate, is_special_propose: bool, is_special_consensus: bool) -> (
        header: ProposedHeader)
        requires
            old(self).model().last_parent is None,
        ensures
            final(self).env() == old(self).env(),
            header.model() == next_header(
                old(self).env(),
                old(self).model(),
                parent.model(),
                is_special_propose,
                is_special_consensus,
            ),
            final(self).model() == header_made(old(self).model(), header.model()),
            !old(self).env().disabled && !is_degenerate(header.signature)
                && old(self).env().name@ == old(self).env().public ==> signed_by(
                header.id,
                header.author,
                header.signature,
            ),
    {
        let ghost env = self.env();
        let ghost s = self.model();
        let ghost parent_model = parent.model();
        let mut ticket: Option<Ticket> = None;
        let mut ticket_digest = make_zero_digest();
        if is_special_propose {
            std::mem::swap(&mut self.ticket, &mut ticket);
            if let Some(ticket) = &ticket {
                ticket_digest = ticket.digest();
            }
        }
        let mut consensus_proposal: Option<ConsensusProposal> = None;
        let mut consensus_info: Option<ConsensusInfo> = None;
        if is_special_propose {
            consensus_proposal = Some(
                ConsensusProposal {
                    ticket: ticket_digest,
                    proposals: copy_certificates(&self.current_certs),
                },
            );
            consensus_info = Some(
                ConsensusInfo { slot: self.last_consensus_info.slot.wrapping_add(1), view: 1 },
            );
        }
        if is_special_consensus {
            consensus_info = Some(self.last_consensus_info);
        }
        if is_special_propose {
            self.last_proposals = copy_certificates(&self.current_certs);
        }
        let view = self.view;
        let special_parent_round = self.last_header_round;
        let prev_view_round = self.prev_view_round;
        let height = self.height;
        let payload = self.drain_digests();
        // Make a new header.
        let mut header = ProposedHeader {
            author: self.name,
            height,
            payload,
            parent_cert: parent,
            is_special: is_special_propose,
            consensus_info,
            consensus_proposal,
            view,
            special_parent_round,
            ticket,
            prev_view_round,
            consensus_parent: if is_special_propose {
                Some(ticket_digest)
            } else {
                None
            },
            id: make_zero_digest(),
            signature: Signature::default(),
        };
        let id = proposed_id(&header);
        header.signature = self.signer.sign(&id);
        header.id = id;
        // Remember the instance of the last special header.
        if is_special_propose {
            if let Some(info) = header.consensus_info {
                self.last_consensus_info = info;
            }
        }
        // Store a reference to our own previous header.
        self.last_header_id = header.id;
        self.last_header_round = header.height;
        proof {
            let expected = next_header(
                env,
                s,
                parent_model,
                is_special_propose,
                is_special_consensus,
            );
            assert(header.model() =~= expected);
            assert(self.model() =~= header_made(s, expected));
        }
        header
    }

    /// Makes a header if one is due. The caller starts the timer over if so.
    pub fn tick(&mut self, timer_expired: bool) -> (header: Option<ProposedHeader>)
        ensures
            final(self).env() == old(self).env(),
            ({
                let (s, made) = ticked(old(self).env(), old(self).model(), timer_expired);
                &&& final(self).model() == s
                &&& made == (match header {
                    Some(header) => Some(header.model()),
                    None => None,
                })
            }),
            // What a working signer of our name makes is accepted as ours.
            header matches Some(header) ==> (!old(self).env().disabled && !is_degenerate(
                header.signature,
            ) && old(self).env().name@ == old(self).env().public ==> signed_by(
                header.id,
                header.author,
                header.signature,
            )),
    {
        let enough_digests = self.payload_size >= self.header_size;
        if !(timer_expired || enough_digests) || self.last_parent.is_none() {
            return None;
        }
        let ghost env = self.env();
        let ghost s = self.model();
        let quorum = self.committee.quorum_threshold() as usize;
        let special_propose = self.ticket.is_some() && self.count_growth() >= quorum;
        let mut last_parent: Option<Parent> = None;
        std::mem::swap(&mut self.last_parent, &mut last_parent);
        match last_parent {
            Some(parent) => {
                let special_consensus = all_true(&parent.special_valids);
                self.height = self.height.wrapping_add(1);
                let ghost s1 = ProposerModel { height: s.height.wrapping_add(1), ..s };
                assert(self.model() =~= (ProposerModel { last_parent: None, ..s1 }));
                let header = self.make_header(
                    parent.certificate,
                    special_propose,
                    special_consensus,
                );
                self.payload_size = 0;
                proof {
                    let (t, made) = ticked(env, s, timer_expired);
                    assert(header.model() =~= made->0);
                    assert(self.model() =~= t);
                }
                Some(header)
            },
            None => None,
        }
    }
}

/// Each header is one higher than the last, builds on the certificate that came
/// last, and uses it up: the next one waits for its own certificate.
pub proof fn law_one_header_per_certificate(env: ProposerEnv, s: ProposerModel, timer_expired: bool)
    requires
        due(env, s, timer_expired),
        s.height < u64::MAX,
    ensures
        ({
            let (t, made) = ticked(env, s, timer_expired);
            &&& made matches Some(header) && header.height == s.height + 1 && header.parent_cert
                == s.last_parent->Some_0.0
            &&& t.height == s.height + 1
            &&& t.last_parent is None
            &&& forall|expired: bool| !#[trigger] due(env, t, expired)
        }),
{
}

/// Nothing waits for ever: every batch that was taken since the last header is in
/// the next one, and none is left over.
pub proof fn law_batches_are_included(env: ProposerEnv, s: ProposerModel, timer_expired: bool, i: int)
    requires
        due(env, s, timer_expired),
        0 <= i < s.digests.len(),
    ensures
        ({
            let (t, made) = ticked(env, s, timer_expired);
            &&& made matches Some(header) && crate::collections::has_key(
                header.payload,
                s.digests[i].0,
            )
            &&& t.digests.len() == 0
            &&& t.payload_size == 0
        }),
{
    let map = payload_map(s.digests);
    lemma_payload_has(s.digests, i);
    lemma_payload_listed(s.digests);
    assert(as_map(listing(map)) == map);
}

proof fn lemma_payload_has(digests: Seq<(Digest, WorkerId)>, i: int)
    requires
        0 <= i < digests.len(),
    ensures
        payload_map(digests).contains_key(digests[i].0),
    decreases digests.len(),
{
    if i < digests.len() - 1 {
        lemma_payload_has(digests.drop_last(), i);
        assert(digests.drop_last()[i] == digests[i]);
    }
}

/// What the waiting batches make of a payload can be listed.
pub proof fn lemma_payload_listed(digests: Seq<(Digest, WorkerId)>)
    ensures
        sorted(listing(payload_map(digests))),
        as_map(listing(payload_map(digests))) == payload_map(digests),
    decreases digests.len(),
{
    if digests.len() == 0 {
        let none = Seq::<(Digest, WorkerId)>::empty();
        lemma_as_map(none);
        assert(as_map(none) =~= Map::<Digest, WorkerId>::empty()) by {
            assert forall|key: Digest| !as_map(none).contains_key(key) by {
                if as_map(none).contains_key(key) {
                    let i = choose|i: int| 0 <= i < none.len() && (#[trigger] none[i]).0 == key;
                    assert(false);
                }
            }
        }
        assert(sorted(none));
    } else {
        let front = digests.drop_last();
        lemma_payload_listed(front);
        crate::collections::lemma_listing_insert(
            listing(payload_map(front)),
            digests.last().0,
            digests.last().1,
        );
    }
}

/// Without a ticket no header proposes anything, and a header that does uses the
/// ticket up.
pub proof fn law_ticket_used_once(env: ProposerEnv, s: ProposerModel, timer_expired: bool)
    ensures
        ({
            let (t, made) = ticked(env, s, timer_expired);
            made matches Some(header) ==> {
                &&& s.ticket is None ==> !header.is_special && header.consensus_proposal is None
                &&& header.is_special ==> header.ticket == s.ticket && t.ticket is None
                &&& !header.is_special ==> header.ticket is None && t.ticket == s.ticket
            }
        }),
{
}

/// Views never go back, and a ticket of a view that is behind us changes nothing.
pub proof fn law_old_tickets_ignored(s: ProposerModel, ticket: TicketModel)
    requires
        ticket.view < u64::MAX,
    ensures
        ticket_taken(s, ticket).view >= s.view,
        ticket.view < s.view ==> ticket_taken(s, ticket) == s,
{
}

/// The certificate that we know of an author only gets higher.
pub proof fn law_certificates_grow(s: ProposerModel, certificate: CertificateModel, author: PublicKey)
    requires
        s.current_certs.contains_key(author),
    ensures
        ({
            let t = certificate_taken(s, certificate);
            t.current_certs.contains_key(author) && t.current_certs[author].height
                >= s.current_certs[author].height
        }),
{
}

/// Whether all entries hold.
fn all_true(valids: &Vec<bool>) -> (all: bool)
    ensures
        all == all_valid_votes(valids@),
{
    let mut i: usize = 0;
    while i < valids.len()
        invariant
            i <= valids@.len(),
            forall|j: int| 0 <= j < i ==> #[trigger] valids@[j],
        decreases valids@.len() - i,
    {
        if !valids[i] {
            return false;
        }
        i += 1;
    }
    true
}

/// The id of a proposed header.
fn proposed_id(header: &ProposedHeader) -> (id: Digest)
    ensures
        id == header_id(header.author, header.height, header.payload.pairs()),
{
    let mut buffer: Vec<u8> = Vec::new();
    crate::bytes::append_bytes(&mut buffer, header.author.0.as_slice());
    crate::bytes::append_u64_le(&mut buffer, header.height);
    crate::primary::messages::append_payload(&mut buffer, &header.payload);
    assert(buffer@ =~= crate::primary::messages::header_bytes(
        header.author,
        header.height,
        header.payload.pairs(),
    ));
    crate::crypto::hash_bytes(buffer.as_slice())
}

} // verus!
