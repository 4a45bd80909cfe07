//! The state of the consensus core and what each event makes of it.
//!
//! Everything here is a mathematical value: the executable core in
//! [`crate::consensus::view_core`] is proved to follow these definitions.

use crate::config::{leader_in, Committee};
use crate::consensus::aggregator::{abandoned, accepted, cleaned, empty_aggregator, AggregatorModel};
use crate::consensus::messages::{
    accept_bytes, accept_verdict, genesis_certificate, genesis_header, genesis_qc, genesis_ticket,
    is_genesis_qc, special_verdict, tc_verdict, timeout_bytes, timeout_verdict, AcceptVote,
    Certificate, CertificateModel, Header, HeaderModel, QcModel, Round, TcModel, Ticket,
    TicketModel, Timeout, TimeoutModel, QC, TC,
};
use crate::crypto::{digest_of, signature_with, signer_output, Digest, PublicKey, Signature};
use crate::primary::error::{ConsensusError, ConsensusResult, ViewNumber};
use crate::quorum::{voters, weight};
use vstd::prelude::*;

verus! {

/// Something that the core asks to be done, in the order asked.
pub enum Action {
    /// Start the view timer over.
    ResetTimer,
    /// Store a header under its id.
    StoreHeader(Header),
    /// Store a certificate under its digest.
    StoreCertificate(Certificate),
    /// Store a ticket under its digest.
    StoreTicket(Ticket),
    /// Tell the DAG whether a special header is valid: 1 if it is, 0 if not.
    Validate(Header, u8),
    /// Let our proposer make a header with the ticket.
    Propose(Ticket),
    /// Look up the header with the given id and go on with `process_commit`.
    ProcessCommit(Digest, Ticket),
    /// Fetch the header with the given id, then go on with `process_commit`.
    FetchHeader(Digest, Ticket),
    /// Wait for the parent ticket of a header, then go on with `commit`.
    AwaitTicket(Header, Ticket),
    /// Hand a decided header to the committer.
    Commit(Certificate),
    /// Let the mempool forget what was committed.
    Cleanup(Vec<Certificate>),
    /// Send our timeout to all others.
    BroadcastTimeout(Timeout),
    /// Send a quorum certificate to all others.
    BroadcastQc(QC),
    /// Send a timeout certificate to all others.
    BroadcastTc(TC),
    /// Send a vote to an authority.
    SendVote(PublicKey, AcceptVote),
}

/// An action as a value.
#[verifier::ext_equal]
pub enum ActionModel {
    ResetTimer,
    StoreHeader(HeaderModel),
    StoreCertificate(CertificateModel),
    StoreTicket(TicketModel),
    Validate(HeaderModel, u8),
    Propose(TicketModel),
    ProcessCommit(Digest, TicketModel),
    FetchHeader(Digest, TicketModel),
    AwaitTicket(HeaderModel, TicketModel),
    Commit(CertificateModel),
    Cleanup(Seq<CertificateModel>),
    BroadcastTimeout(TimeoutModel),
    BroadcastQc(QcModel),
    BroadcastTc(TcModel),
    SendVote(PublicKey, AcceptVote),
}

impl Action {
    /// The action as a value.
    pub open spec fn model(self) -> ActionModel {
        match self {
            Action::ResetTimer => ActionModel::ResetTimer,
            Action::StoreHeader(header) => ActionModel::StoreHeader(header.model()),
            Action::StoreCertificate(certificate) => ActionModel::StoreCertificate(
                certificate.model(),
            ),
            Action::StoreTicket(ticket) => ActionModel::StoreTicket(ticket.model()),
            Action::Validate(header, valid) => ActionModel::Validate(header.model(), valid),
            Action::Propose(ticket) => ActionModel::Propose(ticket.model()),
            Action::ProcessCommit(hash, ticket) => ActionModel::ProcessCommit(hash, ticket.model()),
            Action::FetchHeader(hash, ticket) => ActionModel::FetchHeader(hash, ticket.model()),
            Action::AwaitTicket(header, ticket) => ActionModel::AwaitTicket(
                header.model(),
                ticket.model(),
            ),
            Action::Commit(certificate) => ActionModel::Commit(certificate.model()),
            Action::Cleanup(certificates) => ActionModel::Cleanup(
                certificate_models(certificates@),
            ),
            Action::BroadcastTimeout(timeout) => ActionModel::BroadcastTimeout(timeout.model()),
            Action::BroadcastQc(qc) => ActionModel::BroadcastQc(qc.model()),
            Action::BroadcastTc(tc) => ActionModel::BroadcastTc(tc.model()),
            Action::SendVote(to, vote) => ActionModel::SendVote(to, vote),
        }
    }
}

/// The certificates as values.
pub open spec fn certificate_models(certificates: Seq<Certificate>) -> Seq<CertificateModel> {
    Seq::new(certificates.len(), |i: int| certificates[i].model())
}

/// The actions as values.
pub open spec fn action_models(actions: Seq<Action>) -> Seq<ActionModel> {
    Seq::new(actions.len(), |i: int| actions[i].model())
}

/// What the core is set up with.
pub struct Env {
    /// The public key of this replica.
    pub name: PublicKey,
    pub committee: Committee,
    /// The order in which authorities lead.
    pub order: Seq<PublicKey>,
    /// Whether signatures are zeros.
    pub disabled: bool,
    /// The key pair that signs.
    pub keypair: Seq<u8>,
}

/// What the core remembers.
#[verifier::ext_equal]
pub struct CoreModel {
    /// The current view.
    pub view: ViewNumber,
    /// The highest view in which we validated a header or gave up.
    pub last_prepared_view: ViewNumber,
    /// The highest view in which we voted or gave up.
    pub last_voted_view: ViewNumber,
    /// The highest view whose header was committed.
    pub last_committed_view: ViewNumber,
    /// The highest round of a header with a quorum certificate.
    pub round: Round,
    /// The headers seen in special headers and certificates, by id.
    pub stored_headers: Map<Digest, HeaderModel>,
    /// The last header that we validated.
    pub high_prepare: HeaderModel,
    /// The last certificate that we voted on.
    pub high_cert: CertificateModel,
    /// The highest quorum certificate.
    pub high_qc: QcModel,
    /// The votes and timeouts of recent views.
    pub aggregator: AggregatorModel,
    /// The headers whose processing began, by view.
    pub processing_headers: Map<ViewNumber, Set<Digest>>,
}

/// What the core remembers at first.
pub open spec fn initial_state() -> CoreModel {
    CoreModel {
        view: 1,
        last_prepared_view: 0,
        last_voted_view: 0,
        last_committed_view: 0,
        round: 0,
        stored_headers: Map::empty(),
        high_prepare: genesis_header(),
        high_cert: genesis_certificate(),
        high_qc: genesis_qc(),
        aggregator: empty_aggregator(),
        processing_headers: Map::empty(),
    }
}

/// The view after `view`, starting over behind the last.
pub open spec fn next_view(view: ViewNumber) -> ViewNumber {
    view.wrapping_add(1)
}

/// The greater of two numbers.
pub open spec fn greater(a: u64, b: u64) -> u64 {
    if a >= b {
        a
    } else {
        b
    }
}

/// The leader of a view.
pub open spec fn leader(env: Env, view: ViewNumber) -> PublicKey {
    leader_in(env.order, view as nat)
}

/// Our signature over `bytes`.
pub open spec fn signed(env: Env, bytes: Seq<u8>) -> Signature {
    signature_with(signer_output(env.disabled, env.keypair, digest_of(bytes)@))
}

/// Closing a view that is not behind us takes us to the next one.
pub open spec fn advanced(s: CoreModel, view: ViewNumber) -> (CoreModel, Seq<ActionModel>) {
    if view < s.view {
        (s, Seq::empty())
    } else {
        (
            CoreModel {
                view: next_view(view),
                aggregator: cleaned(s.aggregator, next_view(view)),
                ..s
            },
            seq![ActionModel::ResetTimer],
        )
    }
}

/// Keeps the higher of two certificates.
pub open spec fn high_qc_updated(s: CoreModel, qc: QcModel) -> CoreModel {
    if qc.view > s.high_qc.view {
        CoreModel { high_qc: qc, ..s }
    } else {
        s
    }
}

/// Adopts a certificate: its view is closed, and the highest certificate and
/// round are remembered.
pub open spec fn qc_adopted(s: CoreModel, qc: QcModel) -> (CoreModel, Seq<ActionModel>) {
    let (s1, actions) = advanced(s, qc.view);
    let s2 = high_qc_updated(s1, qc);
    (CoreModel { round: greater(s2.round, qc.view_round), ..s2 }, actions)
}

/// The ticket for a header: by a timeout certificate if there is one, else by a
/// quorum certificate. Its view is that of the certificate.
pub open spec fn ticket_for(
    s: CoreModel,
    hash: Digest,
    qc: Option<QcModel>,
    tc: Option<TcModel>,
) -> ConsensusResult<TicketModel> {
    match tc {
        Some(tc) => Ok(
            TicketModel {
                hash,
                qc: s.high_qc,
                tc: Some(tc),
                view: tc.view,
                round: tc.view_round,
            },
        ),
        None => match qc {
            Some(qc) => Ok(
                TicketModel { hash, qc, tc: None, view: qc.view, round: qc.view_round },
            ),
            None => Err(ConsensusError::InvalidTicket),
        },
    }
}

/// The ticket by a quorum certificate.
pub open spec fn qc_ticket(qc: QcModel) -> TicketModel {
    TicketModel { hash: qc.hash, qc, tc: None, view: qc.view, round: qc.view_round }
}

/// The ticket by a timeout certificate.
pub open spec fn tc_ticket(s: CoreModel, tc: TcModel) -> TicketModel {
    TicketModel { hash: tc.hash, qc: s.high_qc, tc: Some(tc), view: tc.view, round: tc.view_round }
}

/// Proposing with a ticket: only for the current view.
pub open spec fn proposal(s: CoreModel, ticket: TicketModel) -> Seq<ActionModel> {
    if ticket.view == s.view - 1 {
        seq![ActionModel::Propose(ticket)]
    } else {
        Seq::empty()
    }
}

/// What follows from a new ticket: its header is committed, and the leader of the
/// current view proposes.
pub open spec fn ticket_used(env: Env, s: CoreModel, ticket: TicketModel) -> Seq<ActionModel> {
    seq![ActionModel::ProcessCommit(ticket.hash, ticket)] + (if env.name == leader(env, s.view) {
        proposal(s, ticket)
    } else {
        Seq::empty()
    })
}

/// Processing a quorum certificate, given the verdict on it.
pub open spec fn qc_handled(env: Env, s: CoreModel, qc: QcModel, verdict: ConsensusResult<()>) -> (
    CoreModel,
    Seq<ActionModel>,
    ConsensusResult<()>,
) {
    if is_genesis_qc(qc) {
        (s, Seq::empty(), Ok(()))
    } else if verdict is Err {
        (s, Seq::empty(), Err(ConsensusError::InvalidQC(qc.hash, qc.view)))
    } else {
        let (s1, actions) = qc_adopted(s, qc);
        (s1, actions + ticket_used(env, s1, qc_ticket(qc)), Ok(()))
    }
}

/// Processing a vote: a certificate that it completes is adopted and sent to all
/// others.
pub open spec fn vote_handled(env: Env, s: CoreModel, vote: AcceptVote) -> (
    CoreModel,
    Seq<ActionModel>,
    ConsensusResult<()>,
) {
    if vote.view < s.view {
        (s, Seq::empty(), Ok(()))
    } else {
        match accept_verdict(vote, &env.committee) {
            Err(e) => (s, Seq::empty(), Err(e)),
            Ok(()) => {
                let (aggregator, answer) = accepted(s.aggregator, vote, &env.committee);
                let s1 = CoreModel { aggregator, ..s };
                match answer {
                    Err(e) => (s1, Seq::empty(), Err(e)),
                    Ok(None) => (s1, Seq::empty(), Ok(())),
                    Ok(Some(qc)) => {
                        let (s2, actions) = qc_adopted(s1, qc);
                        (
                            s2,
                            actions + seq![ActionModel::BroadcastQc(qc)] + ticket_used(
                                env,
                                s2,
                                qc_ticket(qc),
                            ),
                            Ok(()),
                        )
                    },
                }
            },
        }
    }
}

/// Processing a valid timeout certificate.
pub open spec fn tc_processed(env: Env, s: CoreModel, tc: TcModel) -> (
    CoreModel,
    Seq<ActionModel>,
) {
    let (s1, actions) = advanced(s, tc.view);
    (s1, actions + ticket_used(env, s1, tc_ticket(s1, tc)))
}

/// Processing a timeout certificate.
pub open spec fn tc_handled(env: Env, s: CoreModel, tc: TcModel) -> (
    CoreModel,
    Seq<ActionModel>,
    ConsensusResult<()>,
) {
    if tc_verdict(tc, &env.committee) is Err {
        (s, Seq::empty(), Err(ConsensusError::InvalidTC(tc.hash, tc.view)))
    } else {
        let (s1, actions) = tc_processed(env, s, tc);
        (s1, actions, Ok(()))
    }
}

/// Processing a timeout, given the verdict on its certificate: the certificate is
/// adopted, and a timeout certificate that the timeout completes is processed and
/// sent to all others.
pub open spec fn timeout_handled(
    env: Env,
    s: CoreModel,
    timeout: TimeoutModel,
    verdict: ConsensusResult<()>,
) -> (CoreModel, Seq<ActionModel>, ConsensusResult<()>) {
    if timeout.view < s.view {
        (s, Seq::empty(), Ok(()))
    } else {
        match timeout_verdict(timeout, &env.committee, verdict) {
            Err(e) => (s, Seq::empty(), Err(e)),
            Ok(()) => {
                let (s1, actions) = qc_adopted(s, timeout.high_qc);
                let (aggregator, answer) = abandoned(s1.aggregator, timeout, &env.committee);
                let s2 = CoreModel { aggregator, ..s1 };
                match answer {
                    Err(e) => (s2, actions, Err(e)),
                    Ok(None) => (s2, actions, Ok(())),
                    Ok(Some(tc)) => {
                        let (s3, more) = tc_processed(env, s2, tc);
                        (s3, actions + more + seq![ActionModel::BroadcastTc(tc)], Ok(()))
                    },
                }
            },
        }
    }
}

/// Our timeout for the current view.
pub open spec fn own_timeout(env: Env, s: CoreModel) -> TimeoutModel {
    TimeoutModel {
        high_qc: s.high_qc,
        view: s.view,
        author: env.name,
        signature: signed(env, timeout_bytes(s.view, s.high_qc.view)),
    }
}

/// Giving up on the current view: we will neither validate nor vote in it any
/// more, and our timeout goes to all others and to ourselves.
pub open spec fn timed_out(env: Env, s: CoreModel, verdict: ConsensusResult<()>) -> (
    CoreModel,
    Seq<ActionModel>,
    ConsensusResult<()>,
) {
    let timeout = own_timeout(env, s);
    let s1 = CoreModel {
        last_prepared_view: greater(s.last_prepared_view, s.view),
        last_voted_view: greater(s.last_voted_view, s.view),
        ..s
    };
    let (s2, actions, answer) = timeout_handled(env, s1, timeout, verdict);
    (
        s2,
        seq![ActionModel::ResetTimer, ActionModel::BroadcastTimeout(timeout)] + actions,
        answer,
    )
}

/// Processing the ticket of a header of `view`, given the verdict on its quorum
/// certificate: the ticket must close the view before. It is used unless that
/// view was committed.
pub open spec fn ticket_processed(
    env: Env,
    s: CoreModel,
    view: ViewNumber,
    ticket: TicketModel,
    verdict: ConsensusResult<()>,
) -> (CoreModel, Seq<ActionModel>, ConsensusResult<()>) {
    match ticket.tc {
        Some(tc) => if view != next_view(tc.view) {
            (s, Seq::empty(), Err(ConsensusError::InvalidTicket))
        } else if tc.view > s.last_committed_view {
            tc_handled(env, s, tc)
        } else {
            (s, Seq::empty(), Ok(()))
        },
        None => if view != next_view(ticket.qc.view) {
            (s, Seq::empty(), Err(ConsensusError::InvalidTicket))
        } else if ticket.qc.view > s.last_committed_view {
            qc_handled(env, s, ticket.qc, verdict)
        } else {
            (s, Seq::empty(), Ok(()))
        },
    }
}

/// The headers of a view whose processing began.
pub open spec fn processing_in(s: CoreModel, view: ViewNumber) -> Set<Digest> {
    if s.processing_headers.contains_key(view) {
        s.processing_headers[view]
    } else {
        Set::empty()
    }
}

/// Accepting a header for its view. It is valid as a special header if it has a
/// ticket and a higher round than what was decided.
pub open spec fn header_prepared(s: CoreModel, header: HeaderModel) -> (
    CoreModel,
    Seq<ActionModel>,
) {
    let valid: u8 = if header.ticket is Some && header.round > s.round {
        1
    } else {
        0
    };
    (
        CoreModel {
            view: header.view,
            last_prepared_view: greater(s.last_prepared_view, header.view),
            high_prepare: header,
            stored_headers: s.stored_headers.insert(header.id, header),
            ..s
        },
        seq![ActionModel::StoreHeader(header), ActionModel::Validate(header, valid)],
    )
}

/// Processing a special header, given the verdict on the quorum certificate of
/// its ticket. A header for a view in which we validated another, gave up or
/// committed is not valid; one that is not its leader's is refused.
pub open spec fn header_handled(
    env: Env,
    s: CoreModel,
    header: HeaderModel,
    verdict: ConsensusResult<()>,
) -> (CoreModel, Seq<ActionModel>, ConsensusResult<()>) {
    let begun = processing_in(s, header.view);
    if begun.contains(header.id) {
        (s, Seq::empty(), Ok(()))
    } else {
        let s1 = CoreModel {
            processing_headers: s.processing_headers.insert(header.view, begun.insert(header.id)),
            ..s
        };
        if s1.last_prepared_view >= header.view || s1.last_committed_view >= header.view {
            (s1, seq![ActionModel::Validate(header, 0)], Ok(()))
        } else if special_verdict(header, &env.committee) is Err {
            (s1, Seq::empty(), Err(ConsensusError::InvalidHeader))
        } else if header.author != leader(env, header.view) {
            (s1, Seq::empty(), Err(ConsensusError::WrongProposer))
        } else {
            let (s2, actions, answer) = match header.ticket {
                Some(ticket) => ticket_processed(env, s1, header.view, ticket, verdict),
                None => (s1, Seq::empty(), Ok(())),
            };
            if answer is Err {
                (s2, actions, answer)
            } else {
                let (s3, more) = header_prepared(s2, header);
                (s3, actions + more, Ok(()))
            }
        }
    }
}

/// The certificate that everyone's votes in the DAG make.
pub open spec fn fast_qc(certificate: CertificateModel) -> QcModel {
    QcModel {
        hash: certificate.header.id,
        view: certificate.header.view,
        view_round: certificate.header.round,
        votes: certificate.votes,
    }
}

/// Our vote for a header.
pub open spec fn own_vote(env: Env, header: HeaderModel) -> AcceptVote {
    AcceptVote {
        hash: header.id,
        view: header.view,
        view_round: header.round,
        author: env.name,
        signature: signed(env, accept_bytes(header.id, header.view, header.round)),
    }
}

/// Voting on a certificate: with everyone's votes in the DAG the view is decided
/// at once, else our vote goes to the leader of the next view.
pub open spec fn certificate_voted(
    env: Env,
    s: CoreModel,
    certificate: CertificateModel,
    fast_verdict: ConsensusResult<()>,
) -> (CoreModel, Seq<ActionModel>, ConsensusResult<()>) {
    let header = certificate.header;
    let s1 = CoreModel {
        last_voted_view: greater(s.last_voted_view, header.view),
        high_cert: certificate,
        stored_headers: s.stored_headers.insert(header.id, header),
        ..s
    };
    let stored = seq![ActionModel::StoreCertificate(certificate)];
    if weight(&env.committee, voters(certificate.votes)) >= env.committee.total() {
        let (s2, actions, _) = qc_handled(env, s1, fast_qc(certificate), fast_verdict);
        (s2, stored + actions, Ok(()))
    } else {
        let vote = own_vote(env, header);
        let to = leader(env, next_view(s1.view));
        if to == env.name {
            let (s2, actions, answer) = vote_handled(env, s1, vote);
            (s2, stored + actions, answer)
        } else {
            (s1, stored + seq![ActionModel::SendVote(to, vote)], Ok(()))
        }
    }
}

/// Processing the certificate of a special header, given the verdicts on the
/// quorum certificate of its ticket and on its own votes. We vote at most once
/// per view, and not in views that are behind us.
pub open spec fn certificate_handled(
    env: Env,
    s: CoreModel,
    certificate: CertificateModel,
    verdict: ConsensusResult<()>,
    fast_verdict: ConsensusResult<()>,
) -> (CoreModel, Seq<ActionModel>, ConsensusResult<()>) {
    let header = certificate.header;
    if header.view < s.view || header.view <= s.last_committed_view {
        (s, Seq::empty(), Err(ConsensusError::TooOld(header.id, header.view)))
    } else if header.view <= s.last_voted_view {
        (s, Seq::empty(), Err(ConsensusError::AlreadyVoted(header.id, header.view)))
    } else {
        let (s1, actions, answer) = if processing_in(s, header.view).contains(header.id) {
            (s, Seq::empty(), Ok(()))
        } else {
            header_handled(env, s, header, verdict)
        };
        if answer is Err {
            (s1, actions, answer)
        } else {
            let (s2, more, answer2) = certificate_voted(env, s1, certificate, fast_verdict);
            (s2, actions + more, answer2)
        }
    }
}

/// The certificate under which a header is committed.
pub open spec fn commit_certificate(header: HeaderModel) -> CertificateModel {
    CertificateModel { header, special_valids: Seq::empty(), votes: Seq::empty() }
}

/// The id of the header that a header builds on by the QC of its ticket, if that
/// is to be committed before it: views between the last committed one and its own
/// were passed over.
pub open spec fn ancestor_wanted(s: CoreModel, header: HeaderModel) -> Option<Digest> {
    if s.last_committed_view + 1 < header.view {
        match header.ticket {
            Some(ticket) => if is_genesis_qc(ticket.qc) {
                None
            } else {
                Some(ticket.qc.hash)
            },
            None => None,
        }
    } else {
        None
    }
}

/// The ancestors of views above `last`, oldest first. They are given from the
/// parent upwards.
pub open spec fn fresh_ancestors(ancestors: Seq<HeaderModel>, last: ViewNumber) -> Seq<HeaderModel>
    decreases ancestors.len(),
{
    if ancestors.len() == 0 {
        Seq::empty()
    } else if ancestors[0].view > last {
        fresh_ancestors(ancestors.drop_first(), last).push(ancestors[0])
    } else {
        fresh_ancestors(ancestors.drop_first(), last)
    }
}

/// The headers that are committed with a header, in order: its uncommitted
/// ancestors, oldest first, and then the header itself.
pub open spec fn chain_committed(
    header: HeaderModel,
    ancestors: Seq<HeaderModel>,
    last: ViewNumber,
) -> Seq<HeaderModel> {
    fresh_ancestors(ancestors, last).push(header)
}

/// The certificates under which headers are committed.
pub open spec fn commit_certificates(headers: Seq<HeaderModel>) -> Seq<CertificateModel> {
    Seq::new(headers.len(), |i: int| commit_certificate(headers[i]))
}

/// One commit for each certificate.
pub open spec fn commits(certificates: Seq<CertificateModel>) -> Seq<ActionModel> {
    Seq::new(certificates.len(), |i: int| ActionModel::Commit(certificates[i]))
}

/// Committing a header after its ancestors, given whether the ticket that it
/// builds on is stored. A header of a view that is not above the last committed
/// one is passed over, and one whose view timed out is not committed; its ticket
/// is stored.
pub open spec fn committed(
    s: CoreModel,
    header: HeaderModel,
    ancestors: Seq<HeaderModel>,
    ticket: TicketModel,
    parent_known: bool,
) -> (CoreModel, Seq<ActionModel>) {
    if s.last_committed_view >= header.view {
        (s, Seq::empty())
    } else if !parent_known {
        (s, seq![ActionModel::AwaitTicket(header, ticket)])
    } else if ticket.tc is Some {
        (s, seq![ActionModel::StoreTicket(ticket)])
    } else {
        let certificates = commit_certificates(
            chain_committed(header, ancestors, s.last_committed_view),
        );
        (
            CoreModel {
                last_committed_view: header.view,
                processing_headers: s.processing_headers.remove_keys(
                    Set::new(|view: ViewNumber| view < header.view),
                ),
                ..s
            },
            commits(certificates) + seq![
                ActionModel::Cleanup(certificates),
                ActionModel::StoreTicket(ticket),
            ],
        )
    }
}

/// Committing the header with the given id, if it is stored; else it is fetched.
pub open spec fn commit_looked_up(
    s: CoreModel,
    hash: Digest,
    ticket: TicketModel,
    stored: Option<HeaderModel>,
    ancestors: Seq<HeaderModel>,
    parent_known: bool,
) -> (CoreModel, Seq<ActionModel>) {
    match stored {
        Some(header) => committed(s, header, ancestors, ticket, parent_known),
        None => (s, seq![ActionModel::FetchHeader(hash, ticket)]),
    }
}

/// What to do upon booting: the leader of the first view proposes with the
/// genesis ticket.
pub open spec fn booted(env: Env, s: CoreModel) -> Seq<ActionModel> {
    seq![ActionModel::ResetTimer] + (if env.name == leader(env, s.view) {
        proposal(s, genesis_ticket())
    } else {
        Seq::empty()
    })
}

} // verus!
