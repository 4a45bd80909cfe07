//! The core of consensus: validates the proposals of views, votes on them and
//! moves on when a view is decided or timed out.
//!
//! Each handler changes the state and adds to a list of actions what is to be
//! done outside: storing, sending, proposing. Actions are to be done in order;
//! what they lead to comes back as another event.

use crate::collections::SortedMap;
use crate::config::{key_order, Committee, LeaderElector};
use crate::consensus::aggregator::Aggregator;
use crate::consensus::messages::{
    qc_verdict, AcceptVote, Certificate, ConsensusMessage, Header, HeaderModel, QcModel, Round,
    TcModel, Ticket, TicketModel, Timeout, QC, TC,
};
use crate::consensus::state::{
    action_models, advanced, ancestor_wanted, booted, certificate_handled, certificate_models,
    certificate_voted, commit_certificate, commit_certificates, commit_looked_up, commits,
    committed, fresh_ancestors, fast_qc, greater, header_handled, header_prepared, high_qc_updated,
    initial_state, leader, own_timeout, own_vote, processing_in, proposal, qc_adopted, qc_handled,
    qc_ticket, tc_handled, tc_processed, tc_ticket, ticket_for, ticket_processed, ticket_used,
    timed_out, timeout_handled, vote_handled, Action, ActionModel, CoreModel, Env,
};
use crate::crypto::{Digest, PublicKey, Signer};
use crate::primary::error::{ConsensusError, ConsensusResult, ViewNumber};
use vstd::prelude::*;

verus! {

/// Headers as values.
pub open spec fn header_models(headers: Map<Digest, Header>) -> Map<Digest, HeaderModel> {
    headers.map_values(|header: Header| header.model())
}

/// Sets of digests as values.
pub open spec fn digest_sets(sets: Map<ViewNumber, SortedMap<Digest, ()>>) -> Map<
    ViewNumber,
    Set<Digest>,
> {
    sets.map_values(|digests: SortedMap<Digest, ()>| digests@.dom())
}

/// An optional quorum certificate as a value.
pub open spec fn qc_option(qc: Option<&QC>) -> Option<QcModel> {
    match qc {
        Some(qc) => Some(qc.model()),
        None => None,
    }
}

/// An optional timeout certificate as a value.
pub open spec fn tc_option(tc: Option<&TC>) -> Option<TcModel> {
    match tc {
        Some(tc) => Some(tc.model()),
        None => None,
    }
}

/// An optional header as a value.
pub open spec fn header_option(header: Option<Header>) -> Option<HeaderModel> {
    match header {
        Some(header) => Some(header.model()),
        None => None,
    }
}

/// A ticket or the lack of one as a value.
pub open spec fn ticket_result(result: ConsensusResult<Ticket>) -> ConsensusResult<TicketModel> {
    match result {
        Ok(ticket) => Ok(ticket.model()),
        Err(e) => Err(e),
    }
}

/// The quorum certificate of a header's ticket, the genesis certificate if it has
/// none.
pub open spec fn ticket_qc(header: HeaderModel) -> QcModel {
    match header.ticket {
        Some(ticket) => ticket.qc,
        None => crate::consensus::messages::genesis_qc(),
    }
}

/// Adds an action.
fn emit(actions: &mut Vec<Action>, action: Action)
    ensures
        action_models(final(actions)@) == action_models(old(actions)@).push(action.model()),
{
    let ghost before = actions@;
    actions.push(action);
    assert(action_models(actions@) =~= action_models(before).push(actions@.last().model()));
}

/// The headers as values.
pub open spec fn chain_models(headers: Seq<Header>) -> Seq<HeaderModel> {
    Seq::new(headers.len(), |i: int| headers[i].model())
}

/// Commits one header.
fn commit_one(header: Header, certificates: &mut Vec<Certificate>, actions: &mut Vec<Action>)
    ensures
        certificate_models(final(certificates)@) == certificate_models(old(certificates)@).push(
            commit_certificate(header.model()),
        ),
        action_models(final(actions)@) == action_models(old(actions)@).push(
            ActionModel::Commit(commit_certificate(header.model())),
        ),
{
    let ghost before = certificates@;
    let ghost model = header.model();
    let certificate = Certificate { header, special_valids: Vec::new(), votes: Vec::new() };
    assert(certificate.model() =~= commit_certificate(model));
    emit(actions, Action::Commit(certificate.duplicate()));
    certificates.push(certificate);
    assert(certificate_models(certificates@) =~= certificate_models(before).push(
        commit_certificate(model),
    ));
}

fn max(a: u64, b: u64) -> (m: u64)
    ensures
        m == greater(a, b),
{
    if a >= b {
        a
    } else {
        b
    }
}

/// The state of the core.
pub struct Core {
    name: PublicKey,
    committee: Committee,
    signer: Signer,
    leader_elector: LeaderElector,
    view: ViewNumber,
    last_prepared_view: ViewNumber,
    last_voted_view: ViewNumber,
    last_committed_view: ViewNumber,
    stored_headers: SortedMap<Digest, Header>,
    high_prepare: Header,
    /// This is a certificate of the DAG.
    high_cert: Certificate,
    /// This is a certificate of consensus.
    high_qc: QC,
    aggregator: Aggregator,
    round: Round,
    processing_headers: SortedMap<ViewNumber, SortedMap<Digest, ()>>,
}

impl Core {
    /// What the core is set up with.
    pub closed spec fn env(&self) -> Env {
        Env {
            name: self.name,
            committee: self.committee,
            order: self.leader_elector.order(),
            disabled: self.signer.disabled(),
            keypair: self.signer.keypair(),
        }
    }

    /// What the core remembers.
    pub closed spec fn model(&self) -> CoreModel {
        CoreModel {
            view: self.view,
            last_prepared_view: self.last_prepared_view,
            last_voted_view: self.last_voted_view,
            last_committed_view: self.last_committed_view,
            round: self.round,
            stored_headers: header_models(self.stored_headers@),
            high_prepare: self.high_prepare.model(),
            high_cert: self.high_cert.model(),
            high_qc: self.high_qc.model(),
            aggregator: self.aggregator.model(),
            processing_headers: digest_sets(self.processing_headers@),
        }
    }

    /// What holds of every core.
    pub closed spec fn wf(&self) -> bool {
        self.aggregator.wf(&self.committee)
    }

    /// A core for a replica of `committee`; `None` if the committee is empty.
    pub fn new(name: PublicKey, committee: Committee, signer: Signer) -> (core: Option<Core>)
        ensures
            core is Some <==> committee.pairs().len() > 0,
            core matches Some(core) ==> {
                &&& core.wf()
                &&& core.model() == initial_state()
                &&& core.env() == (Env {
                    name,
                    committee,
                    order: key_order(committee.pairs()),
                    disabled: signer.disabled(),
                    keypair: signer.keypair(),
                })
            },
    {
        let leader_elector = match LeaderElector::new(&committee) {
            Some(leader_elector) => leader_elector,
            None => return None,
        };
        let _ = committee.quorum_threshold();
        let core = Core {
            name,
            committee,
            signer,
            leader_elector,
            view: 1,
            last_prepared_view: 0,
            last_voted_view: 0,
            last_committed_view: 0,
            stored_headers: SortedMap::new(),
            high_prepare: Header::genesis(),
            high_cert: Certificate::genesis_cert(),
            high_qc: QC::genesis(),
            aggregator: Aggregator::new(),
            round: 0,
            processing_headers: SortedMap::new(),
        };
        assert(core.model() =~= initial_state());
        Some(core)
    }

    /// The committee.
    pub fn committee(&self) -> (committee: &Committee)
        ensures
            *committee == self.env().committee,
    {
        &self.committee
    }

    /// The current view.
    pub fn view(&self) -> (view: ViewNumber)
        ensures
            view == self.model().view,
    {
        self.view
    }

    /// The last committed view.
    pub fn last_committed_view(&self) -> (view: ViewNumber)
        ensures
            view == self.model().last_committed_view,
    {
        self.last_committed_view
    }

    fn increase_last_prepared_view(&mut self, target: ViewNumber)
        ensures
            *final(self) == (Core {
                last_prepared_view: greater(old(self).last_prepared_view, target),
                ..*old(self)
            }),
    {
        self.last_prepared_view = max(self.last_prepared_view, target);
    }

    fn increase_last_voted_view(&mut self, target: ViewNumber)
        ensures
            *final(self) == (Core {
                last_voted_view: greater(old(self).last_voted_view, target),
                ..*old(self)
            }),
    {
        self.last_voted_view = max(self.last_voted_view, target);
    }

    /// Moves on from `view`, unless it is behind us.
    fn advance_view(&mut self, view: ViewNumber, actions: &mut Vec<Action>)
        requires
            old(self).wf(),
        ensures
            final(self).wf(),
            final(self).env() == old(self).env(),
            ({
                let (s, more) = advanced(old(self).model(), view);
                &&& final(self).model() == s
                &&& action_models(final(actions)@) == action_models(old(actions)@) + more
            }),
    {
        if view < self.view {
            assert(action_models(actions@) =~= action_models(old(actions)@)
                + Seq::<ActionModel>::empty());
            return;
        }
        // Reset the timer and advance view.
        emit(actions, Action::ResetTimer);
        self.view = view.wrapping_add(1);
        // Cleanup the vote aggregator.
        self.aggregator.cleanup(self.view);
        assert(action_models(actions@) =~= action_models(old(actions)@)
            + seq![ActionModel::ResetTimer]);
    }

    fn update_high_qc(&mut self, qc: &QC)
        requires
            old(self).wf(),
        ensures
            final(self).wf(),
            final(self).env() == old(self).env(),
            final(self).model() == high_qc_updated(old(self).model(), qc.model()),
    {
        if qc.view > self.high_qc.view {
            self.high_qc = qc.duplicate();
        }
    }

    /// Adopts a certificate.
    fn process_qc(&mut self, qc: &QC, actions: &mut Vec<Action>)
        requires
            old(self).wf(),
        ensures
            final(self).wf(),
            final(self).env() == old(self).env(),
            ({
                let (s, more) = qc_adopted(old(self).model(), qc.model());
                &&& final(self).model() == s
                &&& action_models(final(actions)@) == action_models(old(actions)@) + more
            }),
    {
        self.advance_view(qc.view, actions);
        self.update_high_qc(qc);
        self.round = max(self.round, qc.view_round);
    }

    /// Makes a ticket from the given certificates and asks for the header to be
    /// committed.
    fn generate_ticket_and_commit(
        &self,
        header_digest: Digest,
        qc: Option<&QC>,
        tc: Option<&TC>,
        actions: &mut Vec<Action>,
    ) -> (result: ConsensusResult<Ticket>)
        ensures
            ({
                let answer = ticket_for(self.model(), header_digest, qc_option(qc), tc_option(tc));
                &&& ticket_result(result) == answer
                &&& action_models(final(actions)@) == action_models(old(actions)@) + (match answer {
                    Ok(ticket) => seq![ActionModel::ProcessCommit(header_digest, ticket)],
                    Err(_) => Seq::empty(),
                })
            }),
    {
        // Use the certificate's own view, not the latest one.
        let new_ticket = match tc {
            Some(tc) => Ticket::new(
                header_digest,
                tc.view,
                tc.view_round,
                self.high_qc.duplicate(),
                Some(tc.duplicate()),
            ),
            None => match qc {
                Some(qc) => Ticket::new(
                    header_digest,
                    qc.view,
                    qc.view_round,
                    qc.duplicate(),
                    None,
                ),
                None => {
                    assert(action_models(actions@) =~= action_models(old(actions)@)
                        + Seq::<ActionModel>::empty());
                    return Err(ConsensusError::InvalidTicket);
                },
            },
        };
        emit(actions, Action::ProcessCommit(header_digest, new_ticket.duplicate()));
        assert(action_models(actions@) =~= action_models(old(actions)@)
            + seq![ActionModel::ProcessCommit(header_digest, new_ticket.model())]);
        Ok(new_ticket)
    }

    /// Hands the ticket to our proposer, unless it is for an old view.
    fn generate_proposal(&self, ticket: Ticket, actions: &mut Vec<Action>)
        ensures
            action_models(final(actions)@) == action_models(old(actions)@) + proposal(
                self.model(),
                ticket.model(),
            ),
    {
        let ghost model = ticket.model();
        if self.view > 0 && ticket.view == self.view - 1 {
            emit(actions, Action::Propose(ticket));
        }
        assert(action_models(actions@) =~= action_models(old(actions)@) + proposal(
            self.model(),
            model,
        ));
    }

    /// Hands the ticket to our proposer if we lead the current view.
    fn propose_if_leader(&self, ticket: Ticket, actions: &mut Vec<Action>)
        ensures
            action_models(final(actions)@) == action_models(old(actions)@) + (if self.env().name
                == leader(self.env(), self.model().view) {
                proposal(self.model(), ticket.model())
            } else {
                Seq::empty()
            }),
    {
        if self.name == self.leader_elector.get_view_leader(self.view) {
            self.generate_proposal(ticket, actions);
        } else {
            assert(action_models(actions@) =~= action_models(old(actions)@)
                + Seq::<ActionModel>::empty());
        }
    }

    /// Makes use of a quorum certificate that was adopted.
    fn use_qc(&self, qc: &QC, actions: &mut Vec<Action>)
        ensures
            action_models(final(actions)@) == action_models(old(actions)@) + ticket_used(
                self.env(),
                self.model(),
                qc_ticket(qc.model()),
            ),
    {
        let ghost before = action_models(actions@);
        let ghost expected = ticket_used(self.env(), self.model(), qc_ticket(qc.model()));
        if let Ok(ticket) = self.generate_ticket_and_commit(qc.hash, Some(qc), None, actions) {
            assert(ticket.model() =~= qc_ticket(qc.model()));
            self.propose_if_leader(ticket, actions);
            assert(action_models(actions@) =~= before + expected);
        }
    }

    /// Processes a quorum certificate, given the verdict on it.
    pub fn handle_qc_with(
        &mut self,
        qc: &QC,
        verdict: ConsensusResult<()>,
        actions: &mut Vec<Action>,
    ) -> (result: ConsensusResult<()>)
        requires
            old(self).wf(),
        ensures
            final(self).wf(),
            final(self).env() == old(self).env(),
            ({
                let (s, more, answer) = qc_handled(
                    old(self).env(),
                    old(self).model(),
                    qc.model(),
                    verdict,
                );
                &&& final(self).model() == s
                &&& action_models(final(actions)@) == action_models(old(actions)@) + more
                &&& result == answer
            }),
    {
        let ghost before = action_models(actions@);
        // Accept the genesis certificate: the first ticket holds it.
        if qc.is_genesis() {
            assert(action_models(actions@) =~= before + Seq::<ActionModel>::empty());
            return Ok(());
        }
        if verdict.is_err() {
            assert(action_models(actions@) =~= before + Seq::<ActionModel>::empty());
            return Err(ConsensusError::InvalidQC(qc.hash, qc.view));
        }
        self.process_qc(qc, actions);
        self.use_qc(qc, actions);
        proof {
            let (s1, adopted) = qc_adopted(old(self).model(), qc.model());
            assert(action_models(actions@) =~= before + (adopted + ticket_used(
                old(self).env(),
                s1,
                qc_ticket(qc.model()),
            )));
        }
        Ok(())
    }

    /// Processes a quorum certificate.
    pub fn handle_qc(&mut self, qc: &QC, actions: &mut Vec<Action>) -> (result: ConsensusResult<()>)
        requires
            old(self).wf(),
        ensures
            final(self).wf(),
            final(self).env() == old(self).env(),
            exists|verdict: ConsensusResult<()>| #[trigger]
                qc_verdict(qc.model(), &old(self).env().committee, verdict) && ({
                    let (s, more, answer) = qc_handled(
                        old(self).env(),
                        old(self).model(),
                        qc.model(),
                        verdict,
                    );
                    &&& final(self).model() == s
                    &&& action_models(final(actions)@) == action_models(old(actions)@) + more
                    &&& result == answer
                }),
    {
        let verdict = qc.verify(&self.committee);
        assert(qc_verdict(qc.model(), &old(self).env().committee, verdict));
        self.handle_qc_with(qc, verdict, actions)
    }

    /// Processes the votes of the DAG as a quorum certificate, given the verdict
    /// on them.
    fn generate_and_handle_fast_qc(
        &mut self,
        certificate: &Certificate,
        verdict: ConsensusResult<()>,
        actions: &mut Vec<Action>,
    ) -> (result: ConsensusResult<()>)
        requires
            old(self).wf(),
        ensures
            final(self).wf(),
            final(self).env() == old(self).env(),
            ({
                let (s, more, answer) = qc_handled(
                    old(self).env(),
                    old(self).model(),
                    fast_qc(certificate.model()),
                    verdict,
                );
                &&& final(self).model() == s
                &&& action_models(final(actions)@) == action_models(old(actions)@) + more
                &&& result == answer
            }),
    {
        let qc = fast_certificate(certificate);
        self.handle_qc_with(&qc, verdict, actions)
    }

    /// Processes a vote for a certified header.
    pub fn handle_accept_vote(&mut self, vote: &AcceptVote, actions: &mut Vec<Action>) -> (result:
        ConsensusResult<()>)
        requires
            old(self).wf(),
        ensures
            final(self).wf(),
            final(self).env() == old(self).env(),
            ({
                let (s, more, answer) = vote_handled(old(self).env(), old(self).model(), *vote);
                &&& final(self).model() == s
                &&& action_models(final(actions)@) == action_models(old(actions)@) + more
                &&& result == answer
            }),
    {
        let ghost before = action_models(actions@);
        if vote.view < self.view {
            assert(action_models(actions@) =~= before + Seq::<ActionModel>::empty());
            return Ok(());
        }
        // Ensure the vote is well formed.
        if let Err(e) = vote.verify(&self.committee) {
            assert(action_models(actions@) =~= before + Seq::<ActionModel>::empty());
            return Err(e);
        }
        // Add the new vote to our aggregator and see if we have a quorum.
        match self.aggregator.add_accept_vote(vote, &self.committee) {
            Err(e) => {
                assert(action_models(actions@) =~= before + Seq::<ActionModel>::empty());
                Err(e)
            },
            Ok(None) => {
                assert(action_models(actions@) =~= before + Seq::<ActionModel>::empty());
                Ok(())
            },
            Ok(Some(qc)) => {
                let ghost s1 = self.model();
                self.process_qc(&qc, actions);
                // The others learn of the QC at once, not with the next proposal.
                emit(actions, Action::BroadcastQc(qc.duplicate()));
                self.use_qc(&qc, actions);
                proof {
                    let (s2, adopted) = qc_adopted(s1, qc.model());
                    assert(action_models(actions@) =~= before + (adopted + seq![
                        ActionModel::BroadcastQc(qc.model()),
                    ] + ticket_used(old(self).env(), s2, qc_ticket(qc.model()))));
                }
                Ok(())
            },
        }
    }

    /// Processes a timeout certificate that is known to be valid.
    fn process_tc(&mut self, tc: &TC, actions: &mut Vec<Action>)
        requires
            old(self).wf(),
        ensures
            final(self).wf(),
            final(self).env() == old(self).env(),
            ({
                let (s, more) = tc_processed(old(self).env(), old(self).model(), tc.model());
                &&& final(self).model() == s
                &&& action_models(final(actions)@) == action_models(old(actions)@) + more
            }),
    {
        let ghost before = action_models(actions@);
        self.advance_view(tc.view, actions);
        if let Ok(ticket) = self.generate_ticket_and_commit(tc.hash, None, Some(tc), actions) {
            assert(ticket.model() =~= tc_ticket(self.model(), tc.model()));
            // Make a new special header if we are the next leader.
            self.propose_if_leader(ticket, actions);
            proof {
                let (s1, more) = advanced(old(self).model(), tc.view);
                assert(action_models(actions@) =~= before + (more + ticket_used(
                    old(self).env(),
                    s1,
                    tc_ticket(s1, tc.model()),
                )));
            }
        }
    }

    /// Processes a timeout certificate.
    pub fn handle_tc(&mut self, tc: &TC, actions: &mut Vec<Action>) -> (result: ConsensusResult<()>)
        requires
            old(self).wf(),
        ensures
            final(self).wf(),
            final(self).env() == old(self).env(),
            ({
                let (s, more, answer) = tc_handled(old(self).env(), old(self).model(), tc.model());
                &&& final(self).model() == s
                &&& action_models(final(actions)@) == action_models(old(actions)@) + more
                &&& result == answer
            }),
    {
        if tc.verify(&self.committee).is_err() {
            assert(action_models(actions@) =~= action_models(old(actions)@)
                + Seq::<ActionModel>::empty());
            return Err(ConsensusError::InvalidTC(tc.hash, tc.view));
        }
        self.process_tc(tc, actions);
        Ok(())
    }

    /// Processes a timeout, given the verdict on its certificate.
    pub fn handle_timeout_with(
        &mut self,
        timeout: &Timeout,
        verdict: ConsensusResult<()>,
        actions: &mut Vec<Action>,
    ) -> (result: ConsensusResult<()>)
        requires
            old(self).wf(),
        ensures
            final(self).wf(),
            final(self).env() == old(self).env(),
            ({
                let (s, more, answer) = timeout_handled(
                    old(self).env(),
                    old(self).model(),
                    timeout.model(),
                    verdict,
                );
                &&& final(self).model() == s
                &&& action_models(final(actions)@) == action_models(old(actions)@) + more
                &&& result == answer
            }),
    {
        let ghost before = action_models(actions@);
        if timeout.view < self.view {
            assert(action_models(actions@) =~= before + Seq::<ActionModel>::empty());
            return Ok(());
        }
        // Ensure the timeout is well formed.
        if let Err(e) = timeout.judge(&self.committee, verdict) {
            assert(action_models(actions@) =~= before + Seq::<ActionModel>::empty());
            return Err(e);
        }
        // Process the QC embedded in the timeout.
        self.process_qc(&timeout.high_qc, actions);
        // Add the new vote to our aggregator and see if we have a quorum.
        match self.aggregator.add_timeout(timeout, &self.committee) {
            Err(e) => Err(e),
            Ok(None) => Ok(()),
            Ok(Some(tc)) => {
                let ghost s2 = self.model();
                self.process_tc(&tc, actions);
                // The others learn of the TC at once, not with the next proposal.
                let ghost model = tc.model();
                emit(actions, Action::BroadcastTc(tc));
                proof {
                    let (s1, adopted) = qc_adopted(old(self).model(), timeout.high_qc.model());
                    let (s3, more) = tc_processed(old(self).env(), s2, model);
                    assert(action_models(actions@) =~= before + (adopted + more + seq![
                        ActionModel::BroadcastTc(model),
                    ]));
                }
                Ok(())
            },
        }
    }

    /// Processes a timeout.
    pub fn handle_timeout(&mut self, timeout: &Timeout, actions: &mut Vec<Action>) -> (result:
        ConsensusResult<()>)
        requires
            old(self).wf(),
        ensures
            final(self).wf(),
            final(self).env() == old(self).env(),
            exists|verdict: ConsensusResult<()>| #[trigger]
                qc_verdict(timeout.high_qc.model(), &old(self).env().committee, verdict) && ({
                    let (s, more, answer) = timeout_handled(
                        old(self).env(),
                        old(self).model(),
                        timeout.model(),
                        verdict,
                    );
                    &&& final(self).model() == s
                    &&& action_models(final(actions)@) == action_models(old(actions)@) + more
                    &&& result == answer
                }),
    {
        let verdict = timeout.high_qc.verify(&self.committee);
        self.handle_timeout_with(timeout, verdict, actions)
    }

    /// Gives up on the current view, given the verdict on our highest certificate.
    pub fn local_timeout_view_with(
        &mut self,
        verdict: ConsensusResult<()>,
        actions: &mut Vec<Action>,
    ) -> (result: ConsensusResult<()>)
        requires
            old(self).wf(),
        ensures
            final(self).wf(),
            final(self).env() == old(self).env(),
            ({
                let (s, more, answer) = timed_out(old(self).env(), old(self).model(), verdict);
                &&& final(self).model() == s
                &&& action_models(final(actions)@) == action_models(old(actions)@) + more
                &&& result == answer
            }),
    {
        let ghost before = action_models(actions@);
        // Increase the last prepared and voted view.
        self.increase_last_prepared_view(self.view);
        self.increase_last_voted_view(self.view);
        let ghost s1 = self.model();
        // Make a timeout message.
        let timeout = Timeout::new(self.high_qc.duplicate(), self.view, self.name, &self.signer);
        assert(timeout.model() =~= own_timeout(old(self).env(), old(self).model()));
        // Reset the timer.
        emit(actions, Action::ResetTimer);
        // Broadcast the timeout message.
        emit(actions, Action::BroadcastTimeout(timeout.duplicate()));
        // Process our message.
        let result = self.handle_timeout_with(&timeout, verdict, actions);
        proof {
            let (s2, more, answer) = timeout_handled(
                old(self).env(),
                s1,
                timeout.model(),
                verdict,
            );
            assert(action_models(actions@) =~= before + (seq![
                ActionModel::ResetTimer,
                ActionModel::BroadcastTimeout(timeout.model()),
            ] + more));
        }
        result
    }

    /// Gives up on the current view.
    pub fn local_timeout_view(&mut self, actions: &mut Vec<Action>) -> (result: ConsensusResult<()>)
        requires
            old(self).wf(),
        ensures
            final(self).wf(),
            final(self).env() == old(self).env(),
            exists|verdict: ConsensusResult<()>| #[trigger]
                qc_verdict(old(self).model().high_qc, &old(self).env().committee, verdict) && ({
                    let (s, more, answer) = timed_out(old(self).env(), old(self).model(), verdict);
                    &&& final(self).model() == s
                    &&& action_models(final(actions)@) == action_models(old(actions)@) + more
                    &&& result == answer
                }),
    {
        let verdict = self.high_qc.verify(&self.committee);
        self.local_timeout_view_with(verdict, actions)
    }

    /// Processes the ticket of a header of `view`, given the verdict on its
    /// quorum certificate.
    fn process_ticket(
        &mut self,
        view: ViewNumber,
        ticket: &Ticket,
        verdict: ConsensusResult<()>,
        actions: &mut Vec<Action>,
    ) -> (result: ConsensusResult<()>)
        requires
            old(self).wf(),
        ensures
            final(self).wf(),
            final(self).env() == old(self).env(),
            ({
                let (s, more, answer) = ticket_processed(
                    old(self).env(),
                    old(self).model(),
                    view,
                    ticket.model(),
                    verdict,
                );
                &&& final(self).model() == s
                &&& action_models(final(actions)@) == action_models(old(actions)@) + more
                &&& result == answer
            }),
    {
        assert(action_models(actions@) =~= action_models(old(actions)@)
            + Seq::<ActionModel>::empty());
        match &ticket.tc {
            Some(tc) => {
                // Check if tc for prev view.
                if view != tc.view.wrapping_add(1) {
                    return Err(ConsensusError::InvalidTicket);
                }
                // Check if we need to process tc.
                if tc.view > self.last_committed_view {
                    return self.handle_tc(tc, actions);
                }
            },
            None => {
                if view != ticket.qc.view.wrapping_add(1) {
                    return Err(ConsensusError::InvalidTicket);
                }
                if ticket.qc.view > self.last_committed_view {
                    return self.handle_qc_with(&ticket.qc, verdict, actions);
                }
            },
        }
        Ok(())
    }

    /// Notes that the processing of a header begins; answers whether it had begun
    /// before.
    fn begin(&mut self, view: ViewNumber, id: Digest) -> (begun: bool)
        requires
            old(self).wf(),
        ensures
            final(self).wf(),
            final(self).env() == old(self).env(),
            begun == processing_in(old(self).model(), view).contains(id),
            final(self).model() == (CoreModel {
                processing_headers: old(self).model().processing_headers.insert(
                    view,
                    processing_in(old(self).model(), view).insert(id),
                ),
                ..old(self).model()
            }),
    {
        let ghost before = self.processing_headers@;
        let mut ids = match self.processing_headers.remove(&view) {
            Some(ids) => ids,
            None => SortedMap::new(),
        };
        assert(ids@.dom() =~= processing_in(old(self).model(), view));
        let begun = ids.contains_key(&id);
        ids.insert(id, ());
        let ghost after = ids@.dom();
        assert(after =~= processing_in(old(self).model(), view).insert(id));
        self.processing_headers.insert(view, ids);
        assert(digest_sets(self.processing_headers@) =~= digest_sets(before).insert(view, after));
        begun
    }

    /// Processes a special header, given the verdict on the quorum certificate of
    /// its ticket.
    pub fn process_special_header_with(
        &mut self,
        header: Header,
        verdict: ConsensusResult<()>,
        actions: &mut Vec<Action>,
    ) -> (result: ConsensusResult<()>)
        requires
            old(self).wf(),
        ensures
            final(self).wf(),
            final(self).env() == old(self).env(),
            ({
                let (s, more, answer) = header_handled(
                    old(self).env(),
                    old(self).model(),
                    header.model(),
                    verdict,
                );
                &&& final(self).model() == s
                &&& action_models(final(actions)@) == action_models(old(actions)@) + more
                &&& result == answer
            }),
    {
        let ghost before = action_models(actions@);
        let ghost model = header.model();
        assert(before =~= before + Seq::<ActionModel>::empty());
        // Indicate that we are processing this header.
        if self.begin(header.view, header.id) {
            proof {
                let s = old(self).model();
                assert(processing_in(s, model.view).insert(model.id) =~= processing_in(
                    s,
                    model.view,
                ));
                assert(s.processing_headers.insert(model.view, processing_in(s, model.view))
                    =~= s.processing_headers);
                assert(self.model() =~= s);
            }
            return Ok(());
        }
        // Check whether the header is current. If not, reply invalid.
        if self.last_prepared_view >= header.view || self.last_committed_view >= header.view {
            emit(actions, Action::Validate(header, 0));
            assert(action_models(actions@) =~= before + seq![ActionModel::Validate(model, 0)]);
            return Ok(());
        }
        // Check the header's correctness. If it fails, there is no need to reply.
        if header.verify(&self.committee).is_err() {
            return Err(ConsensusError::InvalidHeader);
        }
        if header.author != self.leader_elector.get_view_leader(header.view) {
            return Err(ConsensusError::WrongProposer);
        }
        // Check the ticket. If we have not processed its certificate yet, do so.
        if let Some(ticket) = &header.ticket {
            if let Err(e) = self.process_ticket(header.view, ticket, verdict, actions) {
                return Err(e);
            }
        }
        // Only take a special header for valid if the round number is increasing.
        let special_valid: u8 = if header.ticket.is_some() && header.round > self.round {
            1
        } else {
            0
        };
        let ghost s2 = self.model();
        let ghost mid = action_models(actions@);
        // Process the correct special header.
        self.view = header.view;
        self.increase_last_prepared_view(header.view);
        self.high_prepare = header.duplicate();
        emit(actions, Action::StoreHeader(header.duplicate()));
        let ghost stored = self.stored_headers@;
        self.stored_headers.insert(header.id, header.duplicate());
        assert(header_models(self.stored_headers@) =~= header_models(stored).insert(
            model.id,
            model,
        ));
        // Loop back to the DAG, saying whether the special header is valid.
        emit(actions, Action::Validate(header, special_valid));
        proof {
            let (s3, more) = header_prepared(s2, model);
            assert(self.model() =~= s3);
            assert(action_models(actions@) =~= mid + more);
            let (s, all, answer) = header_handled(
                old(self).env(),
                old(self).model(),
                model,
                verdict,
            );
            assert(action_models(actions@) =~= before + all);
        }
        Ok(())
    }

    /// Processes a special header.
    pub fn process_special_header(&mut self, header: Header, actions: &mut Vec<Action>) -> (result:
        ConsensusResult<()>)
        requires
            old(self).wf(),
        ensures
            final(self).wf(),
            final(self).env() == old(self).env(),
            exists|verdict: ConsensusResult<()>| #[trigger]
                qc_verdict(ticket_qc(header.model()), &old(self).env().committee, verdict) && ({
                    let (s, more, answer) = header_handled(
                        old(self).env(),
                        old(self).model(),
                        header.model(),
                        verdict,
                    );
                    &&& final(self).model() == s
                    &&& action_models(final(actions)@) == action_models(old(actions)@) + more
                    &&& result == answer
                }),
    {
        let verdict = self.check_ticket(&header);
        self.process_special_header_with(header, verdict, actions)
    }

    /// The verdict on the quorum certificate of a header's ticket.
    fn check_ticket(&self, header: &Header) -> (verdict: ConsensusResult<()>)
        ensures
            qc_verdict(ticket_qc(header.model()), &self.env().committee, verdict),
    {
        match &header.ticket {
            Some(ticket) => ticket.qc.verify(&self.committee),
            None => Ok(()),
        }
    }

    /// Votes on a certificate, given the verdict on its votes.
    fn vote_on(
        &mut self,
        certificate: Certificate,
        fast_verdict: ConsensusResult<()>,
        actions: &mut Vec<Action>,
    ) -> (result: ConsensusResult<()>)
        requires
            old(self).wf(),
        ensures
            final(self).wf(),
            final(self).env() == old(self).env(),
            ({
                let (s, more, answer) = certificate_voted(
                    old(self).env(),
                    old(self).model(),
                    certificate.model(),
                    fast_verdict,
                );
                &&& final(self).model() == s
                &&& action_models(final(actions)@) == action_models(old(actions)@) + more
                &&& result == answer
            }),
    {
        let ghost before = action_models(actions@);
        let ghost model = certificate.model();
        self.increase_last_voted_view(certificate.header.view);
        self.high_cert = certificate.duplicate();
        let ghost headers = self.stored_headers@;
        self.stored_headers.insert(certificate.header.id, certificate.header.duplicate());
        assert(header_models(self.stored_headers@) =~= header_models(headers).insert(
            model.header.id,
            model.header,
        ));
        emit(actions, Action::StoreCertificate(certificate.duplicate()));
        let ghost stored = seq![ActionModel::StoreCertificate(model)];
        let ghost s1 = self.model();
        assert(action_models(actions@) =~= before + stored);
        // Fast path.
        if certificate.is_special_fast(&self.committee) {
            let _ = self.generate_and_handle_fast_qc(&certificate, fast_verdict, actions);
            proof {
                let (s2, more, answer) = qc_handled(
                    old(self).env(),
                    s1,
                    fast_qc(model),
                    fast_verdict,
                );
                assert(action_models(actions@) =~= before + (stored + more));
            }
            return Ok(());
        }
        // Slow path: send out an accept vote.
        let vote = AcceptVote::new(&certificate.header, self.name, &self.signer);
        assert(vote == own_vote(self.env(), model.header));
        let next_leader = self.leader_elector.get_view_leader(self.view.wrapping_add(1));
        if next_leader == self.name {
            let result = self.handle_accept_vote(&vote, actions);
            proof {
                let (s2, more, answer) = vote_handled(old(self).env(), s1, vote);
                assert(action_models(actions@) =~= before + (stored + more));
            }
            result
        } else {
            emit(actions, Action::SendVote(next_leader, vote));
            assert(action_models(actions@) =~= before + (stored + seq![
                ActionModel::SendVote(next_leader, vote),
            ]));
            Ok(())
        }
    }

    /// Processes the certificate of a special header, given the verdicts on the
    /// quorum certificate of its ticket and on its own votes.
    pub fn process_special_certificate_with(
        &mut self,
        certificate: Certificate,
        verdict: ConsensusResult<()>,
        fast_verdict: ConsensusResult<()>,
        actions: &mut Vec<Action>,
    ) -> (result: ConsensusResult<()>)
        requires
            old(self).wf(),
        ensures
            final(self).wf(),
            final(self).env() == old(self).env(),
            ({
                let (s, more, answer) = certificate_handled(
                    old(self).env(),
                    old(self).model(),
                    certificate.model(),
                    verdict,
                    fast_verdict,
                );
                &&& final(self).model() == s
                &&& action_models(final(actions)@) == action_models(old(actions)@) + more
                &&& result == answer
            }),
    {
        let ghost before = action_models(actions@);
        let ghost model = certificate.model();
        assert(before =~= before + Seq::<ActionModel>::empty());
        let id = certificate.header.id;
        let view = certificate.header.view;
        // Check if the certificate is still relevant to the current view.
        if view < self.view || view <= self.last_committed_view {
            return Err(ConsensusError::TooOld(id, view));
        }
        // Don't vote twice in a view.
        if view <= self.last_voted_view {
            return Err(ConsensusError::AlreadyVoted(id, view));
        }
        // Process the header if we have not already: this processes its ticket.
        if !self.has_begun(certificate.header.view, &id) {
            let header = certificate.header.duplicate();
            if let Err(e) = self.process_special_header_with(header, verdict, actions) {
                return Err(e);
            }
        }
        let ghost s1 = self.model();
        let ghost mid = action_models(actions@);
        let result = self.vote_on(certificate, fast_verdict, actions);
        proof {
            let (s, all, answer) = certificate_handled(
                old(self).env(),
                old(self).model(),
                model,
                verdict,
                fast_verdict,
            );
            assert(action_models(actions@) =~= before + all);
        }
        result
    }

    /// Processes the certificate of a special header.
    pub fn process_special_certificate(
        &mut self,
        certificate: Certificate,
        actions: &mut Vec<Action>,
    ) -> (result: ConsensusResult<()>)
        requires
            old(self).wf(),
        ensures
            final(self).wf(),
            final(self).env() == old(self).env(),
            exists|verdict: ConsensusResult<()>, fast_verdict: ConsensusResult<()>|
                #![trigger certificate_handled(
                    old(self).env(),
                    old(self).model(),
                    certificate.model(),
                    verdict,
                    fast_verdict,
                )]
                qc_verdict(
                    ticket_qc(certificate.model().header),
                    &old(self).env().committee,
                    verdict,
                ) && qc_verdict(
                    fast_qc(certificate.model()),
                    &old(self).env().committee,
                    fast_verdict,
                ) && ({
                    let (s, more, answer) = certificate_handled(
                        old(self).env(),
                        old(self).model(),
                        certificate.model(),
                        verdict,
                        fast_verdict,
                    );
                    &&& final(self).model() == s
                    &&& action_models(final(actions)@) == action_models(old(actions)@) + more
                    &&& result == answer
                }),
    {
        let verdict = self.check_ticket(&certificate.header);
        let fast_verdict = fast_certificate(&certificate).verify(&self.committee);
        self.process_special_certificate_with(certificate, verdict, fast_verdict, actions)
    }

    fn has_begun(&self, key: ViewNumber, id: &Digest) -> (begun: bool)
        ensures
            begun == processing_in(self.model(), key).contains(*id),
    {
        match self.processing_headers.get(&key) {
            Some(ids) => ids.contains_key(id),
            None => false,
        }
    }

    /// The id of the header that is to be committed before `header`, if any.
    pub fn next_ancestor(&self, header: &Header) -> (wanted: Option<Digest>)
        ensures
            wanted == ancestor_wanted(self.model(), header.model()),
    {
        if header.view == 0 || self.last_committed_view >= header.view - 1 {
            return None;
        }
        match &header.ticket {
            Some(ticket) => if ticket.qc.is_genesis() {
                None
            } else {
                Some(ticket.qc.hash)
            },
            None => None,
        }
    }

    /// Commits a header after its uncommitted ancestors, given whether the ticket
    /// that it builds on is stored. `ancestors` are given from the parent upwards,
    /// as [`Core::next_ancestor`] asks for them.
    pub fn commit(
        &mut self,
        header: Header,
        ancestors: Vec<Header>,
        new_ticket: Ticket,
        parent_known: bool,
        actions: &mut Vec<Action>,
    )
        requires
            old(self).wf(),
        ensures
            final(self).wf(),
            final(self).env() == old(self).env(),
            ({
                let (s, more) = committed(
                    old(self).model(),
                    header.model(),
                    chain_models(ancestors@),
                    new_ticket.model(),
                    parent_known,
                );
                &&& final(self).model() == s
                &&& action_models(final(actions)@) == action_models(old(actions)@) + more
            }),
    {
        let ghost before = action_models(actions@);
        let ghost model = header.model();
        let ghost ticket = new_ticket.model();
        let ghost chain = chain_models(ancestors@);
        assert(before =~= before + Seq::<ActionModel>::empty());
        let last = self.last_committed_view;
        if last >= header.view {
            return;
        }
        // Confirm that the parent ticket is in store.
        if !parent_known {
            emit(actions, Action::AwaitTicket(header, new_ticket));
            assert(action_models(actions@) =~= before + seq![
                ActionModel::AwaitTicket(model, ticket),
            ]);
            return;
        }
        // Don't commit the header of a view that timed out, just store the ticket.
        if new_ticket.tc.is_some() {
            emit(actions, Action::StoreTicket(new_ticket));
            assert(action_models(actions@) =~= before + seq![ActionModel::StoreTicket(ticket)]);
            return;
        }
        self.last_committed_view = header.view;
        // Garbage collect.
        let ghost processing = self.processing_headers@;
        self.processing_headers.drop_before(header.view);
        assert(digest_sets(self.processing_headers@) =~= digest_sets(processing).remove_keys(
            Set::new(|view: ViewNumber| view < model.view),
        ));
        // Send all the newly committed headers to the node's application layer. Ancestors are
        // left to commit only after view changes.
        let mut certificates: Vec<Certificate> = Vec::new();
        let mut i: usize = ancestors.len();
        assert(chain.skip(i as int).len() == 0);
        assert(certificate_models(certificates@) =~= commit_certificates(
            fresh_ancestors(chain.skip(i as int), last),
        ));
        assert(action_models(actions@) =~= before + commits(certificate_models(certificates@)));
        while i > 0
            invariant
                i <= ancestors@.len(),
                chain == chain_models(ancestors@),
                certificate_models(certificates@) == commit_certificates(
                    fresh_ancestors(chain.skip(i as int), last),
                ),
                action_models(actions@) == before + commits(certificate_models(certificates@)),
            decreases i,
        {
            i -= 1;
            let ghost fresh = fresh_ancestors(chain.skip(i + 1), last);
            assert(chain.skip(i as int).drop_first() =~= chain.skip(i + 1));
            assert(chain.skip(i as int)[0] == ancestors@[i as int].model());
            if ancestors[i].view > last {
                commit_one(ancestors[i].duplicate(), &mut certificates, actions);
                assert(commit_certificates(fresh.push(chain[i as int])) =~= commit_certificates(
                    fresh,
                ).push(commit_certificate(chain[i as int])));
                assert(action_models(actions@) =~= before + commits(
                    certificate_models(certificates@),
                ));
            }
        }
        assert(chain.skip(0) =~= chain);
        let ghost fresh = fresh_ancestors(chain, last);
        commit_one(header, &mut certificates, actions);
        assert(commit_certificates(fresh.push(model)) =~= commit_certificates(fresh).push(
            commit_certificate(model),
        ));
        assert(action_models(actions@) =~= before + commits(certificate_models(certificates@)));
        let ghost all = certificate_models(certificates@);
        // Cleanup the mempool.
        emit(actions, Action::Cleanup(certificates));
        // Store the ticket.
        emit(actions, Action::StoreTicket(new_ticket));
        assert(action_models(actions@) =~= before + (commits(all) + seq![
            ActionModel::Cleanup(all),
            ActionModel::StoreTicket(ticket),
        ]));
    }

    /// Commits the header with the given id, if it is stored, after its
    /// uncommitted ancestors; else has it fetched.
    pub fn process_commit(
        &mut self,
        header_digest: Digest,
        new_ticket: Ticket,
        stored: Option<Header>,
        ancestors: Vec<Header>,
        parent_known: bool,
        actions: &mut Vec<Action>,
    )
        requires
            old(self).wf(),
        ensures
            final(self).wf(),
            final(self).env() == old(self).env(),
            ({
                let (s, more) = commit_looked_up(
                    old(self).model(),
                    header_digest,
                    new_ticket.model(),
                    header_option(stored),
                    chain_models(ancestors@),
                    parent_known,
                );
                &&& final(self).model() == s
                &&& action_models(final(actions)@) == action_models(old(actions)@) + more
            }),
    {
        match stored {
            Some(header) => self.commit(header, ancestors, new_ticket, parent_known, actions),
            None => {
                let ghost ticket = new_ticket.model();
                emit(actions, Action::FetchHeader(header_digest, new_ticket));
                assert(action_models(actions@) =~= action_models(old(actions)@) + seq![
                    ActionModel::FetchHeader(header_digest, ticket),
                ]);
            },
        }
    }

    /// What to do upon booting: schedule a timer, and propose the very first
    /// header if we are the leader.
    pub fn boot(&self, actions: &mut Vec<Action>)
        ensures
            action_models(final(actions)@) == action_models(old(actions)@) + booted(
                self.env(),
                self.model(),
            ),
    {
        let ghost before = action_models(actions@);
        emit(actions, Action::ResetTimer);
        let genesis = Ticket::genesis();
        self.propose_if_leader(genesis, actions);
        assert(action_models(actions@) =~= before + booted(self.env(), self.model()));
    }

    /// Processes a message from another replica. A certificate that answers a sync
    /// request needs no processing.
    pub fn handle_message(&mut self, message: ConsensusMessage, actions: &mut Vec<Action>) -> (
        result: ConsensusResult<()>)
        requires
            old(self).wf(),
            !(message is SyncRequest),
            !(message is SyncRequestCert),
        ensures
            final(self).wf(),
            final(self).env() == old(self).env(),
            exists|verdict: ConsensusResult<()>| #[trigger]
                qc_verdict(message_qc(message), &old(self).env().committee, verdict) && ({
                    let (s, more, answer) = message_handled(
                        old(self).env(),
                        old(self).model(),
                        message,
                        verdict,
                    );
                    &&& final(self).model() == s
                    &&& action_models(final(actions)@) == action_models(old(actions)@) + more
                    &&& result == answer
                }),
    {
        assert(action_models(actions@) =~= action_models(old(actions)@)
            + Seq::<ActionModel>::empty());
        let ghost qc_model = message_qc(message);
        let ghost committee = self.env().committee;
        assert(qc_model == crate::consensus::messages::genesis_qc() ==> qc_verdict(
            qc_model,
            &committee,
            Ok(()),
        ));
        match message {
            ConsensusMessage::AcceptVote(vote) => self.handle_accept_vote(&vote, actions),
            ConsensusMessage::QC(qc) => {
                let verdict = qc.verify(&self.committee);
                assert(qc_verdict(qc_model, &committee, verdict));
                self.handle_qc_with(&qc, verdict, actions)
            },
            ConsensusMessage::Timeout(timeout) => {
                let verdict = timeout.high_qc.verify(&self.committee);
                assert(qc_verdict(qc_model, &committee, verdict));
                self.handle_timeout_with(&timeout, verdict, actions)
            },
            ConsensusMessage::TC(tc) => self.handle_tc(&tc, actions),
            ConsensusMessage::Header(header) => {
                let verdict = self.check_ticket(&header);
                assert(qc_verdict(qc_model, &committee, verdict));
                self.process_special_header_with(header, verdict, actions)
            },
            _ => Ok(()),
        }
    }
}

/// The quorum certificate of a message whose verification rests on a batch check,
/// the genesis certificate if there is none.
pub open spec fn message_qc(message: ConsensusMessage) -> QcModel {
    match message {
        ConsensusMessage::QC(qc) => qc.model(),
        ConsensusMessage::Timeout(timeout) => timeout.high_qc.model(),
        ConsensusMessage::Header(header) => ticket_qc(header.model()),
        _ => crate::consensus::messages::genesis_qc(),
    }
}

/// Processing a message, given the verdict on its quorum certificate.
pub open spec fn message_handled(
    env: Env,
    s: CoreModel,
    message: ConsensusMessage,
    verdict: ConsensusResult<()>,
) -> (CoreModel, Seq<ActionModel>, ConsensusResult<()>) {
    match message {
        ConsensusMessage::AcceptVote(vote) => vote_handled(env, s, vote),
        ConsensusMessage::QC(qc) => qc_handled(env, s, qc.model(), verdict),
        ConsensusMessage::Timeout(timeout) => timeout_handled(env, s, timeout.model(), verdict),
        ConsensusMessage::TC(tc) => tc_handled(env, s, tc.model()),
        ConsensusMessage::Header(header) => header_handled(env, s, header.model(), verdict),
        _ => (s, Seq::empty(), Ok(())),
    }
}

/// The quorum certificate that the votes of the DAG make.
fn fast_certificate(certificate: &Certificate) -> (qc: QC)
    ensures
        qc.model() == fast_qc(certificate.model()),
{
    QC {
        hash: certificate.header.id,
        view: certificate.header.view,
        view_round: certificate.header.round,
        votes: crate::primary::messages::copy_votes(&certificate.votes),
    }
}

} // verus!
