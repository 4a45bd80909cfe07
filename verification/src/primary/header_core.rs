//! The core of the primary: processes headers, votes and timeouts.
//!
//! Each handler changes the state and adds to a list of actions what is to be
//! done outside: storing, sending, starting timers. What is stored is looked
//! up beforehand and handed in.

use crate::collections::{as_map, has_key, lemma_as_map, sorted, Key, Pair, SortedMap};
use crate::config::{Committee, LeaderElector};
use crate::crypto::{
    digest_of, Digest, Hashable, PublicKey, Signature, Signer,
};
use crate::primary::aggregators::{
    empty_aggregator, empty_qc_maker, empty_tc_maker, QCMaker, QcMakerModel, TCMaker, TcMakerModel,
    VotesAggregator,
};
use crate::primary::error::{ConsensusResult, DagError, DagResult, Height, Slot, ViewNumber};
use crate::primary::messages::{
    certificate_answer, default_header, genesis_id, genesis_proposal_list, message_models,
    qc_answer, vote_bytes, vote_verdict, winner, Certificate, CertificateModel,
    ConsensusMessage, Header, HeaderModel, MessageKind, MessageModel, Proposal, Proposals, Timeout, Vote, TC,
};
use crate::primary::state::{
    action_models, collected, commit_accepted, coverage, fetch_proposals, first_prepare, follow_up,
    header_processed, header_sane, header_vote, header_voted, is_new_tip, message_forwarded,
    message_processed, message_valid, message_vote, messages_processed, messages_ready, next, own_header_processed,
    own_signature, own_timeout, parent_fault, prepare_accepted, prepare_from_tc, signature_counted,
    signatures_counted, tc_processed, ticket_checked, ticket_queued, ticket_valid,
    timeout_processed, timer_fired, tip_updated, vote_processed, voted_at, votes_since, waits,
    Action, ActionModel, CoreEnv, CoreModel, FactsModel,
};
use crate::primary::synchronizer::{
    missing_batches, missing_proposals, proposals_ready, waiter_models, Synchronizer, WaiterMessage,
    WaiterModel,
};
use crate::quorum::reaches;
use std::collections::VecDeque;
use vstd::prelude::*;

verus! {

/// A message from another primary.
pub enum PrimaryMessage {
    Header(Header),
    Vote(Vote),
    Certificate(Certificate),
    Timeout(Timeout),
    TC(TC),
    /// A Prepare or Commit that another replica passed on.
    ConsensusMessage(ConsensusMessage),
}

/// What is stored, as far as a header refers to it, and which QCs are valid.
pub struct HeaderFacts {
    /// For each batch of the header, whether it is stored.
    pub payload: Vec<bool>,
    /// Whether the parent header is stored.
    pub parent: bool,
    /// The stored headers among those that consensus messages propose.
    pub known: SortedMap<Digest, ()>,
    /// For each consensus message, whether its QC is valid.
    pub qc_valid: Vec<bool>,
}

impl HeaderFacts {
    /// The facts as a value.
    pub open spec fn model(self) -> FactsModel {
        FactsModel {
            payload: self.payload@,
            parent: self.parent,
            known: self.known@,
            qc_valid: self.qc_valid@,
        }
    }

    /// Whether these are facts about `header`.
    pub open spec fn fit(self, header: Header) -> bool {
        &&& self.payload@.len() == header.payload.pairs().len()
        &&& self.qc_valid@.len() == header.consensus_messages.pairs().len()
    }
}

/// What is stored, as far as a message refers to it.
pub struct Stored {
    /// For each batch of the header, whether it is stored.
    pub payload: Vec<bool>,
    /// Whether the parent header is stored.
    pub parent: bool,
    /// The stored headers among those that consensus messages propose.
    pub known: SortedMap<Digest, ()>,
}

impl Stored {
    /// What is stored as a value, without any verdict.
    pub open spec fn model(self) -> FactsModel {
        FactsModel {
            payload: self.payload@,
            parent: self.parent,
            known: self.known@,
            qc_valid: Seq::empty(),
        }
    }
}

/// The state of the core.
pub struct Core {
    /// The public key of this primary.
    name: PublicKey,
    /// The committee information.
    committee: Committee,
    /// Decides what is missing.
    synchronizer: Synchronizer,
    /// Signs votes and timeouts.
    signer: Signer,
    leader_elector: LeaderElector,
    /// The depth of the garbage collector.
    gc_depth: Height,
    /// The last garbage collected round.
    gc_round: Height,
    /// The authors of the last voted headers. (Ensures only voting for one header per round)
    last_voted: SortedMap<Height, SortedMap<PublicKey, ()>>,
    /// The last header we proposed (for which we are waiting votes).
    current_header: Header,
    /// Whether we have already sent its certificate to the proposer.
    sent_cert_to_proposer: bool,
    /// Aggregates votes into a certificate.
    votes_aggregator: VotesAggregator,
    current_proposal_tips: Proposals,
    views: SortedMap<Slot, ViewNumber>,
    timers: SortedMap<Pair, ()>,
    last_voted_consensus: SortedMap<Pair, ()>,
    /// The latest QC for each slot.
    qcs: SortedMap<Slot, ConsensusMessage>,
    qc_makers: SortedMap<Digest, QCMaker>,
    current_qcs_formed: usize,
    tc_makers: SortedMap<Pair, TCMaker>,
    prepare_tickets: VecDeque<ConsensusMessage>,
    already_proposed_slots: SortedMap<Slot, ()>,
}

/// Voted authors as values.
pub open spec fn voted_models(last_voted: Map<Height, SortedMap<PublicKey, ()>>) -> Map<
    Height,
    Set<PublicKey>,
> {
    last_voted.map_values(|authors: SortedMap<PublicKey, ()>| authors@.dom())
}

/// QCs as values.
pub open spec fn qcs_models(qcs: Map<Slot, ConsensusMessage>) -> Map<Slot, MessageModel> {
    qcs.map_values(|message: ConsensusMessage| message.model())
}

/// QC makers as values.
pub open spec fn maker_models(makers: Map<Digest, QCMaker>) -> Map<Digest, QcMakerModel> {
    makers.map_values(|maker: QCMaker| maker.model())
}

/// TC makers as values.
pub open spec fn tc_maker_models(makers: Map<Pair, TCMaker>) -> Map<Pair, TcMakerModel> {
    makers.map_values(|maker: TCMaker| maker.model())
}

/// Tickets as values.
pub open spec fn ticket_models(tickets: Seq<ConsensusMessage>) -> Seq<MessageModel> {
    Seq::new(tickets.len(), |i: int| tickets[i].model())
}

/// Adds an action.
fn emit(actions: &mut Vec<Action>, action: Action)
    ensures
        action_models(final(actions)@) == action_models(old(actions)@).push(action.model()),
{
    let ghost before = actions@;
    actions.push(action);
    assert(action_models(actions@) =~= action_models(before).push(actions@.last().model()));
}

/// Adds commands as actions.
fn emit_waits(actions: &mut Vec<Action>, commands: Vec<WaiterMessage>)
    ensures
        action_models(final(actions)@) == action_models(old(actions)@) + waits(
            waiter_models(commands@),
        ),
{
    let ghost all = waiter_models(commands@);
    let mut commands = commands;
    let mut reversed: Vec<WaiterMessage> = Vec::new();
    while commands.len() > 0
        invariant
            waiter_models(commands@) == all.take(commands@.len() as int),
            commands@.len() + reversed@.len() == all.len(),
            forall|i: int|
                0 <= i < reversed@.len() ==> (#[trigger] reversed@[i]).model() == all[all.len() - 1
                    - i],
        decreases commands@.len(),
    {
        let ghost before = waiter_models(commands@);
        let n = commands.len();
        assert(before[n - 1] == commands@[n - 1].model());
        if let Some(command) = commands.pop() {
            reversed.push(command);
        }
        assert(waiter_models(commands@) =~= all.take(commands@.len() as int));
    }
    assert(action_models(actions@) =~= action_models(old(actions)@) + waits(all).take(0));
    while reversed.len() > 0
        invariant
            reversed@.len() <= all.len(),
            forall|i: int|
                0 <= i < reversed@.len() ==> (#[trigger] reversed@[i]).model() == all[all.len() - 1
                    - i],
            action_models(actions@) == action_models(old(actions)@) + waits(all).take(
                all.len() - reversed@.len(),
            ),
        decreases reversed@.len(),
    {
        let n = reversed.len();
        assert(reversed@[n - 1].model() == all[all.len() - n]);
        let ghost before = action_models(actions@);
        if let Some(command) = reversed.pop() {
            emit(actions, Action::Wait(command));
        }
        assert(action_models(actions@) =~= action_models(old(actions)@) + waits(all).take(
            all.len() - reversed@.len(),
        ));
    }
    assert(waits(all).take(all.len() as int) =~= waits(all));
}

impl Core {
    /// What the core is set up with.
    pub closed spec fn env(&self) -> CoreEnv {
        CoreEnv {
            name: self.name,
            committee: self.committee,
            order: self.leader_elector.order(),
            disabled: self.signer.disabled(),
            keypair: self.signer.keypair(),
            genesis: self.synchronizer.genesis_digest(),
        }
    }

    /// What the core remembers.
    pub closed spec fn model(&self) -> CoreModel {
        CoreModel {
            gc_round: self.gc_round,
            last_voted: voted_models(self.last_voted@),
            current_header: self.current_header.model(),
            sent_cert: self.sent_cert_to_proposer,
            aggregator: self.votes_aggregator.model(),
            tips: self.current_proposal_tips.pairs(),
            views: self.views@,
            timers: self.timers@.dom(),
            voted_instances: self.last_voted_consensus@.dom(),
            qcs: qcs_models(self.qcs@),
            qc_makers: maker_models(self.qc_makers@),
            qcs_formed: self.current_qcs_formed,
            tc_makers: tc_maker_models(self.tc_makers@),
            tickets: ticket_models(self.prepare_tickets@),
            proposed: self.already_proposed_slots@.dom(),
        }
    }

    /// The depth of the garbage collector.
    pub closed spec fn depth(&self) -> Height {
        self.gc_depth
    }

    /// What holds of every core: its parts are in order.
    pub closed spec fn wf(&self) -> bool {
        &&& self.committee.wf()
        &&& self.synchronizer.wf()
        &&& self.synchronizer.own_name() == self.name
        &&& self.votes_aggregator.wf(&self.committee)
        &&& forall|digest: Digest| #[trigger]
            self.qc_makers@.contains_key(digest) ==> self.qc_makers@[digest].wf(&self.committee)
        &&& forall|place: Pair| #[trigger]
            self.tc_makers@.contains_key(place) ==> self.tc_makers@[place].wf(&self.committee)
    }

    /// Whether nothing but the memory of the core differs.
    pub open spec fn same_setup(&self, other: &Self) -> bool {
        self.env() == other.env() && self.depth() == other.depth()
    }

    /// A core that has seen nothing but the genesis headers.
    pub fn new(
        name: PublicKey,
        committee: Committee,
        signer: Signer,
        leader_elector: LeaderElector,
        gc_depth: Height,
    ) -> (core: Self)
        requires
            committee.pairs().len() > 0,
        ensures
            core.wf(),
            core.env() == (CoreEnv {
                name,
                committee,
                order: leader_elector.order(),
                disabled: signer.disabled(),
                keypair: signer.keypair(),
                genesis: genesis_id(committee.pairs()[0].0),
            }),
            core.depth() == gc_depth,
            core.model() == (CoreModel {
                gc_round: 0,
                last_voted: Map::empty(),
                current_header: default_header(),
                sent_cert: false,
                aggregator: empty_aggregator(),
                tips: genesis_proposal_list(&committee),
                views: Map::empty(),
                timers: Set::empty(),
                voted_instances: Set::empty(),
                qcs: Map::empty(),
                qc_makers: Map::empty(),
                qcs_formed: 0,
                tc_makers: Map::empty(),
                tickets: Seq::empty(),
                proposed: Set::empty(),
            }),
    {
        let n = committee.size();
        let synchronizer = Synchronizer::new(name, &committee);
        let current_proposal_tips = Header::genesis_proposals(&committee);
        let core = Core {
            name,
            committee,
            synchronizer,
            signer,
            leader_elector,
            gc_depth,
            gc_round: 0,
            last_voted: SortedMap::new(),
            current_header: Header::default(),
            sent_cert_to_proposer: false,
            votes_aggregator: VotesAggregator::new(),
            current_proposal_tips,
            views: SortedMap::new(),
            timers: SortedMap::new(),
            last_voted_consensus: SortedMap::new(),
            qcs: SortedMap::new(),
            qc_makers: SortedMap::new(),
            current_qcs_formed: 0,
            tc_makers: SortedMap::new(),
            prepare_tickets: VecDeque::new(),
            already_proposed_slots: SortedMap::new(),
        };
        proof {
            assert(core.model().last_voted =~= Map::empty());
            assert(core.model().qcs =~= Map::empty());
            assert(core.model().qc_makers =~= Map::empty());
            assert(core.model().tc_makers =~= Map::empty());
            assert(core.model().tickets =~= Seq::empty());
        }
        core
    }

    /// Whether there are enough new tips since the proposals of a ticket.
    fn enough_coverage(&self, prepare_proposals: &Proposals) -> (enough: bool)
        requires
            self.wf(),
        ensures
            enough == (coverage(prepare_proposals.pairs(), self.model().tips)
                >= self.env().committee.quorum()),
    {
        let n = self.current_proposal_tips.len();
        let ghost tips = self.current_proposal_tips.pairs();
        let mut new_tips: u64 = 0;
        let mut i: usize = 0;
        assert(coverage(prepare_proposals.pairs(), tips.take(0)) == 0);
        while i < n
            invariant
                i <= n,
                n == tips.len(),
                tips == self.current_proposal_tips.pairs(),
                new_tips <= i,
                new_tips == coverage(prepare_proposals.pairs(), tips.take(i as int)),
            decreases n - i,
        {
            assert(tips.take(i + 1).drop_last() =~= tips.take(i as int));
            let author = self.current_proposal_tips.key_at(i);
            let tip = *self.current_proposal_tips.value_at(i);
            if let Some(proposal) = prepare_proposals.get(&author) {
                if tip.height > proposal.height {
                    new_tips += 1;
                }
            }
            i += 1;
        }
        assert(tips.take(n as int) =~= tips);
        new_tips >= self.committee.quorum_threshold() as u64
    }

    /// Checks a Prepare as a ticket for the next slot; answers whether it is
    /// used up.
    pub fn is_prepare_ticket_ready(
        &mut self,
        prepare_message: &ConsensusMessage,
        actions: &mut Vec<Action>,
    ) -> (ready: bool)
        requires
            old(self).wf(),
        ensures
            final(self).wf(),
            final(self).same_setup(old(self)),
            ({
                let (s, more, is_ready) = ticket_checked(
                    old(self).env(),
                    old(self).model(),
                    prepare_message.model(),
                );
                &&& final(self).model() == s
                &&& action_models(final(actions)@) == action_models(old(actions)@) + more
                &&& ready == is_ready
            }),
    {
        match prepare_message {
            ConsensusMessage::Prepare { slot, proposals, .. } => {
                let next_slot: Slot = slot.wrapping_add(1);
                let next_leader = self.leader_elector.get_leader(next_slot, 1);
                // If not the next leader, pass the message on to the leader.
                if self.name != next_leader {
                    emit(actions, Action::Forward(next_leader, prepare_message.duplicate()));
                    assert(action_models(actions@) =~= action_models(old(actions)@) + seq![
                        ActionModel::Forward(next_leader, prepare_message.model()),
                    ]);
                    return true;
                }
                // If we have already proposed in the next slot, the ticket is no longer needed.
                if self.already_proposed_slots.contains_key(&next_slot) {
                    assert(action_models(actions@) =~= action_models(old(actions)@)
                        + Seq::<ActionModel>::empty());
                    return true;
                }
                // If there is enough coverage, propose the next slot.
                if self.enough_coverage(proposals) {
                    let new_prepare_instance = ConsensusMessage::Prepare {
                        slot: next_slot,
                        view: 1,
                        tc: None,
                        proposals: self.current_proposal_tips.duplicate(),
                    };
                    let ghost before = *self;
                    self.already_proposed_slots.insert(next_slot, ());
                    let _popped = self.prepare_tickets.pop_front();
                    assert(self.already_proposed_slots@.dom()
                        =~= before.already_proposed_slots@.dom().insert(next_slot));
                    assert(ticket_models(self.prepare_tickets@) =~= (if before.prepare_tickets@.len()
                        > 0 {
                        ticket_models(before.prepare_tickets@).drop_first()
                    } else {
                        ticket_models(before.prepare_tickets@)
                    }));
                    emit(actions, Action::Propose(new_prepare_instance));
                    assert(action_models(actions@) =~= action_models(old(actions)@) + seq![
                        ActionModel::Propose(
                            first_prepare(next(prepare_message.model().slot), before.model().tips),
                        ),
                    ]);
                    true
                } else {
                    assert(action_models(actions@) =~= action_models(old(actions)@)
                        + Seq::<ActionModel>::empty());
                    false
                }
            },
            _ => {
                assert(action_models(actions@) =~= action_models(old(actions)@)
                    + Seq::<ActionModel>::empty());
                true
            },
        }
    }

    /// Whether a Prepare proposes what its ticket asks for.
    fn is_ticket_valid(&self, message: &ConsensusMessage) -> (valid: bool)
        ensures
            message.model().kind == MessageKind::Prepare ==> valid == ticket_valid(
                &self.env().committee,
                message.model(),
            ),
    {
        match message {
            ConsensusMessage::Prepare { slot, view, tc, proposals } => match tc {
                Some(tc) => {
                    // Ensure the TC is a valid one of the previous view.
                    if tc.slot != *slot || tc.view.wrapping_add(1) != *view {
                        return false;
                    }
                    if tc.verify(&self.committee).is_err() {
                        return false;
                    }
                    let winning = tc.get_winning_proposals();
                    if winning.is_empty() {
                        return true;
                    }
                    let n = proposals.len();
                    let mut i: usize = 0;
                    while i < n
                        invariant
                            i <= n,
                            n == proposals.pairs().len(),
                            message.model().kind == MessageKind::Prepare,
                            message.model().tc == Some(tc.model()),
                            message.model().proposals == proposals.pairs(),
                            winning.pairs() == winner(tc.model().timeouts).proposals,
                            winning.pairs().len() > 0,
                            forall|j: int|
                                0 <= j < i ==> has_key(
                                    winning.pairs(),
                                    (#[trigger] proposals.pairs()[j]).0,
                                ) && as_map(winning.pairs())[proposals.pairs()[j].0]
                                    == proposals.pairs()[j].1,
                        decreases n - i,
                    {
                        let author = proposals.key_at(i);
                        let proposal = *proposals.value_at(i);
                        let ghost entry = message.model().proposals[i as int];
                        assert(entry == (author, proposal));
                        match winning.get(&author) {
                            Some(wanted) => {
                                if proposal != *wanted {
                                    return false;
                                }
                            },
                            None => {
                                return false;
                            },
                        }
                        i += 1;
                    }
                    true
                },
                // Any prepare is valid for view 1.
                None => *view == 1,
            },
            _ => false,
        }
    }

    /// Whether we may vote for a consensus message. `qc_valid` tells whether
    /// its QC is valid.
    pub fn is_valid(&mut self, consensus_message: &ConsensusMessage, qc_valid: bool) -> (valid: bool)
        requires
            old(self).wf(),
        ensures
            final(self).wf(),
            final(self).same_setup(old(self)),
            (final(self).model(), valid) == message_valid(
                old(self).env(),
                old(self).model(),
                consensus_message.model(),
                qc_valid,
            ),
    {
        let slot = consensus_message.slot();
        let view = consensus_message.view_number();
        match consensus_message {
            ConsensusMessage::Prepare { .. } => {
                if !self.views.contains_key(&slot) {
                    self.views.insert(slot, 1);
                }
                let ticket_valid = self.is_ticket_valid(consensus_message);
                let in_view = match self.views.get(&slot) {
                    Some(current) => *current == view,
                    None => false,
                };
                // Ensure that we haven't already voted in this slot, view, that the ticket is
                // valid, and we are in the same view.
                !self.last_voted_consensus.contains_key(&Pair { first: slot, second: view })
                    && ticket_valid && in_view
            },
            _ => {
                // Ensure that the QC is valid, and that we are in the same view.
                let in_view = match self.views.get(&slot) {
                    Some(current) => *current == view,
                    None => false,
                };
                qc_valid && in_view
            },
        }
    }

    /// Votes for a Prepare: it is a ticket for the next slot, whose timer starts.
    fn process_prepare_message(
        &mut self,
        prepare_message: &ConsensusMessage,
        consensus_sigs: &mut Vec<(Digest, Signature)>,
        actions: &mut Vec<Action>,
    )
        requires
            old(self).wf(),
            prepare_message.model().kind == MessageKind::Prepare,
        ensures
            final(self).wf(),
            final(self).same_setup(old(self)),
            ({
                let (s, more) = prepare_accepted(
                    old(self).env(),
                    old(self).model(),
                    prepare_message.model(),
                );
                &&& final(self).model() == s
                &&& action_models(final(actions)@) == action_models(old(actions)@) + more
            }),
            final(consensus_sigs)@ == old(consensus_sigs)@.push(
                message_vote(old(self).env(), prepare_message.model()),
            ),
    {
        let slot = prepare_message.slot();
        let view = prepare_message.view_number();
        self.queue_ticket(prepare_message, actions);
        // If we haven't already started the timer for the next slot, start it.
        let next_slot: Slot = slot.wrapping_add(1);
        let timer = Pair { first: next_slot, second: 1 };
        let ghost mid = *self;
        let ghost so_far = action_models(actions@);
        if !self.timers.contains_key(&timer) {
            emit(actions, Action::StartTimer(next_slot, 1));
            self.timers.insert(timer, ());
            assert(self.timers@.dom() =~= mid.timers@.dom().insert(timer));
            assert(action_models(actions@) =~= so_far + seq![
                ActionModel::StartTimer(next_slot, 1),
            ]);
        } else {
            assert(action_models(actions@) =~= so_far + Seq::<ActionModel>::empty());
        }
        // Indicate that we vote for this instance's prepare message.
        let digest = prepare_message.digest();
        let signature = self.signer.sign(&digest);
        consensus_sigs.push((digest, signature));
        // Ensure that we don't vote for another prepare in this slot, view.
        let place = Pair { first: slot, second: view };
        let ghost before = self.last_voted_consensus@;
        self.last_voted_consensus.insert(place, ());
        assert(self.last_voted_consensus@.dom() =~= before.dom().insert(place));
        proof {
            let (s1, first) = ticket_queued(
                old(self).env(),
                old(self).model(),
                prepare_message.model(),
            );
            let (s2, all) = prepare_accepted(
                old(self).env(),
                old(self).model(),
                prepare_message.model(),
            );
            assert(action_models(actions@) =~= action_models(old(actions)@) + all);
        }
    }

    /// Checks a Prepare as a ticket, and keeps it if it is not used up.
    fn queue_ticket(&mut self, prepare_message: &ConsensusMessage, actions: &mut Vec<Action>)
        requires
            old(self).wf(),
        ensures
            final(self).wf(),
            final(self).same_setup(old(self)),
            ({
                let (s, more) = ticket_queued(
                    old(self).env(),
                    old(self).model(),
                    prepare_message.model(),
                );
                &&& final(self).model() == s
                &&& action_models(final(actions)@) == action_models(old(actions)@) + more
            }),
    {
        if !self.is_prepare_ticket_ready(prepare_message, actions) {
            let ghost before = self.prepare_tickets@;
            self.prepare_tickets.push_back(prepare_message.duplicate());
            assert(ticket_models(self.prepare_tickets@) =~= ticket_models(before).push(
                prepare_message.model(),
            ));
        }
    }

    /// Fetches the proposals of a message that are not stored; answers whether
    /// all are.
    fn fetch_missing(
        &self,
        message: &ConsensusMessage,
        known: &SortedMap<Digest, ()>,
        actions: &mut Vec<Action>,
    ) -> (ready: bool)
        ensures
            ready == proposals_ready(message.model(), known@),
            action_models(final(actions)@) == action_models(old(actions)@) + fetch_proposals(
                message.model(),
                known@,
            ),
    {
        let mut commands: Vec<WaiterMessage> = Vec::new();
        let ready = self.synchronizer.get_proposals(message, known, &mut commands);
        assert(waiter_models(commands@) =~= missing_proposals(
            message.model(),
            message.model().proposals,
            known@,
        ));
        emit_waits(actions, commands);
        ready
    }

    /// Votes for a Confirm and remembers it as the latest QC of its slot.
    fn process_confirm_message(
        &mut self,
        confirm_message: &ConsensusMessage,
        consensus_sigs: &mut Vec<(Digest, Signature)>,
    )
        requires
            old(self).wf(),
        ensures
            final(self).wf(),
            final(self).same_setup(old(self)),
            final(self).model() == (CoreModel {
                qcs: old(self).model().qcs.insert(
                    confirm_message.model().slot,
                    confirm_message.model(),
                ),
                ..old(self).model()
            }),
            final(consensus_sigs)@ == old(consensus_sigs)@.push(
                message_vote(old(self).env(), confirm_message.model()),
            ),
    {
        let ghost before = self.qcs@;
        self.qcs.insert(confirm_message.slot(), confirm_message.duplicate());
        assert(qcs_models(self.qcs@) =~= qcs_models(before).insert(
            confirm_message.model().slot,
            confirm_message.model(),
        ));
        let digest = confirm_message.digest();
        let signature = self.signer.sign(&digest);
        consensus_sigs.push((digest, signature));
    }

    /// Hands a Commit to the committer if its proposals are stored.
    pub fn process_commit_message(
        &self,
        commit_message: &ConsensusMessage,
        known: &SortedMap<Digest, ()>,
        actions: &mut Vec<Action>,
    )
        ensures
            action_models(final(actions)@) == action_models(old(actions)@) + commit_accepted(
                commit_message.model(),
                known@,
            ),
    {
        let ready = self.fetch_missing(commit_message, known, actions);
        let ghost so_far = action_models(actions@);
        if ready {
            emit(actions, Action::Commit(commit_message.duplicate()));
        }
        assert(action_models(actions@) =~= action_models(old(actions)@) + commit_accepted(
            commit_message.model(),
            known@,
        ));
    }

    /// Processes one consensus message of a header.
    fn process_consensus_message(
        &mut self,
        message: &ConsensusMessage,
        qc_valid: bool,
        known: &SortedMap<Digest, ()>,
        consensus_sigs: &mut Vec<(Digest, Signature)>,
        actions: &mut Vec<Action>,
    )
        requires
            old(self).wf(),
        ensures
            final(self).wf(),
            final(self).same_setup(old(self)),
            ({
                let (s, more, votes) = message_processed(
                    old(self).env(),
                    old(self).model(),
                    message.model(),
                    qc_valid,
                    known@,
                );
                &&& final(self).model() == s
                &&& action_models(final(actions)@) == action_models(old(actions)@) + more
                &&& final(consensus_sigs)@ == old(consensus_sigs)@ + votes
            }),
    {
        let ghost sigs = consensus_sigs@;
        let ghost vote = message_vote(old(self).env(), message.model());
        if self.is_valid(message, qc_valid) {
            match message.kind() {
                MessageKind::Prepare => {
                    self.process_prepare_message(message, consensus_sigs, actions);
                    assert(consensus_sigs@ =~= sigs + seq![vote]);
                },
                MessageKind::Confirm => {
                    // Start syncing on the proposals if we haven't already.
                    let _ready = self.fetch_missing(message, known, actions);
                    self.process_confirm_message(message, consensus_sigs);
                    assert(consensus_sigs@ =~= sigs + seq![vote]);
                },
                MessageKind::Commit => {
                    self.process_commit_message(message, known, actions);
                    assert(consensus_sigs@ =~= sigs + Seq::<(Digest, Signature)>::empty());
                },
            }
        } else {
            assert(consensus_sigs@ =~= sigs + Seq::<(Digest, Signature)>::empty());
            assert(action_models(actions@) =~= action_models(old(actions)@)
                + Seq::<ActionModel>::empty());
        }
    }

    /// Processes the consensus messages of a header; returns our votes for them.
    pub fn process_consensus_messages(
        &mut self,
        header: &Header,
        facts: &HeaderFacts,
        actions: &mut Vec<Action>,
    ) -> (consensus_sigs: Vec<(Digest, Signature)>)
        requires
            old(self).wf(),
            facts.fit(*header),
        ensures
            final(self).wf(),
            final(self).same_setup(old(self)),
            ({
                let (s, more, votes) = messages_processed(
                    old(self).env(),
                    old(self).model(),
                    header.model().consensus_messages,
                    facts.qc_valid@,
                    facts.known@,
                );
                &&& final(self).model() == s
                &&& action_models(final(actions)@) == action_models(old(actions)@) + more
                &&& consensus_sigs@ == votes
            }),
    {
        let ghost messages = header.model().consensus_messages;
        let n = header.consensus_messages.len();
        let mut consensus_sigs: Vec<(Digest, Signature)> = Vec::new();
        let mut i: usize = 0;
        assert(messages.take(0).len() == 0);
        assert(action_models(actions@) =~= action_models(old(actions)@)
            + Seq::<ActionModel>::empty());
        while i < n
            invariant
                i <= n,
                n == messages.len(),
                messages == header.model().consensus_messages,
                n == header.consensus_messages.pairs().len(),
                facts.qc_valid@.len() == n,
                self.wf(),
                self.same_setup(old(self)),
                ({
                    let (s, more, votes) = messages_processed(
                        old(self).env(),
                        old(self).model(),
                        messages.take(i as int),
                        facts.qc_valid@,
                        facts.known@,
                    );
                    &&& self.model() == s
                    &&& action_models(actions@) == action_models(old(actions)@) + more
                    &&& consensus_sigs@ == votes
                }),
            decreases n - i,
        {
            let ghost before = action_models(actions@);
            proof {
                assert(messages.take(i + 1).drop_last() =~= messages.take(i as int));
            }
            let message = header.consensus_messages.value_at(i);
            assert(messages[i as int].1 == message.model());
            self.process_consensus_message(
                message,
                facts.qc_valid[i],
                &facts.known,
                &mut consensus_sigs,
                actions,
            );
            proof {
                let (s, more, votes) = messages_processed(
                    old(self).env(),
                    old(self).model(),
                    messages.take(i + 1),
                    facts.qc_valid@,
                    facts.known@,
                );
                assert(action_models(actions@) =~= action_models(old(actions)@) + more);
            }
            i += 1;
        }
        assert(messages.take(n as int) =~= messages);
        consensus_sigs
    }

    /// Whether all Prepares of a header have their proposals stored.
    pub fn is_consensus_ready(
        &self,
        header: &Header,
        known: &SortedMap<Digest, ()>,
        actions: &mut Vec<Action>,
    ) -> (is_ready: bool)
        ensures
            ({
                let (ready, more) = messages_ready(header.model().consensus_messages, known@);
                &&& is_ready == ready
                &&& action_models(final(actions)@) == action_models(old(actions)@) + more
            }),
    {
        let ghost messages = header.model().consensus_messages;
        let n = header.consensus_messages.len();
        let mut is_ready = true;
        let mut i: usize = 0;
        assert(messages.take(0).len() == 0);
        assert(action_models(actions@) =~= action_models(old(actions)@)
            + Seq::<ActionModel>::empty());
        while i < n
            invariant
                i <= n,
                n == messages.len(),
                messages == header.model().consensus_messages,
                n == header.consensus_messages.pairs().len(),
                ({
                    let (ready, more) = messages_ready(messages.take(i as int), known@);
                    &&& is_ready == ready
                    &&& action_models(actions@) == action_models(old(actions)@) + more
                }),
            decreases n - i,
        {
            assert(messages.take(i + 1).drop_last() =~= messages.take(i as int));
            let message = header.consensus_messages.value_at(i);
            assert(messages[i as int].1 == message.model());
            if is_ready && message.kind() == MessageKind::Prepare {
                is_ready = self.fetch_missing(message, known, actions);
                proof {
                    let (ready, more) = messages_ready(messages.take(i + 1), known@);
                    assert(action_models(actions@) =~= action_models(old(actions)@) + more);
                }
            }
            i += 1;
        }
        assert(messages.take(n as int) =~= messages);
        is_ready
    }

    /// The next step of a consensus instance whose message got a QC.
    fn follow_up(&self, digest: &Digest, qc: crate::primary::messages::QC, actions: &mut Vec<Action>)
        requires
            self.wf(),
        ensures
            action_models(final(actions)@) == action_models(old(actions)@) + (if has_key(
                self.model().current_header.consensus_messages,
                *digest,
            ) {
                follow_up(
                    self.env(),
                    self.model().current_header,
                    as_map(self.model().current_header.consensus_messages)[*digest],
                    qc.model(),
                )
            } else {
                Seq::empty()
            }),
    {
        let n = self.current_header.consensus_messages.len();
        let ghost pairs = self.current_header.consensus_messages.pairs();
        let ghost messages = message_models(pairs);
        proof {
            lemma_message_lookup(pairs, *digest);
        }
        match self.current_header.consensus_messages.get(digest) {
            Some(current_instance) => {
                let ghost more = follow_up(
                    self.env(),
                    self.model().current_header,
                    current_instance.model(),
                    qc.model(),
                );
                match current_instance {
                    ConsensusMessage::Prepare { slot, view, proposals, .. } => {
                        // Add the header that carried the prepare message to the proposals, so
                        // that it can be committed as part of them.
                        let leader_tip_proposal = Proposal {
                            header_digest: self.current_header.digest(),
                            height: self.current_header.height(),
                        };
                        let mut new_proposals = proposals.duplicate();
                        new_proposals.insert(self.name, leader_tip_proposal);
                        emit(
                            actions,
                            Action::Propose(
                                ConsensusMessage::Confirm {
                                    slot: *slot,
                                    view: *view,
                                    qc,
                                    proposals: new_proposals,
                                },
                            ),
                        );
                    },
                    ConsensusMessage::Confirm { slot, view, proposals, .. } => {
                        emit(
                            actions,
                            Action::Propose(
                                ConsensusMessage::Commit {
                                    slot: *slot,
                                    view: *view,
                                    qc,
                                    proposals: proposals.duplicate(),
                                },
                            ),
                        );
                    },
                    ConsensusMessage::Commit { .. } => {},
                }
                assert(action_models(actions@) =~= action_models(old(actions)@) + more);
            },
            None => {
                assert(action_models(actions@) =~= action_models(old(actions)@)
                    + Seq::<ActionModel>::empty());
            },
        }
    }

    /// Counts one vote for a consensus message.
    fn count_signature(
        &mut self,
        author: PublicKey,
        digest: &Digest,
        signature: &Signature,
        actions: &mut Vec<Action>,
    ) -> (result: DagResult<()>)
        requires
            old(self).wf(),
        ensures
            final(self).wf(),
            final(self).same_setup(old(self)),
            ({
                let (s, more, answer) = signature_counted(
                    old(self).env(),
                    old(self).model(),
                    author,
                    *digest,
                    *signature,
                );
                &&& final(self).model() == s
                &&& action_models(final(actions)@) == action_models(old(actions)@) + more
                &&& result == answer
            }),
    {
        let ghost before = self.qc_makers@;
        // If there is no QC maker for this consensus message yet, create one.
        let mut qc_maker = match self.qc_makers.remove(digest) {
            Some(qc_maker) => qc_maker,
            None => QCMaker::new(),
        };
        let ghost maker = qc_maker.model();
        assert(maker == (if maker_models(before).contains_key(*digest) {
            maker_models(before)[*digest]
        } else {
            empty_qc_maker()
        }));
        // Add the vote to the QC maker.
        let result = qc_maker.append(author, (*digest, *signature), &self.committee);
        let ghost maker1 = qc_maker.model();
        self.qc_makers.insert(*digest, qc_maker);
        proof {
            assert(maker_models(self.qc_makers@) =~= maker_models(before).insert(*digest, maker1));
            assert forall|d: Digest| #[trigger] self.qc_makers@.contains_key(
                d,
            ) implies self.qc_makers@[d].wf(&self.committee) by {
                if d != *digest {
                    assert(before.contains_key(d));
                }
            }
        }
        match result {
            Ok((_, Some(qc))) => {
                // A QC formed: create the next message of the instance.
                self.current_qcs_formed = self.current_qcs_formed.wrapping_add(1);
                self.follow_up(digest, qc, actions);
                Ok(())
            },
            Ok((_, None)) => {
                assert(action_models(actions@) =~= action_models(old(actions)@)
                    + Seq::<ActionModel>::empty());
                Ok(())
            },
            Err(e) => {
                assert(action_models(actions@) =~= action_models(old(actions)@)
                    + Seq::<ActionModel>::empty());
                Err(e)
            },
        }
    }

    /// Processes a vote for our current header.
    pub fn process_vote(&mut self, vote: Vote, actions: &mut Vec<Action>) -> (result: DagResult<()>)
        requires
            old(self).wf(),
        ensures
            final(self).wf(),
            final(self).same_setup(old(self)),
            ({
                let (s, more, answer) = vote_processed(
                    old(self).env(),
                    old(self).model(),
                    vote.model(),
                );
                &&& final(self).model() == s
                &&& action_models(final(actions)@) == action_models(old(actions)@) + more
                &&& result == answer
            }),
    {
        // Only process votes for the current header.
        if vote.id != self.current_header.id {
            assert(action_models(actions@) =~= action_models(old(actions)@)
                + Seq::<ActionModel>::empty());
            return Ok(());
        }
        let ghost sigs = vote.consensus_sigs@;
        // Iterate through all votes for each consensus instance.
        let mut i: usize = 0;
        assert(sigs.take(0).len() == 0);
        assert(action_models(actions@) =~= action_models(old(actions)@)
            + Seq::<ActionModel>::empty());
        while i < vote.consensus_sigs.len()
            invariant
                i <= sigs.len(),
                sigs == vote.consensus_sigs@,
                vote.id == old(self).model().current_header.id,
                self.wf(),
                self.same_setup(old(self)),
                ({
                    let (s, more, answer) = signatures_counted(
                        old(self).env(),
                        old(self).model(),
                        vote.author,
                        sigs.take(i as int),
                    );
                    &&& self.model() == s
                    &&& action_models(actions@) == action_models(old(actions)@) + more
                    &&& answer is Ok
                }),
            decreases sigs.len() - i,
        {
            assert(sigs.take(i + 1).drop_last() =~= sigs.take(i as int));
            let digest = vote.consensus_sigs[i].0;
            let signature = vote.consensus_sigs[i].1;
            let result = self.count_signature(vote.author, &digest, &signature, actions);
            proof {
                let (s, more, answer) = signatures_counted(
                    old(self).env(),
                    old(self).model(),
                    vote.author,
                    sigs.take(i + 1),
                );
                assert(action_models(actions@) =~= action_models(old(actions)@) + more);
            }
            if let Err(e) = result {
                proof {
                    lemma_count_stops(
                        old(self).env(),
                        old(self).model(),
                        vote.author,
                        sigs,
                        i + 1,
                    );
                }
                return Err(e);
            }
            i += 1;
        }
        assert(sigs.take(sigs.len() as int) =~= sigs);
        let ghost counted = action_models(actions@);
        // Add the vote to the votes aggregator for the actual header.
        if let Err(e) = self.votes_aggregator.append(vote, &self.committee, &self.current_header) {
            return Err(e);
        }
        let messages = self.current_header.consensus_messages.len();
        let dissemination_cert = match self.votes_aggregator.get() {
            Ok(cert) => cert,
            Err(_) => None,
        };
        // Without consensus instances in the header, only wait for the dissemination cert (f+1
        // votes); with some, wait for 2f+1 votes to form QCs.
        let ready = messages == 0 || self.current_qcs_formed == messages;
        if !self.sent_cert_to_proposer && ready {
            if let Some(cert) = dissemination_cert {
                emit(actions, Action::SendParent(cert));
                self.sent_cert_to_proposer = true;
                self.current_qcs_formed = 0;
            }
        }
        proof {
            let (s, more, answer) = vote_processed(old(self).env(), old(self).model(), vote.model());
            assert(action_models(actions@) =~= action_models(old(actions)@) + more);
        }
        Ok(())
    }

    /// Stores a certificate.
    pub fn process_certificate(&self, certificate: &Certificate, actions: &mut Vec<Action>) -> (result:
        DagResult<()>)
        ensures
            result is Ok,
            action_models(final(actions)@) == action_models(old(actions)@).push(
                ActionModel::StoreCertificate(certificate.model()),
            ),
    {
        emit(actions, Action::StoreCertificate(certificate.duplicate()));
        Ok(())
    }

    /// Makes a higher header the tip of its author, and checks the first
    /// waiting ticket again.
    fn update_tip(&mut self, header: &Header, actions: &mut Vec<Action>)
        requires
            old(self).wf(),
        ensures
            final(self).wf(),
            final(self).same_setup(old(self)),
            ({
                let (s, more) = tip_updated(old(self).env(), old(self).model(), header.model());
                &&& final(self).model() == s
                &&& action_models(final(actions)@) == action_models(old(actions)@) + more
            }),
    {
        let is_higher = match self.current_proposal_tips.get(&header.author) {
            Some(tip) => header.height > tip.height,
            None => false,
        };
        assert(is_higher == is_new_tip(self.model(), header.model()));
        if !is_higher {
            assert(action_models(actions@) =~= action_models(old(actions)@)
                + Seq::<ActionModel>::empty());
            return;
        }
        let tip = Proposal { header_digest: header.digest(), height: header.height() };
        self.current_proposal_tips.insert(header.author, tip);
        let ghost s1 = self.model();
        let ghost tickets = self.prepare_tickets@;
        // Since we received a new tip, check if our first pending ticket is ready.
        if let Some(prepare_msg) = self.prepare_tickets.pop_front() {
            assert(ticket_models(self.prepare_tickets@) =~= ticket_models(tickets).drop_first());
            assert(prepare_msg.model() == s1.tickets[0]);
            let ticket_ready = self.is_prepare_ticket_ready(&prepare_msg, actions);
            // If the ticket is not ready rebuffer it to the front.
            if !ticket_ready {
                let ghost rest = self.prepare_tickets@;
                let ghost ticket = prepare_msg.model();
                self.prepare_tickets.push_front(prepare_msg);
                assert(ticket_models(self.prepare_tickets@) =~= seq![ticket] + ticket_models(rest));
            }
        } else {
            assert(s1.tickets.len() == 0);
            assert(action_models(actions@) =~= action_models(old(actions)@)
                + Seq::<ActionModel>::empty());
        }
    }

    /// Votes for a header, unless we voted for one of its author at its height.
    fn vote_for_header(
        &mut self,
        header: &Header,
        facts: &HeaderFacts,
        actions: &mut Vec<Action>,
    ) -> (result: DagResult<()>)
        requires
            old(self).wf(),
            facts.fit(*header),
        ensures
            final(self).wf(),
            final(self).same_setup(old(self)),
            ({
                let (s, more, answer) = header_voted(
                    old(self).env(),
                    old(self).model(),
                    header.model(),
                    facts.model(),
                );
                &&& final(self).model() == s
                &&& action_models(final(actions)@) == action_models(old(actions)@) + more
                &&& result == answer
            }),
    {
        let ghost before = self.last_voted@;
        let mut authors: SortedMap<PublicKey, ()> = match self.last_voted.remove(&header.height) {
            Some(authors) => authors,
            None => SortedMap::new(),
        };
        let ghost earlier = authors@.dom();
        assert(earlier =~= voted_at(old(self).model(), header.height));
        let fresh = authors.insert(header.author, ()).is_none();
        assert(authors@.dom() =~= earlier.insert(header.author));
        let ghost later = authors@.dom();
        self.last_voted.insert(header.height, authors);
        assert(voted_models(self.last_voted@) =~= voted_models(before).insert(header.height, later));
        if !fresh {
            assert(action_models(actions@) =~= action_models(old(actions)@)
                + Seq::<ActionModel>::empty());
            return Ok(());
        }
        // Process the consensus instances contained in the header (if any).
        let consensus_sigs = self.process_consensus_messages(header, facts, actions);
        // Create a vote for the header and any valid consensus instances.
        let ghost sigs = consensus_sigs@;
        let vote = Vote::new(header, &self.name, &self.signer, consensus_sigs);
        assert(vote.model() == header_vote(self.env(), header.model(), sigs)) by {
            crate::crypto::lemma_signature_extensional(
                vote.signature,
                own_signature(self.env(), digest_of(vote_bytes(header.id, header.height))),
            );
        }
        let ghost processed = action_models(actions@);
        let result = if header.author == self.name {
            self.process_vote(vote, actions)
        } else {
            emit(actions, Action::SendVote(header.author, vote));
            Ok(())
        };
        proof {
            let (s, more, answer) = header_voted(
                old(self).env(),
                old(self).model(),
                header.model(),
                facts.model(),
            );
            assert(action_models(actions@) =~= action_models(old(actions)@) + more);
        }
        result
    }

    /// Processes a header.
    pub fn process_header(
        &mut self,
        header: &Header,
        facts: &HeaderFacts,
        actions: &mut Vec<Action>,
    ) -> (result: DagResult<()>)
        requires
            old(self).wf(),
            facts.fit(*header),
        ensures
            final(self).wf(),
            final(self).same_setup(old(self)),
            ({
                let (s, more, answer) = header_processed(
                    old(self).env(),
                    old(self).model(),
                    header.model(),
                    facts.model(),
                );
                &&& final(self).model() == s
                &&& action_models(final(actions)@) == action_models(old(actions)@) + more
                &&& result == answer
            }),
    {
        let ghost start = action_models(actions@);
        // Check the parent certificate. Ensure the certificate contains enough votes and is at
        // the previous height.
        if header.parent_cert.height == u64::MAX || header.parent_cert.height + 1 != header.height {
            assert(action_models(actions@) =~= start + Seq::<ActionModel>::empty());
            return Err(DagError::MalformedHeader(header.id));
        }
        let threshold = self.committee.validity_threshold();
        if !reaches(&self.committee, &header.parent_cert.votes, threshold)
            && header.parent_cert.height != 0 {
            assert(action_models(actions@) =~= start + Seq::<ActionModel>::empty());
            return Err(DagError::HeaderRequiresQuorum(header.id));
        }
        assert(parent_fault(self.env(), header.model()) is None);
        // Ensure we have the payload. If we don't, it is fetched, and the header comes again.
        if let Some(command) = self.synchronizer.missing_payload(header, &facts.payload) {
            emit(actions, Action::Wait(command));
            assert(action_models(actions@) =~= start + seq![
                ActionModel::Wait(
                    WaiterModel::SyncBatches(
                        missing_batches(header.model().payload, facts.payload@),
                        header.model(),
                    ),
                ),
            ]);
            return Ok(());
        }
        // By FIFO we should have the parent of this header (and recursively all ancestors).
        if !self.synchronizer.has_parent(header, facts.parent) {
            assert(action_models(actions@) =~= start + Seq::<ActionModel>::empty());
            return Ok(());
        }
        // Check whether we can vote for all consensus messages.
        if !self.is_consensus_ready(header, &facts.known, actions) {
            return Ok(());
        }
        // Store the header since we have the parents (recursively).
        emit(actions, Action::StoreHeader(header.duplicate()));
        self.update_tip(header, actions);
        // Process the parent certificate.
        let _stored = self.process_certificate(&header.parent_cert, actions);
        // Check if we can vote for this header.
        let result = self.vote_for_header(header, facts, actions);
        proof {
            let (s, more, answer) = header_processed(
                old(self).env(),
                old(self).model(),
                header.model(),
                facts.model(),
            );
            assert(action_models(actions@) =~= start + more);
        }
        result
    }

    /// Processes a header that our proposer made.
    pub fn process_own_header(
        &mut self,
        header: &Header,
        facts: &HeaderFacts,
        actions: &mut Vec<Action>,
    ) -> (result: DagResult<()>)
        requires
            old(self).wf(),
            facts.fit(*header),
        ensures
            final(self).wf(),
            final(self).same_setup(old(self)),
            ({
                let (s, more, answer) = own_header_processed(
                    old(self).env(),
                    old(self).model(),
                    header.model(),
                    facts.model(),
                );
                &&& final(self).model() == s
                &&& action_models(final(actions)@) == action_models(old(actions)@) + more
                &&& result == answer
            }),
    {
        // Update the current header we are collecting votes for.
        self.current_header = header.duplicate();
        // Indicate that we haven't sent a cert yet for this header.
        self.sent_cert_to_proposer = false;
        // Reset the votes aggregator.
        self.votes_aggregator = VotesAggregator::new();
        // Broadcast the new header in a reliable manner.
        emit(actions, Action::BroadcastHeader(header.duplicate()));
        // Process the header.
        let result = self.process_header(header, facts, actions);
        proof {
            let (s, more, answer) = own_header_processed(
                old(self).env(),
                old(self).model(),
                header.model(),
                facts.model(),
            );
            assert(action_models(actions@) =~= action_models(old(actions)@) + more);
        }
        result
    }

    /// Processes a consensus message whose proposals were missing and are now
    /// stored: a Prepare held up its header, and a Commit can be committed.
    pub fn process_loopback(
        &mut self,
        consensus_message: &ConsensusMessage,
        header: &Header,
        facts: &HeaderFacts,
        actions: &mut Vec<Action>,
    ) -> (result: DagResult<()>)
        requires
            old(self).wf(),
            facts.fit(*header),
        ensures
            final(self).wf(),
            final(self).same_setup(old(self)),
            ({
                let (s, more, answer) = match consensus_message.model().kind {
                    MessageKind::Prepare => header_processed(
                        old(self).env(),
                        old(self).model(),
                        header.model(),
                        facts.model(),
                    ),
                    MessageKind::Confirm => (
                        old(self).model(),
                        Seq::<ActionModel>::empty(),
                        Ok::<(), DagError>(()),
                    ),
                    MessageKind::Commit => (
                        old(self).model(),
                        seq![ActionModel::Commit(consensus_message.model())],
                        Ok(()),
                    ),
                };
                &&& final(self).model() == s
                &&& action_models(final(actions)@) == action_models(old(actions)@) + more
                &&& result == answer
            }),
    {
        match consensus_message.kind() {
            MessageKind::Prepare => self.process_header(header, facts, actions),
            MessageKind::Confirm => {
                // Proposals are sent to the committer once a commit message is received.
                assert(action_models(actions@) =~= action_models(old(actions)@)
                    + Seq::<ActionModel>::empty());
                Ok(())
            },
            MessageKind::Commit => {
                emit(actions, Action::Commit(consensus_message.duplicate()));
                assert(action_models(actions@) =~= action_models(old(actions)@) + seq![
                    ActionModel::Commit(consensus_message.model()),
                ]);
                Ok(())
            },
        }
    }

    /// Processes a consensus message that another replica passed on: a Prepare
    /// is a ticket for the next slot, and a Commit goes to the committer if the
    /// headers that it proposes are stored. `known` are the stored ones.
    pub fn process_forwarded_message(
        &mut self,
        consensus_message: &ConsensusMessage,
        known: &SortedMap<Digest, ()>,
        actions: &mut Vec<Action>,
    ) -> (result: DagResult<()>)
        requires
            old(self).wf(),
        ensures
            final(self).wf(),
            final(self).same_setup(old(self)),
            result is Ok,
            ({
                let (s, more) = message_forwarded(
                    old(self).env(),
                    old(self).model(),
                    consensus_message.model(),
                    known@,
                );
                &&& final(self).model() == s
                &&& action_models(final(actions)@) == action_models(old(actions)@) + more
            }),
    {
        match consensus_message.kind() {
            MessageKind::Prepare => self.queue_ticket(consensus_message, actions),
            MessageKind::Confirm => {
                assert(action_models(actions@) =~= action_models(old(actions)@)
                    + Seq::<ActionModel>::empty());
            },
            MessageKind::Commit => self.process_commit_message(consensus_message, known, actions),
        }
        Ok(())
    }

    /// Proposes the view after a TC, if we lead it.
    fn generate_prepare_from_tc(&self, tc: &TC, actions: &mut Vec<Action>)
        requires
            self.wf(),
        ensures
            action_models(final(actions)@) == action_models(old(actions)@) + tc_processed(
                self.env(),
                self.model(),
                tc.model(),
            ),
    {
        let next_view: ViewNumber = tc.view.wrapping_add(1);
        let next_leader = self.leader_elector.get_leader(tc.slot, next_view);
        if self.name == next_leader {
            let mut winning_proposals = tc.get_winning_proposals();
            // If there is no QC we have to propose, then use our current tips.
            if winning_proposals.is_empty() {
                winning_proposals = self.current_proposal_tips.duplicate();
            }
            // Create a prepare message for the next view, containing the ticket and proposals.
            let prepare_message = ConsensusMessage::Prepare {
                slot: tc.slot,
                view: next_view,
                tc: Some(tc.duplicate()),
                proposals: winning_proposals,
            };
            assert(prepare_message.model() == prepare_from_tc(self.model(), tc.model()));
            emit(actions, Action::Propose(prepare_message));
        }
        assert(action_models(actions@) =~= action_models(old(actions)@) + tc_processed(
            self.env(),
            self.model(),
            tc.model(),
        ));
    }

    /// Processes a timeout certificate.
    pub fn handle_tc(&self, tc: &TC, actions: &mut Vec<Action>) -> (result: DagResult<()>)
        requires
            self.wf(),
        ensures
            result is Ok,
            action_models(final(actions)@) == action_models(old(actions)@) + tc_processed(
                self.env(),
                self.model(),
                tc.model(),
            ),
    {
        self.generate_prepare_from_tc(tc, actions);
        Ok(())
    }

    /// Processes a timeout.
    pub fn handle_timeout(&mut self, timeout: &Timeout, actions: &mut Vec<Action>) -> (result:
        DagResult<()>)
        requires
            old(self).wf(),
        ensures
            final(self).wf(),
            final(self).same_setup(old(self)),
            ({
                let (s, more, answer) = timeout_processed(
                    old(self).env(),
                    old(self).model(),
                    timeout.model(),
                );
                &&& final(self).model() == s
                &&& action_models(final(actions)@) == action_models(old(actions)@) + more
                &&& result == answer
            }),
    {
        let ghost start = action_models(actions@);
        assert(start =~= start + Seq::<ActionModel>::empty());
        // Don't process timeout messages for old views.
        if let Some(view) = self.views.get(&timeout.slot) {
            if timeout.view < *view {
                return Ok(());
            }
        }
        // Ensure the timeout is well formed.
        if let Err(e) = timeout.verify(&self.committee) {
            return Err(e);
        }
        let place = Pair { first: timeout.slot, second: timeout.view };
        let ghost before = self.tc_makers@;
        // If we haven't seen a timeout for this slot, view, then create a new TC maker for it.
        let mut tc_maker = match self.tc_makers.remove(&place) {
            Some(tc_maker) => tc_maker,
            None => TCMaker::new(),
        };
        let ghost maker = tc_maker.model();
        assert(maker == (if tc_maker_models(before).contains_key(place) {
            tc_maker_models(before)[place]
        } else {
            empty_tc_maker()
        }));
        // Add the new vote to our aggregator and see if we have a quorum.
        let answer = tc_maker.append(timeout.duplicate(), &self.committee);
        let ghost maker1 = tc_maker.model();
        self.tc_makers.insert(place, tc_maker);
        proof {
            assert(tc_maker_models(self.tc_makers@) =~= tc_maker_models(before).insert(
                place,
                maker1,
            ));
            assert forall|p: Pair| #[trigger] self.tc_makers@.contains_key(
                p,
            ) implies self.tc_makers@[p].wf(&self.committee) by {
                if p != place {
                    assert(before.contains_key(p));
                }
            }
        }
        match answer {
            Err(e) => Err(e),
            Ok(None) => Ok(()),
            Ok(Some(tc)) => {
                // Try to advance the view.
                self.views.insert(timeout.slot, timeout.view.wrapping_add(1));
                // Start the new view timer.
                let next_view: ViewNumber = tc.view.wrapping_add(1);
                let timer = Pair { first: tc.slot, second: next_view };
                emit(actions, Action::StartTimer(tc.slot, next_view));
                let ghost timers = self.timers@.dom();
                self.timers.insert(timer, ());
                assert(self.timers@.dom() =~= timers.insert(timer));
                // Broadcast the TC.
                emit(actions, Action::BroadcastTc(tc.duplicate()));
                // Generate a new prepare if we are the next leader.
                self.generate_prepare_from_tc(&tc, actions);
                proof {
                    let (s, more, answer) = timeout_processed(
                        old(self).env(),
                        old(self).model(),
                        timeout.model(),
                    );
                    assert(action_models(actions@) =~= start + more);
                }
                Ok(())
            },
        }
    }

    /// Processes a timer that fired.
    pub fn local_timeout_round(
        &mut self,
        slot: Slot,
        view: ViewNumber,
        actions: &mut Vec<Action>,
    ) -> (result: DagResult<()>)
        requires
            old(self).wf(),
        ensures
            final(self).wf(),
            final(self).same_setup(old(self)),
            ({
                let (s, more, answer) = timer_fired(
                    old(self).env(),
                    old(self).model(),
                    slot,
                    view,
                );
                &&& final(self).model() == s
                &&& action_models(final(actions)@) == action_models(old(actions)@) + more
                &&& result == answer
            }),
    {
        let ghost start = action_models(actions@);
        // If timing out a smaller view than the current view, ignore.
        if let Some(current) = self.views.get(&slot) {
            if *current > view {
                assert(start =~= start + Seq::<ActionModel>::empty());
                return Ok(());
            }
        }
        // Make a timeout message for the slot, view, containing the highest QC this replica has
        // seen.
        let high_qc = match self.qcs.get(&slot) {
            Some(message) => Some(message.duplicate()),
            None => None,
        };
        let timeout = Timeout::new(slot, view, high_qc, self.name, &self.signer);
        assert(timeout.model() == own_timeout(self.env(), self.model(), slot, view)) by {
            crate::crypto::lemma_signature_extensional(
                timeout.signature,
                own_signature(self.env(), digest_of(Seq::empty())),
            );
        }
        // Broadcast the timeout message.
        emit(actions, Action::BroadcastTimeout(timeout.duplicate()));
        // Process our message.
        let result = self.handle_timeout(&timeout, actions);
        proof {
            let (s, more, answer) = timer_fired(old(self).env(), old(self).model(), slot, view);
            assert(action_models(actions@) =~= start + more);
        }
        result
    }

    /// Whether a header may be processed.
    pub fn sanitize_header(&self, header: &Header) -> (result: DagResult<()>)
        ensures
            result == header_sane(self.env(), self.model(), header.model()),
    {
        if self.gc_round > header.height {
            return Err(DagError::HeaderTooOld(header.id, header.height));
        }
        // Verify the header's signature.
        header.verify(&self.committee)
    }

    /// Whether a vote may be processed.
    pub fn sanitize_vote(&self, vote: &Vote) -> (result: DagResult<()>)
        ensures
            result == vote_verdict(vote.model(), &self.env().committee),
    {
        vote.verify(&self.committee)
    }

    /// Whether a certificate may be processed.
    pub fn sanitize_certificate(&self, certificate: &Certificate) -> (result: DagResult<()>)
        ensures
            certificate_sane(self.env(), self.model(), certificate.model(), result),
    {
        if self.gc_round > certificate.height {
            return Err(DagError::CertificateTooOld(certificate.digest(), certificate.height));
        }
        certificate.verify(&self.committee)
    }

    /// Drops what is older than the garbage collector's depth, when consensus
    /// is at `round`.
    pub fn collect_garbage(&mut self, round: Height)
        requires
            old(self).wf(),
        ensures
            final(self).wf(),
            final(self).same_setup(old(self)),
            final(self).model() == collected(old(self).model(), round, old(self).depth()),
    {
        if round <= self.gc_depth {
            return;
        }
        let gc_round: Height = round - self.gc_depth;
        let ghost before = self.last_voted@;
        self.last_voted.drop_before(gc_round);
        assert(voted_models(self.last_voted@) =~= votes_since(voted_models(before), gc_round));
        self.gc_round = gc_round;
    }

    /// Checks the QC of each consensus message of a header.
    pub fn check_qcs(&self, header: &Header) -> (verdicts: Vec<bool>)
        ensures
            verdicts@.len() == header.consensus_messages.pairs().len(),
            forall|i: int|
                0 <= i < verdicts@.len() ==> verdict_possible(
                    (#[trigger] header.model().consensus_messages[i]).1,
                    &self.env().committee,
                    verdicts@[i],
                ),
    {
        let n = header.consensus_messages.len();
        let ghost messages = header.model().consensus_messages;
        let mut verdicts: Vec<bool> = Vec::new();
        let mut i: usize = 0;
        while i < n
            invariant
                i <= n,
                n == header.consensus_messages.pairs().len(),
                messages == header.model().consensus_messages,
                verdicts@.len() == i,
                forall|j: int|
                    0 <= j < i ==> verdict_possible(
                        (#[trigger] messages[j]).1,
                        &self.committee,
                        verdicts@[j],
                    ),
            decreases n - i,
        {
            let message = header.consensus_messages.value_at(i);
            assert(messages[i as int].1 == message.model());
            let valid = match message {
                ConsensusMessage::Prepare { .. } => true,
                ConsensusMessage::Confirm { qc, .. } => {
                    let result = qc.verify(&self.committee);
                    assert(messages[i as int].1.qc == Some(qc.model()));
                    assert(qc_answer(messages[i as int].1.qc->0, &self.committee, result));
                    result.is_ok()
                },
                ConsensusMessage::Commit { qc, .. } => {
                    let result = qc.verify(&self.committee);
                    assert(messages[i as int].1.qc == Some(qc.model()));
                    assert(qc_answer(messages[i as int].1.qc->0, &self.committee, result));
                    result.is_ok()
                },
            };
            verdicts.push(valid);
            i += 1;
        }
        verdicts
    }

    /// Processes a message from another primary. `facts` are about the header,
    /// if the message is one.
    pub fn handle_message(
        &mut self,
        message: PrimaryMessage,
        facts: &HeaderFacts,
        actions: &mut Vec<Action>,
    ) -> (result: DagResult<()>)
        requires
            old(self).wf(),
            message matches PrimaryMessage::Header(header) ==> facts.fit(header),
        ensures
            final(self).wf(),
            final(self).same_setup(old(self)),
            handled(
                old(self).env(),
                old(self).model(),
                action_models(old(actions)@),
                message,
                facts.model(),
                final(self).model(),
                action_models(final(actions)@),
                result,
            ),
    {
        match message {
            PrimaryMessage::Header(header) => match self.sanitize_header(&header) {
                Ok(()) => self.process_header(&header, facts, actions),
                Err(e) => Err(e),
            },
            PrimaryMessage::Vote(vote) => match self.sanitize_vote(&vote) {
                Ok(()) => self.process_vote(vote, actions),
                Err(e) => Err(e),
            },
            PrimaryMessage::Certificate(certificate) => match self.sanitize_certificate(
                &certificate,
            ) {
                Ok(()) => self.process_certificate(&certificate, actions),
                Err(e) => Err(e),
            },
            PrimaryMessage::Timeout(timeout) => self.handle_timeout(&timeout, actions),
            PrimaryMessage::TC(tc) => self.handle_tc(&tc, actions),
            PrimaryMessage::ConsensusMessage(consensus_message) => {
                self.process_forwarded_message(&consensus_message, &facts.known, actions)
            },
        }
    }

    /// The facts about a header, with the verdicts on its QCs.
    pub fn judge(&self, header: &Header, stored: Stored) -> (facts: HeaderFacts)
        requires
            stored.payload@.len() == header.payload.pairs().len(),
        ensures
            facts.fit(*header),
            facts_possible(&self.env().committee, header.model(), stored.model(), facts.model()),
    {
        let qc_valid = self.check_qcs(header);
        HeaderFacts { payload: stored.payload, parent: stored.parent, known: stored.known, qc_valid }
    }

    /// Processes a message from another primary; the QCs that a header carries
    /// are checked first.
    pub fn receive(
        &mut self,
        message: PrimaryMessage,
        stored: Stored,
        actions: &mut Vec<Action>,
    ) -> (result: DagResult<()>)
        requires
            old(self).wf(),
            message matches PrimaryMessage::Header(header) ==> stored.payload@.len()
                == header.payload.pairs().len(),
        ensures
            final(self).wf(),
            final(self).same_setup(old(self)),
            exists|facts: FactsModel|
                (message matches PrimaryMessage::Header(header) ==> facts_possible(
                    &old(self).env().committee,
                    header.model(),
                    stored.model(),
                    facts,
                )) && facts.known == stored.known@ && #[trigger] handled(
                    old(self).env(),
                    old(self).model(),
                    action_models(old(actions)@),
                    message,
                    facts,
                    final(self).model(),
                    action_models(final(actions)@),
                    result,
                ),
    {
        let facts = match &message {
            PrimaryMessage::Header(header) => self.judge(header, stored),
            _ => HeaderFacts {
                payload: stored.payload,
                parent: stored.parent,
                known: stored.known,
                qc_valid: Vec::new(),
            },
        };
        self.handle_message(message, &facts, actions)
    }

    /// Resumes with a header whose processing was put off; the QCs that it
    /// carries are checked first.
    pub fn resume_header(&mut self, header: &Header, stored: Stored, actions: &mut Vec<Action>) -> (
        result: DagResult<()>)
        requires
            old(self).wf(),
            stored.payload@.len() == header.payload.pairs().len(),
        ensures
            final(self).wf(),
            final(self).same_setup(old(self)),
            exists|facts: FactsModel|
                facts_possible(
                    &old(self).env().committee,
                    header.model(),
                    stored.model(),
                    facts,
                ) && (
                final(self).model(),
                action_models(final(actions)@),
                result,
                ) == after(
                    action_models(old(actions)@),
                    #[trigger] header_processed(
                        old(self).env(),
                        old(self).model(),
                        header.model(),
                        facts,
                    ),
                ),
    {
        let facts = self.judge(header, stored);
        self.process_header(header, &facts, actions)
    }

    /// Starts collecting votes for a header of our own; the QCs that it carries
    /// are checked first.
    pub fn propose_header(&mut self, header: &Header, stored: Stored, actions: &mut Vec<Action>) -> (
        result: DagResult<()>)
        requires
            old(self).wf(),
            stored.payload@.len() == header.payload.pairs().len(),
        ensures
            final(self).wf(),
            final(self).same_setup(old(self)),
            exists|facts: FactsModel|
                facts_possible(
                    &old(self).env().committee,
                    header.model(),
                    stored.model(),
                    facts,
                ) && (
                final(self).model(),
                action_models(final(actions)@),
                result,
                ) == after(
                    action_models(old(actions)@),
                    #[trigger] own_header_processed(
                        old(self).env(),
                        old(self).model(),
                        header.model(),
                        facts,
                    ),
                ),
    {
        let facts = self.judge(header, stored);
        self.process_own_header(header, &facts, actions)
    }

    /// The command to fetch a header that the consensus layer asks for.
    pub fn fetch_header(&self, header_digest: Digest, actions: &mut Vec<Action>)
        ensures
            action_models(final(actions)@) == action_models(old(actions)@).push(
                ActionModel::Wait(WaiterModel::SyncHeader(header_digest)),
            ),
    {
        let command = self.synchronizer.fetch_header(header_digest);
        emit(actions, Action::Wait(command));
    }

    /// The committee, for actions that send to its members.
    pub fn committee(&self) -> (committee: &Committee)
        ensures
            *committee == self.env().committee,
    {
        &self.committee
    }
}

/// Whether `valid` is a possible verdict on the QC of a consensus message: that
/// of a verification of the QC. A Prepare has no QC to fail.
pub open spec fn verdict_possible(message: MessageModel, committee: &Committee, valid: bool) -> bool {
    match message.qc {
        Some(qc) => exists|result: ConsensusResult<()>| #[trigger]
            qc_answer(qc, committee, result) && valid == (result is Ok),
        None => valid,
    }
}

/// Whether facts about a header agree with what is stored, and its QCs were
/// judged as a verification of each may answer.
pub open spec fn facts_possible(
    committee: &Committee,
    header: HeaderModel,
    stored: FactsModel,
    facts: FactsModel,
) -> bool {
    &&& facts.payload == stored.payload
    &&& facts.parent == stored.parent
    &&& facts.known == stored.known
    &&& facts.qc_valid.len() == header.consensus_messages.len()
    &&& forall|i: int|
        0 <= i < facts.qc_valid.len() ==> verdict_possible(
            (#[trigger] header.consensus_messages[i]).1,
            committee,
            facts.qc_valid[i],
        )
}

/// The outcome of a step that started with actions already listed.
pub open spec fn after(
    before: Seq<ActionModel>,
    step: (CoreModel, Seq<ActionModel>, DagResult<()>),
) -> (CoreModel, Seq<ActionModel>, DagResult<()>) {
    (step.0, before + step.1, step.2)
}

/// Whether `result` is what is answered about a certificate before it is
/// processed: one below the garbage collector's round is too old, and others
/// are verified.
pub open spec fn certificate_sane(
    env: CoreEnv,
    s: CoreModel,
    certificate: CertificateModel,
    result: DagResult<()>,
) -> bool {
    if s.gc_round > certificate.height {
        result == Err::<(), DagError>(
            DagError::CertificateTooOld(
                digest_of(vote_bytes(certificate.header_digest, certificate.height)),
                certificate.height,
            ),
        )
    } else {
        certificate_answer(certificate, &env.committee, result)
    }
}

/// Whether a message from another primary leads from state `s` to `t`, with the
/// actions, listed after those of `before`, and the result given.
pub open spec fn handled(
    env: CoreEnv,
    s: CoreModel,
    before: Seq<ActionModel>,
    message: PrimaryMessage,
    facts: FactsModel,
    t: CoreModel,
    actions: Seq<ActionModel>,
    result: DagResult<()>,
) -> bool {
    match message {
        PrimaryMessage::Header(header) => {
            let sane = header_sane(env, s, header.model());
            if sane is Err {
                t == s && actions == before && result == sane
            } else {
                (t, actions, result) == after(
                    before,
                    header_processed(env, s, header.model(), facts),
                )
            }
        },
        PrimaryMessage::Vote(vote) => {
            let sane = vote_verdict(vote.model(), &env.committee);
            if sane is Err {
                t == s && actions == before && result == sane
            } else {
                (t, actions, result) == after(before, vote_processed(env, s, vote.model()))
            }
        },
        PrimaryMessage::Certificate(certificate) => {
            &&& t == s
            &&& certificate_sane(env, s, certificate.model(), result)
            &&& actions == (if result is Ok {
                before.push(ActionModel::StoreCertificate(certificate.model()))
            } else {
                before
            })
        },
        PrimaryMessage::Timeout(timeout) => (t, actions, result) == after(
            before,
            timeout_processed(env, s, timeout.model()),
        ),
        PrimaryMessage::TC(tc) => {
            &&& t == s
            &&& actions == before + tc_processed(env, s, tc.model())
            &&& result is Ok
        },
        PrimaryMessage::ConsensusMessage(consensus_message) => {
            let (s1, more) = message_forwarded(env, s, consensus_message.model(), facts.known);
            t == s1 && actions == before + more && result is Ok
        },
    }
}

/// Looking a message up and taking its value is the same as taking the values
/// and looking it up.
proof fn lemma_message_lookup(pairs: Seq<(Digest, ConsensusMessage)>, digest: Digest)
    requires
        sorted(pairs),
    ensures
        has_key(message_models(pairs), digest) == as_map(pairs).contains_key(digest),
        as_map(pairs).contains_key(digest) ==> as_map(message_models(pairs))[digest] == as_map(
            pairs,
        )[digest].model(),
{
    let models = message_models(pairs);
    assert(sorted(models)) by {
        assert forall|i: int, j: int| 0 <= i < j < models.len() implies (#[trigger] models[i]).0.rank()
            < (#[trigger] models[j]).0.rank() by {
            assert(pairs[i].0.rank() < pairs[j].0.rank());
        }
    }
    lemma_as_map(pairs);
    lemma_as_map(models);
    if as_map(pairs).contains_key(digest) {
        let i = choose|i: int|
            0 <= i < pairs.len() && (#[trigger] pairs[i]).0 == digest && as_map(pairs)[digest]
                == pairs[i].1;
        assert(models[i].0 == digest);
        assert(as_map(models).contains_key(models[i].0));
        assert(as_map(models)[models[i].0] == models[i].1);
    }
    if has_key(models, digest) {
        assert(as_map(models).contains_key(digest));
        let i = choose|i: int| 0 <= i < models.len() && (#[trigger] models[i]).0 == digest;
        assert(as_map(pairs).contains_key(pairs[i].0));
    }
}

/// Counting stops at the first error.
proof fn lemma_count_stops(
    env: CoreEnv,
    s: CoreModel,
    author: PublicKey,
    sigs: Seq<(Digest, Signature)>,
    n: int,
)
    requires
        0 <= n <= sigs.len(),
        signatures_counted(env, s, author, sigs.take(n)).2 is Err,
    ensures
        signatures_counted(env, s, author, sigs) == signatures_counted(
            env,
            s,
            author,
            sigs.take(n),
        ),
    decreases sigs.len(),
{
    if n == sigs.len() {
        assert(sigs.take(n) =~= sigs);
    } else {
        assert(sigs.drop_last().take(n) =~= sigs.take(n));
        lemma_count_stops(env, s, author, sigs.drop_last(), n);
    }
}

} // verus!
