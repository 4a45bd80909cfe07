//! The state of the primary's core and what each event makes of it.
//!
//! Everything here is a mathematical value: the executable core in
//! [`crate::primary::header_core`] is proved to follow these definitions.

use crate::collections::{as_map, has_key, listing, Pair};
use crate::config::{leader_in, Committee};
use crate::crypto::{
    digest_of, signature_with, signer_output, Digest, PublicKey, Signature,
};
use crate::primary::aggregators::{
    aggregated, empty_aggregator, empty_qc_maker, empty_tc_maker, timed_out, voted,
    AggregatorModel, QcMakerModel, TcMakerModel,
};
use crate::primary::error::{DagError, DagResult, Height, Slot, ViewNumber};
use crate::primary::messages::{
    header_id, header_verdict, message_bytes, tc_verdict, timeout_verdict, vote_bytes, winner, Certificate,
    CertificateModel, ConsensusMessage, Header, HeaderModel, MessageKind, MessageModel, Proposal,
    ProposalList, QcModel, TcModel, Timeout, TimeoutModel, Vote, VoteModel, TC,
};
use crate::primary::synchronizer::{
    missing_batches, missing_proposals, proposals_ready, WaiterMessage, WaiterModel,
};
use crate::quorum::{voters, weight};
use vstd::prelude::*;

verus! {

/// Something that the core asks to be done, in the order asked.
pub enum Action {
    /// Store a header under its digest.
    StoreHeader(Header),
    /// Store a certificate under its digest.
    StoreCertificate(Certificate),
    /// Send our header to all other primaries.
    BroadcastHeader(Header),
    /// Send a vote to the primary of an authority.
    SendVote(PublicKey, Vote),
    /// Send a consensus message to the primary of an authority.
    Forward(PublicKey, ConsensusMessage),
    /// Send our timeout to all others.
    BroadcastTimeout(Timeout),
    /// Send a timeout certificate to all others.
    BroadcastTc(TC),
    /// Hand a consensus message to the proposer, for our next header.
    Propose(ConsensusMessage),
    /// Hand a decided consensus message to the committer.
    Commit(ConsensusMessage),
    /// Hand the certificate of our last header to the proposer.
    SendParent(Certificate),
    /// Start the timer of a view of a slot.
    StartTimer(Slot, ViewNumber),
    /// Fetch missing data.
    Wait(WaiterMessage),
}

/// An action as a value.
#[verifier::ext_equal]
pub enum ActionModel {
    StoreHeader(HeaderModel),
    StoreCertificate(CertificateModel),
    BroadcastHeader(HeaderModel),
    SendVote(PublicKey, VoteModel),
    Forward(PublicKey, MessageModel),
    BroadcastTimeout(TimeoutModel),
    BroadcastTc(TcModel),
    Propose(MessageModel),
    Commit(MessageModel),
    SendParent(CertificateModel),
    StartTimer(Slot, ViewNumber),
    Wait(WaiterModel),
}

impl Action {
    /// The action as a value.
    pub open spec fn model(self) -> ActionModel {
        match self {
            Action::StoreHeader(header) => ActionModel::StoreHeader(header.model()),
            Action::StoreCertificate(certificate) => ActionModel::StoreCertificate(
                certificate.model(),
            ),
            Action::BroadcastHeader(header) => ActionModel::BroadcastHeader(header.model()),
            Action::SendVote(to, vote) => ActionModel::SendVote(to, vote.model()),
            Action::Forward(to, message) => ActionModel::Forward(to, message.model()),
            Action::BroadcastTimeout(timeout) => ActionModel::BroadcastTimeout(timeout.model()),
            Action::BroadcastTc(tc) => ActionModel::BroadcastTc(tc.model()),
            Action::Propose(message) => ActionModel::Propose(message.model()),
            Action::Commit(message) => ActionModel::Commit(message.model()),
            Action::SendParent(certificate) => ActionModel::SendParent(certificate.model()),
            Action::StartTimer(slot, view) => ActionModel::StartTimer(slot, view),
            Action::Wait(command) => ActionModel::Wait(command.model()),
        }
    }
}

/// The actions as values.
pub open spec fn action_models(actions: Seq<Action>) -> Seq<ActionModel> {
    Seq::new(actions.len(), |i: int| actions[i].model())
}

/// What the core is set up with.
pub struct CoreEnv {
    /// The public key of this primary.
    pub name: PublicKey,
    pub committee: Committee,
    /// The order in which authorities lead.
    pub order: Seq<PublicKey>,
    /// Whether signatures are zeros.
    pub disabled: bool,
    /// The key pair that signs.
    pub keypair: Seq<u8>,
    /// The digest of the genesis header.
    pub genesis: Digest,
}

/// What the core remembers.
#[verifier::ext_equal]
pub struct CoreModel {
    /// The last garbage collected round.
    pub gc_round: Height,
    /// The authors whose headers we voted for, by height.
    pub last_voted: Map<Height, Set<PublicKey>>,
    /// The last header we proposed, for which we are collecting votes.
    pub current_header: HeaderModel,
    /// Whether its certificate went to the proposer.
    pub sent_cert: bool,
    /// The votes for it.
    pub aggregator: AggregatorModel,
    /// The highest header of every authority.
    pub tips: ProposalList,
    /// The view that we are in, by slot.
    pub views: Map<Slot, ViewNumber>,
    /// The slots and views whose timer was started.
    pub timers: Set<Pair>,
    /// The slots and views whose Prepare we voted for.
    pub voted_instances: Set<Pair>,
    /// The latest Confirm, by slot.
    pub qcs: Map<Slot, MessageModel>,
    /// The votes for consensus messages, by digest.
    pub qc_makers: Map<Digest, QcMakerModel>,
    /// How many messages of the current header got a QC.
    pub qcs_formed: usize,
    /// The timeouts, by slot and view.
    pub tc_makers: Map<Pair, TcMakerModel>,
    /// Prepares that wait for enough new tips before the next slot is proposed.
    pub tickets: Seq<MessageModel>,
    /// The slots that we proposed.
    pub proposed: Set<Slot>,
}

/// The number after `x`, starting over behind the last.
pub open spec fn next(x: u64) -> u64 {
    x.wrapping_add(1)
}

/// The leader of a view of a slot.
pub open spec fn leader(env: CoreEnv, slot: Slot, view: ViewNumber) -> PublicKey {
    leader_in(env.order, slot as nat + view as nat)
}

/// Our signature over a digest.
pub open spec fn own_signature(env: CoreEnv, digest: Digest) -> Signature {
    signature_with(signer_output(env.disabled, env.keypair, digest@))
}

/// The digest of a consensus message.
pub open spec fn message_digest(message: MessageModel) -> Digest {
    digest_of(message_bytes(message))
}

/// How many of `tips` are higher than the proposal for the same authority.
pub open spec fn coverage(proposals: ProposalList, tips: ProposalList) -> nat
    decreases tips.len(),
{
    if tips.len() == 0 {
        0
    } else {
        coverage(proposals, tips.drop_last()) + (if has_key(proposals, tips.last().0)
            && tips.last().1.height > as_map(proposals)[tips.last().0].height {
            1nat
        } else {
            0nat
        })
    }
}

/// The Prepare for the first view of a slot.
pub open spec fn first_prepare(slot: Slot, proposals: ProposalList) -> MessageModel {
    MessageModel { kind: MessageKind::Prepare, slot, view: 1, tc: None, qc: None, proposals }
}

/// What is made of a Prepare as a ticket for the next slot: it is passed on to
/// the leader of that slot; the leader proposes the slot once enough tips are
/// new. Answers whether the ticket is used up.
pub open spec fn ticket_checked(env: CoreEnv, s: CoreModel, message: MessageModel) -> (
    CoreModel,
    Seq<ActionModel>,
    bool,
) {
    let slot = next(message.slot);
    if message.kind != MessageKind::Prepare {
        (s, Seq::empty(), true)
    } else if env.name != leader(env, slot, 1) {
        (s, seq![ActionModel::Forward(leader(env, slot, 1), message)], true)
    } else if s.proposed.contains(slot) {
        (s, Seq::empty(), true)
    } else if coverage(message.proposals, s.tips) >= env.committee.quorum() {
        (
            CoreModel {
                proposed: s.proposed.insert(slot),
                tickets: if s.tickets.len() > 0 {
                    s.tickets.drop_first()
                } else {
                    s.tickets
                },
                ..s
            },
            seq![ActionModel::Propose(first_prepare(slot, s.tips))],
            true,
        )
    } else {
        (s, Seq::empty(), false)
    }
}

/// Whether a Prepare proposes what its ticket asks for. Without a ticket, only
/// the first view may be proposed. A ticket is a valid TC of the previous view
/// of the same slot.
pub open spec fn ticket_valid(committee: &Committee, message: MessageModel) -> bool {
    match message.tc {
        Some(tc) => {
            let winning = winner(tc.timeouts).proposals;
            &&& tc.slot == message.slot
            &&& next(tc.view) == message.view
            &&& tc_verdict(tc, committee) is Ok
            &&& winning.len() > 0 ==> forall|i: int|
                0 <= i < message.proposals.len() ==> has_key(
                    winning,
                    (#[trigger] message.proposals[i]).0,
                ) && as_map(winning)[message.proposals[i].0] == message.proposals[i].1
        },
        None => message.view == 1,
    }
}

/// Whether we may vote for a consensus message: we are in its view, its QC or
/// ticket is valid, and we did not vote for a Prepare of that view before. A
/// Prepare for an unknown slot puts us in its first view.
pub open spec fn message_valid(
    env: CoreEnv,
    s: CoreModel,
    message: MessageModel,
    qc_valid: bool,
) -> (CoreModel, bool) {
    if message.kind == MessageKind::Prepare {
        let s1 = if s.views.contains_key(message.slot) {
            s
        } else {
            CoreModel { views: s.views.insert(message.slot, 1), ..s }
        };
        (
            s1,
            !s.voted_instances.contains(Pair { first: message.slot, second: message.view })
                && ticket_valid(&env.committee, message) && s1.views[message.slot] == message.view,
        )
    } else {
        (
            s,
            qc_valid && s.views.contains_key(message.slot) && s.views[message.slot]
                == message.view,
        )
    }
}

/// Commands as actions.
pub open spec fn waits(commands: Seq<WaiterModel>) -> Seq<ActionModel> {
    Seq::new(commands.len(), |i: int| ActionModel::Wait(commands[i]))
}

/// The commands to fetch the proposals of a message that are not stored.
pub open spec fn fetch_proposals(message: MessageModel, known: Map<Digest, ()>) -> Seq<ActionModel> {
    waits(missing_proposals(message, message.proposals, known))
}

/// Our vote for a consensus message.
pub open spec fn message_vote(env: CoreEnv, message: MessageModel) -> (Digest, Signature) {
    (message_digest(message), own_signature(env, message_digest(message)))
}

/// Keeps a Prepare whose ticket is not used up, behind the others.
pub open spec fn ticket_queued(env: CoreEnv, s: CoreModel, message: MessageModel) -> (
    CoreModel,
    Seq<ActionModel>,
) {
    let (s1, actions, ready) = ticket_checked(env, s, message);
    if ready {
        (s1, actions)
    } else {
        (CoreModel { tickets: s1.tickets.push(message), ..s1 }, actions)
    }
}

/// Voting for a Prepare: it is a ticket for the next slot, whose timer starts.
pub open spec fn prepare_accepted(env: CoreEnv, s: CoreModel, message: MessageModel) -> (
    CoreModel,
    Seq<ActionModel>,
) {
    let (s1, actions) = ticket_queued(env, s, message);
    let timer = Pair { first: next(message.slot), second: 1 };
    let (s2, more) = if s1.timers.contains(timer) {
        (s1, Seq::empty())
    } else {
        (
            CoreModel { timers: s1.timers.insert(timer), ..s1 },
            seq![ActionModel::StartTimer(timer.first, timer.second)],
        )
    };
    (
        CoreModel {
            voted_instances: s2.voted_instances.insert(
                Pair { first: message.slot, second: message.view },
            ),
            ..s2
        },
        actions + more,
    )
}

/// A Commit goes to the committer if its proposals are stored.
pub open spec fn commit_accepted(message: MessageModel, known: Map<Digest, ()>) -> Seq<
    ActionModel,
> {
    fetch_proposals(message, known) + (if proposals_ready(message, known) {
        seq![ActionModel::Commit(message)]
    } else {
        Seq::empty()
    })
}

/// What a consensus message that another replica passed on makes of the state:
/// a Prepare is a ticket for the next slot, a Commit goes to the committer, and
/// a Confirm changes nothing.
pub open spec fn message_forwarded(
    env: CoreEnv,
    s: CoreModel,
    message: MessageModel,
    known: Map<Digest, ()>,
) -> (CoreModel, Seq<ActionModel>) {
    match message.kind {
        MessageKind::Prepare => ticket_queued(env, s, message),
        MessageKind::Confirm => (s, Seq::empty()),
        MessageKind::Commit => (s, commit_accepted(message, known)),
    }
}

/// What one consensus message of a header makes of the state, what is to be
/// done, and our vote for it, if any.
pub open spec fn message_processed(
    env: CoreEnv,
    s: CoreModel,
    message: MessageModel,
    qc_valid: bool,
    known: Map<Digest, ()>,
) -> (CoreModel, Seq<ActionModel>, Seq<(Digest, Signature)>) {
    let (s1, valid) = message_valid(env, s, message, qc_valid);
    if !valid {
        (s1, Seq::empty(), Seq::empty())
    } else {
        match message.kind {
            MessageKind::Prepare => {
                let (s2, actions) = prepare_accepted(env, s1, message);
                (s2, actions, seq![message_vote(env, message)])
            },
            MessageKind::Confirm => (
                CoreModel { qcs: s1.qcs.insert(message.slot, message), ..s1 },
                fetch_proposals(message, known),
                seq![message_vote(env, message)],
            ),
            MessageKind::Commit => (s1, commit_accepted(message, known), Seq::empty()),
        }
    }
}

/// The same for all consensus messages of a header, in order. `verdicts` tells
/// for each whether its QC is valid.
pub open spec fn messages_processed(
    env: CoreEnv,
    s: CoreModel,
    messages: Seq<(Digest, MessageModel)>,
    verdicts: Seq<bool>,
    known: Map<Digest, ()>,
) -> (CoreModel, Seq<ActionModel>, Seq<(Digest, Signature)>)
    decreases messages.len(),
{
    if messages.len() == 0 {
        (s, Seq::empty(), Seq::empty())
    } else {
        let (s1, actions, sigs) = messages_processed(
            env,
            s,
            messages.drop_last(),
            verdicts,
            known,
        );
        let (s2, more, vote) = message_processed(
            env,
            s1,
            messages.last().1,
            verdicts[messages.len() - 1],
            known,
        );
        (s2, actions + more, sigs + vote)
    }
}

/// Whether all Prepares of a header have their proposals stored, and commands
/// to fetch those of the first one that has not.
pub open spec fn messages_ready(messages: Seq<(Digest, MessageModel)>, known: Map<Digest, ()>) -> (
    bool,
    Seq<ActionModel>,
)
    decreases messages.len(),
{
    if messages.len() == 0 {
        (true, Seq::empty())
    } else {
        let (ready, actions) = messages_ready(messages.drop_last(), known);
        let message = messages.last().1;
        if ready && message.kind == MessageKind::Prepare {
            (proposals_ready(message, known), actions + fetch_proposals(message, known))
        } else {
            (ready, actions)
        }
    }
}

/// The next step of a consensus instance whose message got a QC: a Prepare is
/// confirmed, together with the header that carried it, and a Confirm is
/// committed.
pub open spec fn follow_up(env: CoreEnv, header: HeaderModel, message: MessageModel, qc: QcModel) -> Seq<
    ActionModel,
> {
    match message.kind {
        MessageKind::Prepare => seq![
            ActionModel::Propose(
                MessageModel {
                    kind: MessageKind::Confirm,
                    slot: message.slot,
                    view: message.view,
                    tc: None,
                    qc: Some(qc),
                    proposals: listing(
                        as_map(message.proposals).insert(
                            env.name,
                            Proposal {
                                header_digest: header_id(
                                    header.author,
                                    header.height,
                                    header.payload,
                                ),
                                height: header.height,
                            },
                        ),
                    ),
                },
            ),
        ],
        MessageKind::Confirm => seq![
            ActionModel::Propose(
                MessageModel {
                    kind: MessageKind::Commit,
                    slot: message.slot,
                    view: message.view,
                    tc: None,
                    qc: Some(qc),
                    proposals: message.proposals,
                },
            ),
        ],
        MessageKind::Commit => Seq::empty(),
    }
}

/// What one vote for a consensus message makes of the state.
pub open spec fn signature_counted(
    env: CoreEnv,
    s: CoreModel,
    author: PublicKey,
    digest: Digest,
    signature: Signature,
) -> (CoreModel, Seq<ActionModel>, DagResult<()>) {
    let maker = if s.qc_makers.contains_key(digest) {
        s.qc_makers[digest]
    } else {
        empty_qc_maker()
    };
    let (maker1, answer) = voted(maker, author, digest, signature, &env.committee);
    let s1 = CoreModel { qc_makers: s.qc_makers.insert(digest, maker1), ..s };
    match answer {
        Err(e) => (s1, Seq::empty(), Err(e)),
        Ok((_, None)) => (s1, Seq::empty(), Ok(())),
        Ok((_, Some(qc))) => {
            let actions = if has_key(s.current_header.consensus_messages, digest) {
                follow_up(
                    env,
                    s.current_header,
                    as_map(s.current_header.consensus_messages)[digest],
                    qc,
                )
            } else {
                Seq::empty()
            };
            (
                CoreModel { qcs_formed: s1.qcs_formed.wrapping_add(1), ..s1 },
                actions,
                Ok(()),
            )
        },
    }
}

/// The same for all consensus votes of a vote, in order, up to the first that
/// is an error.
pub open spec fn signatures_counted(
    env: CoreEnv,
    s: CoreModel,
    author: PublicKey,
    sigs: Seq<(Digest, Signature)>,
) -> (CoreModel, Seq<ActionModel>, DagResult<()>)
    decreases sigs.len(),
{
    if sigs.len() == 0 {
        (s, Seq::empty(), Ok(()))
    } else {
        let (s1, actions, result) = signatures_counted(env, s, author, sigs.drop_last());
        if result is Err {
            (s1, actions, result)
        } else {
            let (s2, more, result2) = signature_counted(
                env,
                s1,
                author,
                sigs.last().0,
                sigs.last().1,
            );
            (s2, actions + more, result2)
        }
    }
}

/// What a vote makes of the state. Votes for other headers than the current
/// one are ignored. The certificate of the current header goes to the proposer
/// once: with consensus messages in the header when each of them got a QC,
/// without any as soon as there is a certificate.
pub open spec fn vote_processed(env: CoreEnv, s: CoreModel, vote: VoteModel) -> (
    CoreModel,
    Seq<ActionModel>,
    DagResult<()>,
) {
    if vote.id != s.current_header.id {
        (s, Seq::empty(), Ok(()))
    } else {
        let (s1, actions, result) = signatures_counted(env, s, vote.author, vote.consensus_sigs);
        if result is Err {
            (s1, actions, result)
        } else {
            let (aggregator, answer) = aggregated(s1.aggregator, vote, &env.committee);
            let s2 = CoreModel { aggregator, ..s1 };
            match answer {
                Err(e) => (s2, actions, Err(e)),
                Ok(_) => {
                    let messages = s2.current_header.consensus_messages;
                    let ready = if messages.len() == 0 {
                        true
                    } else {
                        s2.qcs_formed == messages.len()
                    };
                    if !s2.sent_cert && ready && aggregator.cert is Some {
                        (
                            CoreModel { sent_cert: true, qcs_formed: 0, ..s2 },
                            actions.push(ActionModel::SendParent(aggregator.cert->0)),
                            Ok(()),
                        )
                    } else {
                        (s2, actions, Ok(()))
                    }
                },
            }
        }
    }
}

/// What is stored, as far as a header refers to it, and which QCs are valid.
#[verifier::ext_equal]
pub struct FactsModel {
    /// For each batch of the header, whether it is stored.
    pub payload: Seq<bool>,
    /// Whether the parent header is stored.
    pub parent: bool,
    /// The stored headers among those that consensus messages propose.
    pub known: Map<Digest, ()>,
    /// For each consensus message, whether its QC is valid.
    pub qc_valid: Seq<bool>,
}

/// Whether an author's header is higher than the tip that we know.
pub open spec fn is_new_tip(s: CoreModel, header: HeaderModel) -> bool {
    has_key(s.tips, header.author) && header.height > as_map(s.tips)[header.author].height
}

/// A higher header of an author becomes its tip, and the first waiting ticket
/// is checked again.
pub open spec fn tip_updated(env: CoreEnv, s: CoreModel, header: HeaderModel) -> (
    CoreModel,
    Seq<ActionModel>,
) {
    if is_new_tip(s, header) {
        let s1 = CoreModel {
            tips: listing(
                as_map(s.tips).insert(
                    header.author,
                    Proposal {
                        header_digest: header_id(header.author, header.height, header.payload),
                        height: header.height,
                    },
                ),
            ),
            ..s
        };
        if s1.tickets.len() > 0 {
            let ticket = s1.tickets[0];
            let (s2, actions, ready) = ticket_checked(
                env,
                CoreModel { tickets: s1.tickets.drop_first(), ..s1 },
                ticket,
            );
            if ready {
                (s2, actions)
            } else {
                (CoreModel { tickets: seq![ticket] + s2.tickets, ..s2 }, actions)
            }
        } else {
            (s1, Seq::empty())
        }
    } else {
        (s, Seq::empty())
    }
}

/// The authors whose headers at a height we voted for.
pub open spec fn voted_at(s: CoreModel, height: Height) -> Set<PublicKey> {
    if s.last_voted.contains_key(height) {
        s.last_voted[height]
    } else {
        Set::empty()
    }
}

/// Voting for a header: at most one of each author at each height. Our own vote
/// is counted at once, others go to the author.
pub open spec fn header_voted(env: CoreEnv, s: CoreModel, header: HeaderModel, facts: FactsModel) -> (
    CoreModel,
    Seq<ActionModel>,
    DagResult<()>,
) {
    let authors = voted_at(s, header.height);
    let s1 = CoreModel {
        last_voted: s.last_voted.insert(header.height, authors.insert(header.author)),
        ..s
    };
    if authors.contains(header.author) {
        (s1, Seq::empty(), Ok(()))
    } else {
        let (s2, actions, sigs) = messages_processed(
            env,
            s1,
            header.consensus_messages,
            facts.qc_valid,
            facts.known,
        );
        let vote = header_vote(env, header, sigs);
        if header.author == env.name {
            let (s3, more, result) = vote_processed(env, s2, vote);
            (s3, actions + more, result)
        } else {
            (s2, actions.push(ActionModel::SendVote(header.author, vote)), Ok(()))
        }
    }
}

/// Our vote for a header.
pub open spec fn header_vote(
    env: CoreEnv,
    header: HeaderModel,
    consensus_sigs: Seq<(Digest, Signature)>,
) -> VoteModel {
    VoteModel {
        id: header.id,
        height: header.height,
        origin: header.author,
        author: env.name,
        signature: own_signature(env, digest_of(vote_bytes(header.id, header.height))),
        consensus_sigs,
    }
}

/// Why the parent of a header is not acceptable, if it is not.
pub open spec fn parent_fault(env: CoreEnv, header: HeaderModel) -> Option<DagError> {
    let parent = header.parent_cert;
    if parent.height + 1 != header.height {
        Some(DagError::MalformedHeader(header.id))
    } else if weight(&env.committee, voters(parent.votes)) < env.committee.validity()
        && parent.height != 0 {
        Some(DagError::HeaderRequiresQuorum(header.id))
    } else {
        None
    }
}

/// What a header makes of the state. Processing is put off, without a trace in
/// the state, while the payload, the parent or the proposals of a Prepare are
/// missing.
pub open spec fn header_processed(
    env: CoreEnv,
    s: CoreModel,
    header: HeaderModel,
    facts: FactsModel,
) -> (CoreModel, Seq<ActionModel>, DagResult<()>) {
    let missing = missing_batches(header.payload, facts.payload);
    let (ready, fetches) = messages_ready(header.consensus_messages, facts.known);
    if parent_fault(env, header) is Some {
        (s, Seq::empty(), Err(parent_fault(env, header)->0))
    } else if header.author != env.name && missing.len() > 0 {
        (s, seq![ActionModel::Wait(WaiterModel::SyncBatches(missing, header))], Ok(()))
    } else if header.parent_cert.header_digest != env.genesis && !facts.parent {
        (s, Seq::empty(), Ok(()))
    } else if !ready {
        (s, fetches, Ok(()))
    } else {
        let (s1, tip_actions) = tip_updated(env, s, header);
        let (s2, vote_actions, result) = header_voted(env, s1, header, facts);
        (
            s2,
            fetches + seq![ActionModel::StoreHeader(header)] + tip_actions + seq![
                ActionModel::StoreCertificate(header.parent_cert),
            ] + vote_actions,
            result,
        )
    }
}

/// A header of our own: we start collecting votes for it, and everyone gets it.
pub open spec fn own_header_processed(
    env: CoreEnv,
    s: CoreModel,
    header: HeaderModel,
    facts: FactsModel,
) -> (CoreModel, Seq<ActionModel>, DagResult<()>) {
    let s1 = CoreModel {
        current_header: header,
        sent_cert: false,
        aggregator: empty_aggregator(),
        ..s
    };
    let (s2, actions, result) = header_processed(env, s1, header, facts);
    (s2, seq![ActionModel::BroadcastHeader(header)] + actions, result)
}

/// The Prepare by which the leader of the next view carries on from a TC.
pub open spec fn prepare_from_tc(s: CoreModel, tc: TcModel) -> MessageModel {
    let winning = winner(tc.timeouts).proposals;
    MessageModel {
        kind: MessageKind::Prepare,
        slot: tc.slot,
        view: next(tc.view),
        tc: Some(tc),
        qc: None,
        proposals: if winning.len() == 0 {
            s.tips
        } else {
            winning
        },
    }
}

/// The leader of the view after a TC proposes it.
pub open spec fn tc_processed(env: CoreEnv, s: CoreModel, tc: TcModel) -> Seq<ActionModel> {
    if env.name == leader(env, tc.slot, next(tc.view)) {
        seq![ActionModel::Propose(prepare_from_tc(s, tc))]
    } else {
        Seq::empty()
    }
}

/// What a timeout makes of the state. Timeouts of views that we left are
/// ignored. A quorum of timeouts takes us to the next view.
pub open spec fn timeout_processed(env: CoreEnv, s: CoreModel, timeout: TimeoutModel) -> (
    CoreModel,
    Seq<ActionModel>,
    DagResult<()>,
) {
    if s.views.contains_key(timeout.slot) && timeout.view < s.views[timeout.slot] {
        (s, Seq::empty(), Ok(()))
    } else if timeout_verdict(timeout, &env.committee) is Err {
        (s, Seq::empty(), timeout_verdict(timeout, &env.committee))
    } else {
        let place = Pair { first: timeout.slot, second: timeout.view };
        let maker = if s.tc_makers.contains_key(place) {
            s.tc_makers[place]
        } else {
            empty_tc_maker()
        };
        let (maker1, answer) = timed_out(maker, timeout, &env.committee);
        let s1 = CoreModel { tc_makers: s.tc_makers.insert(place, maker1), ..s };
        match answer {
            Err(e) => (s1, Seq::empty(), Err(e)),
            Ok(None) => (s1, Seq::empty(), Ok(())),
            Ok(Some(tc)) => {
                let s2 = CoreModel {
                    views: s1.views.insert(timeout.slot, next(timeout.view)),
                    timers: s1.timers.insert(Pair { first: tc.slot, second: next(tc.view) }),
                    ..s1
                };
                (
                    s2,
                    seq![
                        ActionModel::StartTimer(tc.slot, next(tc.view)),
                        ActionModel::BroadcastTc(tc),
                    ] + tc_processed(env, s2, tc),
                    Ok(()),
                )
            },
        }
    }
}

/// Our timeout for a view of a slot, with the highest QC that we know.
pub open spec fn own_timeout(env: CoreEnv, s: CoreModel, slot: Slot, view: ViewNumber) -> TimeoutModel {
    TimeoutModel {
        slot,
        view,
        high_qc: if s.qcs.contains_key(slot) {
            Some(s.qcs[slot])
        } else {
            None
        },
        author: env.name,
        signature: own_signature(env, digest_of(Seq::empty())),
    }
}

/// What a timer that fired makes of the state: unless we left the view, we tell
/// everyone that it timed out.
pub open spec fn timer_fired(env: CoreEnv, s: CoreModel, slot: Slot, view: ViewNumber) -> (
    CoreModel,
    Seq<ActionModel>,
    DagResult<()>,
) {
    if s.views.contains_key(slot) && s.views[slot] > view {
        (s, Seq::empty(), Ok(()))
    } else {
        let timeout = own_timeout(env, s, slot, view);
        let (s1, actions, result) = timeout_processed(env, s, timeout);
        (s1, seq![ActionModel::BroadcastTimeout(timeout)] + actions, result)
    }
}

/// What is left of the votes remembered when rounds below `round` are dropped.
pub open spec fn votes_since(last_voted: Map<Height, Set<PublicKey>>, round: Height) -> Map<
    Height,
    Set<PublicKey>,
> {
    last_voted.remove_keys(Set::new(|height: Height| height < round))
}

/// What the garbage collector makes of the state when consensus is at `round`.
pub open spec fn collected(s: CoreModel, round: Height, gc_depth: Height) -> CoreModel {
    if round > gc_depth {
        let gc_round = (round - gc_depth) as u64;
        CoreModel { gc_round, last_voted: votes_since(s.last_voted, gc_round), ..s }
    } else {
        s
    }
}

/// Whether a header may be processed at all.
pub open spec fn header_sane(env: CoreEnv, s: CoreModel, header: HeaderModel) -> DagResult<()> {
    if s.gc_round > header.height {
        Err(DagError::HeaderTooOld(header.id, header.height))
    } else {
        header_verdict(header, &env.committee)
    }
}

} // verus!
