//! What the core of the primary keeps to, whatever happens.

use crate::collections::{
    as_map, has_key, lemma_as_map, lemma_listing_insert, sorted, Pair,
};
use crate::config::Committee;
use crate::crypto::{Digest, PublicKey, Signature};
use crate::primary::error::{Height, Slot, ViewNumber};
use crate::primary::messages::{
    header_id, tc_verdict, winner, HeaderModel, MessageKind, MessageModel, Proposal, TcModel, TimeoutModel,
    VoteModel,
};
use crate::primary::state::{
    collected, commit_accepted, header_processed, header_voted, message_processed,
    messages_processed, messages_ready, next, parent_fault, prepare_from_tc, signature_counted,
    signatures_counted, ticket_checked, ticket_valid, timeout_processed, timer_fired, tip_updated,
    vote_processed, voted_at, ActionModel, CoreEnv, CoreModel, FactsModel,
};
use crate::primary::synchronizer::{missing_batches, proposals_ready};
use vstd::prelude::*;

verus! {

/// Whether a sequence of actions sends a vote for a header.
pub open spec fn sends_vote(actions: Seq<ActionModel>) -> bool {
    exists|i: int| 0 <= i < actions.len() && (#[trigger] actions[i]) is SendVote
}

/// Whether a sequence of actions hands a certificate to the proposer.
pub open spec fn sends_parent(actions: Seq<ActionModel>) -> bool {
    exists|i: int| 0 <= i < actions.len() && (#[trigger] actions[i]) is SendParent
}

/// Once we voted for a header of an author at a height, no other header of that
/// author at that height gets our vote, and seeing it changes no vote.
pub proof fn law_one_vote_per_height(
    env: CoreEnv,
    s: CoreModel,
    header: HeaderModel,
    facts: FactsModel,
)
    requires
        voted_at(s, header.height).contains(header.author),
    ensures
        header_voted(env, s, header, facts).1 == Seq::<ActionModel>::empty(),
        header_voted(env, s, header, facts).0 == s,
{
    let authors = voted_at(s, header.height);
    assert(authors.insert(header.author) =~= authors);
    assert(s.last_voted.insert(header.height, authors) =~= s.last_voted);
}

/// Voting for a header is remembered, and so is every vote before it.
pub proof fn law_votes_remembered(
    env: CoreEnv,
    s: CoreModel,
    header: HeaderModel,
    facts: FactsModel,
)
    ensures
        voted_at(header_voted(env, s, header, facts).0, header.height).contains(header.author),
        forall|height: Height, author: PublicKey| #[trigger]
            voted_at(s, height).contains(author) ==> voted_at(
                header_voted(env, s, header, facts).0,
                height,
            ).contains(author),
{
    let authors = voted_at(s, header.height);
    let s1 = CoreModel {
        last_voted: s.last_voted.insert(header.height, authors.insert(header.author)),
        ..s
    };
    let (s2, _, sigs) = messages_processed(
        env,
        s1,
        header.consensus_messages,
        facts.qc_valid,
        facts.known,
    );
    lemma_messages_frame(env, s1, header.consensus_messages, facts.qc_valid, facts.known);
    lemma_vote_frame(env, s2, crate::primary::state::header_vote(env, header, sigs));
    assert(header_voted(env, s, header, facts).0.last_voted == s1.last_voted);
}

/// Processing consensus messages leaves alone what headers and votes decide.
proof fn lemma_message_frame(
    env: CoreEnv,
    s: CoreModel,
    message: MessageModel,
    qc_valid: bool,
    known: Map<Digest, ()>,
)
    ensures
        ({
            let t = message_processed(env, s, message, qc_valid, known).0;
            &&& t.last_voted == s.last_voted
            &&& t.current_header == s.current_header
            &&& t.tips == s.tips
            &&& s.voted_instances.subset_of(t.voted_instances)
            &&& forall|slot: Slot| #[trigger]
                s.views.contains_key(slot) ==> t.views.contains_key(slot) && t.views[slot]
                    == s.views[slot]
        }),
{
}

proof fn lemma_messages_frame(
    env: CoreEnv,
    s: CoreModel,
    messages: Seq<(Digest, MessageModel)>,
    verdicts: Seq<bool>,
    known: Map<Digest, ()>,
)
    ensures
        ({
            let t = messages_processed(env, s, messages, verdicts, known).0;
            &&& t.last_voted == s.last_voted
            &&& t.current_header == s.current_header
            &&& t.tips == s.tips
            &&& s.voted_instances.subset_of(t.voted_instances)
            &&& forall|slot: Slot| #[trigger]
                s.views.contains_key(slot) ==> t.views.contains_key(slot) && t.views[slot]
                    == s.views[slot]
        }),
    decreases messages.len(),
{
    if messages.len() > 0 {
        lemma_messages_frame(env, s, messages.drop_last(), verdicts, known);
        let s1 = messages_processed(env, s, messages.drop_last(), verdicts, known).0;
        lemma_message_frame(
            env,
            s1,
            messages.last().1,
            verdicts[messages.len() - 1],
            known,
        );
    }
}

proof fn lemma_count_frame(
    env: CoreEnv,
    s: CoreModel,
    author: PublicKey,
    sigs: Seq<(Digest, Signature)>,
)
    ensures
        ({
            let (t, actions, _) = signatures_counted(env, s, author, sigs);
            &&& t.last_voted == s.last_voted
            &&& t.current_header == s.current_header
            &&& t.tips == s.tips
            &&& t.voted_instances == s.voted_instances
            &&& t.views == s.views
            &&& t.sent_cert == s.sent_cert
            &&& !sends_parent(actions)
        }),
    decreases sigs.len(),
{
    if sigs.len() > 0 {
        lemma_count_frame(env, s, author, sigs.drop_last());
        let (s1, actions, result) = signatures_counted(env, s, author, sigs.drop_last());
        let (s2, more, _) = signature_counted(env, s1, author, sigs.last().0, sigs.last().1);
        assert(!sends_parent(actions + more)) by {
            if sends_parent(actions + more) {
                let all = actions + more;
                let i = choose|i: int| 0 <= i < all.len() && (#[trigger] all[i]) is SendParent;
                if i < actions.len() {
                    assert(actions[i] is SendParent);
                } else {
                    assert(more[i - actions.len()] is SendParent);
                }
            }
        }
    }
}

proof fn lemma_vote_frame(env: CoreEnv, s: CoreModel, vote: VoteModel)
    ensures
        ({
            let t = vote_processed(env, s, vote).0;
            &&& t.last_voted == s.last_voted
            &&& t.current_header == s.current_header
            &&& t.tips == s.tips
            &&& t.voted_instances == s.voted_instances
            &&& t.views == s.views
        }),
{
    lemma_count_frame(env, s, vote.author, vote.consensus_sigs);
}

/// The certificate of a header of ours goes to the proposer at most once.
pub proof fn law_certificate_sent_once(env: CoreEnv, s: CoreModel, vote: VoteModel)
    ensures
        ({
            let (t, actions, _) = vote_processed(env, s, vote);
            &&& s.sent_cert ==> t.sent_cert && !sends_parent(actions)
            &&& sends_parent(actions) ==> t.sent_cert
        }),
{
    lemma_count_frame(env, s, vote.author, vote.consensus_sigs);
}

/// At most one Prepare of each view of each slot gets our vote: one that was
/// voted for is remembered for good, and none of that view is voted for again.
pub proof fn law_one_prepare_per_view(
    env: CoreEnv,
    s: CoreModel,
    message: MessageModel,
    qc_valid: bool,
    known: Map<Digest, ()>,
)
    requires
        message.kind == MessageKind::Prepare,
    ensures
        ({
            let place = Pair { first: message.slot, second: message.view };
            let (t, _, votes) = message_processed(env, s, message, qc_valid, known);
            &&& s.voted_instances.contains(place) ==> votes.len() == 0
            &&& votes.len() > 0 ==> t.voted_instances.contains(place)
            &&& s.voted_instances.subset_of(t.voted_instances)
        }),
{
}

/// We vote for a consensus message only in the view that we are in.
pub proof fn law_votes_in_view(
    env: CoreEnv,
    s: CoreModel,
    message: MessageModel,
    qc_valid: bool,
    known: Map<Digest, ()>,
)
    ensures
        ({
            let (t, _, votes) = message_processed(env, s, message, qc_valid, known);
            votes.len() > 0 ==> t.views.contains_key(message.slot) && t.views[message.slot]
                == message.view
        }),
{
}

/// After the first view of a slot, we vote for a Prepare only with a valid TC of
/// the previous view of that slot.
pub proof fn law_later_views_need_tc(
    env: CoreEnv,
    s: CoreModel,
    message: MessageModel,
    qc_valid: bool,
    known: Map<Digest, ()>,
)
    requires
        message.kind == MessageKind::Prepare,
        message.view > 1,
    ensures
        message_processed(env, s, message, qc_valid, known).2.len() > 0 ==> {
            &&& message.tc is Some
            &&& message.tc->0.slot == message.slot
            &&& message.tc->0.view + 1 == message.view
            &&& tc_verdict(message.tc->0, &env.committee) is Ok
        },
{
}

/// A decided message goes to the committer only when all that it commits is
/// stored.
pub proof fn law_commits_are_stored(message: MessageModel, known: Map<Digest, ()>)
    ensures
        commit_accepted(message, known).contains(ActionModel::Commit(message)) ==> proposals_ready(
            message,
            known,
        ),
        proposals_ready(message, known) ==> commit_accepted(message, known).contains(
            ActionModel::Commit(message),
        ),
{
    let actions = commit_accepted(message, known);
    let fetches = crate::primary::state::fetch_proposals(message, known);
    if actions.contains(ActionModel::Commit(message)) {
        let i = choose|i: int| 0 <= i < actions.len() && actions[i] == ActionModel::Commit(message);
        if i < fetches.len() {
            assert(fetches[i] is Wait);
        }
    }
    if proposals_ready(message, known) {
        assert(actions[fetches.len() as int] == ActionModel::Commit(message));
    }
}

/// A timeout never takes us back to an earlier view, short of the last view
/// that a number can name.
pub proof fn law_views_never_go_back(env: CoreEnv, s: CoreModel, timeout: TimeoutModel, slot: Slot)
    requires
        timeout.view < u64::MAX,
        s.views.contains_key(slot),
    ensures
        ({
            let t = timeout_processed(env, s, timeout).0;
            t.views.contains_key(slot) && s.views[slot] <= t.views[slot]
        }),
{
}

/// Headers never take us to another view of a slot that we are in.
pub proof fn law_headers_keep_views(
    env: CoreEnv,
    s: CoreModel,
    header: HeaderModel,
    facts: FactsModel,
    slot: Slot,
)
    requires
        s.views.contains_key(slot),
    ensures
        ({
            let t = header_processed(env, s, header, facts).0;
            t.views.contains_key(slot) && t.views[slot] == s.views[slot]
        }),
{
    let s1 = tip_updated(env, s, header).0;
    assert(s1.views == s.views);
    let authors = voted_at(s1, header.height);
    let s2 = CoreModel {
        last_voted: s1.last_voted.insert(header.height, authors.insert(header.author)),
        ..s1
    };
    assert(s2.views.contains_key(slot));
    lemma_messages_frame(env, s2, header.consensus_messages, facts.qc_valid, facts.known);
    let (s3, _, sigs) = messages_processed(
        env,
        s2,
        header.consensus_messages,
        facts.qc_valid,
        facts.known,
    );
    lemma_vote_frame(env, s3, crate::primary::state::header_vote(env, header, sigs));
}

/// The tip of an author never gets lower, and a header that is higher than the
/// tip becomes the tip.
pub proof fn law_tips_grow(env: CoreEnv, s: CoreModel, header: HeaderModel, author: PublicKey)
    requires
        sorted(s.tips),
        has_key(s.tips, author),
    ensures
        ({
            let t = tip_updated(env, s, header).0;
            &&& sorted(t.tips)
            &&& has_key(t.tips, author)
            &&& as_map(s.tips)[author].height <= as_map(t.tips)[author].height
            &&& author == header.author ==> header.height <= as_map(t.tips)[author].height
            &&& author != header.author ==> as_map(t.tips)[author] == as_map(s.tips)[author]
        }),
{
    let tip = Proposal {
        header_digest: header_id(header.author, header.height, header.payload),
        height: header.height,
    };
    lemma_listing_insert(s.tips, header.author, tip);
    let t = tip_updated(env, s, header).0;
    assert(as_map(s.tips).contains_key(author));
    if crate::primary::state::is_new_tip(s, header) {
        assert(as_map(t.tips) == as_map(s.tips).insert(header.author, tip));
        assert(as_map(t.tips).contains_key(author));
    }
}

/// A header whose processing is put off, or that is refused, leaves no trace in
/// the state.
pub proof fn law_suspension_leaves_no_trace(
    env: CoreEnv,
    s: CoreModel,
    header: HeaderModel,
    facts: FactsModel,
)
    requires
        parent_fault(env, header) is Some || (header.author != env.name && missing_batches(
            header.payload,
            facts.payload,
        ).len() > 0) || (header.parent_cert.header_digest != env.genesis && !facts.parent)
            || !messages_ready(header.consensus_messages, facts.known).0,
    ensures
        header_processed(env, s, header, facts).0 == s,
        !sends_vote(header_processed(env, s, header, facts).1),
{
    lemma_fetches_are_waits(header.consensus_messages, facts.known);
}

proof fn lemma_fetches_are_waits(messages: Seq<(Digest, MessageModel)>, known: Map<Digest, ()>)
    ensures
        forall|i: int|
            0 <= i < messages_ready(messages, known).1.len() ==> (#[trigger] messages_ready(
                messages,
                known,
            ).1[i]) is Wait,
    decreases messages.len(),
{
    if messages.len() > 0 {
        lemma_fetches_are_waits(messages.drop_last(), known);
        let earlier = messages_ready(messages.drop_last(), known).1;
        let all = messages_ready(messages, known).1;
        assert forall|i: int| 0 <= i < all.len() implies (#[trigger] all[i]) is Wait by {
            if i < earlier.len() {
                assert(all[i] == earlier[i]);
            }
        }
    }
}

/// The Prepare that a leader makes from a valid TC is accepted with it as its
/// ticket.
pub proof fn law_prepare_from_tc_is_valid(committee: &Committee, s: CoreModel, tc: TcModel)
    requires
        tc_verdict(tc, committee) is Ok,
        sorted(winner(tc.timeouts).proposals),
    ensures
        ticket_valid(committee, prepare_from_tc(s, tc)),
{
    let winning = winner(tc.timeouts).proposals;
    lemma_as_map(winning);
    let message = prepare_from_tc(s, tc);
    if winning.len() > 0 {
        assert forall|i: int| 0 <= i < message.proposals.len() implies has_key(
            winning,
            (#[trigger] message.proposals[i]).0,
        ) && as_map(winning)[message.proposals[i].0] == message.proposals[i].1 by {
            assert(as_map(winning).contains_key(winning[i].0));
        }
    }
}

/// Garbage collection forgets the votes below the new round and no others.
pub proof fn law_collection_keeps_recent(
    s: CoreModel,
    round: Height,
    gc_depth: Height,
    height: Height,
)
    ensures
        ({
            let t = collected(s, round, gc_depth);
            &&& round > gc_depth && height < round - gc_depth ==> voted_at(t, height)
                == Set::<PublicKey>::empty()
            &&& round <= gc_depth || height >= round - gc_depth ==> voted_at(t, height) == voted_at(
                s,
                height,
            )
        }),
{
}

/// Nobody proposes a slot twice on the strength of tickets: a slot that was
/// proposed is remembered, and a ticket for it asks for nothing more of its
/// leader.
pub proof fn law_slot_proposed_once(env: CoreEnv, s: CoreModel, message: MessageModel)
    requires
        message.kind == MessageKind::Prepare,
        env.name == crate::primary::state::leader(env, next(message.slot), 1),
    ensures
        ({
            let (t, actions, _) = ticket_checked(env, s, message);
            &&& s.proposed.contains(next(message.slot)) ==> actions.len() == 0 && t == s
            &&& actions.len() > 0 ==> t.proposed.contains(next(message.slot))
            &&& s.proposed.subset_of(t.proposed)
        }),
{
}

/// A view that timed out for us is reported with the highest QC that we hold,
/// unless we left it before.
pub proof fn law_timeout_reported(env: CoreEnv, s: CoreModel, slot: Slot, view: ViewNumber)
    ensures
        ({
            let (_, actions, _) = timer_fired(env, s, slot, view);
            if s.views.contains_key(slot) && s.views[slot] > view {
                actions.len() == 0
            } else {
                &&& actions.len() > 0
                &&& actions[0] == ActionModel::BroadcastTimeout(
                    crate::primary::state::own_timeout(env, s, slot, view),
                )
            }
        }),
{
}

} // verus!
