//! What the steps of the primary's core come to: which messages go out, with
//! what in them, and what is remembered.

use crate::bytes::le_bytes;
use crate::collections::{as_map, has_key, lemma_as_map, lemma_listing_insert, sorted, Pair};
use crate::config::{worker_in, WorkerId};
use crate::crypto::{
    digest_of, is_derived, signature_with, signed_by, signer_output, Digest, PublicKey, Signature,
};
use crate::primary::error::{ConsensusResult, DagError, DagResult, Height, Slot, ViewNumber};
use crate::primary::header_core::{facts_possible, handled, PrimaryMessage};
use crate::primary::messages::{
    header_verdict, law_quorum_certificates_judged, payload_bytes, qc_answer, tc_verdict,
    vote_verdict, winner, HeaderModel, MessageKind, MessageModel, Proposal, ProposalList,
    TimeoutModel, VoteModel, TC,
};
use crate::primary::state::{
    collected, coverage, header_processed, header_sane, header_voted, message_forwarded,
    message_processed, messages_processed, messages_ready, own_header_processed,
    signature_counted, signatures_counted, ticket_checked, timeout_processed, timer_fired,
    tip_updated, vote_processed, ActionModel, CoreEnv, CoreModel, FactsModel,
};
use crate::primary::synchronizer::{missing_batches, missing_proposals, WaiterModel};
use crate::quorum::{voters, weight};
use vstd::prelude::*;

verus! {

/// Whether `next` is what follows when a quorum voted for `message`, a message
/// of our header: a Confirm after a Prepare, a Commit after a Confirm, for the
/// same slot and view and with the certificate of the votes. A Confirm settles
/// on the proposals of the Prepare with our own header as our proposal, a Commit
/// on those of the Confirm.
pub open spec fn carries_on(
    env: CoreEnv,
    header: HeaderModel,
    message: MessageModel,
    votes: Seq<(PublicKey, Signature)>,
    digest: Digest,
    next: MessageModel,
) -> bool {
    &&& next.slot == message.slot
    &&& next.view == message.view
    &&& next.tc is None
    &&& next.qc is Some
    &&& next.qc->0.id == digest
    &&& next.qc->0.votes == votes
    &&& message.kind == MessageKind::Prepare ==> {
        &&& next.kind == MessageKind::Confirm
        &&& as_map(next.proposals).contains_key(env.name)
        &&& as_map(next.proposals)[env.name].height == header.height
        &&& as_map(next.proposals)[env.name].header_digest == digest_of(
            header.author@ + le_bytes(header.height as nat, 8) + payload_bytes(header.payload),
        )
        &&& forall|author: PublicKey|
            author != env.name ==> {
                &&& #[trigger] as_map(next.proposals).contains_key(author) <==> as_map(
                    message.proposals,
                ).contains_key(author)
                &&& as_map(message.proposals).contains_key(author) ==> as_map(
                    next.proposals,
                )[author] == as_map(message.proposals)[author]
            }
    }
    &&& message.kind == MessageKind::Confirm ==> {
        &&& next.kind == MessageKind::Commit
        &&& next.proposals == message.proposals
    }
}

/// Whether `votes` with total stake `weight` are what was counted for a message
/// since its last certificate.
pub open spec fn counted_for(
    s: CoreModel,
    digest: Digest,
    votes: Seq<(PublicKey, Signature)>,
    weight: nat,
) -> bool {
    if s.qc_makers.contains_key(digest) {
        &&& s.qc_makers[digest].votes == votes
        &&& s.qc_makers[digest].weight == weight
        &&& !s.qc_makers[digest].try_fast
    } else {
        votes.len() == 0 && weight == 0
    }
}

/// When the votes on a Prepare of our header reach a quorum, a Confirm with
/// their certificate is proposed; when those on a Confirm do, a Commit. Nothing
/// follows a Commit.
pub proof fn law_quorum_moves_instance_on(
    env: CoreEnv,
    s: CoreModel,
    author: PublicKey,
    digest: Digest,
    signature: Signature,
    votes: Seq<(PublicKey, Signature)>,
    weight: nat,
)
    requires
        counted_for(s, digest, votes, weight),
        !voters(votes).contains(author),
        weight + env.committee.stake_spec(author) >= env.committee.quorum(),
        has_key(s.current_header.consensus_messages, digest),
        sorted(as_map(s.current_header.consensus_messages)[digest].proposals),
    ensures
        ({
            let message = as_map(s.current_header.consensus_messages)[digest];
            let (t, actions, result) = signature_counted(env, s, author, digest, signature);
            &&& result is Ok
            &&& t.qcs_formed == s.qcs_formed.wrapping_add(1)
            &&& message.kind == MessageKind::Commit ==> actions.len() == 0
            &&& message.kind != MessageKind::Commit ==> {
                &&& actions.len() == 1
                &&& actions[0] matches ActionModel::Propose(next) && carries_on(
                    env,
                    s.current_header,
                    message,
                    votes.push((author, signature)),
                    digest,
                    next,
                )
            }
        }),
{
    let message = as_map(s.current_header.consensus_messages)[digest];
    let header = s.current_header;
    let own = Proposal {
        header_digest: digest_of(
            header.author@ + le_bytes(header.height as nat, 8) + payload_bytes(header.payload),
        ),
        height: header.height,
    };
    lemma_listing_insert(message.proposals, env.name, own);
    assert(votes =~= Seq::<(PublicKey, Signature)>::empty() || s.qc_makers.contains_key(digest));
}

/// Short of a quorum a vote is only counted, and an authority is counted once.
pub proof fn law_votes_add_up(
    env: CoreEnv,
    s: CoreModel,
    author: PublicKey,
    digest: Digest,
    signature: Signature,
    votes: Seq<(PublicKey, Signature)>,
    weight: nat,
)
    requires
        counted_for(s, digest, votes, weight),
    ensures
        ({
            let (t, actions, result) = signature_counted(env, s, author, digest, signature);
            &&& voters(votes).contains(author) ==> {
                &&& result == Err::<(), DagError>(DagError::AuthorityReuse(author))
                &&& actions.len() == 0
                &&& counted_for(t, digest, votes, weight)
            }
            &&& !voters(votes).contains(author) && weight + env.committee.stake_spec(author)
                < env.committee.quorum() ==> {
                &&& result is Ok
                &&& actions.len() == 0
                &&& t.qcs_formed == s.qcs_formed
                &&& counted_for(
                    t,
                    digest,
                    votes.push((author, signature)),
                    weight + env.committee.stake_spec(author),
                )
            }
            &&& forall|other: Digest| other != digest ==> {
                &&& #[trigger] t.qc_makers.contains_key(other) <==> s.qc_makers.contains_key(other)
                &&& s.qc_makers.contains_key(other) ==> t.qc_makers[other] == s.qc_makers[other]
            }
        }),
{
    assert(votes =~= Seq::<(PublicKey, Signature)>::empty() || s.qc_makers.contains_key(digest));
}

/// The digests that a vote signs for consensus messages are all different.
pub open spec fn digests_differ(sigs: Seq<(Digest, Signature)>) -> bool {
    forall|i: int, j: int|
        0 <= i < j < sigs.len() ==> (#[trigger] sigs[i]).0 != (#[trigger] sigs[j]).0
}

proof fn lemma_other_votes_kept(
    env: CoreEnv,
    s: CoreModel,
    author: PublicKey,
    sigs: Seq<(Digest, Signature)>,
    digest: Digest,
)
    requires
        forall|i: int| 0 <= i < sigs.len() ==> (#[trigger] sigs[i]).0 != digest,
    ensures
        ({
            let t = signatures_counted(env, s, author, sigs).0;
            &&& t.current_header == s.current_header
            &&& t.aggregator == s.aggregator
            &&& t.sent_cert == s.sent_cert
            &&& t.qc_makers.contains_key(digest) <==> s.qc_makers.contains_key(digest)
            &&& s.qc_makers.contains_key(digest) ==> t.qc_makers[digest] == s.qc_makers[digest]
        }),
    decreases sigs.len(),
{
    if sigs.len() > 0 {
        let front = sigs.drop_last();
        assert forall|i: int| 0 <= i < front.len() implies (#[trigger] front[i]).0 != digest by {
            assert(front[i] == sigs[i]);
        }
        assert(sigs[sigs.len() - 1].0 != digest);
        lemma_other_votes_kept(env, s, author, front, digest);
    }
}

proof fn lemma_header_kept(
    env: CoreEnv,
    s: CoreModel,
    author: PublicKey,
    sigs: Seq<(Digest, Signature)>,
)
    ensures
        ({
            let t = signatures_counted(env, s, author, sigs).0;
            &&& t.current_header == s.current_header
            &&& t.aggregator == s.aggregator
            &&& t.sent_cert == s.sent_cert
            &&& t.qcs == s.qcs
            &&& t.views == s.views
        }),
    decreases sigs.len(),
{
    if sigs.len() > 0 {
        lemma_header_kept(env, s, author, sigs.drop_last());
    }
}

/// Every signature of a vote that is counted is counted after those before it.
proof fn lemma_each_counted(
    env: CoreEnv,
    s: CoreModel,
    author: PublicKey,
    sigs: Seq<(Digest, Signature)>,
    i: int,
)
    requires
        0 <= i < sigs.len(),
        signatures_counted(env, s, author, sigs).2 is Ok,
    ensures
        ({
            let s1 = signatures_counted(env, s, author, sigs.take(i)).0;
            let (_, actions, result) = signature_counted(env, s1, author, sigs[i].0, sigs[i].1);
            &&& result is Ok
            &&& forall|k: int|
                0 <= k < actions.len() ==> signatures_counted(env, s, author, sigs).1.contains(
                    #[trigger] actions[k],
                )
        }),
    decreases sigs.len(),
{
    let front = sigs.drop_last();
    let all = signatures_counted(env, s, author, sigs).1;
    let earlier = signatures_counted(env, s, author, front).1;
    if i == front.len() {
        assert(sigs.take(i) =~= front);
        let s1 = signatures_counted(env, s, author, front).0;
        let actions = signature_counted(env, s1, author, sigs[i].0, sigs[i].1).1;
        assert forall|k: int| 0 <= k < actions.len() implies all.contains(#[trigger] actions[k]) by {
            assert(all[earlier.len() + k] == actions[k]);
        }
    } else {
        lemma_each_counted(env, s, author, front, i);
        assert(front.take(i) =~= sigs.take(i));
        assert(front[i] == sigs[i]);
        let s1 = signatures_counted(env, s, author, sigs.take(i)).0;
        let actions = signature_counted(env, s1, author, sigs[i].0, sigs[i].1).1;
        assert forall|k: int| 0 <= k < actions.len() implies all.contains(#[trigger] actions[k]) by {
            assert(earlier.contains(actions[k]));
            let j = choose|j: int| 0 <= j < earlier.len() && earlier[j] == actions[k];
            assert(all[j] == actions[k]);
        }
    }
}

/// A vote for our header moves on every instance for which it completes a
/// quorum.
pub proof fn law_vote_moves_instances_on(
    env: CoreEnv,
    s: CoreModel,
    vote: VoteModel,
    i: int,
    votes: Seq<(PublicKey, Signature)>,
    weight: nat,
)
    requires
        vote.id == s.current_header.id,
        0 <= i < vote.consensus_sigs.len(),
        digests_differ(vote.consensus_sigs),
        vote_processed(env, s, vote).2 is Ok,
        counted_for(s, vote.consensus_sigs[i].0, votes, weight),
        weight + env.committee.stake_spec(vote.author) >= env.committee.quorum(),
        has_key(s.current_header.consensus_messages, vote.consensus_sigs[i].0),
        ({
            let message = as_map(
                s.current_header.consensus_messages,
            )[vote.consensus_sigs[i].0];
            &&& message.kind != MessageKind::Commit
            &&& sorted(message.proposals)
        }),
    ensures
        exists|next: MessageModel|
            {
                &&& #[trigger] vote_processed(env, s, vote).1.contains(ActionModel::Propose(next))
                &&& carries_on(
                    env,
                    s.current_header,
                    as_map(s.current_header.consensus_messages)[vote.consensus_sigs[i].0],
                    votes.push((vote.author, vote.consensus_sigs[i].1)),
                    vote.consensus_sigs[i].0,
                    next,
                )
            },
{
    let sigs = vote.consensus_sigs;
    let (digest, signature) = sigs[i];
    let earlier = sigs.take(i);
    assert forall|j: int| 0 <= j < earlier.len() implies (#[trigger] earlier[j]).0 != digest by {
        assert(sigs[j].0 != sigs[i].0);
    }
    let s1 = signatures_counted(env, s, vote.author, earlier).0;
    lemma_other_votes_kept(env, s, vote.author, earlier, digest);
    assert(signatures_counted(env, s, vote.author, sigs).2 is Ok);
    lemma_each_counted(env, s, vote.author, sigs, i);
    law_votes_add_up(env, s1, vote.author, digest, signature, votes, weight);
    law_quorum_moves_instance_on(env, s1, vote.author, digest, signature, votes, weight);
    let actions = signature_counted(env, s1, vote.author, digest, signature).1;
    let next = actions[0]->Propose_0;
    let counted = signatures_counted(env, s, vote.author, sigs).1;
    assert(counted.contains(actions[0]));
    let all = vote_processed(env, s, vote).1;
    let k = choose|k: int| 0 <= k < counted.len() && counted[k] == actions[0];
    assert(all[k] == actions[0]);
    assert(all.contains(ActionModel::Propose(next)));
}

proof fn lemma_all_counted(
    env: CoreEnv,
    s: CoreModel,
    author: PublicKey,
    sigs: Seq<(Digest, Signature)>,
)
    requires
        digests_differ(sigs),
        forall|i: int|
            0 <= i < sigs.len() && s.qc_makers.contains_key((#[trigger] sigs[i]).0) ==> !voters(
                s.qc_makers[sigs[i].0].votes,
            ).contains(author),
    ensures
        signatures_counted(env, s, author, sigs).2 is Ok,
    decreases sigs.len(),
{
    if sigs.len() > 0 {
        let front = sigs.drop_last();
        let n = sigs.len() - 1;
        assert forall|i: int| 0 <= i < front.len() implies (#[trigger] front[i]).0
            != sigs[n].0 by {
            assert(sigs[i].0 != sigs[n].0);
        }
        assert forall|i: int|
            0 <= i < front.len() && s.qc_makers.contains_key(
                (#[trigger] front[i]).0,
            ) implies !voters(s.qc_makers[front[i].0].votes).contains(author) by {
            assert(front[i] == sigs[i]);
        }
        assert(digests_differ(front)) by {
            assert forall|i: int, j: int| 0 <= i < j < front.len() implies (
            #[trigger] front[i]).0 != (#[trigger] front[j]).0 by {
                assert(sigs[i].0 != sigs[j].0);
            }
        }
        lemma_all_counted(env, s, author, front);
        lemma_other_votes_kept(env, s, author, front, sigs[n].0);
    }
}

/// A vote for our header is refused only for being the second of its author.
pub proof fn law_first_votes_count(env: CoreEnv, s: CoreModel, vote: VoteModel)
    requires
        digests_differ(vote.consensus_sigs),
        forall|i: int|
            0 <= i < vote.consensus_sigs.len() && s.qc_makers.contains_key(
                (#[trigger] vote.consensus_sigs[i]).0,
            ) ==> !voters(s.qc_makers[vote.consensus_sigs[i].0].votes).contains(vote.author),
        !voters(s.aggregator.votes).contains(vote.author),
    ensures
        vote_processed(env, s, vote).2 is Ok,
        vote.id == s.current_header.id && s.aggregator.cert is None ==> vote_processed(
            env,
            s,
            vote,
        ).0.aggregator.votes == s.aggregator.votes.push((vote.author, vote.signature)),
{
    lemma_all_counted(env, s, vote.author, vote.consensus_sigs);
    lemma_header_kept(env, s, vote.author, vote.consensus_sigs);
}

/// Votes for a header that is not the current one count for nothing.
pub proof fn law_other_votes_ignored(env: CoreEnv, s: CoreModel, vote: VoteModel)
    requires
        vote.id != s.current_header.id,
    ensures
        vote_processed(env, s, vote).0 == s,
        vote_processed(env, s, vote).1.len() == 0,
        vote_processed(env, s, vote).2 is Ok,
{
}

/// The vote that gives our header enough support makes its certificate: for
/// that header, with every vote so far. It goes to the proposer as soon as each
/// consensus message of the header has its quorum, and not before.
pub proof fn law_certificate_goes_to_proposer(env: CoreEnv, s: CoreModel, vote: VoteModel)
    requires
        vote.id == s.current_header.id,
        !s.sent_cert,
        vote_processed(env, s, vote).2 is Ok,
    ensures
        ({
            let (t, actions, _) = vote_processed(env, s, vote);
            let formed = signatures_counted(env, s, vote.author, vote.consensus_sigs).0.qcs_formed;
            let votes = s.aggregator.votes.push((vote.author, vote.signature));
            let supported = env.committee.support_of(voters(votes).to_set())
                >= env.committee.validity();
            let settled = s.current_header.consensus_messages.len() == 0 || formed
                == s.current_header.consensus_messages.len();
            &&& s.aggregator.cert is Some ==> t.aggregator == s.aggregator
            &&& s.aggregator.cert is None && supported ==> {
                &&& t.aggregator.cert is Some
                &&& t.aggregator.cert->0.author == vote.origin
                &&& t.aggregator.cert->0.header_digest == vote.id
                &&& t.aggregator.cert->0.height == vote.height
                &&& t.aggregator.cert->0.votes == votes
            }
            &&& s.aggregator.cert is None && !supported ==> t.aggregator.cert is None
            &&& t.sent_cert <==> settled && t.aggregator.cert is Some
            &&& t.sent_cert ==> {
                &&& actions.len() > 0
                &&& actions.last() == ActionModel::SendParent(t.aggregator.cert->0)
                &&& t.qcs_formed == 0
            }
        }),
{
    lemma_header_kept(env, s, vote.author, vote.consensus_sigs);
}

/// The authors whose entry in `now` is higher than that in `before`.
pub open spec fn grown(before: ProposalList, now: ProposalList) -> Set<PublicKey> {
    Set::new(
        |author: PublicKey|
            as_map(before).contains_key(author) && as_map(now).contains_key(author) && as_map(
                now,
            )[author].height > as_map(before)[author].height,
    )
}

proof fn lemma_grown(before: ProposalList, now: ProposalList)
    requires
        sorted(now),
    ensures
        grown(before, now).finite(),
        grown(before, now).len() == coverage(before, now),
    decreases now.len(),
{
    lemma_as_map(now);
    if now.len() == 0 {
        assert(grown(before, now) =~= Set::empty());
    } else {
        let front = now.drop_last();
        let n = now.len() - 1;
        let (author, tip) = now[n];
        assert(sorted(front)) by {
            assert forall|i: int, j: int| 0 <= i < j < front.len() implies crate::collections::Key::rank(
                (#[trigger] front[i]).0,
            ) < crate::collections::Key::rank((#[trigger] front[j]).0) by {
                assert(crate::collections::Key::rank(now[i].0) < crate::collections::Key::rank(
                    now[j].0,
                ));
            }
        }
        lemma_grown(before, front);
        lemma_as_map(front);
        assert(!as_map(front).contains_key(author)) by {
            if as_map(front).contains_key(author) {
                let i = choose|i: int|
                    0 <= i < front.len() && (#[trigger] front[i]).0 == author && as_map(
                        front,
                    )[author] == front[i].1;
                assert(crate::collections::Key::rank(now[i].0) < crate::collections::Key::rank(
                    now[n].0,
                ));
            }
        }
        assert forall|other: PublicKey| other != author implies (#[trigger] as_map(
            now,
        ).contains_key(other) <==> as_map(front).contains_key(other)) && (as_map(
            front,
        ).contains_key(other) ==> as_map(now)[other] == as_map(front)[other]) by {
            if as_map(now).contains_key(other) {
                let i = choose|i: int|
                    0 <= i < now.len() && (#[trigger] now[i]).0 == other && as_map(now)[other]
                        == now[i].1;
                assert(front[i] == now[i]);
            }
            if as_map(front).contains_key(other) {
                let i = choose|i: int|
                    0 <= i < front.len() && (#[trigger] front[i]).0 == other && as_map(
                        front,
                    )[other] == front[i].1;
                assert(now[i] == front[i]);
            }
        }
        assert(as_map(now).contains_key(now[n].0));
        assert(as_map(before).contains_key(author) == has_key(before, author));
        if has_key(before, author) && tip.height > as_map(before)[author].height {
            assert(grown(before, now) =~= grown(before, front).insert(author));
        } else {
            assert(grown(before, now) =~= grown(before, front));
        }
    }
}

/// The leader of a slot starts it as soon as a quorum of the authors got higher
/// than in the Prepare of the slot before, once, and with the tips that it holds
/// as its proposals. A replica that does not lead the slot hands the Prepare on
/// to the one that does.
pub proof fn law_next_slot_starts_from_tips(env: CoreEnv, s: CoreModel, message: MessageModel)
    requires
        message.kind == MessageKind::Prepare,
        message.slot < u64::MAX,
        sorted(s.tips),
    ensures
        ({
            let (t, actions, ready) = ticket_checked(env, s, message);
            let slot = (message.slot + 1) as u64;
            let leader = env.order[(slot + 1) % (env.order.len() as int)];
            let enough = grown(message.proposals, s.tips).len() >= env.committee.quorum();
            if env.name != leader {
                &&& ready
                &&& t == s
                &&& actions.len() == 1
                &&& actions[0] matches ActionModel::Forward(to, forwarded) && to == leader
                    && forwarded == message
            } else if s.proposed.contains(slot) {
                ready && t == s && actions.len() == 0
            } else if enough {
                &&& ready
                &&& t.proposed == s.proposed.insert(slot)
                &&& t.tips == s.tips
                &&& actions.len() == 1
                &&& actions[0] matches ActionModel::Propose(prepare) && {
                    &&& prepare.kind == MessageKind::Prepare
                    &&& prepare.slot == slot
                    &&& prepare.view == 1
                    &&& prepare.tc is None
                    &&& prepare.qc is None
                    &&& prepare.proposals == s.tips
                }
            } else {
                !ready && t == s && actions.len() == 0
            }
        }),
{
    lemma_grown(message.proposals, s.tips);
}

/// A header that is higher than the tip of its author becomes the tip. If that
/// completes the growth that the oldest waiting Prepare asks for, the leader
/// starts the next slot with the new tips; if not, the Prepare goes on waiting.
pub proof fn law_new_tip_starts_slot(env: CoreEnv, s: CoreModel, header: HeaderModel)
    requires
        sorted(s.tips),
        has_key(s.tips, header.author),
        header.height > as_map(s.tips)[header.author].height,
    ensures
        ({
            let (t, actions) = tip_updated(env, s, header);
            let tip = Proposal {
                header_digest: digest_of(
                    header.author@ + le_bytes(header.height as nat, 8) + payload_bytes(
                        header.payload,
                    ),
                ),
                height: header.height,
            };
            &&& sorted(t.tips)
            &&& as_map(t.tips) == as_map(s.tips).insert(header.author, tip)
            &&& s.tickets.len() == 0 ==> actions.len() == 0
            &&& s.tickets.len() > 0 && s.tickets[0].kind == MessageKind::Prepare
                && s.tickets[0].slot < u64::MAX ==> {
                let slot = (s.tickets[0].slot + 1) as u64;
                let leads = env.name == env.order[(slot + 1) % (env.order.len() as int)];
                let enough = grown(s.tickets[0].proposals, t.tips).len()
                    >= env.committee.quorum();
                &&& leads && !s.proposed.contains(slot) && enough ==> {
                    &&& actions.len() == 1
                    &&& actions[0] matches ActionModel::Propose(prepare) && {
                        &&& prepare.kind == MessageKind::Prepare
                        &&& prepare.slot == slot
                        &&& prepare.view == 1
                        &&& prepare.proposals == t.tips
                    }
                    &&& t.proposed.contains(slot)
                }
                &&& leads && !s.proposed.contains(slot) && !enough ==> {
                    &&& actions.len() == 0
                    &&& t.tickets == s.tickets
                }
            }
        }),
{
    let tip = Proposal {
        header_digest: digest_of(
            header.author@ + le_bytes(header.height as nat, 8) + payload_bytes(header.payload),
        ),
        height: header.height,
    };
    lemma_listing_insert(s.tips, header.author, tip);
    let tips = crate::collections::listing(as_map(s.tips).insert(header.author, tip));
    let t = tip_updated(env, s, header).0;
    assert(t.tips == tips);
    if s.tickets.len() > 0 {
        lemma_grown(s.tickets[0].proposals, tips);
        assert(seq![s.tickets[0]] + s.tickets.drop_first() =~= s.tickets);
    }
}

/// A header that is not higher than the tip of its author, or whose author has no
/// tip, starts nothing.
pub proof fn law_lower_headers_keep_tip(env: CoreEnv, s: CoreModel, header: HeaderModel)
    requires
        !has_key(s.tips, header.author) || header.height <= as_map(
            s.tips,
        )[header.author].height,
    ensures
        tip_updated(env, s, header).0 == s,
        tip_updated(env, s, header).1.len() == 0,
{
}

/// A timer that goes off for a view that we have not left makes us tell all
/// others: with the Confirm that we last accepted in the slot, if there is one.
pub proof fn law_timeout_carries_confirm(
    env: CoreEnv,
    s: CoreModel,
    slot: Slot,
    view: ViewNumber,
)
    requires
        s.views.contains_key(slot) ==> s.views[slot] <= view,
    ensures
        ({
            let actions = timer_fired(env, s, slot, view).1;
            &&& actions.len() > 0
            &&& actions[0] matches ActionModel::BroadcastTimeout(timeout) && {
                &&& timeout.slot == slot
                &&& timeout.view == view
                &&& timeout.author == env.name
                &&& s.qcs.contains_key(slot) ==> timeout.high_qc == Some(s.qcs[slot])
                &&& !s.qcs.contains_key(slot) ==> timeout.high_qc is None
                &&& timeout.signature == signature_with(
                    signer_output(env.disabled, env.keypair, digest_of(Seq::empty())@),
                )
            }
        }),
{
}

/// A Confirm with a valid certificate for the view that we are in gets our vote,
/// and it is what we report if that view, or a later one, times out.
pub proof fn law_accepted_confirm_is_reported(
    env: CoreEnv,
    s: CoreModel,
    message: MessageModel,
    known: Map<Digest, ()>,
    view: ViewNumber,
)
    requires
        message.kind == MessageKind::Confirm,
        s.views.contains_key(message.slot),
        s.views[message.slot] == message.view,
        message.view <= view,
    ensures
        ({
            let (t, _, votes) = message_processed(env, s, message, true, known);
            let actions = timer_fired(env, t, message.slot, view).1;
            &&& votes.len() == 1
            &&& t.qcs.contains_key(message.slot)
            &&& t.qcs[message.slot] == message
            &&& forall|slot: Slot| slot != message.slot ==> {
                &&& #[trigger] t.qcs.contains_key(slot) <==> s.qcs.contains_key(slot)
                &&& s.qcs.contains_key(slot) ==> t.qcs[slot] == s.qcs[slot]
            }
            &&& actions.len() > 0
            &&& actions[0] matches ActionModel::BroadcastTimeout(timeout) && timeout.high_qc
                == Some(message)
        }),
{
}

/// Whether `votes` with total stake `weight` are the timeouts counted for a view
/// of a slot since its last certificate.
pub open spec fn timeouts_for(
    s: CoreModel,
    slot: Slot,
    view: ViewNumber,
    votes: Seq<TimeoutModel>,
    weight: nat,
) -> bool {
    let place = Pair { first: slot, second: view };
    if s.tc_makers.contains_key(place) {
        s.tc_makers[place].votes == votes && s.tc_makers[place].weight == weight
    } else {
        votes.len() == 0 && weight == 0
    }
}

/// A timeout by a member of the committee counts once. The one that completes a
/// quorum takes us to the next view of the slot: its timer starts, the
/// certificate of all the timeouts goes to everyone, and the leader of that view
/// proposes with it what the timeouts ask for, or its tips if they ask for
/// nothing.
pub proof fn law_timeouts_change_view(
    env: CoreEnv,
    s: CoreModel,
    timeout: TimeoutModel,
    votes: Seq<TimeoutModel>,
    weight: nat,
)
    requires
        timeout.view < u64::MAX,
        s.views.contains_key(timeout.slot) ==> s.views[timeout.slot] <= timeout.view,
        env.committee.stake_spec(timeout.author) > 0,
        signed_by(digest_of(Seq::empty()), timeout.author, timeout.signature),
        timeouts_for(s, timeout.slot, timeout.view, votes, weight),
        forall|i: int| 0 <= i < votes.len() ==> (#[trigger] votes[i]).author != timeout.author,
    ensures
        ({
            let (t, actions, result) = timeout_processed(env, s, timeout);
            let total = weight + env.committee.stake_spec(timeout.author);
            let view = (timeout.view + 1) as u64;
            let leader = env.order[(timeout.slot + view) % (env.order.len() as int)];
            &&& result is Ok
            &&& total < env.committee.quorum() ==> {
                &&& actions.len() == 0
                &&& t.views == s.views
                &&& timeouts_for(t, timeout.slot, timeout.view, votes.push(timeout), total)
            }
            &&& total >= env.committee.quorum() ==> {
                &&& t.views == s.views.insert(timeout.slot, view)
                &&& t.timers.contains(Pair { first: timeout.slot, second: view })
                &&& timeouts_for(t, timeout.slot, timeout.view, votes.push(timeout), 0)
                &&& actions.len() == if env.name == leader {
                    3int
                } else {
                    2int
                }
                &&& actions[0] == ActionModel::StartTimer(timeout.slot, view)
                &&& actions[1] matches ActionModel::BroadcastTc(tc) && {
                    &&& tc.slot == timeout.slot
                    &&& tc.view == timeout.view
                    &&& tc.timeouts == votes.push(timeout)
                    &&& env.name == leader ==> (actions[2] matches ActionModel::Propose(
                        prepare,
                    ) && {
                        let asked = winner(tc.timeouts).proposals;
                        &&& prepare.kind == MessageKind::Prepare
                        &&& prepare.slot == timeout.slot
                        &&& prepare.view == view
                        &&& prepare.tc == Some(tc)
                        &&& prepare.qc is None
                        &&& asked.len() > 0 ==> prepare.proposals == asked
                        &&& asked.len() == 0 ==> prepare.proposals == s.tips
                    })
                }
            }
        }),
{
    let authors = crate::primary::messages::timeout_authors(votes);
    assert(!authors.contains(timeout.author)) by {
        if authors.contains(timeout.author) {
            let i = choose|i: int| 0 <= i < authors.len() && authors[i] == timeout.author;
            assert(votes[i].author == timeout.author);
        }
    }
    assert(votes =~= Seq::<TimeoutModel>::empty() || s.tc_makers.contains_key(
        Pair { first: timeout.slot, second: timeout.view },
    ));
}

/// Timeouts that count for nothing: for a view that we left, by somebody who is
/// not in the committee, wrongly signed, or the second of their author.
pub proof fn law_bad_timeouts_ignored(
    env: CoreEnv,
    s: CoreModel,
    timeout: TimeoutModel,
    votes: Seq<TimeoutModel>,
    weight: nat,
    i: int,
)
    requires
        timeouts_for(s, timeout.slot, timeout.view, votes, weight),
        (s.views.contains_key(timeout.slot) && timeout.view < s.views[timeout.slot])
            || env.committee.stake_spec(timeout.author) == 0 || !signed_by(
            digest_of(Seq::empty()),
            timeout.author,
            timeout.signature,
        ) || (0 <= i < votes.len() && votes[i].author == timeout.author),
    ensures
        ({
            let (t, actions, _) = timeout_processed(env, s, timeout);
            &&& actions.len() == 0
            &&& t.views == s.views
            &&& t.timers == s.timers
            &&& timeouts_for(t, timeout.slot, timeout.view, votes, weight)
        }),
{
    let authors = crate::primary::messages::timeout_authors(votes);
    if 0 <= i < votes.len() && votes[i].author == timeout.author {
        assert(authors[i] == timeout.author);
        assert(authors.contains(timeout.author));
    }
    assert(votes =~= Seq::<TimeoutModel>::empty() || s.tc_makers.contains_key(
        Pair { first: timeout.slot, second: timeout.view },
    ));
}

/// Whether all the headers that a message proposes are stored, and there are
/// some.
pub open spec fn all_stored(message: MessageModel, known: Map<Digest, ()>) -> bool {
    message.proposals.len() > 0 && forall|i: int|
        0 <= i < message.proposals.len() ==> known.contains_key(
            (#[trigger] message.proposals[i]).1.header_digest,
        )
}

/// A Prepare for the view that we are in, or for the first view of a slot that
/// is new to us, gets our vote if none of that view did before: in the first
/// view without more, in a later one with a valid timeout certificate of the
/// view before and the proposals that it asks for. The vote signs slot, view and
/// kind. The timer of the next slot starts.
pub proof fn law_prepare_gets_vote(
    env: CoreEnv,
    s: CoreModel,
    message: MessageModel,
    qc_valid: bool,
    known: Map<Digest, ()>,
)
    requires
        message.kind == MessageKind::Prepare,
        message.slot < u64::MAX,
        !s.voted_instances.contains(Pair { first: message.slot, second: message.view }),
        if s.views.contains_key(message.slot) {
            s.views[message.slot] == message.view
        } else {
            message.view == 1
        },
        match message.tc {
            None => message.view == 1,
            Some(tc) => {
                let asked = winner(tc.timeouts).proposals;
                &&& tc.slot == message.slot
                &&& tc.view + 1 == message.view
                &&& tc_verdict(tc, &env.committee) is Ok
                &&& asked.len() > 0 ==> sorted(asked) && message.proposals == asked
            },
        },
    ensures
        ({
            let (t, actions, votes) = message_processed(env, s, message, qc_valid, known);
            let slot = (message.slot + 1) as u64;
            &&& votes.len() == 1
            &&& votes[0].0 == digest_of(
                le_bytes(message.slot as nat, 8) + le_bytes(message.view as nat, 8) + seq![0u8],
            )
            &&& votes[0].1 == signature_with(
                signer_output(env.disabled, env.keypair, votes[0].0@),
            )
            &&& t.voted_instances == s.voted_instances.insert(
                Pair { first: message.slot, second: message.view },
            )
            &&& t.views.contains_key(message.slot) && t.views[message.slot] == message.view
            &&& t.timers.contains(Pair { first: slot, second: 1 })
            &&& !s.timers.contains(Pair { first: slot, second: 1 }) ==> actions.contains(
                ActionModel::StartTimer(slot, 1),
            )
        }),
{
    let (t, actions, votes) = message_processed(env, s, message, qc_valid, known);
    let slot = (message.slot + 1) as u64;
    match message.tc {
        Some(tc) => {
            let asked = winner(tc.timeouts).proposals;
            if asked.len() > 0 {
                lemma_as_map(asked);
                assert forall|i: int| 0 <= i < message.proposals.len() implies has_key(
                    asked,
                    (#[trigger] message.proposals[i]).0,
                ) && as_map(asked)[message.proposals[i].0] == message.proposals[i].1 by {
                    assert(as_map(asked).contains_key(asked[i].0));
                }
            }
        },
        None => {},
    }
    if !s.timers.contains(Pair { first: slot, second: 1 }) {
        assert(actions.last() == ActionModel::StartTimer(slot, 1));
        assert(actions[actions.len() - 1] == ActionModel::StartTimer(slot, 1));
    }
}

/// A Prepare that comes too early for the next slot waits its turn, with the
/// leader of that slot; it is handled the same whether it came in a header or
/// was forwarded.
pub proof fn law_early_prepare_waits(
    env: CoreEnv,
    s: CoreModel,
    message: MessageModel,
    known: Map<Digest, ()>,
)
    requires
        message.kind == MessageKind::Prepare,
        message.slot < u64::MAX,
        sorted(s.tips),
        env.name == env.order[(message.slot + 2) % (env.order.len() as int)],
        !s.proposed.contains((message.slot + 1) as u64),
        grown(message.proposals, s.tips).len() < env.committee.quorum(),
    ensures
        message_forwarded(env, s, message, known).0.tickets == s.tickets.push(message),
        message_forwarded(env, s, message, known).1.len() == 0,
        message_processed(env, s, message, true, known).2.len() > 0 ==> message_processed(
            env,
            s,
            message,
            true,
            known,
        ).0.tickets == s.tickets.push(message),
{
    law_next_slot_starts_from_tips(env, s, message);
    let s1 = crate::primary::state::message_valid(env, s, message, true).0;
    law_next_slot_starts_from_tips(env, s1, message);
}

/// A Confirm with a valid certificate for the view that we are in gets our vote,
/// which signs slot, view, the digest of its certificate and the kind.
pub proof fn law_confirm_gets_vote(
    env: CoreEnv,
    s: CoreModel,
    message: MessageModel,
    known: Map<Digest, ()>,
)
    requires
        message.kind == MessageKind::Confirm,
        s.views.contains_key(message.slot),
        s.views[message.slot] == message.view,
    ensures
        ({
            let (t, actions, votes) = message_processed(env, s, message, true, known);
            &&& votes.len() == 1
            &&& votes[0].0 == digest_of(
                le_bytes(message.slot as nat, 8) + le_bytes(message.view as nat, 8) + digest_of(
                    Seq::empty(),
                )@ + seq![1u8],
            )
            &&& votes[0].1 == signature_with(
                signer_output(env.disabled, env.keypair, votes[0].0@),
            )
            &&& forall|i: int|
                0 <= i < message.proposals.len() && !known.contains_key(
                    (#[trigger] message.proposals[i]).1.header_digest,
                ) ==> actions.contains(
                    ActionModel::Wait(
                        WaiterModel::SyncProposalHeaders(
                            message.proposals[i].1,
                            message.proposals[i].0,
                            message,
                        ),
                    ),
                )
        }),
{
    lemma_missing_proposals(message, message.proposals, known);
    let actions = message_processed(env, s, message, true, known).1;
    let commands = missing_proposals(message, message.proposals, known);
    assert forall|i: int|
        0 <= i < message.proposals.len() && !known.contains_key(
            (#[trigger] message.proposals[i]).1.header_digest,
        ) implies actions.contains(
        ActionModel::Wait(
            WaiterModel::SyncProposalHeaders(
                message.proposals[i].1,
                message.proposals[i].0,
                message,
            ),
        ),
    ) by {
        let command = WaiterModel::SyncProposalHeaders(
            message.proposals[i].1,
            message.proposals[i].0,
            message,
        );
        let k = choose|k: int| 0 <= k < commands.len() && commands[k] == command;
        assert(actions[k] == ActionModel::Wait(command));
    }
}

/// Exactly the headers that are proposed and not stored are fetched.
proof fn lemma_missing_proposals(
    message: MessageModel,
    proposals: ProposalList,
    known: Map<Digest, ()>,
)
    ensures
        forall|i: int|
            0 <= i < proposals.len() && !known.contains_key(
                (#[trigger] proposals[i]).1.header_digest,
            ) ==> missing_proposals(message, proposals, known).contains(
                WaiterModel::SyncProposalHeaders(proposals[i].1, proposals[i].0, message),
            ),
        forall|k: int|
            0 <= k < missing_proposals(message, proposals, known).len() ==> exists|i: int|
                0 <= i < proposals.len() && !known.contains_key(
                    (#[trigger] proposals[i]).1.header_digest,
                ) && #[trigger] missing_proposals(message, proposals, known)[k]
                    == WaiterModel::SyncProposalHeaders(proposals[i].1, proposals[i].0, message),
    decreases proposals.len(),
{
    if proposals.len() > 0 {
        let front = proposals.drop_last();
        let n = proposals.len() - 1;
        lemma_missing_proposals(message, front, known);
        let all = missing_proposals(message, proposals, known);
        let earlier = missing_proposals(message, front, known);
        assert forall|i: int|
            0 <= i < proposals.len() && !known.contains_key(
                (#[trigger] proposals[i]).1.header_digest,
            ) implies all.contains(
            WaiterModel::SyncProposalHeaders(proposals[i].1, proposals[i].0, message),
        ) by {
            let command = WaiterModel::SyncProposalHeaders(
                proposals[i].1,
                proposals[i].0,
                message,
            );
            if i < n {
                assert(front[i] == proposals[i]);
                let k = choose|k: int| 0 <= k < earlier.len() && earlier[k] == command;
                assert(all[k] == command);
            } else {
                assert(all[earlier.len() as int] == command);
            }
        }
        assert forall|k: int| 0 <= k < all.len() implies exists|i: int|
            0 <= i < proposals.len() && !known.contains_key(
                (#[trigger] proposals[i]).1.header_digest,
            ) && #[trigger] all[k] == WaiterModel::SyncProposalHeaders(
                proposals[i].1,
                proposals[i].0,
                message,
            ) by {
            if k < earlier.len() {
                assert(all[k] == earlier[k]);
                let i = choose|i: int|
                    0 <= i < front.len() && !known.contains_key(
                        (#[trigger] front[i]).1.header_digest,
                    ) && earlier[k] == WaiterModel::SyncProposalHeaders(
                        front[i].1,
                        front[i].0,
                        message,
                    );
                assert(proposals[i] == front[i]);
            } else {
                assert(!known.contains_key(proposals[n].1.header_digest));
            }
        }
    }
}

/// A decided message is handed to the committer once all that it commits is
/// stored, whether it came in a header, for the view that we are in and with a
/// valid certificate, or was forwarded to us. Until that it only has what is
/// missing fetched. It gets no vote, and changes nothing.
pub proof fn law_decided_message_is_committed(
    env: CoreEnv,
    s: CoreModel,
    message: MessageModel,
    known: Map<Digest, ()>,
)
    requires
        message.kind == MessageKind::Commit,
    ensures
        ({
            let (t, actions) = message_forwarded(env, s, message, known);
            &&& t == s
            &&& all_stored(message, known) ==> actions == seq![ActionModel::Commit(message)]
            &&& !all_stored(message, known) ==> !actions.contains(ActionModel::Commit(message))
            &&& forall|i: int|
                0 <= i < message.proposals.len() && !known.contains_key(
                    (#[trigger] message.proposals[i]).1.header_digest,
                ) ==> actions.contains(
                    ActionModel::Wait(
                        WaiterModel::SyncProposalHeaders(
                            message.proposals[i].1,
                            message.proposals[i].0,
                            message,
                        ),
                    ),
                )
        }),
        s.views.contains_key(message.slot) && s.views[message.slot] == message.view ==> {
            let (t, actions, votes) = message_processed(env, s, message, true, known);
            &&& t == s
            &&& votes.len() == 0
            &&& actions == message_forwarded(env, s, message, known).1
        },
{
    lemma_missing_proposals(message, message.proposals, known);
    let commands = missing_proposals(message, message.proposals, known);
    let actions = message_forwarded(env, s, message, known).1;
    if all_stored(message, known) {
        if commands.len() > 0 {
            let i = choose|i: int|
                0 <= i < message.proposals.len() && !known.contains_key(
                    (#[trigger] message.proposals[i]).1.header_digest,
                ) && commands[0] == WaiterModel::SyncProposalHeaders(
                    message.proposals[i].1,
                    message.proposals[i].0,
                    message,
                );
            assert(false);
        }
        assert(actions =~= seq![ActionModel::Commit(message)]);
    } else if actions.contains(ActionModel::Commit(message)) {
        let k = choose|k: int| 0 <= k < actions.len() && actions[k] == ActionModel::Commit(message);
        assert(actions[k] is Wait);
    }
    assert forall|i: int|
        0 <= i < message.proposals.len() && !known.contains_key(
            (#[trigger] message.proposals[i]).1.header_digest,
        ) implies actions.contains(
        ActionModel::Wait(
            WaiterModel::SyncProposalHeaders(
                message.proposals[i].1,
                message.proposals[i].0,
                message,
            ),
        ),
    ) by {
        let command = WaiterModel::SyncProposalHeaders(
            message.proposals[i].1,
            message.proposals[i].0,
            message,
        );
        let k = choose|k: int| 0 <= k < commands.len() && commands[k] == command;
        assert(actions[k] == ActionModel::Wait(command));
    }
}

/// Messages whose certificate is not valid, or that are for another view than
/// ours, are passed over.
pub proof fn law_bad_messages_ignored(
    env: CoreEnv,
    s: CoreModel,
    message: MessageModel,
    qc_valid: bool,
    known: Map<Digest, ()>,
)
    requires
        message.kind != MessageKind::Prepare,
        !qc_valid || !s.views.contains_key(message.slot) || s.views[message.slot] != message.view,
    ensures
        message_processed(env, s, message, qc_valid, known).0 == s,
        message_processed(env, s, message, qc_valid, known).1.len() == 0,
        message_processed(env, s, message, qc_valid, known).2.len() == 0,
{
}

/// The vote on a header holds our votes on its messages, each message being
/// processed after those before it.
pub proof fn law_messages_in_order(
    env: CoreEnv,
    s: CoreModel,
    messages: Seq<(Digest, MessageModel)>,
    verdicts: Seq<bool>,
    known: Map<Digest, ()>,
    i: int,
)
    requires
        0 <= i < messages.len(),
    ensures
        ({
            let (t, actions, votes) = messages_processed(env, s, messages, verdicts, known);
            let before = messages_processed(env, s, messages.take(i), verdicts, known).0;
            let (_, more, vote) = message_processed(
                env,
                before,
                messages[i].1,
                verdicts[i],
                known,
            );
            &&& forall|k: int| 0 <= k < more.len() ==> actions.contains(#[trigger] more[k])
            &&& forall|k: int| 0 <= k < vote.len() ==> votes.contains(#[trigger] vote[k])
        }),
    decreases messages.len(),
{
    let front = messages.drop_last();
    let (t, actions, votes) = messages_processed(env, s, messages, verdicts, known);
    let before = messages_processed(env, s, messages.take(i), verdicts, known).0;
    let (_, more, vote) = message_processed(env, before, messages[i].1, verdicts[i], known);
    let (_, actions1, votes1) = messages_processed(env, s, front, verdicts, known);
    if i == front.len() {
        assert(messages.take(i) =~= front);
        assert forall|k: int| 0 <= k < more.len() implies actions.contains(#[trigger] more[k]) by {
            assert(actions[actions1.len() + k] == more[k]);
        }
        assert forall|k: int| 0 <= k < vote.len() implies votes.contains(#[trigger] vote[k]) by {
            assert(votes[votes1.len() + k] == vote[k]);
        }
    } else {
        law_messages_in_order(env, s, front, verdicts, known, i);
        assert(front.take(i) =~= messages.take(i));
        assert(front[i] == messages[i]);
        assert forall|k: int| 0 <= k < more.len() implies actions.contains(#[trigger] more[k]) by {
            let j = choose|j: int| 0 <= j < actions1.len() && actions1[j] == more[k];
            assert(actions[j] == more[k]);
        }
        assert forall|k: int| 0 <= k < vote.len() implies votes.contains(#[trigger] vote[k]) by {
            let j = choose|j: int| 0 <= j < votes1.len() && votes1[j] == vote[k];
            assert(votes[j] == vote[k]);
        }
    }
}

proof fn lemma_missing_batches(payload: Seq<(Digest, WorkerId)>, stored: Seq<bool>)
    ensures
        forall|i: int|
            0 <= i < payload.len() && !stored[i] ==> missing_batches(payload, stored).contains(
                #[trigger] payload[i],
            ),
        forall|k: int|
            0 <= k < missing_batches(payload, stored).len() ==> exists|i: int|
                0 <= i < payload.len() && !stored[i] && #[trigger] payload[i]
                    == #[trigger] missing_batches(payload, stored)[k],
    decreases payload.len(),
{
    if payload.len() > 0 {
        let front = payload.drop_last();
        let n = payload.len() - 1;
        lemma_missing_batches(front, stored);
        let all = missing_batches(payload, stored);
        let earlier = missing_batches(front, stored);
        assert forall|i: int| 0 <= i < payload.len() && !stored[i] implies all.contains(
            #[trigger] payload[i],
        ) by {
            if i < n {
                assert(front[i] == payload[i]);
                let k = choose|k: int| 0 <= k < earlier.len() && earlier[k] == payload[i];
                assert(all[k] == payload[i]);
            } else {
                assert(all[earlier.len() as int] == payload[i]);
            }
        }
        assert forall|k: int| 0 <= k < all.len() implies exists|i: int|
            0 <= i < payload.len() && !stored[i] && #[trigger] payload[i]
                == #[trigger] all[k] by {
            if k < earlier.len() {
                assert(all[k] == earlier[k]);
                let i = choose|i: int|
                    0 <= i < front.len() && !stored[i] && #[trigger] front[i] == earlier[k];
                assert(payload[i] == front[i]);
            } else {
                assert(payload[n] == all[k]);
            }
        }
    }
}

/// Whether the Prepares among messages propose only headers that are stored.
pub open spec fn prepares_stored(
    messages: Seq<(Digest, MessageModel)>,
    known: Map<Digest, ()>,
) -> bool {
    forall|i: int|
        0 <= i < messages.len() && (#[trigger] messages[i]).1.kind == MessageKind::Prepare
            ==> all_stored(messages[i].1, known)
}

proof fn lemma_messages_ready(messages: Seq<(Digest, MessageModel)>, known: Map<Digest, ()>)
    ensures
        messages_ready(messages, known).0 <==> prepares_stored(messages, known),
    decreases messages.len(),
{
    if messages.len() > 0 {
        let front = messages.drop_last();
        let n = messages.len() - 1;
        lemma_messages_ready(front, known);
        assert(crate::primary::synchronizer::proposals_ready(messages[n].1, known) <==> all_stored(
            messages[n].1,
            known,
        ));
        if prepares_stored(messages, known) {
            assert forall|i: int|
                0 <= i < front.len() && (#[trigger] front[i]).1.kind
                    == MessageKind::Prepare implies all_stored(front[i].1, known) by {
                assert(front[i] == messages[i]);
            }
            assert(messages[n].1.kind == MessageKind::Prepare ==> all_stored(
                messages[n].1,
                known,
            ));
        }
        if prepares_stored(front, known) && (messages[n].1.kind == MessageKind::Prepare
            ==> all_stored(messages[n].1, known)) {
            assert forall|i: int|
                0 <= i < messages.len() && (#[trigger] messages[i]).1.kind
                    == MessageKind::Prepare implies all_stored(messages[i].1, known) by {
                if i < n {
                    assert(front[i] == messages[i]);
                }
            }
        }
    }
}

/// Whether we voted for a header of `author` at `height`.
pub open spec fn has_voted(s: CoreModel, author: PublicKey, height: Height) -> bool {
    s.last_voted.contains_key(height) && s.last_voted[height].contains(author)
}

/// A header of another authority that sits on a certified parent, whose batches,
/// parent and proposed headers are all stored, is stored with the certificate of
/// its parent. If it is the first of its author at its height, the author gets
/// our vote for it, and that is remembered.
pub proof fn law_header_gets_vote(
    env: CoreEnv,
    s: CoreModel,
    header: HeaderModel,
    facts: FactsModel,
)
    requires
        header.parent_cert.height + 1 == header.height,
        header.parent_cert.height == 0 || weight(
            &env.committee,
            voters(header.parent_cert.votes),
        ) >= env.committee.validity(),
        header.author != env.name,
        forall|i: int| 0 <= i < header.payload.len() ==> #[trigger] facts.payload[i],
        header.parent_cert.header_digest == env.genesis || facts.parent,
        prepares_stored(header.consensus_messages, facts.known),
    ensures
        ({
            let (t, actions, result) = header_processed(env, s, header, facts);
            &&& result is Ok
            &&& actions.contains(ActionModel::StoreHeader(header))
            &&& actions.contains(ActionModel::StoreCertificate(header.parent_cert))
            &&& has_voted(t, header.author, header.height)
            &&& !has_voted(s, header.author, header.height) ==> {
                actions.last() matches ActionModel::SendVote(to, vote) && {
                    &&& to == header.author
                    &&& vote.id == header.id
                    &&& vote.height == header.height
                    &&& vote.origin == header.author
                    &&& vote.author == env.name
                    &&& vote.signature == signature_with(
                        signer_output(
                            env.disabled,
                            env.keypair,
                            digest_of(header.id@ + le_bytes(header.height as nat, 8))@,
                        ),
                    )
                }
            }
            &&& has_voted(s, header.author, header.height) ==> forall|k: int|
                0 <= k < actions.len() ==> !((#[trigger] actions[k]) is SendVote)
        }),
{
    lemma_missing_batches(header.payload, facts.payload);
    let missing = missing_batches(header.payload, facts.payload);
    if missing.len() > 0 {
        let i = choose|i: int|
            0 <= i < header.payload.len() && !facts.payload[i] && #[trigger] header.payload[i]
                == missing[0];
        assert(facts.payload[i]);
    }
    lemma_messages_ready(header.consensus_messages, facts.known);
    let (ready, fetches) = messages_ready(header.consensus_messages, facts.known);
    let (s1, tip_actions) = tip_updated(env, s, header);
    let (s2, vote_actions, result) = header_voted(env, s1, header, facts);
    let (t, actions, _) = header_processed(env, s, header, facts);
    assert(s1.last_voted == s.last_voted);
    let a = fetches.len() as int;
    let b = a + 1 + tip_actions.len();
    assert(actions[a] == ActionModel::StoreHeader(header));
    assert(actions[b] == ActionModel::StoreCertificate(header.parent_cert));
    lemma_voted_kept(env, s1, header, facts);
    if has_voted(s, header.author, header.height) {
        lemma_waits_only(header.consensus_messages, facts.known);
        assert forall|k: int| 0 <= k < actions.len() implies !(
        (#[trigger] actions[k]) is SendVote) by {
            if k < a {
                assert(actions[k] == fetches[k]);
            } else if a < k < b {
                assert(actions[k] == tip_actions[k - a - 1]);
            }
        }
    } else {
        assert(vote_actions.len() > 0);
        assert(actions.last() == vote_actions.last());
    }
}

proof fn lemma_waits_only(messages: Seq<(Digest, MessageModel)>, known: Map<Digest, ()>)
    ensures
        forall|i: int|
            0 <= i < messages_ready(messages, known).1.len() ==> (#[trigger] messages_ready(
                messages,
                known,
            ).1[i]) is Wait,
    decreases messages.len(),
{
    if messages.len() > 0 {
        lemma_waits_only(messages.drop_last(), known);
        let earlier = messages_ready(messages.drop_last(), known).1;
        let all = messages_ready(messages, known).1;
        assert forall|i: int| 0 <= i < all.len() implies (#[trigger] all[i]) is Wait by {
            if i < earlier.len() {
                assert(all[i] == earlier[i]);
            }
        }
    }
}

proof fn lemma_processing_keeps_votes(
    env: CoreEnv,
    s: CoreModel,
    messages: Seq<(Digest, MessageModel)>,
    verdicts: Seq<bool>,
    known: Map<Digest, ()>,
)
    ensures
        ({
            let t = messages_processed(env, s, messages, verdicts, known).0;
            &&& t.last_voted == s.last_voted
            &&& t.current_header == s.current_header
            &&& t.aggregator == s.aggregator
        }),
    decreases messages.len(),
{
    if messages.len() > 0 {
        lemma_processing_keeps_votes(env, s, messages.drop_last(), verdicts, known);
    }
}

proof fn lemma_counting_keeps_votes(
    env: CoreEnv,
    s: CoreModel,
    author: PublicKey,
    sigs: Seq<(Digest, Signature)>,
)
    ensures
        signatures_counted(env, s, author, sigs).0.last_voted == s.last_voted,
    decreases sigs.len(),
{
    if sigs.len() > 0 {
        lemma_counting_keeps_votes(env, s, author, sigs.drop_last());
    }
}

proof fn lemma_voted_kept(env: CoreEnv, s: CoreModel, header: HeaderModel, facts: FactsModel)
    ensures
        has_voted(header_voted(env, s, header, facts).0, header.author, header.height),
{
    let authors = crate::primary::state::voted_at(s, header.height);
    let s1 = CoreModel {
        last_voted: s.last_voted.insert(header.height, authors.insert(header.author)),
        ..s
    };
    let messages = header.consensus_messages;
    lemma_processing_keeps_votes(env, s1, messages, facts.qc_valid, facts.known);
    let (s2, _, sigs) = messages_processed(env, s1, messages, facts.qc_valid, facts.known);
    lemma_counting_keeps_votes(env, s2, env.name, sigs);
}

/// A header that does not sit right above its parent, or on a parent without
/// enough support, is refused; one with missing batches has exactly those
/// fetched and is put off.
pub proof fn law_unfit_headers_put_off(
    env: CoreEnv,
    s: CoreModel,
    header: HeaderModel,
    facts: FactsModel,
)
    ensures
        ({
            let (t, actions, result) = header_processed(env, s, header, facts);
            let parent = header.parent_cert;
            let supported = parent.height == 0 || weight(&env.committee, voters(parent.votes))
                >= env.committee.validity();
            let fits = parent.height + 1 == header.height && supported;
            &&& parent.height + 1 != header.height ==> result == Err::<(), DagError>(
                DagError::MalformedHeader(header.id),
            ) && t == s && actions.len() == 0
            &&& parent.height + 1 == header.height && !supported ==> result == Err::<(), DagError>(
                DagError::HeaderRequiresQuorum(header.id),
            ) && t == s && actions.len() == 0
            &&& fits && header.author != env.name && (exists|i: int|
                0 <= i < header.payload.len() && !(#[trigger] facts.payload[i])) ==> {
                &&& result is Ok
                &&& t == s
                &&& actions.len() == 1
                &&& actions[0] matches ActionModel::Wait(
                    WaiterModel::SyncBatches(missing, suspended),
                ) && {
                    &&& suspended == header
                    &&& forall|i: int|
                        0 <= i < header.payload.len() && !facts.payload[i] ==> missing.contains(
                            #[trigger] header.payload[i],
                        )
                    &&& forall|k: int|
                        0 <= k < missing.len() ==> exists|i: int|
                            0 <= i < header.payload.len() && !facts.payload[i]
                                && #[trigger] header.payload[i] == #[trigger] missing[k]
                }
            }
        }),
{
    lemma_missing_batches(header.payload, facts.payload);
    let missing = missing_batches(header.payload, facts.payload);
    if exists|i: int| 0 <= i < header.payload.len() && !(#[trigger] facts.payload[i]) {
        let i = choose|i: int| 0 <= i < header.payload.len() && !(#[trigger] facts.payload[i]);
        assert(missing.contains(header.payload[i]));
    }
}

/// Our own header goes to everyone first, and from then on only its votes
/// count: of the votes and the certificate of the header before nothing is left.
pub proof fn law_own_header_starts_over(
    env: CoreEnv,
    s: CoreModel,
    header: HeaderModel,
    facts: FactsModel,
)
    requires
        header.author == env.name,
    ensures
        ({
            let (t, actions, _) = own_header_processed(env, s, header, facts);
            &&& actions.len() > 0
            &&& actions[0] == ActionModel::BroadcastHeader(header)
            &&& t.current_header == header
            &&& forall|i: int|
                0 <= i < t.aggregator.votes.len() ==> (#[trigger] t.aggregator.votes[i]).0
                    == env.name
            &&& t.aggregator.cert is Some ==> t.aggregator.cert->0.header_digest == header.id
        }),
{
    let s1 = CoreModel {
        current_header: header,
        sent_cert: false,
        aggregator: crate::primary::aggregators::empty_aggregator(),
        ..s
    };
    let s2 = tip_updated(env, s1, header).0;
    assert(s2.current_header == header && s2.aggregator == s1.aggregator);
    let authors = crate::primary::state::voted_at(s2, header.height);
    let s3 = CoreModel {
        last_voted: s2.last_voted.insert(header.height, authors.insert(header.author)),
        ..s2
    };
    let messages = header.consensus_messages;
    lemma_processing_keeps_votes(env, s3, messages, facts.qc_valid, facts.known);
    let (s4, _, sigs) = messages_processed(env, s3, messages, facts.qc_valid, facts.known);
    lemma_header_kept(env, s4, env.name, sigs);
}

/// After garbage collection, headers from before the new round are refused, and
/// whether a later one is sound does not depend on the state.
pub proof fn law_collected_headers_refused(
    env: CoreEnv,
    s: CoreModel,
    header: HeaderModel,
    round: Height,
    gc_depth: Height,
)
    requires
        round > gc_depth,
    ensures
        ({
            let t = collected(s, round, gc_depth);
            &&& t.gc_round == round - gc_depth
            &&& header.height < round - gc_depth ==> header_sane(env, t, header) == Err::<
                (),
                DagError,
            >(DagError::HeaderTooOld(header.id, header.height))
            &&& header.height >= round - gc_depth ==> (header_sane(env, t, header) is Ok
                <==> header_verdict(header, &env.committee) is Ok)
        }),
{
}

/// A header is sound if and only if its id is the digest of author, height and
/// payload, its author has stake, its batches are at workers of the author, and
/// the author signed the id.
pub proof fn law_sound_headers(env: CoreEnv, header: HeaderModel)
    ensures
        header_verdict(header, &env.committee) is Ok <==> {
            &&& header.id == digest_of(
                header.author@ + le_bytes(header.height as nat, 8) + payload_bytes(header.payload),
            )
            &&& env.committee.stake_spec(header.author) > 0
            &&& forall|i: int|
                0 <= i < header.payload.len() ==> worker_in(
                    env.committee@,
                    header.author,
                    (#[trigger] header.payload[i]).1,
                ) is Some
            &&& signed_by(header.id, header.author, header.signature)
        },
{
}

/// A vote is sound if and only if its author has stake and signed the id and
/// height of the header.
pub proof fn law_sound_votes(env: CoreEnv, vote: VoteModel)
    ensures
        vote_verdict(vote, &env.committee) is Ok <==> {
            &&& env.committee.stake_spec(vote.author) > 0
            &&& signed_by(
                digest_of(vote.id@ + le_bytes(vote.height as nat, 8)),
                vote.author,
                vote.signature,
            )
        },
{
}

proof fn lemma_confirms_kept(
    env: CoreEnv,
    s: CoreModel,
    messages: Seq<(Digest, MessageModel)>,
    verdicts: Seq<bool>,
    known: Map<Digest, ()>,
    slot: Slot,
)
    ensures
        ({
            let t = messages_processed(env, s, messages, verdicts, known).0;
            &&& s.qcs.contains_key(slot) ==> t.qcs.contains_key(slot)
            &&& t.qcs.contains_key(slot) ==> (s.qcs.contains_key(slot) && t.qcs[slot]
                == s.qcs[slot]) || exists|i: int|
                0 <= i < messages.len() && (#[trigger] messages[i]).1 == t.qcs[slot]
                    && messages[i].1.kind == MessageKind::Confirm && messages[i].1.slot == slot
        }),
    decreases messages.len(),
{
    if messages.len() > 0 {
        let front = messages.drop_last();
        let n = messages.len() - 1;
        lemma_confirms_kept(env, s, front, verdicts, known, slot);
        let s1 = messages_processed(env, s, front, verdicts, known).0;
        let t = messages_processed(env, s, messages, verdicts, known).0;
        if t.qcs.contains_key(slot) {
            if s1.qcs.contains_key(slot) && t.qcs[slot] == s1.qcs[slot] {
                if !(s.qcs.contains_key(slot) && t.qcs[slot] == s.qcs[slot]) {
                    let i = choose|i: int|
                        0 <= i < front.len() && (#[trigger] front[i]).1 == s1.qcs[slot]
                            && front[i].1.kind == MessageKind::Confirm && front[i].1.slot == slot;
                    assert(messages[i] == front[i]);
                }
            } else {
                assert(messages[n].1 == t.qcs[slot]);
            }
        }
    }
}

/// The Confirm accepted for a slot is kept until a later Confirm for the slot
/// takes its place: headers bring only Confirms of their own, and votes and
/// timeouts change none.
pub proof fn law_confirms_are_kept(
    env: CoreEnv,
    s: CoreModel,
    header: HeaderModel,
    facts: FactsModel,
    vote: VoteModel,
    timeout: TimeoutModel,
    slot: Slot,
)
    ensures
        vote_processed(env, s, vote).0.qcs == s.qcs,
        timeout_processed(env, s, timeout).0.qcs == s.qcs,
        ({
            let t = header_processed(env, s, header, facts).0;
            &&& s.qcs.contains_key(slot) ==> t.qcs.contains_key(slot)
            &&& t.qcs.contains_key(slot) ==> (s.qcs.contains_key(slot) && t.qcs[slot]
                == s.qcs[slot]) || exists|i: int|
                0 <= i < header.consensus_messages.len() && (
                #[trigger] header.consensus_messages[i]).1 == t.qcs[slot]
                    && header.consensus_messages[i].1.kind == MessageKind::Confirm
                    && header.consensus_messages[i].1.slot == slot
        }),
{
    lemma_header_kept(env, s, vote.author, vote.consensus_sigs);
    let s1 = tip_updated(env, s, header).0;
    assert(s1.qcs == s.qcs);
    let authors = crate::primary::state::voted_at(s1, header.height);
    let s2 = CoreModel {
        last_voted: s1.last_voted.insert(header.height, authors.insert(header.author)),
        ..s1
    };
    let messages = header.consensus_messages;
    lemma_confirms_kept(env, s2, messages, facts.qc_valid, facts.known, slot);
    let (s3, _, sigs) = messages_processed(env, s2, messages, facts.qc_valid, facts.known);
    lemma_header_kept(env, s3, env.name, sigs);
}

/// Headers that are too old or unsound, unsound votes and certificates that do
/// not pass are answered with an error, and with nothing else.
pub proof fn law_unsound_messages_ignored(
    env: CoreEnv,
    s: CoreModel,
    before: Seq<ActionModel>,
    message: PrimaryMessage,
    facts: FactsModel,
    t: CoreModel,
    actions: Seq<ActionModel>,
    result: DagResult<()>,
)
    requires
        handled(env, s, before, message, facts, t, actions, result),
        match message {
            PrimaryMessage::Header(header) => header.height < s.gc_round || header_verdict(
                header.model(),
                &env.committee,
            ) is Err,
            PrimaryMessage::Vote(vote) => vote_verdict(vote.model(), &env.committee) is Err,
            PrimaryMessage::Certificate(certificate) => certificate.height < s.gc_round
                || result is Err,
            _ => false,
        },
    ensures
        t == s,
        actions == before,
        result is Err,
{
}

/// Sound headers, votes and timeouts are processed, after what was to be done
/// already.
pub proof fn law_sound_messages_processed(
    env: CoreEnv,
    s: CoreModel,
    before: Seq<ActionModel>,
    message: PrimaryMessage,
    facts: FactsModel,
    t: CoreModel,
    actions: Seq<ActionModel>,
    result: DagResult<()>,
)
    requires
        handled(env, s, before, message, facts, t, actions, result),
    ensures
        message matches PrimaryMessage::Header(header) ==> header.height >= s.gc_round
            && header_verdict(header.model(), &env.committee) is Ok ==> {
            let step = header_processed(env, s, header.model(), facts);
            t == step.0 && actions == before + step.1 && result == step.2
        },
        message matches PrimaryMessage::Vote(vote) ==> vote_verdict(
            vote.model(),
            &env.committee,
        ) is Ok ==> {
            let step = vote_processed(env, s, vote.model());
            t == step.0 && actions == before + step.1 && result == step.2
        },
        message matches PrimaryMessage::Timeout(timeout) ==> {
            let step = timeout_processed(env, s, timeout.model());
            t == step.0 && actions == before + step.1 && result == step.2
        },
        message matches PrimaryMessage::ConsensusMessage(forwarded) ==> {
            let step = message_forwarded(env, s, forwarded.model(), facts.known);
            t == step.0 && actions == before + step.1 && result is Ok
        },
        message matches PrimaryMessage::Certificate(certificate) ==> result is Ok ==> t == s
            && actions == before.push(ActionModel::StoreCertificate(certificate.model())),
{
}

/// A timeout certificate from another primary makes the leader of the next view
/// propose with it: what the timeouts ask for, or its tips. It changes nothing.
pub proof fn law_received_certificate_makes_leader_propose(
    env: CoreEnv,
    s: CoreModel,
    before: Seq<ActionModel>,
    tc: TC,
    facts: FactsModel,
    t: CoreModel,
    actions: Seq<ActionModel>,
    result: DagResult<()>,
)
    requires
        handled(env, s, before, PrimaryMessage::TC(tc), facts, t, actions, result),
        tc.view < u64::MAX,
    ensures
        t == s,
        result is Ok,
        env.name != env.order[(tc.slot + tc.view + 1) % (env.order.len() as int)] ==> actions
            == before,
        env.name == env.order[(tc.slot + tc.view + 1) % (env.order.len() as int)] ==> {
            let asked = winner(tc.model().timeouts).proposals;
            &&& actions.len() == before.len() + 1
            &&& actions.last() matches ActionModel::Propose(prepare) && {
                &&& prepare.kind == MessageKind::Prepare
                &&& prepare.slot == tc.slot
                &&& prepare.view == tc.view + 1
                &&& prepare.tc == Some(tc.model())
                &&& prepare.qc is None
                &&& asked.len() > 0 ==> prepare.proposals == asked
                &&& asked.len() == 0 ==> prepare.proposals == s.tips
            }
        },
{
    assert(tc.model().slot == tc.slot && tc.model().view == tc.view);
}

/// Our own header needs none of its batches to be looked up: with its parent and
/// its proposed headers stored it is stored, and our vote is the first that
/// counts for it.
pub proof fn law_own_vote_counts(
    env: CoreEnv,
    s: CoreModel,
    header: HeaderModel,
    facts: FactsModel,
)
    requires
        header.author == env.name,
        header.parent_cert.height + 1 == header.height,
        header.parent_cert.height == 0 || weight(
            &env.committee,
            voters(header.parent_cert.votes),
        ) >= env.committee.validity(),
        header.parent_cert.header_digest == env.genesis || facts.parent,
        header.consensus_messages.len() == 0,
        !has_voted(s, header.author, header.height),
    ensures
        ({
            let (t, actions, result) = own_header_processed(env, s, header, facts);
            let votes = seq![
                (
                    env.name,
                    signature_with(
                        signer_output(
                            env.disabled,
                            env.keypair,
                            digest_of(header.id@ + le_bytes(header.height as nat, 8))@,
                        ),
                    ),
                ),
            ];
            &&& result is Ok
            &&& actions.contains(ActionModel::StoreHeader(header))
            &&& has_voted(t, env.name, header.height)
            &&& t.aggregator.votes == votes
            &&& t.sent_cert <==> env.committee.support_of(voters(votes).to_set())
                >= env.committee.validity()
            &&& t.sent_cert ==> (actions.last() matches ActionModel::SendParent(certificate) && {
                &&& certificate.author == env.name
                &&& certificate.header_digest == header.id
                &&& certificate.height == header.height
                &&& certificate.votes == votes
            })
        }),
{
    let s1 = CoreModel {
        current_header: header,
        sent_cert: false,
        aggregator: crate::primary::aggregators::empty_aggregator(),
        ..s
    };
    let (s2, tip_actions) = tip_updated(env, s1, header);
    assert(s2.current_header == header && s2.aggregator == s1.aggregator && !s2.sent_cert);
    assert(s2.last_voted == s.last_voted);
    let (t, actions, _) = own_header_processed(env, s, header, facts);
    assert(messages_ready(header.consensus_messages, facts.known).1.len() == 0);
    assert(actions[1] == ActionModel::StoreHeader(header));
    lemma_voted_kept(env, s2, header, facts);
    let sigs = Seq::<(Digest, Signature)>::empty();
    let s3 = CoreModel {
        last_voted: s2.last_voted.insert(
            header.height,
            crate::primary::state::voted_at(s2, header.height).insert(header.author),
        ),
        ..s2
    };
    assert(messages_processed(
        env,
        s3,
        header.consensus_messages,
        facts.qc_valid,
        facts.known,
    ) == (s3, Seq::<ActionModel>::empty(), sigs));
    assert(signatures_counted(env, s3, env.name, sigs).0 == s3);
    assert(voters(Seq::<(PublicKey, Signature)>::empty()) =~= Seq::<PublicKey>::empty());
    assert(t.aggregator.votes.len() == 1);
}

/// Our own timeout is processed like everyone else's.
pub proof fn law_own_timeout_counts(
    env: CoreEnv,
    s: CoreModel,
    slot: Slot,
    view: ViewNumber,
)
    requires
        s.views.contains_key(slot) ==> s.views[slot] <= view,
    ensures
        ({
            let (t, actions, result) = timer_fired(env, s, slot, view);
            actions[0] matches ActionModel::BroadcastTimeout(timeout) && {
                let (u, more, answer) = timeout_processed(env, s, timeout);
                t == u && actions.skip(1) == more && result == answer
            }
        }),
{
    let (t, actions, result) = timer_fired(env, s, slot, view);
    let timeout = actions[0]->BroadcastTimeout_0;
    assert(actions.skip(1) =~= timeout_processed(env, s, timeout).1);
}

/// What is judged of the messages of a header: a certificate passes only with
/// votes of a quorum of different authorities, and always if those all signed its
/// id by derived keys; a Prepare has none to fail.
pub proof fn law_message_certificates_judged(
    env: CoreEnv,
    header: HeaderModel,
    stored: FactsModel,
    facts: FactsModel,
    i: int,
)
    requires
        env.committee.wf(),
        facts_possible(&env.committee, header, stored, facts),
        0 <= i < header.consensus_messages.len(),
    ensures
        facts.payload == stored.payload,
        facts.parent == stored.parent,
        facts.known == stored.known,
        header.consensus_messages[i].1.qc is None ==> facts.qc_valid[i],
        header.consensus_messages[i].1.qc is Some
            && header.consensus_messages[i].1.qc->0.votes.len() > 0 ==> {
            let qc = header.consensus_messages[i].1.qc->0;
            let names = voters(qc.votes);
            let backed = names.no_duplicates() && (forall|j: int|
                0 <= j < names.len() ==> env.committee.stake_spec(#[trigger] names[j]) > 0)
                && env.committee.support_of(names.to_set()) >= env.committee.quorum();
            let signed = forall|j: int|
                0 <= j < qc.votes.len() ==> is_derived((#[trigger] qc.votes[j]).0@) && signed_by(
                    qc.id,
                    qc.votes[j].0,
                    qc.votes[j].1,
                );
            &&& facts.qc_valid[i] ==> backed
            &&& backed && signed ==> facts.qc_valid[i]
        },
{
    let message = header.consensus_messages[i].1;
    match message.qc {
        Some(qc) => {
            if qc.votes.len() > 0 {
                let result = choose|result: ConsensusResult<()>| #[trigger]
                    qc_answer(qc, &env.committee, result) && facts.qc_valid[i] == (result is Ok);
                law_quorum_certificates_judged(qc, &env.committee, result);
            }
        },
        None => {},
    }
}

/// What timeouts ask for is carried over: a Prepare on the strength of a timeout
/// certificate gets our vote only if each of its proposals is among those that
/// the timeouts ask for, wherever they ask for any.
pub proof fn law_prepare_carries_over(
    env: CoreEnv,
    s: CoreModel,
    message: MessageModel,
    qc_valid: bool,
    known: Map<Digest, ()>,
    i: int,
)
    requires
        message.kind == MessageKind::Prepare,
        message.tc is Some,
        sorted(winner(message.tc->0.timeouts).proposals),
        winner(message.tc->0.timeouts).proposals.len() > 0,
        message_processed(env, s, message, qc_valid, known).2.len() > 0,
        0 <= i < message.proposals.len(),
    ensures
        winner(message.tc->0.timeouts).proposals.contains(message.proposals[i]),
{
    let asked = winner(message.tc->0.timeouts).proposals;
    lemma_as_map(asked);
    let (author, proposal) = message.proposals[i];
    assert(has_key(asked, author) && as_map(asked)[author] == proposal);
    assert(as_map(asked).contains_key(author));
    let k = choose|k: int|
        0 <= k < asked.len() && (#[trigger] asked[k]).0 == author && as_map(asked)[author]
            == asked[k].1;
    assert(asked[k] == message.proposals[i]);
}

/// A slot that is new to us starts in its first view, and no message takes us to
/// another view of a slot.
pub proof fn law_slots_start_in_first_view(
    env: CoreEnv,
    s: CoreModel,
    message: MessageModel,
    qc_valid: bool,
    known: Map<Digest, ()>,
)
    ensures
        ({
            let t = message_processed(env, s, message, qc_valid, known).0;
            &&& message.kind == MessageKind::Prepare && !s.views.contains_key(message.slot)
                ==> t.views == s.views.insert(message.slot, 1)
            &&& message.kind != MessageKind::Prepare || s.views.contains_key(message.slot)
                ==> t.views == s.views
        }),
{
}

} // verus!
