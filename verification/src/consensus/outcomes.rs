//! What the steps of the consensus core come to: which messages go out, with
//! what in them, and what is remembered.

use crate::bytes::le_bytes;
use crate::config::worker_in;
use crate::consensus::aggregator::{gathered, AggregatorModel, CollectorModel};
use crate::consensus::laws::{happened, law_progress_is_kept, Event};
use crate::consensus::messages::{
    optional_bytes, parent_bytes, qc_items, qc_verdict, special_verdict, tc_verdict, AcceptVote,
    CertificateModel, ConsensusMessage, HeaderModel, QcModel, TcModel, TicketModel, TimeoutModel,
};
use crate::consensus::state::{
    ancestor_wanted, booted, certificate_handled, commit_looked_up, committed, header_handled,
    initial_state, qc_handled, tc_handled, timed_out, timeout_handled, vote_handled, ActionModel,
    CoreModel, Env,
};
use crate::consensus::view_core::{message_handled, message_qc};
use crate::crypto::{
    all_valid, digest_of, is_derived, signature_with, signed_by, signer_output, Digest, PublicKey,
    Signature,
};
use crate::primary::error::{ConsensusError, ConsensusResult, ViewNumber};
use crate::primary::messages::{payload_bytes, zero_digest};
use crate::quorum::{law_quorums_pass, lemma_faultless, voters, weight};
use vstd::prelude::*;

verus! {

/// Whether going from `s` to `t` takes over what `qc` shows: the certificate of
/// the higher view and the higher round are kept.
pub open spec fn takes_over(s: CoreModel, t: CoreModel, qc: QcModel) -> bool {
    &&& qc.view > s.high_qc.view ==> t.high_qc == qc
    &&& qc.view <= s.high_qc.view ==> t.high_qc == s.high_qc
    &&& t.round >= s.round
    &&& t.round >= qc.view_round
    &&& t.round == s.round || t.round == qc.view_round
}

/// Whether `b` holds the votes and timeouts of `a` for the views from `view` on,
/// and none for the views before.
pub open spec fn keeps_from(a: AggregatorModel, b: AggregatorModel, view: ViewNumber) -> bool {
    forall|v: ViewNumber|
        {
            &&& #[trigger] b.votes.contains_key(v) <==> v >= view && a.votes.contains_key(v)
            &&& #[trigger] b.timeouts.contains_key(v) <==> v >= view && a.timeouts.contains_key(v)
            &&& b.votes.contains_key(v) ==> b.votes[v] == a.votes[v]
            &&& b.timeouts.contains_key(v) ==> b.timeouts[v] == a.timeouts[v]
        }
}

/// Whether `view` is closed in `t`: if we had not left it we are in the next one,
/// with nothing left of the votes before that.
pub open spec fn view_closed(s: CoreModel, t: CoreModel, view: ViewNumber) -> bool {
    if view < s.view {
        t.view == s.view && t.aggregator == s.aggregator
    } else {
        t.view == view + 1 && keeps_from(s.aggregator, t.aggregator, t.view)
    }
}

/// Whether nothing changed but the view, the highest certificate and round, and
/// the votes and timeouts.
pub open spec fn otherwise_same(s: CoreModel, t: CoreModel) -> bool {
    &&& t.last_prepared_view == s.last_prepared_view
    &&& t.last_voted_view == s.last_voted_view
    &&& t.last_committed_view == s.last_committed_view
    &&& t.stored_headers == s.stored_headers
    &&& t.high_prepare == s.high_prepare
    &&& t.high_cert == s.high_cert
    &&& t.processing_headers == s.processing_headers
}

/// Whether `actions` have what `ticket` names committed, and have the leader of
/// the view after it propose with it if that is the current view.
pub open spec fn puts_to_use(
    env: Env,
    t: CoreModel,
    actions: Seq<ActionModel>,
    ticket: TicketModel,
) -> bool {
    let leads = env.name == env.order[t.view as int % env.order.len() as int];
    &&& actions.contains(ActionModel::ProcessCommit(ticket.hash, ticket))
    &&& leads && ticket.view + 1 == t.view <==> actions.contains(ActionModel::Propose(ticket))
}

/// A valid quorum certificate is taken over, closes its view and is put to use:
/// as the ticket for its header.
pub proof fn law_certificate_taken_over(env: Env, s: CoreModel, qc: QcModel)
    requires
        qc.view < u64::MAX,
        !(qc.hash == zero_digest() && qc.view == 0 && qc.view_round == 0),
    ensures
        ({
            let (t, actions, result) = qc_handled(env, s, qc, Ok(()));
            &&& result is Ok
            &&& takes_over(s, t, qc)
            &&& view_closed(s, t, qc.view)
            &&& otherwise_same(s, t)
            &&& actions.contains(ActionModel::ResetTimer) <==> qc.view >= s.view
            &&& puts_to_use(
                env,
                t,
                actions,
                TicketModel { hash: qc.hash, qc, tc: None, view: qc.view, round: qc.view_round },
            )
        }),
{
    let (t, actions, result) = qc_handled(env, s, qc, Ok(()));
    let ticket = TicketModel { hash: qc.hash, qc, tc: None, view: qc.view, round: qc.view_round };
    let k: int = if qc.view >= s.view { 1 } else { 0 };
    let leads = env.name == env.order[t.view as int % env.order.len() as int];
    assert(actions[k] == ActionModel::ProcessCommit(qc.hash, ticket));
    if qc.view >= s.view {
        assert(actions[0] == ActionModel::ResetTimer);
    }
    if leads && ticket.view + 1 == t.view {
        assert(actions[k + 1] == ActionModel::Propose(ticket));
    }
}

/// Whatever happens after a valid certificate was taken over, the timeouts that
/// we send carry a certificate of at least its view.
pub proof fn law_timeouts_carry_highest(
    env: Env,
    s: CoreModel,
    qc: QcModel,
    event: Event,
    verdict: ConsensusResult<()>,
)
    requires
        qc.view < u64::MAX,
        !(qc.hash == zero_digest() && qc.view == 0 && qc.view_round == 0),
    ensures
        ({
            let t = qc_handled(env, s, qc, Ok(())).0;
            let u = happened(env, t, event).0;
            &&& timed_out(env, t, verdict).1[1] matches ActionModel::BroadcastTimeout(first)
                && first.high_qc.view >= qc.view
            &&& timed_out(env, u, verdict).1[1] matches ActionModel::BroadcastTimeout(second)
                && second.high_qc.view >= qc.view
        }),
{
    let t = qc_handled(env, s, qc, Ok(())).0;
    law_certificate_taken_over(env, s, qc);
    law_progress_is_kept(env, t, event);
}

/// When the timer fires, the current view is given up: our signed timeout for it
/// goes to everyone with the highest certificate that we have.
pub proof fn law_timeout_sent(env: Env, s: CoreModel, verdict: ConsensusResult<()>)
    ensures
        ({
            let (t, actions, _) = timed_out(env, s, verdict);
            &&& actions.len() >= 2
            &&& actions[0] == ActionModel::ResetTimer
            &&& actions[1] matches ActionModel::BroadcastTimeout(timeout) && {
                &&& timeout.high_qc == s.high_qc
                &&& timeout.view == s.view
                &&& timeout.author == env.name
                &&& timeout.signature == signature_with(
                    signer_output(
                        env.disabled,
                        env.keypair,
                        digest_of(
                            le_bytes(s.view as nat, 8) + le_bytes(s.high_qc.view as nat, 8),
                        )@,
                    ),
                )
            }
            &&& t.last_voted_view >= s.view
            &&& t.last_prepared_view >= s.view
        }),
{
}

/// Whether `votes` with total stake `weight` are what was counted for what a
/// vote accepts since the last certificate.
pub open spec fn accepted_so_far(
    state: AggregatorModel,
    vote: AcceptVote,
    votes: Seq<(PublicKey, Signature)>,
    weight: nat,
) -> bool {
    let digest = digest_of(
        vote.hash@ + le_bytes(vote.view as nat, 8) + le_bytes(vote.view_round as nat, 8),
    );
    if state.votes.contains_key(vote.view) && state.votes[vote.view].contains_key(digest) {
        let maker = state.votes[vote.view][digest];
        maker.votes == votes && maker.weight == weight && !maker.try_fast
    } else {
        votes.len() == 0 && weight == 0
    }
}

/// A vote by a member of the committee, signed over header, view and round,
/// counts once in the views that we have not left. The one that completes a
/// quorum makes the certificate of all the votes, which is taken over, sent to
/// everyone and put to use.
pub proof fn law_votes_make_certificate(
    env: Env,
    s: CoreModel,
    vote: AcceptVote,
    votes: Seq<(PublicKey, Signature)>,
    weight: nat,
)
    requires
        s.view <= vote.view < u64::MAX,
        env.committee.stake_spec(vote.author) > 0,
        signed_by(
            digest_of(
                vote.hash@ + le_bytes(vote.view as nat, 8) + le_bytes(vote.view_round as nat, 8),
            ),
            vote.author,
            vote.signature,
        ),
        accepted_so_far(s.aggregator, vote, votes, weight),
        !voters(votes).contains(vote.author),
    ensures
        ({
            let (t, actions, result) = vote_handled(env, s, vote);
            let total = weight + env.committee.stake_spec(vote.author);
            let all = votes.push((vote.author, vote.signature));
            let qc = QcModel {
                hash: vote.hash,
                view: vote.view,
                view_round: vote.view_round,
                votes: all,
            };
            &&& result is Ok
            &&& otherwise_same(s, t)
            &&& total < env.committee.quorum() ==> {
                &&& actions.len() == 0
                &&& t == (CoreModel { aggregator: t.aggregator, ..s })
                &&& accepted_so_far(t.aggregator, vote, all, total)
            }
            &&& total >= env.committee.quorum() ==> {
                &&& takes_over(s, t, qc)
                &&& t.view == vote.view + 1
                &&& actions.contains(ActionModel::ResetTimer)
                &&& actions.contains(ActionModel::BroadcastQc(qc))
                &&& puts_to_use(
                    env,
                    t,
                    actions,
                    TicketModel {
                        hash: qc.hash,
                        qc,
                        tc: None,
                        view: qc.view,
                        round: qc.view_round,
                    },
                )
            }
        }),
{
    let (t, actions, result) = vote_handled(env, s, vote);
    let total = weight + env.committee.stake_spec(vote.author);
    let all = votes.push((vote.author, vote.signature));
    let qc = QcModel {
        hash: vote.hash,
        view: vote.view,
        view_round: vote.view_round,
        votes: all,
    };
    let ticket = TicketModel { hash: qc.hash, qc, tc: None, view: qc.view, round: qc.view_round };
    let digest = digest_of(
        vote.hash@ + le_bytes(vote.view as nat, 8) + le_bytes(vote.view_round as nat, 8),
    );
    let leads = env.name == env.order[t.view as int % env.order.len() as int];
    assert((s.aggregator.votes.contains_key(vote.view)
        && s.aggregator.votes[vote.view].contains_key(digest)) || votes =~= Seq::<
        (PublicKey, Signature),
    >::empty());
    if total >= env.committee.quorum() {
        assert(actions[0] == ActionModel::ResetTimer);
        assert(actions[1] == ActionModel::BroadcastQc(qc));
        assert(actions[2] == ActionModel::ProcessCommit(qc.hash, ticket));
        if leads {
            assert(actions[3] == ActionModel::Propose(ticket));
        }
    }
}

/// Votes that count for nothing: for a view that we left, by somebody who is not
/// in the committee, or wrongly signed.
pub proof fn law_bad_votes_ignored(env: Env, s: CoreModel, vote: AcceptVote)
    requires
        vote.view < s.view || env.committee.stake_spec(vote.author) == 0 || !signed_by(
            digest_of(
                vote.hash@ + le_bytes(vote.view as nat, 8) + le_bytes(vote.view_round as nat, 8),
            ),
            vote.author,
            vote.signature,
        ),
    ensures
        vote_handled(env, s, vote).0 == s,
        vote_handled(env, s, vote).1.len() == 0,
        vote_handled(env, s, vote).2 is Err <==> vote.view >= s.view,
{
}

/// The timeouts collected for a view.
pub open spec fn collected_for(state: AggregatorModel, view: ViewNumber) -> CollectorModel {
    if state.timeouts.contains_key(view) {
        state.timeouts[view]
    } else {
        CollectorModel {
            votes: Seq::empty(),
            weight: 0,
            hash: zero_digest(),
            high_view: 0,
            view_round: 0,
        }
    }
}

/// A signed timeout by a member of the committee, for a view that we have not
/// left and with a certificate from before it, counts once. Its certificate is
/// taken over. The timeout that completes a quorum makes a timeout certificate
/// with all of them, for the header of the highest certificate among them; it
/// closes the view, goes to everyone and is put to use.
pub proof fn law_timeouts_make_certificate(env: Env, s: CoreModel, timeout: TimeoutModel)
    requires
        s.view <= timeout.view < u64::MAX,
        timeout.high_qc.view < s.view,
        env.committee.stake_spec(timeout.author) > 0,
        signed_by(
            digest_of(
                le_bytes(timeout.view as nat, 8) + le_bytes(timeout.high_qc.view as nat, 8),
            ),
            timeout.author,
            timeout.signature,
        ),
        forall|i: int|
            0 <= i < collected_for(s.aggregator, timeout.view).votes.len() ==> (
            #[trigger] collected_for(s.aggregator, timeout.view).votes[i]).0 != timeout.author,
    ensures
        ({
            let (t, actions, result) = timeout_handled(env, s, timeout, Ok(()));
            let before = collected_for(s.aggregator, timeout.view);
            let total = before.weight + env.committee.stake_spec(timeout.author);
            let higher = timeout.high_qc.view > before.high_view;
            let tc = TcModel {
                hash: if higher {
                    timeout.high_qc.hash
                } else {
                    before.hash
                },
                view: timeout.view,
                view_round: if higher {
                    timeout.high_qc.view_round
                } else {
                    before.view_round
                },
                votes: before.votes.push(
                    (timeout.author, timeout.signature, timeout.high_qc.view),
                ),
            };
            &&& result is Ok
            &&& otherwise_same(s, t)
            &&& takes_over(s, t, timeout.high_qc)
            &&& total < env.committee.quorum() ==> {
                let after = collected_for(t.aggregator, timeout.view);
                &&& actions.len() == 0
                &&& t.view == s.view
                &&& after.votes == tc.votes
                &&& after.weight == total
                &&& after.hash == tc.hash
                &&& after.view_round == tc.view_round
                &&& after.high_view >= before.high_view
                &&& after.high_view >= timeout.high_qc.view
            }
            &&& total >= env.committee.quorum() ==> {
                &&& t.view == timeout.view + 1
                &&& actions.contains(ActionModel::ResetTimer)
                &&& actions.contains(ActionModel::BroadcastTc(tc))
                &&& puts_to_use(
                    env,
                    t,
                    actions,
                    TicketModel {
                        hash: tc.hash,
                        qc: t.high_qc,
                        tc: Some(tc),
                        view: tc.view,
                        round: tc.view_round,
                    },
                )
            }
        }),
{
    let (t, actions, result) = timeout_handled(env, s, timeout, Ok(()));
    let before = collected_for(s.aggregator, timeout.view);
    let names = crate::consensus::messages::timeout_voters(before.votes);
    assert(!names.contains(timeout.author)) by {
        if names.contains(timeout.author) {
            let i = choose|i: int| 0 <= i < names.len() && names[i] == timeout.author;
            assert(before.votes[i].0 == timeout.author);
        }
    }
    assert(before == (if s.aggregator.timeouts.contains_key(timeout.view) {
        s.aggregator.timeouts[timeout.view]
    } else {
        crate::consensus::aggregator::empty_collector()
    }));
    let total = before.weight + env.committee.stake_spec(timeout.author);
    if total >= env.committee.quorum() {
        let leads = env.name == env.order[t.view as int % env.order.len() as int];
        assert(actions[0] == ActionModel::ResetTimer);
        assert(actions[1] is ProcessCommit);
        let ticket = actions[1]->ProcessCommit_1;
        assert(actions[1] == ActionModel::ProcessCommit(ticket.hash, ticket));
        if leads {
            assert(actions[2] == ActionModel::Propose(ticket));
        }
        assert(actions[actions.len() - 1] is BroadcastTc);
    }
}

/// A collection of timeouts stands at the highest view of their certificates,
/// and stays there.
pub proof fn law_collection_keeps_highest(env: Env, state: CollectorModel, timeout: TimeoutModel)
    requires
        forall|i: int|
            0 <= i < state.votes.len() ==> (#[trigger] state.votes[i]).2 <= state.high_view,
        state.high_view > 0 ==> exists|i: int|
            0 <= i < state.votes.len() && (#[trigger] state.votes[i]).2 == state.high_view,
    ensures
        ({
            let next = gathered(state, timeout, &env.committee).0;
            &&& forall|i: int|
                0 <= i < next.votes.len() ==> (#[trigger] next.votes[i]).2 <= next.high_view
            &&& next.high_view > 0 ==> exists|i: int|
                0 <= i < next.votes.len() && (#[trigger] next.votes[i]).2 == next.high_view
            &&& next.high_view > state.high_view ==> {
                &&& next.hash == timeout.high_qc.hash
                &&& next.view_round == timeout.high_qc.view_round
                &&& next.high_view == timeout.high_qc.view
            }
            &&& next.high_view == state.high_view ==> next.hash == state.hash && next.view_round
                == state.view_round
        }),
{
    let next = gathered(state, timeout, &env.committee).0;
    if next.high_view > 0 {
        if next.high_view == state.high_view {
            let i = choose|i: int|
                0 <= i < state.votes.len() && (#[trigger] state.votes[i]).2 == state.high_view;
            assert(next.votes[i] == state.votes[i]);
        } else {
            assert(next.votes[state.votes.len() as int].2 == next.high_view);
        }
    }
}

/// A valid timeout certificate closes its view and is put to use, with the
/// highest quorum certificate that we have beside it.
pub proof fn law_timeout_certificate_used(env: Env, s: CoreModel, tc: TcModel)
    requires
        tc.view < u64::MAX,
        tc_verdict(tc, &env.committee) is Ok,
    ensures
        ({
            let (t, actions, result) = tc_handled(env, s, tc);
            &&& result is Ok
            &&& view_closed(s, t, tc.view)
            &&& otherwise_same(s, t)
            &&& t.high_qc == s.high_qc
            &&& t.round == s.round
            &&& actions.contains(ActionModel::ResetTimer) <==> tc.view >= s.view
            &&& puts_to_use(
                env,
                t,
                actions,
                TicketModel {
                    hash: tc.hash,
                    qc: s.high_qc,
                    tc: Some(tc),
                    view: tc.view,
                    round: tc.view_round,
                },
            )
        }),
{
    let (t, actions, result) = tc_handled(env, s, tc);
    let ticket = TicketModel {
        hash: tc.hash,
        qc: s.high_qc,
        tc: Some(tc),
        view: tc.view,
        round: tc.view_round,
    };
    let k: int = if tc.view >= s.view { 1 } else { 0 };
    let leads = env.name == env.order[t.view as int % env.order.len() as int];
    assert(actions[k] == ActionModel::ProcessCommit(tc.hash, ticket));
    if tc.view >= s.view {
        assert(actions[0] == ActionModel::ResetTimer);
    }
    if leads && ticket.view + 1 == t.view {
        assert(actions[k + 1] == ActionModel::Propose(ticket));
    }
}

/// A timeout certificate that passes, other than that of the first view, shows
/// the signatures of a quorum of different authorities over its view and the
/// views of their certificates.
pub proof fn law_timeout_certificates_show_quorum(env: Env, tc: TcModel)
    requires
        env.committee.wf(),
        tc_verdict(tc, &env.committee) is Ok,
        !(tc.hash == zero_digest() && tc.view == 0 && tc.view_round == 0),
    ensures
        ({
            let names = tc.votes.map_values(|vote: (PublicKey, Signature, ViewNumber)| vote.0);
            &&& names.no_duplicates()
            &&& env.committee.support_of(names.to_set()) >= env.committee.quorum()
        }),
        forall|i: int|
            0 <= i < tc.votes.len() ==> signed_by(
                digest_of(
                    le_bytes(tc.view as nat, 8) + le_bytes((#[trigger] tc.votes[i]).2 as nat, 8),
                ),
                tc.votes[i].0,
                tc.votes[i].1,
            ),
{
    let names = tc.votes.map_values(|vote: (PublicKey, Signature, ViewNumber)| vote.0);
    assert(names =~= crate::consensus::messages::timeout_voters(tc.votes));
    lemma_faultless(&env.committee, names);
}

/// Whether a header is one to accept for its view: new to us, of a view above
/// those in which we validated, gave up or committed, sound, and by the leader of
/// its view.
pub open spec fn acceptable(env: Env, s: CoreModel, header: HeaderModel) -> bool {
    &&& !(s.processing_headers.contains_key(header.view)
        && s.processing_headers[header.view].contains(header.id))
    &&& s.last_prepared_view < header.view
    &&& s.last_committed_view < header.view
    &&& special_verdict(header, &env.committee) is Ok
    &&& header.author == env.order[header.view as int % env.order.len() as int]
}

/// An acceptable header whose ticket closes the view before, by a valid
/// certificate, takes us to its view. It is stored, and found valid if and only
/// if it has a ticket and a higher round than what was decided.
pub proof fn law_header_accepted(env: Env, s: CoreModel, header: HeaderModel)
    requires
        acceptable(env, s, header),
        match header.ticket {
            None => true,
            Some(ticket) => match ticket.tc {
                Some(tc) => tc.view + 1 == header.view && tc_verdict(tc, &env.committee) is Ok,
                None => ticket.qc.view + 1 == header.view,
            },
        },
    ensures
        ({
            let (t, actions, result) = header_handled(env, s, header, Ok(()));
            let n = actions.len() as int;
            &&& result is Ok
            &&& t.view == header.view
            &&& t.last_prepared_view == header.view
            &&& t.last_voted_view == s.last_voted_view
            &&& t.last_committed_view == s.last_committed_view
            &&& t.high_prepare == header
            &&& t.high_cert == s.high_cert
            &&& t.stored_headers == s.stored_headers.insert(header.id, header)
            &&& t.processing_headers.contains_key(header.view)
            &&& t.processing_headers[header.view].contains(header.id)
            &&& n >= 2
            &&& actions[n - 2] == ActionModel::StoreHeader(header)
            &&& actions[n - 1] == ActionModel::Validate(
                header,
                if header.ticket is Some && header.round > t.round {
                    1
                } else {
                    0
                },
            )
        }),
{
}

/// A header from somebody who does not lead its view, an unsound one, or one
/// whose ticket does not close the view before is refused, and only that it was
/// seen is remembered.
pub proof fn law_bad_headers_refused(
    env: Env,
    s: CoreModel,
    header: HeaderModel,
    verdict: ConsensusResult<()>,
)
    requires
        !(s.processing_headers.contains_key(header.view)
            && s.processing_headers[header.view].contains(header.id)),
        s.last_prepared_view < header.view < u64::MAX,
        s.last_committed_view < header.view,
    ensures
        ({
            let (t, actions, result) = header_handled(env, s, header, verdict);
            let sound = special_verdict(header, &env.committee) is Ok;
            let leads = header.author == env.order[header.view as int % env.order.len() as int];
            let closes = match header.ticket {
                None => true,
                Some(ticket) => match ticket.tc {
                    Some(tc) => tc.view + 1 == header.view,
                    None => ticket.qc.view + 1 == header.view,
                },
            };
            &&& !sound ==> result == Err::<(), ConsensusError>(ConsensusError::InvalidHeader)
            &&& sound && !leads ==> result == Err::<(), ConsensusError>(
                ConsensusError::WrongProposer,
            )
            &&& sound && leads && !closes ==> result == Err::<(), ConsensusError>(
                ConsensusError::InvalidTicket,
            )
            &&& !sound || !leads || !closes ==> {
                &&& actions.len() == 0
                &&& t == (CoreModel { processing_headers: t.processing_headers, ..s })
            }
        }),
{
}

/// A special header is sound if and only if its id is the digest of what it
/// holds, its author has stake, its batches are at workers of the author, and
/// the author signed the id.
pub proof fn law_sound_special_headers(env: Env, header: HeaderModel)
    ensures
        special_verdict(header, &env.committee) is Ok <==> {
            &&& header.id == digest_of(
                header.author@ + le_bytes(header.round as nat, 8) + payload_bytes(header.payload)
                    + parent_bytes(header.parents) + le_bytes(header.view as nat, 8) + le_bytes(
                    header.prev_view_round as nat,
                    8,
                ) + optional_bytes(header.special_parent) + le_bytes(
                    header.special_parent_round as nat,
                    8,
                ) + optional_bytes(header.consensus_parent),
            )
            &&& env.committee.stake_spec(header.author) > 0
            &&& forall|i: int|
                0 <= i < header.payload.len() ==> worker_in(
                    env.committee@,
                    header.author,
                    (#[trigger] header.payload[i]).1,
                ) is Some
            &&& signed_by(header.id, header.author, header.signature)
        },
{
}

/// The first certificate of a view that is ahead of our votes gets our vote, if
/// its header was processed: signed over the id, view and round of the header,
/// and sent to the leader of the next view. It is stored, and the vote is
/// remembered.
pub proof fn law_certificate_gets_vote(
    env: Env,
    s: CoreModel,
    certificate: CertificateModel,
    verdict: ConsensusResult<()>,
    fast_verdict: ConsensusResult<()>,
)
    requires
        certificate.header.view >= s.view,
        certificate.header.view > s.last_committed_view,
        certificate.header.view > s.last_voted_view,
        s.processing_headers.contains_key(certificate.header.view),
        s.processing_headers[certificate.header.view].contains(certificate.header.id),
        weight(&env.committee, voters(certificate.votes)) < env.committee.total(),
        s.view < u64::MAX,
        env.name != env.order[(s.view + 1) % (env.order.len() as int)],
    ensures
        ({
            let (t, actions, result) = certificate_handled(
                env,
                s,
                certificate,
                verdict,
                fast_verdict,
            );
            let header = certificate.header;
            &&& result is Ok
            &&& t.last_voted_view == header.view
            &&& t.high_cert == certificate
            &&& t.stored_headers == s.stored_headers.insert(header.id, header)
            &&& t.view == s.view
            &&& t.high_qc == s.high_qc
            &&& actions.len() == 2
            &&& actions[0] == ActionModel::StoreCertificate(certificate)
            &&& actions[1] matches ActionModel::SendVote(to, vote) && {
                &&& to == env.order[(s.view + 1) % (env.order.len() as int)]
                &&& vote.hash == header.id
                &&& vote.view == header.view
                &&& vote.view_round == header.round
                &&& vote.author == env.name
                &&& vote.signature == signature_with(
                    signer_output(
                        env.disabled,
                        env.keypair,
                        digest_of(
                            header.id@ + le_bytes(header.view as nat, 8) + le_bytes(
                                header.round as nat,
                                8,
                            ),
                        )@,
                    ),
                )
            }
        }),
{
}

/// A certificate with the votes of everyone decides its view at once: they make
/// a quorum certificate, which is taken over and put to use.
pub proof fn law_unanimous_certificate_decides(
    env: Env,
    s: CoreModel,
    certificate: CertificateModel,
    verdict: ConsensusResult<()>,
)
    requires
        certificate.header.view >= s.view,
        certificate.header.view > s.last_committed_view,
        certificate.header.view > s.last_voted_view,
        certificate.header.view < u64::MAX,
        s.processing_headers.contains_key(certificate.header.view),
        s.processing_headers[certificate.header.view].contains(certificate.header.id),
        weight(&env.committee, voters(certificate.votes)) >= env.committee.total(),
    ensures
        ({
            let (t, actions, result) = certificate_handled(env, s, certificate, verdict, Ok(()));
            let header = certificate.header;
            let qc = QcModel {
                hash: header.id,
                view: header.view,
                view_round: header.round,
                votes: certificate.votes,
            };
            &&& result is Ok
            &&& t.last_voted_view == header.view
            &&& t.high_cert == certificate
            &&& takes_over(s, t, qc)
            &&& t.view == header.view + 1
            &&& actions.contains(ActionModel::StoreCertificate(certificate))
            &&& puts_to_use(
                env,
                t,
                actions,
                TicketModel {
                    hash: header.id,
                    qc,
                    tc: None,
                    view: header.view,
                    round: header.round,
                },
            )
        }),
{
    let (t, actions, result) = certificate_handled(env, s, certificate, verdict, Ok(()));
    let header = certificate.header;
    let qc = QcModel {
        hash: header.id,
        view: header.view,
        view_round: header.round,
        votes: certificate.votes,
    };
    let ticket = TicketModel {
        hash: header.id,
        qc,
        tc: None,
        view: header.view,
        round: header.round,
    };
    let leads = env.name == env.order[t.view as int % env.order.len() as int];
    assert(actions[0] == ActionModel::StoreCertificate(certificate));
    assert(actions[1] == ActionModel::ResetTimer);
    assert(actions[2] == ActionModel::ProcessCommit(header.id, ticket));
    if leads {
        assert(actions[3] == ActionModel::Propose(ticket));
    }
}

/// A header above the last committed view, whose parent ticket is stored, is
/// committed by its ticket unless its view timed out: it goes to the committer
/// last, what was committed is reported to the mempool, and the ticket is stored.
/// What was begun in earlier views is forgotten. Without the parent ticket it
/// waits for that.
pub proof fn law_header_committed(
    s: CoreModel,
    header: HeaderModel,
    ancestors: Seq<HeaderModel>,
    ticket: TicketModel,
    parent_known: bool,
)
    ensures
        ({
            let (t, actions) = committed(s, header, ancestors, ticket, parent_known);
            let n = actions.len() as int;
            let certificate = CertificateModel {
                header,
                special_valids: Seq::empty(),
                votes: Seq::empty(),
            };
            if header.view <= s.last_committed_view {
                t == s && n == 0
            } else if !parent_known {
                t == s && actions == seq![ActionModel::AwaitTicket(header, ticket)]
            } else if ticket.tc is Some {
                t == s && actions == seq![ActionModel::StoreTicket(ticket)]
            } else {
                &&& t.last_committed_view == header.view
                &&& t == (CoreModel {
                    last_committed_view: header.view,
                    processing_headers: t.processing_headers,
                    ..s
                })
                &&& forall|view: ViewNumber|
                    {
                        &&& #[trigger] t.processing_headers.contains_key(view) <==> view
                            >= header.view && s.processing_headers.contains_key(view)
                        &&& t.processing_headers.contains_key(view)
                            ==> t.processing_headers[view] == s.processing_headers[view]
                    }
                &&& n >= 3
                &&& actions[n - 3] == ActionModel::Commit(certificate)
                &&& actions[n - 2] matches ActionModel::Cleanup(done) && {
                    &&& done.len() == n - 2
                    &&& forall|i: int|
                        0 <= i < done.len() ==> (#[trigger] actions[i]) == ActionModel::Commit(
                            done[i],
                        )
                }
                &&& actions[n - 1] == ActionModel::StoreTicket(ticket)
                &&& ancestors.len() == 0 ==> n == 3
            }
        }),
{
}

/// What a ticket names is committed if it is stored, and fetched if not.
pub proof fn law_unknown_headers_fetched(
    s: CoreModel,
    hash: Digest,
    ticket: TicketModel,
    header: HeaderModel,
    ancestors: Seq<HeaderModel>,
    parent_known: bool,
)
    ensures
        commit_looked_up(s, hash, ticket, None, ancestors, parent_known) == (
            s,
            seq![ActionModel::FetchHeader(hash, ticket)],
        ),
        header.view > s.last_committed_view && parent_known && ticket.tc is None
            ==> commit_looked_up(
            s,
            hash,
            ticket,
            Some(header),
            ancestors,
            parent_known,
        ).0.last_committed_view == header.view,
{
}

/// The header that the QC of a ticket names is committed first if and only if
/// views between the last committed one and the header's were passed over, and
/// there is one.
pub proof fn law_skipped_views_committed_first(s: CoreModel, header: HeaderModel)
    ensures
        ancestor_wanted(s, header) is Some <==> {
            &&& s.last_committed_view + 1 < header.view
            &&& header.ticket is Some
            &&& !(header.ticket->0.qc.hash == zero_digest() && header.ticket->0.qc.view == 0
                && header.ticket->0.qc.view_round == 0)
        },
        ancestor_wanted(s, header) is Some ==> ancestor_wanted(s, header)->0
            == header.ticket->0.qc.hash,
{
}

/// A quorum certificate, other than that of the first view, passes only with
/// votes of a quorum of different authorities, and always if those are signed by
/// derived keys over its header, view and round.
pub proof fn law_quorum_certificates_judged(
    env: Env,
    qc: QcModel,
    result: ConsensusResult<()>,
)
    requires
        env.committee.wf(),
        qc_verdict(qc, &env.committee, result),
        !(qc.hash == zero_digest() && qc.view == 0 && qc.view_round == 0),
    ensures
        ({
            let names = voters(qc.votes);
            let digest = digest_of(
                qc.hash@ + le_bytes(qc.view as nat, 8) + le_bytes(qc.view_round as nat, 8),
            );
            let backed = names.no_duplicates() && (forall|i: int|
                0 <= i < names.len() ==> env.committee.stake_spec(#[trigger] names[i]) > 0)
                && env.committee.support_of(names.to_set()) >= env.committee.quorum();
            let signed = forall|i: int|
                0 <= i < qc.votes.len() ==> is_derived((#[trigger] qc.votes[i]).0@) && signed_by(
                    digest,
                    qc.votes[i].0,
                    qc.votes[i].1,
                );
            &&& result is Ok ==> backed
            &&& backed && signed ==> result is Ok
        }),
{
    let names = voters(qc.votes);
    law_quorums_pass(&env.committee, names);
    let digest = digest_of(
        qc.hash@ + le_bytes(qc.view as nat, 8) + le_bytes(qc.view_round as nat, 8),
    );
    let items = qc_items(qc);
    if forall|i: int|
        0 <= i < qc.votes.len() ==> is_derived((#[trigger] qc.votes[i]).0@) && signed_by(
            digest,
            qc.votes[i].0,
            qc.votes[i].1,
        ) {
        assert forall|i: int| 0 <= i < items.len() implies is_derived((#[trigger] items[i]).0@)
            && signed_by(items[i].1, items[i].0, items[i].2) by {
            assert(items[i].0 == qc.votes[i].0);
        }
        assert(all_valid(items));
    }
}

/// The certificate by which a header's ticket closes the view before is put to
/// use when the header is accepted, unless its view was committed already: a
/// quorum certificate is taken over, and what it names is committed.
pub proof fn law_header_brings_ticket(env: Env, s: CoreModel, header: HeaderModel)
    requires
        acceptable(env, s, header),
        header.ticket is Some,
        match header.ticket->0.tc {
            Some(tc) => tc.view + 1 == header.view && tc_verdict(tc, &env.committee) is Ok,
            None => {
                let qc = header.ticket->0.qc;
                &&& qc.view + 1 == header.view
                &&& !(qc.hash == zero_digest() && qc.view == 0 && qc.view_round == 0)
            },
        },
    ensures
        ({
            let (t, actions, _) = header_handled(env, s, header, Ok(()));
            match header.ticket->0.tc {
                Some(tc) => {
                    let ticket = TicketModel {
                        hash: tc.hash,
                        qc: s.high_qc,
                        tc: Some(tc),
                        view: tc.view,
                        round: tc.view_round,
                    };
                    &&& t.high_qc == s.high_qc
                    &&& t.round == s.round
                    &&& tc.view > s.last_committed_view ==> actions.contains(
                        ActionModel::ProcessCommit(tc.hash, ticket),
                    )
                    &&& tc.view <= s.last_committed_view ==> actions.len() == 2
                },
                None => {
                    let qc = header.ticket->0.qc;
                    let ticket = TicketModel {
                        hash: qc.hash,
                        qc,
                        tc: None,
                        view: qc.view,
                        round: qc.view_round,
                    };
                    &&& qc.view > s.last_committed_view ==> takes_over(s, t, qc)
                        && actions.contains(ActionModel::ProcessCommit(qc.hash, ticket))
                    &&& qc.view <= s.last_committed_view ==> actions.len() == 2 && t.high_qc
                        == s.high_qc && t.round == s.round
                },
            }
        }),
{
    let (t, actions, _) = header_handled(env, s, header, Ok(()));
    match header.ticket->0.tc {
        Some(tc) => {
            if tc.view > s.last_committed_view {
                let k: int = if tc.view >= s.view { 1 } else { 0 };
                assert(actions[k] is ProcessCommit);
            }
        },
        None => {
            let qc = header.ticket->0.qc;
            if qc.view > s.last_committed_view {
                let k: int = if qc.view >= s.view { 1 } else { 0 };
                assert(actions[k] is ProcessCommit);
            }
        },
    }
}

/// Our own timeout is processed like everyone else's, after we gave up the view.
pub proof fn law_own_timeout_counts(env: Env, s: CoreModel, verdict: ConsensusResult<()>)
    ensures
        ({
            let (t, actions, result) = timed_out(env, s, verdict);
            let given_up = CoreModel {
                last_prepared_view: if s.last_prepared_view >= s.view {
                    s.last_prepared_view
                } else {
                    s.view
                },
                last_voted_view: if s.last_voted_view >= s.view {
                    s.last_voted_view
                } else {
                    s.view
                },
                ..s
            };
            actions[1] matches ActionModel::BroadcastTimeout(timeout) && {
                let (u, more, answer) = timeout_handled(env, given_up, timeout, verdict);
                t == u && actions.skip(2) == more && result == answer
            }
        }),
{
    let (t, actions, result) = timed_out(env, s, verdict);
    let timeout = actions[1]->BroadcastTimeout_0;
    let given_up = CoreModel {
        last_prepared_view: if s.last_prepared_view >= s.view {
            s.last_prepared_view
        } else {
            s.view
        },
        last_voted_view: if s.last_voted_view >= s.view {
            s.last_voted_view
        } else {
            s.view
        },
        ..s
    };
    assert(actions.skip(2) =~= timeout_handled(env, given_up, timeout, verdict).1);
}

/// Whoever leads the next view counts its own vote at once: the vote is like one
/// that came from somebody else, for the header of the certificate.
pub proof fn law_own_vote_counts(
    env: Env,
    s: CoreModel,
    certificate: CertificateModel,
    verdict: ConsensusResult<()>,
    fast_verdict: ConsensusResult<()>,
)
    requires
        certificate.header.view >= s.view,
        certificate.header.view > s.last_committed_view,
        certificate.header.view > s.last_voted_view,
        s.processing_headers.contains_key(certificate.header.view),
        s.processing_headers[certificate.header.view].contains(certificate.header.id),
        weight(&env.committee, voters(certificate.votes)) < env.committee.total(),
        s.view < u64::MAX,
        env.name == env.order[(s.view + 1) % (env.order.len() as int)],
    ensures
        ({
            let (t, actions, result) = certificate_handled(
                env,
                s,
                certificate,
                verdict,
                fast_verdict,
            );
            let header = certificate.header;
            let voted = CoreModel {
                last_voted_view: header.view,
                high_cert: certificate,
                stored_headers: s.stored_headers.insert(header.id, header),
                ..s
            };
            let vote = AcceptVote {
                hash: header.id,
                view: header.view,
                view_round: header.round,
                author: env.name,
                signature: signature_with(
                    signer_output(
                        env.disabled,
                        env.keypair,
                        digest_of(
                            header.id@ + le_bytes(header.view as nat, 8) + le_bytes(
                                header.round as nat,
                                8,
                            ),
                        )@,
                    ),
                ),
            };
            let (u, more, answer) = vote_handled(env, voted, vote);
            &&& t == u
            &&& result == answer
            &&& actions.len() > 0
            &&& actions[0] == ActionModel::StoreCertificate(certificate)
            &&& actions.skip(1) == more
        }),
{
    let actions = certificate_handled(env, s, certificate, verdict, fast_verdict).1;
    let header = certificate.header;
    let voted = CoreModel {
        last_voted_view: header.view,
        high_cert: certificate,
        stored_headers: s.stored_headers.insert(header.id, header),
        ..s
    };
    let vote = AcceptVote {
        hash: header.id,
        view: header.view,
        view_round: header.round,
        author: env.name,
        signature: signature_with(
            signer_output(
                env.disabled,
                env.keypair,
                digest_of(
                    header.id@ + le_bytes(header.view as nat, 8) + le_bytes(
                        header.round as nat,
                        8,
                    ),
                )@,
            ),
        ),
    };
    assert(actions.skip(1) =~= vote_handled(env, voted, vote).1);
}

/// A certificate whose header is new brings the header first: if that is
/// refused, so is the certificate, and what is done for the header is done either
/// way. Certificates of views that are behind us, or in which we voted, are
/// refused.
pub proof fn law_certificate_brings_header(
    env: Env,
    s: CoreModel,
    certificate: CertificateModel,
    verdict: ConsensusResult<()>,
    fast_verdict: ConsensusResult<()>,
)
    ensures
        ({
            let header = certificate.header;
            let (t, actions, result) = certificate_handled(
                env,
                s,
                certificate,
                verdict,
                fast_verdict,
            );
            let old = header.view < s.view || header.view <= s.last_committed_view;
            let begun = s.processing_headers.contains_key(header.view)
                && s.processing_headers[header.view].contains(header.id);
            let (u, first, answer) = header_handled(env, s, header, verdict);
            &&& old ==> result == Err::<(), ConsensusError>(
                ConsensusError::TooOld(header.id, header.view),
            ) && t == s && actions.len() == 0
            &&& !old && header.view <= s.last_voted_view ==> result == Err::<(), ConsensusError>(
                ConsensusError::AlreadyVoted(header.id, header.view),
            ) && t == s && actions.len() == 0
            &&& !old && header.view > s.last_voted_view && !begun ==> {
                &&& first.len() <= actions.len()
                &&& actions.take(first.len() as int) == first
                &&& answer is Err ==> result is Err && t == u && actions == first
                &&& answer is Ok ==> actions.len() > first.len() && actions[first.len() as int]
                    == ActionModel::StoreCertificate(certificate) && t.last_voted_view
                    >= header.view
            }
        }),
{
    let header = certificate.header;
    let (t, actions, result) = certificate_handled(env, s, certificate, verdict, fast_verdict);
    let (u, first, answer) = header_handled(env, s, header, verdict);
    let old = header.view < s.view || header.view <= s.last_committed_view;
    let begun = s.processing_headers.contains_key(header.view)
        && s.processing_headers[header.view].contains(header.id);
    if !old && header.view > s.last_voted_view && !begun {
        if answer is Ok {
            let more = crate::consensus::state::certificate_voted(
                env,
                u,
                certificate,
                fast_verdict,
            ).1;
            assert(actions == first + more);
            assert(more[0] == ActionModel::StoreCertificate(certificate));
            assert(actions.take(first.len() as int) =~= first);
        } else {
            assert(actions.take(first.len() as int) =~= first);
        }
    }
}

/// Whatever else a sound timeout leads to, the certificate that it brings is taken
/// over.
pub proof fn law_timeout_brings_certificate(env: Env, s: CoreModel, timeout: TimeoutModel)
    requires
        timeout.view >= s.view,
        env.committee.stake_spec(timeout.author) > 0,
        signed_by(
            digest_of(
                le_bytes(timeout.view as nat, 8) + le_bytes(timeout.high_qc.view as nat, 8),
            ),
            timeout.author,
            timeout.signature,
        ),
    ensures
        takes_over(s, timeout_handled(env, s, timeout, Ok(())).0, timeout.high_qc),
        otherwise_same(s, timeout_handled(env, s, timeout, Ok(())).0),
{
}

/// Timeouts that count for nothing: for a view that we left, by somebody who is
/// not in the committee, wrongly signed, or with a certificate that does not
/// pass.
pub proof fn law_bad_timeouts_ignored(
    env: Env,
    s: CoreModel,
    timeout: TimeoutModel,
    verdict: ConsensusResult<()>,
)
    requires
        timeout.view < s.view || env.committee.stake_spec(timeout.author) == 0 || !signed_by(
            digest_of(
                le_bytes(timeout.view as nat, 8) + le_bytes(timeout.high_qc.view as nat, 8),
            ),
            timeout.author,
            timeout.signature,
        ) || verdict is Err,
    ensures
        timeout_handled(env, s, timeout, verdict).0 == s,
        timeout_handled(env, s, timeout, verdict).1.len() == 0,
        timeout_handled(env, s, timeout, verdict).2 is Err <==> timeout.view >= s.view,
{
}

/// At first we are in view 1, with nothing prepared, voted, committed or
/// certified, and no votes.
pub proof fn law_starts_in_first_view()
    ensures
        ({
            let s = initial_state();
            &&& s.view == 1
            &&& s.last_prepared_view == 0
            &&& s.last_voted_view == 0
            &&& s.last_committed_view == 0
            &&& s.round == 0
            &&& s.high_qc.hash == zero_digest()
            &&& s.high_qc.view == 0
            &&& s.high_qc.view_round == 0
            &&& s.high_qc.votes.len() == 0
            &&& s.aggregator.votes.dom().len() == 0
            &&& s.aggregator.timeouts.dom().len() == 0
            &&& s.processing_headers.dom().len() == 0
            &&& s.stored_headers.dom().len() == 0
        }),
{
}

/// Upon booting the timer starts, and the leader of view 1 proposes with the
/// ticket of the first view.
pub proof fn law_boot_starts_timer(env: Env)
    ensures
        ({
            let actions = booted(env, initial_state());
            let leads = env.name == env.order[1int % (env.order.len() as int)];
            &&& actions.len() == if leads {
                2int
            } else {
                1int
            }
            &&& actions[0] == ActionModel::ResetTimer
            &&& leads ==> (actions[1] matches ActionModel::Propose(ticket) && {
                &&& ticket.hash == zero_digest()
                &&& ticket.view == 0
                &&& ticket.round == 0
                &&& ticket.tc is None
                &&& ticket.qc.view == 0
            })
        }),
{
}

/// Every message from another replica is handled for what it is, and judged by
/// the quorum certificate that it brings.
pub proof fn law_messages_reach_handlers(
    env: Env,
    s: CoreModel,
    message: ConsensusMessage,
    verdict: ConsensusResult<()>,
)
    ensures
        message matches ConsensusMessage::AcceptVote(vote) ==> message_handled(
            env,
            s,
            message,
            verdict,
        ) == vote_handled(env, s, vote),
        message matches ConsensusMessage::QC(qc) ==> message_handled(env, s, message, verdict)
            == qc_handled(env, s, qc.model(), verdict) && message_qc(message) == qc.model(),
        message matches ConsensusMessage::Timeout(timeout) ==> message_handled(
            env,
            s,
            message,
            verdict,
        ) == timeout_handled(env, s, timeout.model(), verdict) && message_qc(message)
            == timeout.high_qc.model(),
        message matches ConsensusMessage::TC(tc) ==> message_handled(env, s, message, verdict)
            == tc_handled(env, s, tc.model()),
        message matches ConsensusMessage::Header(header) ==> message_handled(
            env,
            s,
            message,
            verdict,
        ) == header_handled(env, s, header.model(), verdict) && (header.ticket is Some
            ==> message_qc(message) == header.ticket->0.qc.model()),
{
}

} // verus!
