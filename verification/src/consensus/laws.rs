//! What the consensus core keeps to, whatever happens.

use crate::config::Committee;
use crate::consensus::aggregator::{
    abandoned, accepted, aggregator_ok, cleaned, collector_ok, empty_collector, votes_for, votes_in,
    AggregatorModel,
};
use crate::consensus::messages::{
    accept_bytes, accept_verdict, genesis_ticket, qc_verdict, special_verdict, AcceptVote,
    CertificateModel, HeaderModel, QcModel, TcModel, TicketModel, TimeoutModel,
};
use crate::consensus::state::{
    advanced, booted, certificate_handled, certificate_voted, chain_committed, commit_certificate,
    committed, fast_qc, fresh_ancestors, greater, header_handled,
    header_prepared, initial_state, leader, next_view, own_timeout, own_vote, processing_in,
    proposal, qc_adopted, qc_handled, qc_ticket, tc_handled, tc_processed, tc_ticket,
    ticket_processed, ticket_used, timed_out, timeout_handled, vote_handled, ActionModel,
    CoreModel, Env,
};
use crate::crypto::{
    all_valid, digest_of, is_derived, signed_by, votes_on, Digest, PublicKey, Signature,
};
use crate::primary::aggregators::{maker_ok, voted, QcMakerModel};
use crate::primary::error::{ConsensusError, ConsensusResult, ViewNumber};
use crate::quorum::{first_fault, lemma_faultless, lemma_set_push, quorum_fault, voters};
use vstd::prelude::*;

verus! {

/// Something that happens to the core, with the verdicts on the certificates that
/// it brings.
pub enum Event {
    /// A special header arrived.
    Header(HeaderModel, ConsensusResult<()>),
    /// The certificate of a special header arrived.
    Certificate(CertificateModel, ConsensusResult<()>, ConsensusResult<()>),
    /// A vote arrived.
    Vote(AcceptVote),
    /// A quorum certificate arrived.
    Qc(QcModel, ConsensusResult<()>),
    /// A timeout arrived.
    Timeout(TimeoutModel, ConsensusResult<()>),
    /// A timeout certificate arrived.
    Tc(TcModel),
    /// The view timer fired.
    Expired(ConsensusResult<()>),
    /// A header that may be committed was found, with its ancestors.
    Commit(HeaderModel, Seq<HeaderModel>, TicketModel, bool),
}

/// What an event makes of the state, and what it asks to be done.
pub open spec fn happened(env: Env, s: CoreModel, event: Event) -> (CoreModel, Seq<ActionModel>) {
    match event {
        Event::Header(header, verdict) => {
            let (t, actions, _) = header_handled(env, s, header, verdict);
            (t, actions)
        },
        Event::Certificate(certificate, verdict, fast_verdict) => {
            let (t, actions, _) = certificate_handled(env, s, certificate, verdict, fast_verdict);
            (t, actions)
        },
        Event::Vote(vote) => {
            let (t, actions, _) = vote_handled(env, s, vote);
            (t, actions)
        },
        Event::Qc(qc, verdict) => {
            let (t, actions, _) = qc_handled(env, s, qc, verdict);
            (t, actions)
        },
        Event::Timeout(timeout, verdict) => {
            let (t, actions, _) = timeout_handled(env, s, timeout, verdict);
            (t, actions)
        },
        Event::Tc(tc) => {
            let (t, actions, _) = tc_handled(env, s, tc);
            (t, actions)
        },
        Event::Expired(verdict) => {
            let (t, actions, _) = timed_out(env, s, verdict);
            (t, actions)
        },
        Event::Commit(header, ancestors, ticket, parent_known) => committed(
            s,
            header,
            ancestors,
            ticket,
            parent_known,
        ),
    }
}

/// Whether the views and rounds up to which the core has come did not go down.
pub open spec fn progress_kept(s: CoreModel, t: CoreModel) -> bool {
    &&& t.last_prepared_view >= s.last_prepared_view
    &&& t.last_voted_view >= s.last_voted_view
    &&& t.last_committed_view >= s.last_committed_view
    &&& t.round >= s.round
    &&& t.high_qc.view >= s.high_qc.view
}

/// Whether an action neither votes nor commits, and proposes only in a view that
/// we lead.
spec fn harmless(env: Env, action: ActionModel) -> bool {
    match action {
        ActionModel::SendVote(_, _) => false,
        ActionModel::Commit(_) => false,
        ActionModel::Propose(ticket) => env.name == leader(env, next_view(ticket.view)),
        _ => true,
    }
}

spec fn all_harmless(env: Env, actions: Seq<ActionModel>) -> bool {
    forall|i: int| 0 <= i < actions.len() ==> harmless(env, #[trigger] actions[i])
}

/// Whether a step keeps progress, commits nothing and asks for nothing but
/// harmless actions.
spec fn moderate(env: Env, s: CoreModel, t: CoreModel, actions: Seq<ActionModel>) -> bool {
    &&& progress_kept(s, t)
    &&& t.last_committed_view == s.last_committed_view
    &&& all_harmless(env, actions)
}

proof fn lemma_harmless_add(env: Env, a: Seq<ActionModel>, b: Seq<ActionModel>)
    requires
        all_harmless(env, a),
        all_harmless(env, b),
    ensures
        all_harmless(env, a + b),
{
    assert forall|i: int| 0 <= i < (a + b).len() implies harmless(env, #[trigger] (a + b)[i]) by {
        if i < a.len() {
            assert(harmless(env, a[i]));
        } else {
            assert(harmless(env, b[i - a.len()]));
        }
    }
}

proof fn lemma_used(env: Env, s: CoreModel, ticket: TicketModel)
    ensures
        all_harmless(env, ticket_used(env, s, ticket)),
{
    assert(all_harmless(env, proposal(s, ticket)) || env.name != leader(env, s.view));
    lemma_harmless_add(
        env,
        seq![ActionModel::ProcessCommit(ticket.hash, ticket)],
        if env.name == leader(env, s.view) {
            proposal(s, ticket)
        } else {
            Seq::empty()
        },
    );
}

proof fn lemma_adopted(env: Env, s: CoreModel, qc: QcModel)
    ensures
        moderate(env, s, qc_adopted(s, qc).0, qc_adopted(s, qc).1),
{
}

proof fn lemma_qc(env: Env, s: CoreModel, qc: QcModel, verdict: ConsensusResult<()>)
    ensures
        moderate(env, s, qc_handled(env, s, qc, verdict).0, qc_handled(env, s, qc, verdict).1),
{
    let (s1, actions) = qc_adopted(s, qc);
    lemma_adopted(env, s, qc);
    lemma_used(env, s1, qc_ticket(qc));
    lemma_harmless_add(env, actions, ticket_used(env, s1, qc_ticket(qc)));
}

proof fn lemma_vote(env: Env, s: CoreModel, vote: AcceptVote)
    ensures
        moderate(env, s, vote_handled(env, s, vote).0, vote_handled(env, s, vote).1),
{
    let (aggregator, answer) = accepted(s.aggregator, vote, &env.committee);
    let s1 = CoreModel { aggregator, ..s };
    if let Ok(Some(qc)) = answer {
        let (s2, actions) = qc_adopted(s1, qc);
        let broadcast = seq![ActionModel::BroadcastQc(qc)];
        lemma_adopted(env, s1, qc);
        lemma_used(env, s2, qc_ticket(qc));
        lemma_harmless_add(env, actions, broadcast);
        lemma_harmless_add(env, actions + broadcast, ticket_used(env, s2, qc_ticket(qc)));
    }
}

proof fn lemma_tc(env: Env, s: CoreModel, tc: TcModel)
    ensures
        moderate(env, s, tc_processed(env, s, tc).0, tc_processed(env, s, tc).1),
        moderate(env, s, tc_handled(env, s, tc).0, tc_handled(env, s, tc).1),
{
    let (s1, actions) = advanced(s, tc.view);
    lemma_used(env, s1, tc_ticket(s1, tc));
    lemma_harmless_add(env, actions, ticket_used(env, s1, tc_ticket(s1, tc)));
}

proof fn lemma_timeout(env: Env, s: CoreModel, timeout: TimeoutModel, verdict: ConsensusResult<()>)
    ensures
        moderate(
            env,
            s,
            timeout_handled(env, s, timeout, verdict).0,
            timeout_handled(env, s, timeout, verdict).1,
        ),
{
    let (s1, actions) = qc_adopted(s, timeout.high_qc);
    lemma_adopted(env, s, timeout.high_qc);
    let (aggregator, answer) = abandoned(s1.aggregator, timeout, &env.committee);
    let s2 = CoreModel { aggregator, ..s1 };
    if let Ok(Some(tc)) = answer {
        lemma_tc(env, s2, tc);
        let (s3, more) = tc_processed(env, s2, tc);
        lemma_harmless_add(env, actions, more);
        lemma_harmless_add(env, actions + more, seq![ActionModel::BroadcastTc(tc)]);
    }
}

proof fn lemma_expired(env: Env, s: CoreModel, verdict: ConsensusResult<()>)
    ensures
        moderate(env, s, timed_out(env, s, verdict).0, timed_out(env, s, verdict).1),
        timed_out(env, s, verdict).0.last_voted_view >= s.view,
        timed_out(env, s, verdict).0.last_prepared_view >= s.view,
{
    let timeout = own_timeout(env, s);
    let s1 = CoreModel {
        last_prepared_view: greater(s.last_prepared_view, s.view),
        last_voted_view: greater(s.last_voted_view, s.view),
        ..s
    };
    lemma_timeout(env, s1, timeout, verdict);
    lemma_harmless_add(
        env,
        seq![ActionModel::ResetTimer, ActionModel::BroadcastTimeout(timeout)],
        timeout_handled(env, s1, timeout, verdict).1,
    );
}

proof fn lemma_ticket(
    env: Env,
    s: CoreModel,
    view: ViewNumber,
    ticket: TicketModel,
    verdict: ConsensusResult<()>,
)
    ensures
        ({
            let (t, actions, _) = ticket_processed(env, s, view, ticket, verdict);
            moderate(env, s, t, actions)
        }),
{
    if let Some(tc) = ticket.tc {
        lemma_tc(env, s, tc);
    } else {
        lemma_qc(env, s, ticket.qc, verdict);
    }
}

/// The state in which the processing of a header has begun.
spec fn begun(s: CoreModel, header: HeaderModel) -> CoreModel {
    CoreModel {
        processing_headers: s.processing_headers.insert(
            header.view,
            processing_in(s, header.view).insert(header.id),
        ),
        ..s
    }
}

proof fn lemma_header(env: Env, s: CoreModel, header: HeaderModel, verdict: ConsensusResult<()>)
    ensures
        ({
            let (t, actions, _) = header_handled(env, s, header, verdict);
            moderate(env, s, t, actions)
        }),
{
    let s1 = begun(s, header);
    let (s2, actions, answer) = match header.ticket {
        Some(ticket) => ticket_processed(env, s1, header.view, ticket, verdict),
        None => (s1, Seq::empty(), Ok(())),
    };
    if let Some(ticket) = header.ticket {
        lemma_ticket(env, s1, header.view, ticket, verdict);
    }
    let (s3, more) = header_prepared(s2, header);
    lemma_harmless_add(env, actions, more);
}

/// The state after a certificate was noted.
spec fn noted(s: CoreModel, certificate: CertificateModel) -> CoreModel {
    CoreModel {
        last_voted_view: greater(s.last_voted_view, certificate.header.view),
        high_cert: certificate,
        stored_headers: s.stored_headers.insert(certificate.header.id, certificate.header),
        ..s
    }
}

/// What voting on a certificate does: at most it sends our vote.
proof fn lemma_voted(
    env: Env,
    s: CoreModel,
    certificate: CertificateModel,
    fast_verdict: ConsensusResult<()>,
)
    ensures
        ({
            let (t, actions, _) = certificate_voted(env, s, certificate, fast_verdict);
            &&& progress_kept(s, t)
            &&& t.last_committed_view == s.last_committed_view
            &&& t.last_voted_view >= certificate.header.view
            &&& forall|i: int|
                0 <= i < actions.len() ==> harmless(env, #[trigger] actions[i]) || (
                actions[i] matches ActionModel::SendVote(_, vote) && vote == own_vote(
                    env,
                    certificate.header,
                ))
        }),
{
    let s1 = noted(s, certificate);
    let stored = seq![ActionModel::StoreCertificate(certificate)];
    lemma_qc(env, s1, fast_qc(certificate), fast_verdict);
    lemma_harmless_add(env, stored, qc_handled(env, s1, fast_qc(certificate), fast_verdict).1);
    let vote = own_vote(env, certificate.header);
    lemma_vote(env, s1, vote);
    lemma_harmless_add(env, stored, vote_handled(env, s1, vote).1);
}

/// The state and the actions after the header of a certificate was processed.
spec fn header_first(
    env: Env,
    s: CoreModel,
    certificate: CertificateModel,
    verdict: ConsensusResult<()>,
) -> (CoreModel, Seq<ActionModel>, ConsensusResult<()>) {
    if processing_in(s, certificate.header.view).contains(certificate.header.id) {
        (s, Seq::empty(), Ok(()))
    } else {
        header_handled(env, s, certificate.header, verdict)
    }
}

/// What processing a certificate does: at most it sends our vote, in a view in
/// which we did not vote before.
proof fn lemma_certificate(
    env: Env,
    s: CoreModel,
    certificate: CertificateModel,
    verdict: ConsensusResult<()>,
    fast_verdict: ConsensusResult<()>,
)
    ensures
        ({
            let (t, actions, _) = certificate_handled(env, s, certificate, verdict, fast_verdict);
            &&& progress_kept(s, t)
            &&& t.last_committed_view == s.last_committed_view
            &&& forall|i: int|
                0 <= i < actions.len() ==> harmless(env, #[trigger] actions[i]) || (
                actions[i] matches ActionModel::SendVote(_, vote) && vote == own_vote(
                    env,
                    certificate.header,
                ) && vote.view > s.last_voted_view && vote.view > s.last_committed_view
                    && t.last_voted_view >= vote.view)
        }),
{
    let (s1, first, answer) = header_first(env, s, certificate, verdict);
    lemma_header(env, s, certificate.header, verdict);
    lemma_voted(env, s1, certificate, fast_verdict);
    let (s2, more, _) = certificate_voted(env, s1, certificate, fast_verdict);
    let (t, actions, _) = certificate_handled(env, s, certificate, verdict, fast_verdict);
    assert forall|i: int| 0 <= i < actions.len() implies harmless(env, #[trigger] actions[i]) || (
    actions[i] matches ActionModel::SendVote(_, vote) && vote == own_vote(env, certificate.header)
        && vote.view > s.last_voted_view && vote.view > s.last_committed_view && t.last_voted_view
        >= vote.view) by {
        if i < first.len() {
            assert(actions[i] == first[i]);
        } else {
            assert(actions[i] == more[i - first.len()]);
        }
    }
}

/// What an event that is neither a certificate nor a commit does.
proof fn lemma_moderate(env: Env, s: CoreModel, event: Event)
    requires
        !(event is Certificate),
        !(event is Commit),
    ensures
        moderate(env, s, happened(env, s, event).0, happened(env, s, event).1),
{
    match event {
        Event::Header(header, verdict) => lemma_header(env, s, header, verdict),
        Event::Vote(vote) => lemma_vote(env, s, vote),
        Event::Qc(qc, verdict) => lemma_qc(env, s, qc, verdict),
        Event::Timeout(timeout, verdict) => lemma_timeout(env, s, timeout, verdict),
        Event::Tc(tc) => lemma_tc(env, s, tc),
        Event::Expired(verdict) => lemma_expired(env, s, verdict),
        _ => {},
    }
}

/// Nothing that was prepared, voted, committed or certified is ever forgotten:
/// the views and rounds up to which the core has come never go down.
pub proof fn law_progress_is_kept(env: Env, s: CoreModel, event: Event)
    ensures
        progress_kept(s, happened(env, s, event).0),
{
    match event {
        Event::Certificate(certificate, verdict, fast_verdict) => {
            lemma_certificate(env, s, certificate, verdict, fast_verdict)
        },
        Event::Commit(_, _, _, _) => {},
        _ => lemma_moderate(env, s, event),
    }
}

/// Whether an event closes no view that has no successor, and brings no header of
/// a view that is behind us.
pub open spec fn stays_ahead(s: CoreModel, event: Event) -> bool {
    match event {
        Event::Header(header, _) => header.view >= s.view,
        Event::Certificate(certificate, _, _) => certificate.header.view < u64::MAX,
        Event::Vote(vote) => vote.view < u64::MAX,
        Event::Qc(qc, _) => qc.view < u64::MAX,
        Event::Timeout(timeout, _) => timeout.view < u64::MAX && timeout.high_qc.view < u64::MAX,
        Event::Tc(tc) => tc.view < u64::MAX,
        Event::Expired(_) => s.view < u64::MAX && s.high_qc.view < u64::MAX,
        Event::Commit(_, _, _, _) => true,
    }
}

/// The view never goes back, unless a header of an earlier view is validated.
pub proof fn law_views_move_forward(env: Env, s: CoreModel, event: Event)
    requires
        stays_ahead(s, event),
    ensures
        happened(env, s, event).0.view >= s.view,
{
    match event {
        Event::Header(header, verdict) => {
            lemma_header_view(env, s, header, verdict);
        },
        Event::Certificate(certificate, verdict, fast_verdict) => {
            if certificate.header.view >= s.view {
                lemma_header_view(env, s, certificate.header, verdict);
                let s1 = noted(header_first(env, s, certificate, verdict).0, certificate);
                lemma_vote_view(env, s1, own_vote(env, certificate.header));
            }
        },
        Event::Vote(vote) => lemma_vote_view(env, s, vote),
        Event::Timeout(timeout, verdict) => lemma_timeout_view(env, s, timeout, verdict),
        Event::Expired(verdict) => {
            let s1 = CoreModel {
                last_prepared_view: greater(s.last_prepared_view, s.view),
                last_voted_view: greater(s.last_voted_view, s.view),
                ..s
            };
            lemma_timeout_view(env, s1, own_timeout(env, s), verdict);
        },
        _ => {},
    }
}

proof fn lemma_vote_view(env: Env, s: CoreModel, vote: AcceptVote)
    requires
        vote.view < u64::MAX,
    ensures
        vote_handled(env, s, vote).0.view >= s.view,
{
}

proof fn lemma_timeout_view(
    env: Env,
    s: CoreModel,
    timeout: TimeoutModel,
    verdict: ConsensusResult<()>,
)
    requires
        timeout.view < u64::MAX,
        timeout.high_qc.view < u64::MAX,
    ensures
        timeout_handled(env, s, timeout, verdict).0.view >= s.view,
{
}

proof fn lemma_header_view(env: Env, s: CoreModel, header: HeaderModel, verdict: ConsensusResult<()>)
    requires
        header.view >= s.view,
    ensures
        s.view <= header_handled(env, s, header, verdict).0.view <= greater_view(s, header),
{
}

/// The later of our view and a header's.
spec fn greater_view(s: CoreModel, header: HeaderModel) -> ViewNumber {
    if header.view >= s.view {
        header.view
    } else {
        s.view
    }
}

/// A certificate of a view in which we voted or gave up gets no vote, and changes
/// nothing.
pub proof fn law_one_vote_per_view(
    env: Env,
    s: CoreModel,
    certificate: CertificateModel,
    verdict: ConsensusResult<()>,
    fast_verdict: ConsensusResult<()>,
)
    requires
        certificate.header.view <= s.last_voted_view,
    ensures
        ({
            let (t, actions, answer) = certificate_handled(
                env,
                s,
                certificate,
                verdict,
                fast_verdict,
            );
            &&& t == s
            &&& actions.len() == 0
            &&& answer is Err
        }),
{
}

/// We send a vote only for the certified header of a view in which we did not
/// vote, and from then on we have voted in that view.
pub proof fn law_votes_are_recorded(
    env: Env,
    s: CoreModel,
    event: Event,
    to: PublicKey,
    vote: AcceptVote,
)
    requires
        happened(env, s, event).1.contains(ActionModel::SendVote(to, vote)),
    ensures
        event matches Event::Certificate(certificate, _, _) && vote == own_vote(
            env,
            certificate.header,
        ),
        vote.author == env.name,
        vote.view > s.last_voted_view,
        vote.view > s.last_committed_view,
        happened(env, s, event).0.last_voted_view >= vote.view,
{
    let actions = happened(env, s, event).1;
    let i = choose|i: int|
        0 <= i < actions.len() && actions[i] == ActionModel::SendVote(to, vote);
    match event {
        Event::Certificate(certificate, verdict, fast_verdict) => {
            lemma_certificate(env, s, certificate, verdict, fast_verdict);
        },
        Event::Commit(_, _, _, _) => {},
        _ => {
            lemma_moderate(env, s, event);
        },
    }
}

/// Once the timer of a view fired we neither vote for its header nor validate it.
pub proof fn law_timeout_ends_view(env: Env, s: CoreModel, verdict: ConsensusResult<()>)
    ensures
        ({
            let t = timed_out(env, s, verdict).0;
            &&& t.last_voted_view >= s.view
            &&& t.last_prepared_view >= s.view
        }),
{
    lemma_expired(env, s, verdict);
}

/// What was promised of a header that is taken for a valid proposal: nothing else
/// was prepared or committed in its view or a later one, it is the leader's, it is
/// what the leader signed, and its ticket closes the view before.
pub open spec fn well_proposed(env: Env, s: CoreModel, header: HeaderModel) -> bool {
    &&& header.view > s.last_prepared_view
    &&& header.view > s.last_committed_view
    &&& header.author == leader(env, header.view)
    &&& special_verdict(header, &env.committee) is Ok
    &&& header.round > s.round
    &&& header.ticket matches Some(ticket) && header.view == next_view(
        match ticket.tc {
            Some(tc) => tc.view,
            None => ticket.qc.view,
        },
    )
}

/// At most one header per view is taken for a valid proposal, and only a
/// well-formed one.
pub proof fn law_one_proposal_per_view(
    env: Env,
    s: CoreModel,
    header: HeaderModel,
    verdict: ConsensusResult<()>,
)
    requires
        header_handled(env, s, header, verdict).1.contains(ActionModel::Validate(header, 1)),
    ensures
        well_proposed(env, s, header),
        header_handled(env, s, header, verdict).0.last_prepared_view >= header.view,
{
    let actions = header_handled(env, s, header, verdict).1;
    let i = choose|i: int|
        0 <= i < actions.len() && actions[i] == ActionModel::Validate(header, 1);
    assert(actions[i] == ActionModel::Validate(header, 1));
}

/// Whoever may not be taken for valid any more is told so: a header of a view in
/// which another was validated gets the answer 0.
pub proof fn law_late_header_invalid(
    env: Env,
    s: CoreModel,
    header: HeaderModel,
    verdict: ConsensusResult<()>,
)
    requires
        header.view <= s.last_prepared_view,
        !processing_in(s, header.view).contains(header.id),
    ensures
        header_handled(env, s, header, verdict).1 == seq![ActionModel::Validate(header, 0)],
{
}

/// What is among the uncommitted ancestors: exactly the given ones of views above
/// `last`.
proof fn lemma_fresh(ancestors: Seq<HeaderModel>, last: ViewNumber)
    ensures
        forall|header: HeaderModel| #[trigger]
            fresh_ancestors(ancestors, last).contains(header) <==> ancestors.contains(header)
                && header.view > last,
    decreases ancestors.len(),
{
    if ancestors.len() > 0 {
        let rest = ancestors.drop_first();
        lemma_fresh(rest, last);
        let fresh = fresh_ancestors(ancestors, last);
        let earlier = fresh_ancestors(rest, last);
        assert forall|header: HeaderModel| #[trigger] fresh.contains(header) <==> ancestors.contains(
            header,
        ) && header.view > last by {
            if fresh.contains(header) {
                let i = choose|i: int| 0 <= i < fresh.len() && fresh[i] == header;
                if i < earlier.len() {
                    assert(earlier[i] == header);
                    assert(earlier.contains(header));
                    let j = choose|j: int| 0 <= j < rest.len() && rest[j] == header;
                    assert(ancestors[j + 1] == header);
                } else {
                    assert(ancestors[0] == header);
                }
            }
            if ancestors.contains(header) && header.view > last {
                let j = choose|j: int| 0 <= j < ancestors.len() && ancestors[j] == header;
                if j > 0 {
                    assert(rest[j - 1] == header);
                    assert(earlier.contains(header));
                    let i = choose|i: int| 0 <= i < earlier.len() && earlier[i] == header;
                    assert(fresh[i] == header);
                } else {
                    assert(fresh[fresh.len() - 1] == header);
                }
            }
        }
    }
}

/// Whether the ancestors of a header, from its parent upwards, are of lower and
/// lower views.
pub open spec fn descending(header: HeaderModel, ancestors: Seq<HeaderModel>) -> bool {
    &&& forall|i: int|
        0 <= i < ancestors.len() ==> (#[trigger] ancestors[i]).view < header.view
    &&& forall|i: int, j: int|
        0 <= i < j < ancestors.len() ==> (#[trigger] ancestors[j]).view < (
        #[trigger] ancestors[i]).view
}

/// With a header, exactly its ancestors of views that were not committed are
/// committed, each before it and in the order of their views.
pub proof fn law_ancestors_committed_first(
    header: HeaderModel,
    ancestors: Seq<HeaderModel>,
    last: ViewNumber,
)
    requires
        descending(header, ancestors),
        last < header.view,
    ensures
        ({
            let all = chain_committed(header, ancestors, last);
            &&& all.last() == header
            &&& forall|other: HeaderModel| #[trigger]
                all.contains(other) <==> other == header || (ancestors.contains(other) && other.view
                    > last)
            &&& forall|i: int, j: int|
                0 <= i < j < all.len() ==> (#[trigger] all[i]).view < (#[trigger] all[j]).view
            &&& forall|i: int| 0 <= i < all.len() ==> last < (#[trigger] all[i]).view <= header.view
        }),
    decreases ancestors.len(),
{
    let fresh = fresh_ancestors(ancestors, last);
    let all = chain_committed(header, ancestors, last);
    lemma_fresh(ancestors, last);
    assert forall|other: HeaderModel| #[trigger] all.contains(other) <==> other == header || (
    ancestors.contains(other) && other.view > last) by {
        if all.contains(other) {
            let i = choose|i: int| 0 <= i < all.len() && all[i] == other;
            if i < fresh.len() {
                assert(fresh[i] == other);
                assert(fresh.contains(other));
            }
        }
        if other == header {
            assert(all[all.len() - 1] == other);
        } else if ancestors.contains(other) && other.view > last {
            assert(fresh.contains(other));
            let i = choose|i: int| 0 <= i < fresh.len() && fresh[i] == other;
            assert(all[i] == other);
        }
    }
    assert forall|i: int| 0 <= i < all.len() implies last < (#[trigger] all[i]).view
        <= header.view by {
        if i < fresh.len() {
            assert(fresh.contains(fresh[i]));
            let j = choose|j: int| 0 <= j < ancestors.len() && ancestors[j] == fresh[i];
            assert(ancestors[j].view < header.view);
        }
    }
    lemma_fresh_ordered(ancestors, last);
    assert forall|i: int, j: int| 0 <= i < j < all.len() implies (#[trigger] all[i]).view < (
    #[trigger] all[j]).view by {
        assert(all[i] == fresh[i]);
        assert(fresh.contains(fresh[i]));
        if j < fresh.len() {
            assert(all[j] == fresh[j]);
        } else {
            let k = choose|k: int| 0 <= k < ancestors.len() && ancestors[k] == fresh[i];
            assert(ancestors[k].view < header.view);
        }
    }
}

proof fn lemma_fresh_ordered(ancestors: Seq<HeaderModel>, last: ViewNumber)
    requires
        forall|i: int, j: int|
            0 <= i < j < ancestors.len() ==> (#[trigger] ancestors[j]).view < (
            #[trigger] ancestors[i]).view,
    ensures
        forall|i: int, j: int|
            0 <= i < j < fresh_ancestors(ancestors, last).len() ==> (#[trigger] fresh_ancestors(
                ancestors,
                last,
            )[i]).view < (#[trigger] fresh_ancestors(ancestors, last)[j]).view,
    decreases ancestors.len(),
{
    if ancestors.len() > 0 {
        let rest = ancestors.drop_first();
        assert forall|i: int, j: int| 0 <= i < j < rest.len() implies (#[trigger] rest[j]).view < (
        #[trigger] rest[i]).view by {
            assert(rest[i] == ancestors[i + 1]);
            assert(rest[j] == ancestors[j + 1]);
        }
        lemma_fresh_ordered(rest, last);
        lemma_fresh(rest, last);
        let fresh = fresh_ancestors(ancestors, last);
        let earlier = fresh_ancestors(rest, last);
        assert forall|i: int, j: int| 0 <= i < j < fresh.len() implies (#[trigger] fresh[i]).view < (
        #[trigger] fresh[j]).view by {
            assert(fresh[i] == earlier[i]);
            if j < earlier.len() {
                assert(fresh[j] == earlier[j]);
            } else {
                assert(earlier.contains(earlier[i]));
                let k = choose|k: int| 0 <= k < rest.len() && rest[k] == earlier[i];
                assert(ancestors[k + 1] == earlier[i]);
                assert(ancestors[0].view > ancestors[k + 1].view);
            }
        }
    }
}

/// Nothing is committed twice: whatever is committed is of a view above the last
/// committed one. It is a header that was found with its parent ticket, of a view
/// that did not time out, or an ancestor of such a header, whose view is then the
/// last committed one.
pub proof fn law_commits_in_order(env: Env, s: CoreModel, event: Event, certificate: CertificateModel)
    requires
        happened(env, s, event).1.contains(ActionModel::Commit(certificate)),
    ensures
        certificate.header.view > s.last_committed_view,
        event matches Event::Commit(header, ancestors, ticket, parent_known) && (header
            == certificate.header || ancestors.contains(certificate.header)) && parent_known
            && ticket.tc is None && happened(env, s, event).0.last_committed_view == header.view,
{
    let actions = happened(env, s, event).1;
    let i = choose|i: int| 0 <= i < actions.len() && actions[i] == ActionModel::Commit(certificate);
    match event {
        Event::Certificate(certificate, verdict, fast_verdict) => {
            lemma_certificate(env, s, certificate, verdict, fast_verdict);
        },
        Event::Commit(header, ancestors, _, _) => {
            let chain = chain_committed(header, ancestors, s.last_committed_view);
            let fresh = fresh_ancestors(ancestors, s.last_committed_view);
            lemma_fresh(ancestors, s.last_committed_view);
            assert(certificate == commit_certificate(chain[i]));
            if i < fresh.len() {
                assert(fresh.contains(fresh[i]));
            }
        },
        _ => {
            lemma_moderate(env, s, event);
        },
    }
}

/// The last committed view changes only with a commit of a header of the new one.
pub proof fn law_committed_view_needs_commit(env: Env, s: CoreModel, event: Event)
    requires
        happened(env, s, event).0.last_committed_view != s.last_committed_view,
    ensures
        event matches Event::Commit(header, _, _, _) && happened(env, s, event).1.contains(
            ActionModel::Commit(commit_certificate(header)),
        ) && happened(env, s, event).0.last_committed_view == header.view,
{
    match event {
        Event::Certificate(certificate, verdict, fast_verdict) => {
            lemma_certificate(env, s, certificate, verdict, fast_verdict)
        },
        Event::Commit(header, ancestors, _, _) => {
            let n = fresh_ancestors(ancestors, s.last_committed_view).len() as int;
            assert(happened(env, s, event).1[n] == ActionModel::Commit(commit_certificate(header)));
        },
        _ => lemma_moderate(env, s, event),
    }
}

/// We propose only in views that we lead, with a ticket that closes the view
/// before.
pub proof fn law_only_leaders_propose(env: Env, s: CoreModel, event: Event, ticket: TicketModel)
    requires
        happened(env, s, event).1.contains(ActionModel::Propose(ticket)),
    ensures
        env.name == leader(env, next_view(ticket.view)),
{
    let actions = happened(env, s, event).1;
    let i = choose|i: int| 0 <= i < actions.len() && actions[i] == ActionModel::Propose(ticket);
    match event {
        Event::Certificate(certificate, verdict, fast_verdict) => {
            lemma_certificate(env, s, certificate, verdict, fast_verdict);
        },
        Event::Commit(_, _, _, _) => {},
        _ => {
            lemma_moderate(env, s, event);
        },
    }
}

/// Upon booting, the leader of the first view proposes with the genesis ticket,
/// and nobody else proposes.
pub proof fn law_first_leader_boots(env: Env)
    ensures
        booted(env, initial_state()).contains(ActionModel::Propose(genesis_ticket())) <==> env.name
            == leader(env, 1),
        forall|ticket: TicketModel| #[trigger]
            booted(env, initial_state()).contains(ActionModel::Propose(ticket)) ==> ticket
                == genesis_ticket(),
{
    let actions = booted(env, initial_state());
    if env.name == leader(env, 1) {
        assert(actions[1] == ActionModel::Propose(genesis_ticket()));
    }
}

/// A certificate that does not verify changes nothing.
pub proof fn law_bad_certificates_change_nothing(
    env: Env,
    s: CoreModel,
    qc: QcModel,
    tc: TcModel,
    verdict: ConsensusResult<()>,
)
    ensures
        verdict is Err ==> qc_handled(env, s, qc, verdict).0 == s && qc_handled(
            env,
            s,
            qc,
            verdict,
        ).1.len() == 0,
        crate::consensus::messages::tc_verdict(tc, &env.committee) is Err ==> tc_handled(env, s, tc).0
            == s && tc_handled(env, s, tc).1.len() == 0,
{
}

/// Whether every vote that was counted is signed by an authority with stake, over
/// what it was counted for.
pub open spec fn votes_signed(state: AggregatorModel, committee: &Committee) -> bool {
    forall|view: ViewNumber, digest: Digest, i: int|
        #![trigger state.votes[view][digest].votes[i]]
        state.votes.contains_key(view) && state.votes[view].contains_key(digest) && 0 <= i
            < state.votes[view][digest].votes.len() ==> {
            let vote = state.votes[view][digest].votes[i];
            signed_by(digest, vote.0, vote.1) && committee.stake_spec(vote.0) > 0
        }
}

/// What holds of the state of every core: its collections are sound.
pub open spec fn core_ok(env: Env, s: CoreModel) -> bool {
    aggregator_ok(s.aggregator, &env.committee) && votes_signed(s.aggregator, &env.committee)
}

/// The collections are sound at first.
pub proof fn law_initially_sound(env: Env)
    requires
        env.committee.wf(),
    ensures
        core_ok(env, initial_state()),
{
}

proof fn lemma_cleaned_ok(state: AggregatorModel, view: ViewNumber, committee: &Committee)
    requires
        aggregator_ok(state, committee),
        votes_signed(state, committee),
    ensures
        aggregator_ok(cleaned(state, view), committee),
        votes_signed(cleaned(state, view), committee),
{
    let next = cleaned(state, view);
    assert forall|v: ViewNumber, digest: Digest|
        #![trigger next.votes[v][digest]]
        next.votes.contains_key(v) && next.votes[v].contains_key(digest) implies maker_ok(
        next.votes[v][digest],
        committee,
    ) && !next.votes[v][digest].try_fast by {
        assert(state.votes[v][digest] == next.votes[v][digest]);
    }
    assert forall|v: ViewNumber, digest: Digest, i: int|
        #![trigger next.votes[v][digest].votes[i]]
        next.votes.contains_key(v) && next.votes[v].contains_key(digest) && 0 <= i
            < next.votes[v][digest].votes.len() implies {
        let vote = next.votes[v][digest].votes[i];
        signed_by(digest, vote.0, vote.1) && committee.stake_spec(vote.0) > 0
    } by {
        assert(state.votes[v][digest].votes[i] == next.votes[v][digest].votes[i]);
    }
}

proof fn lemma_voted_ok(
    maker: QcMakerModel,
    author: PublicKey,
    digest: Digest,
    signature: Signature,
    committee: &Committee,
)
    requires
        maker_ok(maker, committee),
        !maker.try_fast,
    ensures
        ({
            let next = voted(maker, author, digest, signature, committee).0;
            &&& maker_ok(next, committee)
            &&& !next.try_fast
            &&& next.votes == maker.votes || next.votes == maker.votes.push((author, signature))
        }),
{
    let names = voters(maker.votes);
    assert(voters(maker.votes.push((author, signature))) =~= names.push(author));
    lemma_set_push(committee, names, author);
}

proof fn lemma_accepted_ok(state: AggregatorModel, vote: AcceptVote, committee: &Committee)
    requires
        aggregator_ok(state, committee),
        votes_signed(state, committee),
        accept_verdict(vote, committee) is Ok,
    ensures
        aggregator_ok(accepted(state, vote, committee).0, committee),
        votes_signed(accepted(state, vote, committee).0, committee),
{
    let next = accepted(state, vote, committee).0;
    let digest = digest_of(accept_bytes(vote.hash, vote.view, vote.view_round));
    let makers = votes_in(state, vote.view);
    let maker = votes_for(makers, digest);
    assert(maker_ok(maker, committee) && !maker.try_fast) by {
        if makers.contains_key(digest) {
            assert(state.votes[vote.view][digest] == maker);
        } else {
            assert(voters(maker.votes).no_duplicates());
        }
    }
    lemma_voted_ok(maker, vote.author, digest, vote.signature, committee);
    let maker1 = voted(maker, vote.author, digest, vote.signature, committee).0;
    assert forall|v: ViewNumber, d: Digest|
        #![trigger next.votes[v][d]]
        next.votes.contains_key(v) && next.votes[v].contains_key(d) implies maker_ok(
        next.votes[v][d],
        committee,
    ) && !next.votes[v][d].try_fast by {
        if v != vote.view || d != digest {
            assert(state.votes[v][d] == next.votes[v][d]);
        }
    }
    assert forall|v: ViewNumber, d: Digest, i: int|
        #![trigger next.votes[v][d].votes[i]]
        next.votes.contains_key(v) && next.votes[v].contains_key(d) && 0 <= i
            < next.votes[v][d].votes.len() implies {
        let counted = next.votes[v][d].votes[i];
        signed_by(d, counted.0, counted.1) && committee.stake_spec(counted.0) > 0
    } by {
        if v != vote.view || d != digest {
            assert(state.votes[v][d].votes[i] == next.votes[v][d].votes[i]);
        } else if i < maker.votes.len() {
            assert(makers.contains_key(digest));
            assert(state.votes[v][d].votes[i] == next.votes[v][d].votes[i]);
        }
    }
}

proof fn lemma_abandoned_ok(state: AggregatorModel, timeout: TimeoutModel, committee: &Committee)
    requires
        aggregator_ok(state, committee),
        votes_signed(state, committee),
    ensures
        aggregator_ok(abandoned(state, timeout, committee).0, committee),
        votes_signed(abandoned(state, timeout, committee).0, committee),
{
    let next = abandoned(state, timeout, committee).0;
    let collector = if state.timeouts.contains_key(timeout.view) {
        state.timeouts[timeout.view]
    } else {
        empty_collector()
    };
    assert(collector_ok(collector, committee));
    crate::consensus::aggregator::lemma_gathered_kept(collector, timeout, committee);
    assert forall|v: ViewNumber| #[trigger] next.timeouts.contains_key(v) implies collector_ok(
        next.timeouts[v],
        committee,
    ) by {
        if v != timeout.view {
            assert(state.timeouts.contains_key(v));
        }
    }
    assert(next.votes == state.votes);
}

proof fn lemma_adopted_ok(env: Env, s: CoreModel, qc: QcModel)
    requires
        core_ok(env, s),
    ensures
        core_ok(env, qc_adopted(s, qc).0),
{
    lemma_cleaned_ok(s.aggregator, next_view(qc.view), &env.committee);
}

proof fn lemma_vote_ok(env: Env, s: CoreModel, vote: AcceptVote)
    requires
        core_ok(env, s),
    ensures
        core_ok(env, vote_handled(env, s, vote).0),
{
    if vote.view >= s.view && accept_verdict(vote, &env.committee) is Ok {
        lemma_accepted_ok(s.aggregator, vote, &env.committee);
        let (aggregator, answer) = accepted(s.aggregator, vote, &env.committee);
        if let Ok(Some(qc)) = answer {
            lemma_adopted_ok(env, CoreModel { aggregator, ..s }, qc);
        }
    }
}

proof fn lemma_timeout_ok(env: Env, s: CoreModel, timeout: TimeoutModel, verdict: ConsensusResult<()>)
    requires
        core_ok(env, s),
    ensures
        core_ok(env, timeout_handled(env, s, timeout, verdict).0),
{
    let s1 = qc_adopted(s, timeout.high_qc).0;
    lemma_adopted_ok(env, s, timeout.high_qc);
    lemma_abandoned_ok(s1.aggregator, timeout, &env.committee);
    let (aggregator, answer) = abandoned(s1.aggregator, timeout, &env.committee);
    if let Ok(Some(tc)) = answer {
        lemma_cleaned_ok(aggregator, next_view(tc.view), &env.committee);
    }
}

proof fn lemma_header_ok(env: Env, s: CoreModel, header: HeaderModel, verdict: ConsensusResult<()>)
    requires
        core_ok(env, s),
    ensures
        core_ok(env, header_handled(env, s, header, verdict).0),
{
    if let Some(ticket) = header.ticket {
        lemma_adopted_ok(env, s, ticket.qc);
        if let Some(tc) = ticket.tc {
            lemma_cleaned_ok(s.aggregator, next_view(tc.view), &env.committee);
        }
    }
}

/// The collections stay sound, whatever happens.
pub proof fn law_stays_sound(env: Env, s: CoreModel, event: Event)
    requires
        core_ok(env, s),
    ensures
        core_ok(env, happened(env, s, event).0),
{
    match event {
        Event::Header(header, verdict) => lemma_header_ok(env, s, header, verdict),
        Event::Certificate(certificate, verdict, fast_verdict) => {
            lemma_header_ok(env, s, certificate.header, verdict);
            let s1 = if processing_in(s, certificate.header.view).contains(certificate.header.id) {
                s
            } else {
                header_handled(env, s, certificate.header, verdict).0
            };
            let header = certificate.header;
            let s2 = CoreModel {
                last_voted_view: greater(s1.last_voted_view, header.view),
                high_cert: certificate,
                stored_headers: s1.stored_headers.insert(header.id, header),
                ..s1
            };
            assert(s2.aggregator == s1.aggregator);
            lemma_adopted_ok(env, s2, fast_qc(certificate));
            lemma_vote_ok(env, s2, own_vote(env, header));
        },
        Event::Vote(vote) => lemma_vote_ok(env, s, vote),
        Event::Qc(qc, verdict) => lemma_adopted_ok(env, s, qc),
        Event::Timeout(timeout, verdict) => lemma_timeout_ok(env, s, timeout, verdict),
        Event::Tc(tc) => lemma_cleaned_ok(s.aggregator, next_view(tc.view), &env.committee),
        Event::Expired(verdict) => {
            let s1 = CoreModel {
                last_prepared_view: greater(s.last_prepared_view, s.view),
                last_voted_view: greater(s.last_voted_view, s.view),
                ..s
            };
            lemma_timeout_ok(env, s1, own_timeout(env, s), verdict);
        },
        Event::Commit(_, _, _, _) => {},
    }
}

proof fn lemma_no_fault(committee: &Committee, names: Seq<PublicKey>)
    requires
        names.no_duplicates(),
        forall|i: int| 0 <= i < names.len() ==> committee.stake_spec(#[trigger] names[i]) > 0,
    ensures
        first_fault(committee, names) is None,
    decreases names.len(),
{
    if names.len() > 0 {
        let front = names.drop_last();
        assert forall|i: int| 0 <= i < front.len() implies committee.stake_spec(#[trigger] front[i])
            > 0 by {
            assert(front[i] == names[i]);
        }
        lemma_no_fault(committee, front);
        if front.contains(names.last()) {
            let i = choose|i: int| 0 <= i < front.len() && front[i] == names.last();
            assert(names[i] == names[names.len() - 1]);
        }
    }
}

/// A quorum certificate that we put together from votes shows the valid votes of
/// a quorum of different authorities, so it passes verification wherever the
/// authorities' keys are derived keys.
pub proof fn law_own_certificates_verify(env: Env, s: CoreModel, vote: AcceptVote, qc: QcModel)
    requires
        core_ok(env, s),
        vote.view >= s.view,
        accept_verdict(vote, &env.committee) is Ok,
        accepted(s.aggregator, vote, &env.committee).1 == Ok::<Option<QcModel>, ConsensusError>(
            Some(qc),
        ),
        forall|name: PublicKey| #[trigger]
            env.committee.stake_spec(name) > 0 ==> is_derived(name@),
    ensures
        vote_handled(env, s, vote).1.contains(ActionModel::BroadcastQc(qc)),
        quorum_fault(&env.committee, voters(qc.votes)) is None,
        all_valid(votes_on(digest_of(accept_bytes(qc.hash, qc.view, qc.view_round)), qc.votes)),
        forall|result: ConsensusResult<()>| #[trigger]
            qc_verdict(qc, &env.committee, result) ==> result is Ok,
{
    let committee = env.committee;
    let digest = digest_of(accept_bytes(vote.hash, vote.view, vote.view_round));
    let next = accepted(s.aggregator, vote, &committee).0;
    lemma_accepted_ok(s.aggregator, vote, &committee);
    let makers = votes_in(s.aggregator, vote.view);
    let maker = votes_for(makers, digest);
    let maker1 = next.votes[vote.view][digest];
    assert(maker1.votes == qc.votes);
    let names = voters(qc.votes);
    assert(maker_ok(maker1, &committee));
    assert forall|i: int| 0 <= i < names.len() implies committee.stake_spec(#[trigger] names[i]) > 0 by {
        assert(next.votes[vote.view][digest].votes[i].0 == names[i]);
    }
    lemma_no_fault(&committee, names);
    lemma_faultless(&committee, names);
    assert(maker_ok(maker, &committee)) by {
        if makers.contains_key(digest) {
            assert(s.aggregator.votes[vote.view][digest] == maker);
        } else {
            assert(voters(maker.votes).no_duplicates());
        }
    }
    assert(voters(maker.votes.push((vote.author, vote.signature))) =~= voters(maker.votes).push(
        vote.author,
    ));
    lemma_set_push(&committee, voters(maker.votes), vote.author);
    let signed = votes_on(digest, qc.votes);
    assert forall|i: int| 0 <= i < signed.len() implies is_derived((#[trigger] signed[i]).0@)
        && signed_by(signed[i].1, signed[i].0, signed[i].2) by {
        assert(next.votes[vote.view][digest].votes[i].0 == signed[i].0);
        assert(committee.stake_spec(signed[i].0) > 0);
    }
    let s1 = CoreModel { aggregator: next, ..s };
    let adopted = qc_adopted(s1, qc).1;
    let actions = vote_handled(env, s, vote).1;
    assert(actions[adopted.len() as int] == ActionModel::BroadcastQc(qc));
}

} // verus!
