//! Collects the votes and timeouts of recent views.

use crate::collections::SortedMap;
use crate::config::{lemma_support_monotone, lemma_thresholds_ordered, Committee, Stake};
use crate::consensus::messages::{
    accept_bytes, copy_timeout_votes, timeout_voters, AcceptVote, QcModel, Round, TcModel, Timeout,
    TimeoutModel, QC, TC,
};
use crate::crypto::{digest_of, Digest, Hashable, PublicKey, Signature};
use crate::primary::aggregators::{
    empty_qc_maker, heard, lemma_heard_push, voted, QCMaker, QcMakerModel,
};
use crate::primary::error::{ConsensusError, ConsensusResult, ViewNumber};
use crate::primary::messages::{make_zero_digest, zero_digest};
use crate::quorum::lemma_set_push;
use vstd::prelude::*;

verus! {

/// The timeouts collected for one view.
#[verifier::ext_equal]
pub struct CollectorModel {
    /// The timeouts, in order.
    pub votes: Seq<(PublicKey, Signature, ViewNumber)>,
    /// The stake counted towards the next certificate.
    pub weight: nat,
    /// The header, view and round of the highest certificate among them.
    pub hash: Digest,
    pub high_view: ViewNumber,
    pub view_round: Round,
}

/// No timeouts.
pub open spec fn empty_collector() -> CollectorModel {
    CollectorModel {
        votes: Seq::empty(),
        weight: 0,
        hash: zero_digest(),
        high_view: 0,
        view_round: 0,
    }
}

/// Takes over the certificate of a timeout if it is higher than what was seen.
pub open spec fn highest_kept(state: CollectorModel, qc: QcModel) -> CollectorModel {
    if qc.view > state.high_view {
        CollectorModel { hash: qc.hash, high_view: qc.view, view_round: qc.view_round, ..state }
    } else {
        state
    }
}

/// What a timeout makes of the collection, and the certificate if it completes
/// one. An authority counts once.
pub open spec fn gathered(state: CollectorModel, timeout: TimeoutModel, committee: &Committee) -> (
    CollectorModel,
    ConsensusResult<Option<TcModel>>,
) {
    if timeout_voters(state.votes).contains(timeout.author) {
        (state, Err(ConsensusError::AuthorityReuse(timeout.author)))
    } else {
        let s = highest_kept(
            CollectorModel {
                votes: state.votes.push((timeout.author, timeout.signature, timeout.high_qc.view)),
                weight: state.weight + committee.stake_spec(timeout.author),
                ..state
            },
            timeout.high_qc,
        );
        if s.weight >= committee.quorum() {
            (
                CollectorModel { weight: 0, ..s },
                Ok(
                    Some(
                        TcModel {
                            hash: s.hash,
                            view: timeout.view,
                            view_round: s.view_round,
                            votes: s.votes,
                        },
                    ),
                ),
            )
        } else {
            (s, Ok(None))
        }
    }
}

/// What holds of every collection: no authority counts twice, and no more stake
/// is counted than was heard.
pub open spec fn collector_ok(state: CollectorModel, committee: &Committee) -> bool {
    &&& committee.wf()
    &&& timeout_voters(state.votes).no_duplicates()
    &&& state.weight <= committee.support_of(timeout_voters(state.votes).to_set())
}

/// The answer of a collector as a value.
pub open spec fn tc_reply(result: ConsensusResult<Option<TC>>) -> ConsensusResult<Option<TcModel>> {
    match result {
        Ok(Some(tc)) => Ok(Some(tc.model())),
        Ok(None) => Ok(None),
        Err(e) => Err(e),
    }
}

/// Collects the timeouts for one view.
pub struct Collector {
    weight: Stake,
    votes: Vec<(PublicKey, Signature, ViewNumber)>,
    used: SortedMap<PublicKey, ()>,
    hash: Digest,
    high_view: ViewNumber,
    view_round: Round,
}

impl Collector {
    /// What was collected.
    pub closed spec fn model(&self) -> CollectorModel {
        CollectorModel {
            votes: self.votes@,
            weight: self.weight as nat,
            hash: self.hash,
            high_view: self.high_view,
            view_round: self.view_round,
        }
    }

    /// What holds of every collector of timeouts of `committee`.
    pub closed spec fn wf(&self, committee: &Committee) -> bool {
        &&& collector_ok(self.model(), committee)
        &&& heard(self.used@, timeout_voters(self.votes@))
    }

    /// A collector without timeouts.
    pub fn new() -> (collector: Self)
        ensures
            collector.model() == empty_collector(),
            forall|committee: &Committee| committee.wf() ==> #[trigger] collector.wf(committee),
    {
        let collector = Collector {
            weight: 0,
            votes: Vec::new(),
            used: SortedMap::new(),
            hash: make_zero_digest(),
            high_view: 0,
            view_round: 0,
        };
        proof {
            let names = timeout_voters(collector.votes@);
            assert(names.to_set() =~= Set::empty());
            assert(collector.used@.dom() =~= names.to_set());
        }
        collector
    }

    /// Counts a timeout; returns the certificate if it completes one.
    pub fn append(&mut self, timeout: &Timeout, committee: &Committee) -> (result: ConsensusResult<
        Option<TC>,
    >)
        requires
            old(self).wf(committee),
        ensures
            final(self).wf(committee),
            (final(self).model(), tc_reply(result)) == gathered(
                old(self).model(),
                timeout.model(),
                committee,
            ),
    {
        let author = timeout.author;
        let ghost names = timeout_voters(self.votes@);
        // Ensure it is the first time this authority votes.
        if self.used.contains_key(&author) {
            assert(names.to_set().contains(author));
            return Err(ConsensusError::AuthorityReuse(author));
        }
        let vote = (author, timeout.signature, timeout.high_qc.view);
        proof {
            lemma_heard_push(committee, self.used@, names, author);
            assert(timeout_voters(self.votes@.push(vote)) =~= names.push(author));
        }
        // Add the timeout to the accumulator.
        self.used.insert(author, ());
        self.votes.push(vote);
        self.weight = self.weight + committee.stake(&author);
        if timeout.high_qc.view > self.high_view {
            self.hash = timeout.high_qc.hash;
            self.high_view = timeout.high_qc.view;
            self.view_round = timeout.high_qc.view_round;
        }
        if self.weight >= committee.quorum_threshold() {
            // Ensures TC is only created once.
            self.weight = 0;
            return Ok(
                Some(
                    TC {
                        hash: self.hash,
                        view: timeout.view,
                        view_round: self.view_round,
                        votes: copy_timeout_votes(&self.votes),
                    },
                ),
            );
        }
        Ok(None)
    }
}

/// A timeout certificate shows the timeouts of a quorum of different
/// authorities, for the view of the timeout that completed it.
pub proof fn lemma_timeouts_of_quorum(
    state: CollectorModel,
    timeout: TimeoutModel,
    committee: &Committee,
)
    requires
        collector_ok(state, committee),
        gathered(state, timeout, committee).1 matches Ok(Some(_)),
    ensures
        ({
            let (next, answer) = gathered(state, timeout, committee);
            let tc = answer->Ok_0->Some_0;
            &&& tc.view == timeout.view
            &&& timeout_voters(tc.votes).no_duplicates()
            &&& committee.support_of(timeout_voters(tc.votes).to_set()) >= committee.quorum()
            &&& collector_ok(next, committee)
            &&& collector_spent(next, committee)
        }),
{
    lemma_gathered_ok(state, timeout, committee);
}

/// Whether a quorum of the timeouts was already spent on a certificate.
pub open spec fn collector_spent(state: CollectorModel, committee: &Committee) -> bool {
    state.weight + committee.quorum() <= committee.support_of(timeout_voters(state.votes).to_set())
}

/// A timeout certificate is made at most once per view.
pub proof fn lemma_timeouts_spent_once(
    state: CollectorModel,
    timeout: TimeoutModel,
    committee: &Committee,
)
    requires
        collector_ok(state, committee),
        committee.total() > 0,
        collector_spent(state, committee),
    ensures
        !(gathered(state, timeout, committee).1 matches Ok(Some(_))),
        collector_ok(gathered(state, timeout, committee).0, committee),
        collector_spent(gathered(state, timeout, committee).0, committee),
{
    lemma_thresholds_ordered(committee);
    lemma_gathered_ok(state, timeout, committee);
}

proof fn lemma_gathered_ok(state: CollectorModel, timeout: TimeoutModel, committee: &Committee)
    requires
        committee.wf(),
    ensures
        ({
            let names = timeout_voters(state.votes);
            let longer = timeout_voters(
                state.votes.push((timeout.author, timeout.signature, timeout.high_qc.view)),
            );
            &&& longer == names.push(timeout.author)
            &&& !names.contains(timeout.author) ==> committee.support_of(longer.to_set())
                == committee.support_of(names.to_set()) + committee.stake_spec(timeout.author)
            &&& committee.support_of(longer.to_set()) <= committee.total()
        }),
{
    let names = timeout_voters(state.votes);
    let longer = timeout_voters(
        state.votes.push((timeout.author, timeout.signature, timeout.high_qc.view)),
    );
    assert(longer =~= names.push(timeout.author));
    lemma_set_push(committee, names, timeout.author);
    lemma_support_monotone(committee.pairs(), longer.to_set(), Set::full());
}

/// Counting a timeout keeps a collection sound.
pub proof fn lemma_gathered_kept(
    state: CollectorModel,
    timeout: TimeoutModel,
    committee: &Committee,
)
    requires
        collector_ok(state, committee),
    ensures
        collector_ok(gathered(state, timeout, committee).0, committee),
{
    lemma_gathered_ok(state, timeout, committee);
}

/// What an aggregator holds: for each view, the votes by what they are for, and
/// the timeouts.
#[verifier::ext_equal]
pub struct AggregatorModel {
    pub votes: Map<ViewNumber, Map<Digest, QcMakerModel>>,
    pub timeouts: Map<ViewNumber, CollectorModel>,
}

/// No votes and no timeouts.
pub open spec fn empty_aggregator() -> AggregatorModel {
    AggregatorModel { votes: Map::empty(), timeouts: Map::empty() }
}

/// The votes of a view.
pub open spec fn votes_in(state: AggregatorModel, view: ViewNumber) -> Map<Digest, QcMakerModel> {
    if state.votes.contains_key(view) {
        state.votes[view]
    } else {
        Map::empty()
    }
}

/// The votes for one thing.
pub open spec fn votes_for(makers: Map<Digest, QcMakerModel>, digest: Digest) -> QcMakerModel {
    if makers.contains_key(digest) {
        makers[digest]
    } else {
        empty_qc_maker()
    }
}

/// What a vote makes of an aggregator, and the certificate if it completes one.
pub open spec fn accepted(state: AggregatorModel, vote: AcceptVote, committee: &Committee) -> (
    AggregatorModel,
    ConsensusResult<Option<QcModel>>,
) {
    let digest = digest_of(accept_bytes(vote.hash, vote.view, vote.view_round));
    let makers = votes_in(state, vote.view);
    let (maker, answer) = voted(
        votes_for(makers, digest),
        vote.author,
        digest,
        vote.signature,
        committee,
    );
    (
        AggregatorModel {
            votes: state.votes.insert(vote.view, makers.insert(digest, maker)),
            ..state
        },
        match answer {
            Ok((_, Some(qc))) => Ok(
                Some(
                    QcModel {
                        hash: vote.hash,
                        view: vote.view,
                        view_round: vote.view_round,
                        votes: qc.votes,
                    },
                ),
            ),
            Ok((_, None)) => Ok(None),
            Err(_) => Err(ConsensusError::AuthorityReuse(vote.author)),
        },
    )
}

/// What a timeout makes of an aggregator, and the certificate if it completes
/// one.
pub open spec fn abandoned(state: AggregatorModel, timeout: TimeoutModel, committee: &Committee) -> (
    AggregatorModel,
    ConsensusResult<Option<TcModel>>,
) {
    let collector = if state.timeouts.contains_key(timeout.view) {
        state.timeouts[timeout.view]
    } else {
        empty_collector()
    };
    let (next, answer) = gathered(collector, timeout, committee);
    (AggregatorModel { timeouts: state.timeouts.insert(timeout.view, next), ..state }, answer)
}

/// What is left when the views before `view` are forgotten.
pub open spec fn cleaned(state: AggregatorModel, view: ViewNumber) -> AggregatorModel {
    AggregatorModel {
        votes: state.votes.remove_keys(Set::new(|v: ViewNumber| v < view)),
        timeouts: state.timeouts.remove_keys(Set::new(|v: ViewNumber| v < view)),
    }
}

/// Whether every collection of votes is sound.
pub open spec fn aggregator_ok(state: AggregatorModel, committee: &Committee) -> bool {
    &&& committee.wf()
    &&& forall|view: ViewNumber, digest: Digest|
        #![trigger state.votes[view][digest]]
        state.votes.contains_key(view) && state.votes[view].contains_key(digest)
            ==> crate::primary::aggregators::maker_ok(state.votes[view][digest], committee)
            && !state.votes[view][digest].try_fast
    &&& forall|view: ViewNumber| #[trigger]
        state.timeouts.contains_key(view) ==> collector_ok(state.timeouts[view], committee)
}

/// Makers as values.
pub open spec fn inner_models(makers: Map<Digest, QCMaker>) -> Map<Digest, QcMakerModel> {
    makers.map_values(|maker: QCMaker| maker.model())
}

/// Makers by view as values.
pub open spec fn vote_models(votes: Map<ViewNumber, SortedMap<Digest, QCMaker>>) -> Map<
    ViewNumber,
    Map<Digest, QcMakerModel>,
> {
    votes.map_values(|makers: SortedMap<Digest, QCMaker>| inner_models(makers@))
}

/// Collectors as values.
pub open spec fn collector_models(timeouts: Map<ViewNumber, Collector>) -> Map<
    ViewNumber,
    CollectorModel,
> {
    timeouts.map_values(|collector: Collector| collector.model())
}

/// Whether every maker is sound.
pub open spec fn makers_wf(makers: Map<Digest, QCMaker>, committee: &Committee) -> bool {
    forall|digest: Digest| #[trigger]
        makers.contains_key(digest) ==> makers[digest].wf(committee)
            && !makers[digest].model().try_fast
}

/// The answer of an aggregator as a value.
pub open spec fn qc_reply(result: ConsensusResult<Option<QC>>) -> ConsensusResult<Option<QcModel>> {
    match result {
        Ok(Some(qc)) => Ok(Some(qc.model())),
        Ok(None) => Ok(None),
        Err(e) => Err(e),
    }
}

/// Collects the votes and timeouts of the current view and later ones.
pub struct Aggregator {
    votes: SortedMap<ViewNumber, SortedMap<Digest, QCMaker>>,
    timeouts: SortedMap<ViewNumber, Collector>,
}

impl Aggregator {
    /// What the aggregator holds.
    pub closed spec fn model(&self) -> AggregatorModel {
        AggregatorModel {
            votes: vote_models(self.votes@),
            timeouts: collector_models(self.timeouts@),
        }
    }

    /// What holds of every aggregator of a committee's votes.
    pub closed spec fn wf(&self, committee: &Committee) -> bool {
        &&& committee.wf()
        &&& forall|view: ViewNumber| #[trigger]
            self.votes@.contains_key(view) ==> makers_wf(self.votes@[view]@, committee)
        &&& forall|view: ViewNumber| #[trigger]
            self.timeouts@.contains_key(view) ==> self.timeouts@[view].wf(committee)
    }

    /// An aggregator without votes.
    pub fn new() -> (aggregator: Self)
        ensures
            aggregator.model() == empty_aggregator(),
            forall|committee: &Committee| committee.wf() ==> #[trigger] aggregator.wf(committee),
    {
        let aggregator = Aggregator { votes: SortedMap::new(), timeouts: SortedMap::new() };
        assert(aggregator.model() =~= empty_aggregator());
        aggregator
    }

    /// Counts a vote; returns the certificate if it completes one.
    pub fn add_accept_vote(&mut self, vote: &AcceptVote, committee: &Committee) -> (result:
        ConsensusResult<Option<QC>>)
        requires
            old(self).wf(committee),
        ensures
            final(self).wf(committee),
            (final(self).model(), qc_reply(result)) == accepted(
                old(self).model(),
                *vote,
                committee,
            ),
    {
        let digest = vote.digest();
        let ghost before = self.votes@;
        let ghost state = self.model();
        let mut makers = match self.votes.remove(&vote.view) {
            Some(makers) => makers,
            None => SortedMap::new(),
        };
        let ghost makers0 = makers@;
        assert(inner_models(makers0) =~= votes_in(state, vote.view));
        let mut maker = match makers.remove(&digest) {
            Some(maker) => maker,
            None => QCMaker::new(),
        };
        let ghost maker0 = maker.model();
        assert(maker0 == votes_for(inner_models(makers0), digest));
        let answer = maker.append(vote.author, (digest, vote.signature), committee);
        let ghost maker1 = maker.model();
        makers.insert(digest, maker);
        assert(inner_models(makers@) =~= inner_models(makers0).insert(digest, maker1));
        assert(makers_wf(makers@, committee));
        let ghost inner = inner_models(makers@);
        self.votes.insert(vote.view, makers);
        proof {
            assert(vote_models(self.votes@) =~= vote_models(before).insert(vote.view, inner));
            assert forall|view: ViewNumber| #[trigger]
                self.votes@.contains_key(view) implies makers_wf(
                self.votes@[view]@,
                committee,
            ) by {
                if view != vote.view {
                    assert(before.contains_key(view));
                }
            }
        }
        match answer {
            Ok((_, Some(qc))) => Ok(
                Some(
                    QC {
                        hash: vote.hash,
                        view: vote.view,
                        view_round: vote.view_round,
                        votes: qc.votes,
                    },
                ),
            ),
            Ok((_, None)) => Ok(None),
            Err(_) => Err(ConsensusError::AuthorityReuse(vote.author)),
        }
    }

    /// Counts a timeout; returns the certificate if it completes one.
    pub fn add_timeout(&mut self, timeout: &Timeout, committee: &Committee) -> (result:
        ConsensusResult<Option<TC>>)
        requires
            old(self).wf(committee),
        ensures
            final(self).wf(committee),
            (final(self).model(), tc_reply(result)) == abandoned(
                old(self).model(),
                timeout.model(),
                committee,
            ),
    {
        let ghost before = self.timeouts@;
        let mut collector = match self.timeouts.remove(&timeout.view) {
            Some(collector) => collector,
            None => Collector::new(),
        };
        let result = collector.append(timeout, committee);
        let ghost collector1 = collector.model();
        self.timeouts.insert(timeout.view, collector);
        proof {
            assert(collector_models(self.timeouts@) =~= collector_models(before).insert(
                timeout.view,
                collector1,
            ));
            assert forall|view: ViewNumber| #[trigger]
                self.timeouts@.contains_key(view) implies self.timeouts@[view].wf(committee) by {
                if view != timeout.view {
                    assert(before.contains_key(view));
                }
            }
        }
        result
    }

    /// Forgets the views before `view`.
    pub fn cleanup(&mut self, view: ViewNumber)
        ensures
            final(self).model() == cleaned(old(self).model(), view),
            forall|committee: &Committee| old(self).wf(committee) ==> #[trigger] final(self).wf(
                committee,
            ),
    {
        let ghost votes = self.votes@;
        let ghost timeouts = self.timeouts@;
        self.votes.drop_before(view);
        self.timeouts.drop_before(view);
        assert(self.model() =~= cleaned(old(self).model(), view));
    }
}

} // verus!
