//! Collects votes and timeouts until there are enough of them.

use crate::collections::SortedMap;
use crate::config::{
    lemma_support_empty, lemma_support_monotone, lemma_thresholds_ordered, Committee, Stake,
};
use crate::crypto::{Digest, PublicKey, Signature};
use crate::primary::error::{DagError, DagResult};
use crate::primary::messages::{
    copy_votes, make_zero_digest, timeout_authors, timeout_models, zero_digest, Certificate,
    CertificateModel, Header, QcModel, TcModel, Timeout, TimeoutModel, Vote, VoteModel, QC, TC,
};
use crate::quorum::{lemma_set_push, voters};
use vstd::prelude::*;

verus! {

/// The authors heard so far are the authors of the collected votes, each once.
pub open spec fn heard(used: Map<PublicKey, ()>, names: Seq<PublicKey>) -> bool {
    used.dom() == names.to_set() && names.no_duplicates()
}

/// Hearing a new author keeps the authors apart and adds its stake.
pub proof fn lemma_heard_push(
    committee: &Committee,
    used: Map<PublicKey, ()>,
    names: Seq<PublicKey>,
    name: PublicKey,
)
    requires
        committee.wf(),
        heard(used, names),
        !used.contains_key(name),
    ensures
        heard(used.insert(name, ()), names.push(name)),
        committee.support_of(names.push(name).to_set()) == committee.support_of(names.to_set())
            + committee.stake_spec(name),
        committee.support_of(names.push(name).to_set()) <= committee.total(),
        !names.contains(name),
{
    assert(!names.contains(name)) by {
        if names.contains(name) {
            assert(names.to_set().contains(name));
        }
    }
    lemma_set_push(committee, names, name);
    assert(used.insert(name, ()).dom() =~= names.push(name).to_set());
    lemma_support_monotone(committee.pairs(), names.push(name).to_set(), Set::full());
}

/// What a votes aggregator holds.
#[verifier::ext_equal]
pub struct AggregatorModel {
    /// The votes collected, in order.
    pub votes: Seq<(PublicKey, Signature)>,
    /// The certificate, once there are enough votes.
    pub cert: Option<CertificateModel>,
}

/// An aggregator without votes.
pub open spec fn empty_aggregator() -> AggregatorModel {
    AggregatorModel { votes: Seq::empty(), cert: None }
}

/// What a vote makes of an aggregator, and what is answered: whether there is
/// a certificate, and whether it was just made. Votes that come after the
/// certificate are ignored; a second vote by one authority is an error.
pub open spec fn aggregated(
    state: AggregatorModel,
    vote: VoteModel,
    committee: &Committee,
) -> (AggregatorModel, DagResult<(bool, bool)>) {
    if state.cert is Some {
        (state, Ok((true, false)))
    } else if voters(state.votes).contains(vote.author) {
        (state, Err(DagError::AuthorityReuse(vote.author)))
    } else {
        let votes = state.votes.push((vote.author, vote.signature));
        if committee.support_of(voters(votes).to_set()) >= committee.validity() {
            (
                AggregatorModel {
                    votes,
                    cert: Some(
                        CertificateModel {
                            author: vote.origin,
                            header_digest: vote.id,
                            height: vote.height,
                            votes,
                        },
                    ),
                },
                Ok((true, true)),
            )
        } else {
            (AggregatorModel { votes, cert: None }, Ok((false, false)))
        }
    }
}

/// Aggregates votes for a particular header into a certificate.
pub struct VotesAggregator {
    dissemination_weight: Stake,
    pub votes: Vec<(PublicKey, Signature)>,
    used: SortedMap<PublicKey, ()>,
    diss_cert: Option<Certificate>,
    complete: bool,
}

impl VotesAggregator {
    /// What the aggregator holds.
    pub closed spec fn model(&self) -> AggregatorModel {
        AggregatorModel {
            votes: self.votes@,
            cert: match self.diss_cert {
                Some(cert) => Some(cert.model()),
                None => None,
            },
        }
    }

    /// What holds of every aggregator of votes of `committee`: no authority
    /// voted twice, and the weight is the stake of those who voted.
    pub closed spec fn wf(&self, committee: &Committee) -> bool {
        &&& committee.wf()
        &&& heard(self.used@, voters(self.votes@))
        &&& self.dissemination_weight == committee.support_of(voters(self.votes@).to_set())
        &&& self.complete == self.diss_cert is Some
    }

    /// An aggregator without votes.
    pub fn new() -> (aggregator: Self)
        ensures
            aggregator.model() == empty_aggregator(),
            forall|committee: &Committee| committee.wf() ==> #[trigger] aggregator.wf(committee),
    {
        let aggregator = VotesAggregator {
            dissemination_weight: 0,
            votes: Vec::new(),
            used: SortedMap::new(),
            diss_cert: None,
            complete: false,
        };
        proof {
            let names = voters(aggregator.votes@);
            assert(names.to_set() =~= Set::empty());
            assert(aggregator.used@.dom() =~= names.to_set());
            assert forall|committee: &Committee| committee.wf() implies #[trigger] aggregator.wf(
                committee,
            ) by {
                lemma_support_empty(committee.pairs());
            }
        }
        aggregator
    }

    /// Counts a vote. Answers whether there is a certificate, and whether this
    /// vote completed it.
    pub fn append(&mut self, vote: Vote, committee: &Committee, _header: &Header) -> (result:
        DagResult<(bool, bool)>)
        requires
            old(self).wf(committee),
        ensures
            final(self).wf(committee),
            (final(self).model(), result) == aggregated(old(self).model(), vote.model(), committee),
    {
        if self.complete {
            return Ok((true, false));
        }
        let author = vote.author;
        let ghost names = voters(self.votes@);
        // Ensure it is the first time this authority votes.
        if self.used.contains_key(&author) {
            assert(names.to_set().contains(author));
            return Err(DagError::AuthorityReuse(author));
        }
        proof {
            lemma_heard_push(committee, self.used@, names, author);
            assert(voters(self.votes@.push((author, vote.signature))) =~= names.push(author));
        }
        self.used.insert(author, ());
        self.votes.push((author, vote.signature));
        self.dissemination_weight = self.dissemination_weight + committee.stake(&author);
        if self.dissemination_weight >= committee.validity_threshold() {
            self.diss_cert = Some(
                Certificate {
                    author: vote.origin,
                    header_digest: vote.id,
                    height: vote.height,
                    votes: copy_votes(&self.votes),
                },
            );
            self.complete = true;
            return Ok((true, true));
        }
        Ok((false, false))
    }

    /// The certificate, once there are enough votes.
    pub fn get(&self) -> (result: DagResult<Option<Certificate>>)
        ensures
            result is Ok,
            (match result->Ok_0 {
                Some(cert) => Some(cert.model()),
                None => None,
            }) == self.model().cert,
    {
        match &self.diss_cert {
            Some(cert) => Ok(Some(cert.duplicate())),
            None => Ok(None),
        }
    }
}

/// What a QC maker holds.
#[verifier::ext_equal]
pub struct QcMakerModel {
    /// The votes collected, in order.
    pub votes: Seq<(PublicKey, Signature)>,
    /// The stake counted towards the next QC.
    pub weight: nat,
    /// Whether to wait for everyone's vote.
    pub try_fast: bool,
    /// What the slow QC is over, once there is a quorum.
    pub qc_dig: Digest,
    /// Whether the quorum was not reached yet.
    pub first: bool,
}

/// What a fresh maker holds.
pub open spec fn empty_qc_maker() -> QcMakerModel {
    QcMakerModel {
        votes: Seq::empty(),
        weight: 0,
        try_fast: false,
        qc_dig: zero_digest(),
        first: true,
    }
}

/// What a quorum makes of a maker that waits for everyone: everyone's votes
/// make a QC; a mere quorum is announced once, and its QC is there to be
/// fetched when waiting ends.
pub open spec fn fast_checked(state: QcMakerModel, digest: Digest, committee: &Committee) -> (
    QcMakerModel,
    (bool, Option<QcModel>),
) {
    if state.weight >= committee.total() {
        (
            QcMakerModel { weight: 0, ..state },
            (true, Some(QcModel { id: digest, votes: state.votes })),
        )
    } else if state.weight >= committee.quorum() {
        (QcMakerModel { qc_dig: digest, first: false, ..state }, (state.first, None))
    } else {
        (state, (false, None))
    }
}

/// What a vote makes of a maker, and what is answered: whether a QC is
/// available, and the QC if it is ready to be used.
pub open spec fn voted(
    state: QcMakerModel,
    author: PublicKey,
    digest: Digest,
    signature: Signature,
    committee: &Committee,
) -> (QcMakerModel, DagResult<(bool, Option<QcModel>)>) {
    if voters(state.votes).contains(author) {
        (state, Err(DagError::AuthorityReuse(author)))
    } else {
        let counted = QcMakerModel {
            votes: state.votes.push((author, signature)),
            weight: state.weight + committee.stake_spec(author),
            ..state
        };
        if state.try_fast {
            let (next, answer) = fast_checked(counted, digest, committee);
            (next, Ok(answer))
        } else if counted.weight >= committee.quorum() {
            (
                QcMakerModel { weight: 0, ..counted },
                Ok((true, Some(QcModel { id: digest, votes: counted.votes }))),
            )
        } else {
            (counted, Ok((false, None)))
        }
    }
}

/// The answer of a maker as a value.
pub open spec fn qc_answer(result: DagResult<(bool, Option<QC>)>) -> DagResult<
    (bool, Option<QcModel>),
> {
    match result {
        Ok((available, Some(qc))) => Ok((available, Some(qc.model()))),
        Ok((available, None)) => Ok((available, None)),
        Err(e) => Err(e),
    }
}

/// What holds of what a maker holds: no authority voted twice, and no more
/// stake is counted than voted.
pub open spec fn maker_ok(state: QcMakerModel, committee: &Committee) -> bool {
    &&& committee.wf()
    &&& voters(state.votes).no_duplicates()
    &&& state.weight <= committee.support_of(voters(state.votes).to_set())
}

/// Whether a quorum of the votes was already spent on a QC.
pub open spec fn spent(state: QcMakerModel, committee: &Committee) -> bool {
    state.weight + committee.quorum() <= committee.support_of(voters(state.votes).to_set())
}

/// Aggregate consensus info votes and check if we reach a quorum.
pub struct QCMaker {
    weight: Stake,
    pub votes: Vec<(PublicKey, Signature)>,
    used: SortedMap<PublicKey, ()>,
    /// Whether to wait for everyone's vote.
    pub try_fast: bool,
    qc_dig: Digest,
    first: bool,
}

impl QCMaker {
    /// What the maker holds.
    pub closed spec fn model(&self) -> QcMakerModel {
        QcMakerModel {
            votes: self.votes@,
            weight: self.weight as nat,
            try_fast: self.try_fast,
            qc_dig: self.qc_dig,
            first: self.first,
        }
    }

    /// What holds of every maker of QCs of `committee`.
    pub closed spec fn wf(&self, committee: &Committee) -> bool {
        &&& maker_ok(self.model(), committee)
        &&& heard(self.used@, voters(self.votes@))
    }

    /// A maker without votes, which does not wait for everyone.
    pub fn new() -> (maker: Self)
        ensures
            maker.model() == empty_qc_maker(),
            forall|committee: &Committee| committee.wf() ==> #[trigger] maker.wf(committee),
    {
        let maker = QCMaker {
            weight: 0,
            votes: Vec::new(),
            used: SortedMap::new(),
            try_fast: false,
            qc_dig: make_zero_digest(),
            first: true,
        };
        proof {
            let names = voters(maker.votes@);
            assert(names.to_set() =~= Set::empty());
            assert(maker.used@.dom() =~= names.to_set());
        }
        maker
    }

    /// Sets whether to wait for everyone's vote.
    pub fn set_fast(&mut self, try_fast: bool)
        ensures
            final(self).model() == (QcMakerModel { try_fast, ..old(self).model() }),
            forall|committee: &Committee| old(self).wf(committee) ==> #[trigger] final(self).wf(
                committee,
            ),
    {
        self.try_fast = try_fast;
    }

    /// Counts a vote. Answers whether a QC is available, and the QC if it is
    /// ready to be used.
    pub fn append(&mut self, author: PublicKey, vote: (Digest, Signature), committee: &Committee) -> (
        result: DagResult<(bool, Option<QC>)>)
        requires
            old(self).wf(committee),
        ensures
            final(self).wf(committee),
            (final(self).model(), qc_answer(result)) == voted(
                old(self).model(),
                author,
                vote.0,
                vote.1,
                committee,
            ),
    {
        let ghost names = voters(self.votes@);
        if self.used.contains_key(&author) {
            assert(names.to_set().contains(author));
            return Err(DagError::AuthorityReuse(author));
        }
        proof {
            lemma_heard_push(committee, self.used@, names, author);
            assert(voters(self.votes@.push((author, vote.1))) =~= names.push(author));
        }
        self.used.insert(author, ());
        self.votes.push((author, vote.1));
        self.weight = self.weight + committee.stake(&author);
        if self.try_fast {
            return self.check_fast_qc(vote.0, committee);
        }
        // Slow path.
        if self.weight >= committee.quorum_threshold() {
            // Ensure QC is only made once.
            self.weight = 0;
            return Ok((true, Some(QC { id: vote.0, votes: copy_votes(&self.votes) })));
        }
        Ok((false, None))
    }

    /// Checks for everyone's votes, or else for a quorum.
    pub fn check_fast_qc(&mut self, vote_dig: Digest, committee: &Committee) -> (result: DagResult<
        (bool, Option<QC>),
    >)
        requires
            old(self).wf(committee),
        ensures
            final(self).wf(committee),
            result is Ok,
            (final(self).model(), qc_answer(result)) == ({
                let (next, answer) = fast_checked(old(self).model(), vote_dig, committee);
                (next, Ok::<(bool, Option<QcModel>), DagError>(answer))
            }),
    {
        if self.weight >= committee.fast_threshold() {
            // Ensure QC is only made once.
            self.weight = 0;
            return Ok((true, Some(QC { id: vote_dig, votes: copy_votes(&self.votes) })));
        } else if self.weight >= committee.quorum_threshold() {
            self.qc_dig = vote_dig;
            let first = self.first;
            self.first = false;
            // Only say that a QC is available once: only one timer is started.
            return Ok((first, None));
        }
        Ok((false, None))
    }

    /// The slow QC, for when waiting for everyone ends.
    pub fn get_qc(&self) -> (result: DagResult<(bool, Option<QC>)>)
        ensures
            qc_answer(result) == (if self.model().qc_dig == zero_digest() {
                Err::<(bool, Option<QcModel>), DagError>(DagError::InvalidSlowQCRequest)
            } else {
                Ok(
                    (
                        true,
                        Some(QcModel { id: self.model().qc_dig, votes: self.model().votes }),
                    ),
                )
            }),
    {
        if self.qc_dig == make_zero_digest() {
            return Err(DagError::InvalidSlowQCRequest);
        }
        Ok((true, Some(QC { id: self.qc_dig, votes: copy_votes(&self.votes) })))
    }
}

/// A QC shows the votes of a quorum of different authorities.
pub proof fn lemma_qc_has_quorum(
    state: QcMakerModel,
    author: PublicKey,
    digest: Digest,
    signature: Signature,
    committee: &Committee,
)
    requires
        maker_ok(state, committee),
        committee.total() > 0,
        voted(state, author, digest, signature, committee).1 matches Ok((_, Some(_))),
    ensures
        ({
            let (next, answer) = voted(state, author, digest, signature, committee);
            let qc = answer->Ok_0.1->Some_0;
            &&& qc.id == digest
            &&& voters(qc.votes).no_duplicates()
            &&& committee.support_of(voters(qc.votes).to_set()) >= committee.quorum()
            &&& maker_ok(next, committee)
            &&& spent(next, committee)
        }),
{
    lemma_voted_ok(state, author, digest, signature, committee);
    lemma_thresholds_ordered(committee);
}

proof fn lemma_voted_ok(
    state: QcMakerModel,
    author: PublicKey,
    digest: Digest,
    signature: Signature,
    committee: &Committee,
)
    requires
        maker_ok(state, committee),
        !voters(state.votes).contains(author),
    ensures
        ({
            let longer = state.votes.push((author, signature));
            &&& voters(longer).no_duplicates()
            &&& committee.support_of(voters(longer).to_set()) == committee.support_of(
                voters(state.votes).to_set(),
            ) + committee.stake_spec(author)
            &&& committee.support_of(voters(longer).to_set()) <= committee.total()
        }),
{
    let names = voters(state.votes);
    assert(voters(state.votes.push((author, signature))) =~= names.push(author));
    lemma_set_push(committee, names, author);
    lemma_support_monotone(committee.pairs(), names.push(author).to_set(), Set::full());
}

/// A QC is made at most once: once a quorum was spent on one, the votes that
/// are still to come are too few for another.
pub proof fn lemma_qc_made_once(
    state: QcMakerModel,
    author: PublicKey,
    digest: Digest,
    signature: Signature,
    committee: &Committee,
)
    requires
        maker_ok(state, committee),
        committee.total() > 0,
        spent(state, committee),
    ensures
        !(voted(state, author, digest, signature, committee).1 matches Ok((_, Some(_)))),
        maker_ok(voted(state, author, digest, signature, committee).0, committee),
        spent(voted(state, author, digest, signature, committee).0, committee),
{
    lemma_thresholds_ordered(committee);
    if !voters(state.votes).contains(author) {
        lemma_voted_ok(state, author, digest, signature, committee);
    }
}

/// A certificate shows the votes of different authorities with enough stake to
/// hold an honest one, for the header that was voted for.
pub proof fn lemma_certificate_has_support(
    state: AggregatorModel,
    vote: VoteModel,
    committee: &Committee,
)
    requires
        committee.wf(),
        voters(state.votes).no_duplicates(),
        state.cert is None,
        aggregated(state, vote, committee).0.cert is Some,
    ensures
        ({
            let cert = aggregated(state, vote, committee).0.cert->0;
            &&& cert.header_digest == vote.id
            &&& cert.height == vote.height
            &&& cert.author == vote.origin
            &&& voters(cert.votes).no_duplicates()
            &&& committee.support_of(voters(cert.votes).to_set()) >= committee.validity()
        }),
{
    let names = voters(state.votes);
    assert(voters(state.votes.push((vote.author, vote.signature))) =~= names.push(vote.author));
}

/// What a TC maker holds.
#[verifier::ext_equal]
pub struct TcMakerModel {
    /// The timeouts collected, in order.
    pub votes: Seq<TimeoutModel>,
    /// The stake counted towards the next TC.
    pub weight: nat,
}

/// What a fresh maker holds.
pub open spec fn empty_tc_maker() -> TcMakerModel {
    TcMakerModel { votes: Seq::empty(), weight: 0 }
}

/// What a timeout makes of a maker, and the TC if it completes one.
pub open spec fn timed_out(state: TcMakerModel, timeout: TimeoutModel, committee: &Committee) -> (
    TcMakerModel,
    DagResult<Option<TcModel>>,
) {
    if timeout_authors(state.votes).contains(timeout.author) {
        (state, Err(DagError::AuthorityReuse(timeout.author)))
    } else {
        let votes = state.votes.push(timeout);
        let weight = state.weight + committee.stake_spec(timeout.author);
        if weight >= committee.quorum() {
            (
                TcMakerModel { votes, weight: 0 },
                Ok(
                    Some(TcModel { slot: timeout.slot, view: timeout.view, timeouts: votes }),
                ),
            )
        } else {
            (TcMakerModel { votes, weight }, Ok(None))
        }
    }
}

/// What holds of what a TC maker holds.
pub open spec fn tc_maker_ok(state: TcMakerModel, committee: &Committee) -> bool {
    &&& committee.wf()
    &&& timeout_authors(state.votes).no_duplicates()
    &&& state.weight <= committee.support_of(timeout_authors(state.votes).to_set())
}

/// Whether a quorum of the timeouts was already spent on a TC.
pub open spec fn tc_spent(state: TcMakerModel, committee: &Committee) -> bool {
    state.weight + committee.quorum() <= committee.support_of(
        timeout_authors(state.votes).to_set(),
    )
}

/// The answer of a TC maker as a value.
pub open spec fn tc_answer(result: DagResult<Option<TC>>) -> DagResult<Option<TcModel>> {
    match result {
        Ok(Some(tc)) => Ok(Some(tc.model())),
        Ok(None) => Ok(None),
        Err(e) => Err(e),
    }
}

/// Collects timeouts for one view of a slot.
pub struct TCMaker {
    weight: Stake,
    votes: Vec<Timeout>,
    used: SortedMap<PublicKey, ()>,
}

impl TCMaker {
    /// What the maker holds.
    pub closed spec fn model(&self) -> TcMakerModel {
        TcMakerModel { votes: timeout_models(self.votes@), weight: self.weight as nat }
    }

    /// What holds of every maker of TCs of `committee`.
    pub closed spec fn wf(&self, committee: &Committee) -> bool {
        &&& tc_maker_ok(self.model(), committee)
        &&& heard(self.used@, timeout_authors(self.model().votes))
    }

    /// A maker without timeouts.
    pub fn new() -> (maker: Self)
        ensures
            maker.model() == empty_tc_maker(),
            forall|committee: &Committee| committee.wf() ==> #[trigger] maker.wf(committee),
    {
        let maker = TCMaker { weight: 0, votes: Vec::new(), used: SortedMap::new() };
        proof {
            assert(maker.model() =~= empty_tc_maker());
            let names = timeout_authors(maker.model().votes);
            assert(names.to_set() =~= Set::empty());
            assert(maker.used@.dom() =~= names.to_set());
        }
        maker
    }

    /// Counts a timeout; returns the TC if it completes one.
    pub fn append(&mut self, timeout: Timeout, committee: &Committee) -> (result: DagResult<
        Option<TC>,
    >)
        requires
            old(self).wf(committee),
        ensures
            final(self).wf(committee),
            (final(self).model(), tc_answer(result)) == timed_out(
                old(self).model(),
                timeout.model(),
                committee,
            ),
    {
        let author = timeout.author;
        let ghost before = self.model().votes;
        let ghost names = timeout_authors(before);
        // Ensure it is the first time this authority votes.
        if self.used.contains_key(&author) {
            assert(names.to_set().contains(author));
            return Err(DagError::AuthorityReuse(author));
        }
        proof {
            lemma_heard_push(committee, self.used@, names, author);
            assert(timeout_authors(before.push(timeout.model())) =~= names.push(author));
        }
        self.used.insert(author, ());
        let slot = timeout.slot;
        let view = timeout.view;
        let ghost added = timeout.model();
        // Add the timeout to the accumulator.
        self.votes.push(timeout);
        assert(timeout_models(self.votes@) =~= before.push(added));
        self.weight = self.weight + committee.stake(&author);
        if self.weight >= committee.quorum_threshold() {
            // Ensures TC is only created once.
            self.weight = 0;
            let timeouts = copy_timeouts(&self.votes);
            return Ok(Some(TC::new(committee, slot, view, timeouts)));
        }
        Ok(None)
    }
}

fn copy_timeouts(timeouts: &Vec<Timeout>) -> (copy: Vec<Timeout>)
    ensures
        timeout_models(copy@) == timeout_models(timeouts@),
{
    let mut copy: Vec<Timeout> = Vec::new();
    let mut i: usize = 0;
    while i < timeouts.len()
        invariant
            i <= timeouts@.len(),
            copy@.len() == i,
            forall|j: int|
                0 <= j < i ==> (#[trigger] copy@[j]).model() == timeouts@[j].model(),
        decreases timeouts@.len() - i,
    {
        copy.push(timeouts[i].duplicate());
        i += 1;
    }
    assert(timeout_models(copy@) =~= timeout_models(timeouts@));
    copy
}

/// A TC shows the timeouts of a quorum of different authorities, and is for the
/// slot and view of the timeout that completed it.
pub proof fn lemma_tc_has_quorum(state: TcMakerModel, timeout: TimeoutModel, committee: &Committee)
    requires
        tc_maker_ok(state, committee),
        timed_out(state, timeout, committee).1 matches Ok(Some(_)),
    ensures
        ({
            let (next, answer) = timed_out(state, timeout, committee);
            let tc = answer->Ok_0->Some_0;
            &&& tc.slot == timeout.slot
            &&& tc.view == timeout.view
            &&& timeout_authors(tc.timeouts).no_duplicates()
            &&& committee.support_of(timeout_authors(tc.timeouts).to_set()) >= committee.quorum()
            &&& tc_maker_ok(next, committee)
            &&& tc_spent(next, committee)
        }),
{
    let names = timeout_authors(state.votes);
    assert(timeout_authors(state.votes.push(timeout)) =~= names.push(timeout.author));
    lemma_set_push(committee, names, timeout.author);
}

/// A TC is made at most once.
pub proof fn lemma_tc_made_once(state: TcMakerModel, timeout: TimeoutModel, committee: &Committee)
    requires
        tc_maker_ok(state, committee),
        committee.total() > 0,
        tc_spent(state, committee),
    ensures
        !(timed_out(state, timeout, committee).1 matches Ok(Some(_))),
        tc_maker_ok(timed_out(state, timeout, committee).0, committee),
        tc_spent(timed_out(state, timeout, committee).0, committee),
{
    lemma_thresholds_ordered(committee);
    let names = timeout_authors(state.votes);
    assert(timeout_authors(state.votes.push(timeout)) =~= names.push(timeout.author));
    lemma_set_push(committee, names, timeout.author);
    lemma_support_monotone(committee.pairs(), names.push(timeout.author).to_set(), Set::full());
}

/// A maker that tries for everyone's vote makes its certificate exactly when it
/// has them all; that a quorum is there it says once, and remembers for what.
pub proof fn law_fast_certificate_needs_everyone(
    state: QcMakerModel,
    author: PublicKey,
    digest: Digest,
    signature: Signature,
    committee: &Committee,
)
    requires
        state.try_fast,
        !voters(state.votes).contains(author),
        committee.total() > 0,
    ensures
        ({
            let (next, answer) = voted(state, author, digest, signature, committee);
            let total = state.weight + committee.stake_spec(author);
            let votes = state.votes.push((author, signature));
            &&& next.votes == votes
            &&& total >= committee.total() ==> answer == Ok::<_, DagError>(
                (true, Some(QcModel { id: digest, votes })),
            )
            &&& committee.quorum() <= total < committee.total() ==> {
                &&& answer == Ok::<_, DagError>((state.first, None::<QcModel>))
                &&& !next.first
                &&& next.qc_dig == digest
                &&& next.weight == total
            }
            &&& total < committee.quorum() ==> {
                &&& answer == Ok::<_, DagError>((false, None::<QcModel>))
                &&& next.first == state.first
                &&& next.weight == total
            }
        }),
{
    lemma_thresholds_ordered(committee);
}

} // verus!
