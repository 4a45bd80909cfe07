//! Lists of votes: who voted, whether anyone voted twice, and with what stake.

use crate::config::{
    lemma_support_empty, lemma_support_insert, lemma_support_monotone, Committee, Stake,
};
use crate::crypto::{PublicKey, Signature};
use vstd::prelude::*;

verus! {

/// What is wrong with a list of voters.
#[derive(Clone, Copy, Debug)]
pub enum VoterFault {
    /// An authority is listed twice.
    Reused(PublicKey),
    /// An authority has no stake.
    Unknown(PublicKey),
    /// The authorities are not a quorum.
    TooWeak,
}

/// The authors of votes, in order.
pub open spec fn voters(votes: Seq<(PublicKey, Signature)>) -> Seq<PublicKey> {
    Seq::new(votes.len(), |i: int| votes[i].0)
}

/// The stake of the listed authorities, each counted as often as it is listed.
pub open spec fn weight(committee: &Committee, names: Seq<PublicKey>) -> nat
    decreases names.len(),
{
    if names.len() == 0 {
        0
    } else {
        weight(committee, names.drop_last()) + committee.stake_spec(names.last())
    }
}

/// The first listed authority that was listed before or has no stake.
pub open spec fn first_fault(committee: &Committee, names: Seq<PublicKey>) -> Option<VoterFault>
    decreases names.len(),
{
    if names.len() == 0 {
        None
    } else {
        let earlier = first_fault(committee, names.drop_last());
        if earlier is Some {
            earlier
        } else if names.drop_last().contains(names.last()) {
            Some(VoterFault::Reused(names.last()))
        } else if committee.stake_spec(names.last()) == 0 {
            Some(VoterFault::Unknown(names.last()))
        } else {
            None
        }
    }
}

/// What keeps a list of voters from being a quorum, if anything.
pub open spec fn quorum_fault(committee: &Committee, names: Seq<PublicKey>) -> Option<VoterFault> {
    let fault = first_fault(committee, names);
    if fault is Some {
        fault
    } else if weight(committee, names) < committee.quorum() {
        Some(VoterFault::TooWeak)
    } else {
        None
    }
}

/// Adding an authority to a set of others adds its stake.
pub proof fn lemma_set_push(committee: &Committee, names: Seq<PublicKey>, name: PublicKey)
    requires
        committee.wf(),
    ensures
        names.push(name).to_set() == names.to_set().insert(name),
        !names.contains(name) ==> committee.support_of(names.push(name).to_set())
            == committee.support_of(names.to_set()) + committee.stake_spec(name),
        names.contains(name) ==> names.push(name).to_set() == names.to_set(),
{
    let longer = names.push(name);
    assert forall|n: PublicKey| longer.to_set().contains(n) <==> names.to_set().insert(name).contains(
        n,
    ) by {
        if names.contains(n) {
            let i = choose|i: int| 0 <= i < names.len() && names[i] == n;
            assert(longer[i] == n);
        }
        if n == name {
            assert(longer[names.len() as int] == n);
        }
        if longer.contains(n) && n != name {
            let i = choose|i: int| 0 <= i < longer.len() && longer[i] == n;
            assert(names[i] == n);
        }
    }
    assert(longer.to_set() =~= names.to_set().insert(name));
    if !names.contains(name) {
        lemma_support_insert(committee.pairs(), names.to_set(), name);
    } else {
        assert(names.to_set().insert(name) =~= names.to_set());
    }
}

/// A list without faults names each authority once, so its weight is the stake
/// that stands behind it.
pub proof fn lemma_faultless(committee: &Committee, names: Seq<PublicKey>)
    requires
        committee.wf(),
        first_fault(committee, names) is None,
    ensures
        names.no_duplicates(),
        weight(committee, names) == committee.support_of(names.to_set()),
        weight(committee, names) <= committee.total(),
    decreases names.len(),
{
    if names.len() == 0 {
        assert(names.to_set() =~= Set::empty());
        lemma_support_empty(committee.pairs());
    } else {
        lemma_faultless(committee, names.drop_last());
        lemma_set_push(committee, names.drop_last(), names.last());
        assert(names.drop_last().push(names.last()) =~= names);
    }
    lemma_support_monotone(committee.pairs(), names.to_set(), Set::full());
}

/// Any two quorums have a voter in common, if the committee has any stake.
pub proof fn lemma_quorums_meet(committee: &Committee, a: Seq<PublicKey>, b: Seq<PublicKey>)
    requires
        committee.wf(),
        committee.total() > 0,
        quorum_fault(committee, a) is None,
        quorum_fault(committee, b) is None,
    ensures
        exists|name: PublicKey| a.contains(name) && #[trigger] b.contains(name),
{
    lemma_faultless(committee, a);
    lemma_faultless(committee, b);
    crate::config::lemma_quorum_intersection(committee, a.to_set(), b.to_set());
    let name = choose|name: PublicKey|
        a.to_set().contains(name) && #[trigger] b.to_set().contains(name);
    assert(a.contains(name) && b.contains(name));
}

/// Whether `name` is one of the authors of the first `n` votes.
fn voted_before(votes: &Vec<(PublicKey, Signature)>, n: usize, name: &PublicKey) -> (found: bool)
    requires
        n <= votes@.len(),
    ensures
        found == voters(votes@).take(n as int).contains(*name),
{
    let mut i: usize = 0;
    while i < n
        invariant
            i <= n <= votes@.len(),
            forall|j: int| 0 <= j < i ==> votes@[j].0 != *name,
        decreases n - i,
    {
        if votes[i].0 == *name {
            assert(voters(votes@).take(n as int)[i as int] == *name);
            return true;
        }
        i += 1;
    }
    assert forall|j: int| 0 <= j < n implies voters(votes@).take(n as int)[j] != *name by {
        assert(votes@[j].0 != *name);
    }
    false
}

/// Checks that the authors of `votes` are a quorum of different authorities.
pub fn check_voters(committee: &Committee, votes: &Vec<(PublicKey, Signature)>) -> (fault: Option<
    VoterFault,
>)
    ensures
        fault == quorum_fault(committee, voters(votes@)),
        committee.wf(),
{
    let threshold = committee.quorum_threshold();
    let ghost names = voters(votes@);
    let mut total: Stake = 0;
    let mut i: usize = 0;
    assert(names.take(0).len() == 0);
    while i < votes.len()
        invariant
            i <= votes@.len(),
            names == voters(votes@),
            committee.wf(),
            first_fault(committee, names.take(i as int)) is None,
            total == weight(committee, names.take(i as int)),
        decreases votes@.len() - i,
    {
        let name = votes[i].0;
        proof {
            assert(names.take(i + 1).drop_last() =~= names.take(i as int));
            assert(names.take(i + 1).last() == name);
        }
        if voted_before(votes, i, &name) {
            proof {
                lemma_fault_stays(committee, names, i + 1);
            }
            return Some(VoterFault::Reused(name));
        }
        let stake = committee.stake(&name);
        if stake == 0 {
            proof {
                lemma_fault_stays(committee, names, i + 1);
            }
            return Some(VoterFault::Unknown(name));
        }
        proof {
            lemma_faultless(committee, names.take(i + 1));
        }
        total = total + stake;
        i += 1;
    }
    assert(names.take(votes@.len() as int) =~= names);
    if total < threshold {
        Some(VoterFault::TooWeak)
    } else {
        None
    }
}

/// The first fault of a prefix is the first fault of the whole.
proof fn lemma_fault_stays(committee: &Committee, names: Seq<PublicKey>, n: int)
    requires
        0 <= n <= names.len(),
        first_fault(committee, names.take(n)) is Some,
    ensures
        first_fault(committee, names) == first_fault(committee, names.take(n)),
    decreases names.len(),
{
    if n == names.len() {
        assert(names.take(n) =~= names);
    } else {
        assert(names.drop_last().take(n) =~= names.take(n));
        lemma_fault_stays(committee, names.drop_last(), n);
    }
}

/// Whether the authors of `votes` together have a stake of at least
/// `threshold`, each counted as often as it is listed.
pub fn reaches(committee: &Committee, votes: &Vec<(PublicKey, Signature)>, threshold: Stake) -> (
    enough: bool)
    ensures
        enough == (weight(committee, voters(votes@)) >= threshold),
{
    let ghost names = voters(votes@);
    let mut total: u64 = 0;
    let mut i: usize = 0;
    if threshold == 0 {
        return true;
    }
    while i < votes.len()
        invariant
            i <= votes@.len(),
            names == voters(votes@),
            total == weight(committee, names.take(i as int)),
            total < threshold,
        decreases votes@.len() - i,
    {
        assert(names.take(i + 1).drop_last() =~= names.take(i as int));
        total = total + committee.stake(&votes[i].0) as u64;
        if total >= threshold as u64 {
            proof {
                lemma_weight_prefix(committee, names, i + 1);
            }
            return true;
        }
        i += 1;
    }
    assert(names.take(votes@.len() as int) =~= names);
    false
}

proof fn lemma_weight_prefix(committee: &Committee, names: Seq<PublicKey>, n: int)
    requires
        0 <= n <= names.len(),
    ensures
        weight(committee, names.take(n)) <= weight(committee, names),
    decreases names.len(),
{
    if n == names.len() {
        assert(names.take(n) =~= names);
    } else {
        assert(names.drop_last().take(n) =~= names.take(n));
        lemma_weight_prefix(committee, names.drop_last(), n);
    }
}

/// A list of voters passes as a quorum exactly when it names no authority twice,
/// each has stake, and together they have the stake of a quorum.
pub proof fn law_quorums_pass(committee: &Committee, names: Seq<PublicKey>)
    requires
        committee.wf(),
    ensures
        quorum_fault(committee, names) is None <==> {
            &&& names.no_duplicates()
            &&& forall|i: int|
                0 <= i < names.len() ==> committee.stake_spec(#[trigger] names[i]) > 0
            &&& committee.support_of(names.to_set()) >= committee.quorum()
        },
{
    lemma_first_fault(committee, names);
    if first_fault(committee, names) is None {
        lemma_faultless(committee, names);
    }
}

proof fn lemma_first_fault(committee: &Committee, names: Seq<PublicKey>)
    ensures
        first_fault(committee, names) is None <==> {
            &&& names.no_duplicates()
            &&& forall|i: int|
                0 <= i < names.len() ==> committee.stake_spec(#[trigger] names[i]) > 0
        },
    decreases names.len(),
{
    if names.len() > 0 {
        let front = names.drop_last();
        let n = names.len() - 1;
        lemma_first_fault(committee, front);
        if names.no_duplicates() {
            assert forall|i: int, j: int|
                0 <= i < front.len() && 0 <= j < front.len() && i != j implies front[i]
                != front[j] by {
                assert(names[i] != names[j]);
            }
            if front.contains(names[n]) {
                let i = choose|i: int| 0 <= i < front.len() && front[i] == names[n];
                assert(names[i] == names[n]);
            }
        }
        if front.no_duplicates() && !front.contains(names[n]) {
            assert forall|i: int, j: int|
                0 <= i < names.len() && 0 <= j < names.len() && i != j implies names[i]
                != names[j] by {
                if i < n && j < n {
                    assert(front[i] != front[j]);
                } else if i < n {
                    assert(front[i] == names[i]);
                } else if j < n {
                    assert(front[j] == names[j]);
                }
            }
        }
        if forall|i: int| 0 <= i < names.len() ==> committee.stake_spec(#[trigger] names[i]) > 0 {
            assert forall|i: int| 0 <= i < front.len() implies committee.stake_spec(
                #[trigger] front[i],
            ) > 0 by {
                assert(committee.stake_spec(names[i]) > 0);
            }
            assert(committee.stake_spec(names[n]) > 0);
        }
        if (forall|i: int| 0 <= i < front.len() ==> committee.stake_spec(#[trigger] front[i]) > 0)
            && committee.stake_spec(names[n]) > 0 {
            assert forall|i: int| 0 <= i < names.len() implies committee.stake_spec(
                #[trigger] names[i],
            ) > 0 by {
                if i < n {
                    assert(committee.stake_spec(front[i]) > 0);
                }
            }
        }
    }
}

} // verus!
