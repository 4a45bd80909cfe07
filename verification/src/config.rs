//! The committee: who takes part, with what stake, and at which addresses.

use crate::collections::{as_map, lemma_as_map, sorted, Key, SortedMap};
use crate::crypto::PublicKey;
use vstd::prelude::*;

verus! {

/// Voting power of an authority.
pub type Stake = u32;

/// Index of a worker within its authority.
pub type WorkerId = u32;

/// An IP address.
#[derive(Clone, Copy, Debug, PartialEq, Eq, Structural)]
pub enum IpAddress {
    V4(u8, u8, u8, u8),
    V6(u128),
}

/// An IP address and a port.
#[derive(Clone, Copy, Debug, PartialEq, Eq, Structural)]
pub struct SocketAddress {
    pub ip: IpAddress,
    pub port: u16,
}

/// Addresses of the consensus module of an authority.
#[derive(Clone, Copy, Debug, PartialEq, Eq, Structural)]
pub struct ConsensusAddresses {
    pub consensus_to_consensus: SocketAddress,
}

/// Addresses of the primary of an authority.
#[derive(Clone, Copy, Debug, PartialEq, Eq, Structural)]
pub struct PrimaryAddresses {
    pub primary_to_primary: SocketAddress,
    pub worker_to_primary: SocketAddress,
}

/// Addresses of one worker of an authority.
#[derive(Clone, Copy, Debug, PartialEq, Eq, Structural)]
pub struct WorkerAddresses {
    pub transactions: SocketAddress,
    pub worker_to_worker: SocketAddress,
    pub primary_to_worker: SocketAddress,
}

/// A member of the committee.
pub struct Authority {
    pub stake: Stake,
    pub consensus: ConsensusAddresses,
    pub primary: PrimaryAddresses,
    pub workers: SortedMap<WorkerId, WorkerAddresses>,
}

/// The stake of the listed authorities that are in `members`.
pub open spec fn support(pairs: Seq<(PublicKey, Authority)>, members: Set<PublicKey>) -> nat
    decreases pairs.len(),
{
    if pairs.len() == 0 {
        0
    } else {
        support(pairs.drop_last(), members) + (if members.contains(pairs.last().0) {
            pairs.last().1.stake as nat
        } else {
            0
        })
    }
}

/// The stake of all the listed authorities.
pub open spec fn total_stake(pairs: Seq<(PublicKey, Authority)>) -> nat {
    support(pairs, Set::full())
}

/// What a committee decides votes by: the stake of each authority.
pub open spec fn stake_in(authorities: Map<PublicKey, Authority>, name: PublicKey) -> nat {
    if authorities.contains_key(name) {
        authorities[name].stake as nat
    } else {
        0
    }
}

/// The authorities of the system, in the order of their keys.
pub struct Committee {
    authorities: SortedMap<PublicKey, Authority>,
}

impl View for Committee {
    type V = Map<PublicKey, Authority>;

    closed spec fn view(&self) -> Map<PublicKey, Authority> {
        self.authorities@
    }
}

impl Committee {
    #[verifier::type_invariant]
    spec fn bounded(self) -> bool {
        total_stake(self.authorities.pairs()) <= 0x7fff_ffff
    }

    /// The authorities in key order.
    pub closed spec fn pairs(&self) -> Seq<(PublicKey, Authority)> {
        self.authorities.pairs()
    }

    /// The stake of `name`, zero for a stranger.
    pub open spec fn stake_spec(&self, name: PublicKey) -> nat {
        stake_in(self@, name)
    }

    /// The stake of the whole committee.
    pub open spec fn total(&self) -> nat {
        total_stake(self.pairs())
    }

    /// The stake of the authorities in `members`.
    pub open spec fn support_of(&self, members: Set<PublicKey>) -> nat {
        support(self.pairs(), members)
    }

    /// Stake that any two quorums share beyond the faulty part: 2f + 1.
    pub open spec fn quorum(&self) -> nat {
        2 * self.total() / 3 + 1
    }

    /// Stake that holds at least one honest authority: f + 1.
    pub open spec fn validity(&self) -> nat {
        (self.total() + 2) / 3
    }

    /// What holds of every committee: the entries are in key order, the view
    /// lists them, and twice the total stake fits a `Stake`.
    pub open spec fn wf(&self) -> bool {
        &&& sorted(self.pairs())
        &&& self@ == as_map(self.pairs())
        &&& self.total() <= 0x7fff_ffff
        &&& self.pairs().len() <= usize::MAX
    }

    /// A committee of the given authorities. `None` when twice their total
    /// stake does not fit a `Stake`.
    pub fn new(authorities: SortedMap<PublicKey, Authority>) -> (committee: Option<Committee>)
        ensures
            committee is Some <==> total_stake(authorities.pairs()) <= 0x7fff_ffff,
            committee matches Some(committee) ==> committee.wf() && committee.pairs()
                == authorities.pairs() && committee@ == authorities@,
    {
        let n = authorities.len();
        let mut total: u64 = 0;
        let mut i: usize = 0;
        while i < n
            invariant
                i <= n,
                n == authorities.pairs().len(),
                total == total_stake(authorities.pairs().take(i as int)),
                total <= 0x7fff_ffff,
            decreases n - i,
        {
            let ghost pairs = authorities.pairs();
            assert(pairs.take(i + 1).drop_last() =~= pairs.take(i as int));
            total = total + authorities.value_at(i).stake as u64;
            if total > 0x7fff_ffff {
                proof {
                    lemma_support_prefix(pairs, Set::full(), i + 1);
                }
                return None;
            }
            i += 1;
        }
        assert(authorities.pairs().take(n as int) =~= authorities.pairs());
        Some(Committee { authorities })
    }

    /// The number of authorities.
    pub fn size(&self) -> (size: usize)
        ensures
            size == self.pairs().len(),
            self.wf(),
    {
        proof {
            use_type_invariant(self);
        }
        self.authorities.len()
    }

    /// The key of the `i`-th authority.
    pub fn key_at(&self, i: usize) -> (key: PublicKey)
        requires
            i < self.pairs().len(),
        ensures
            key == self.pairs()[i as int].0,
            self@.contains_key(key),
    {
        self.authorities.key_at(i)
    }

    /// The `i`-th authority.
    pub fn authority_at(&self, i: usize) -> (authority: &Authority)
        requires
            i < self.pairs().len(),
        ensures
            *authority == self.pairs()[i as int].1,
    {
        self.authorities.value_at(i)
    }

    /// The keys of all authorities, in order.
    pub fn keys(&self) -> (keys: Vec<PublicKey>)
        ensures
            keys@ == key_order(self.pairs()),
            self.wf(),
    {
        let n = self.size();
        let mut keys: Vec<PublicKey> = Vec::new();
        let mut i: usize = 0;
        while i < n
            invariant
                i <= n == self.pairs().len(),
                keys@ == key_order(self.pairs()).take(i as int),
            decreases n - i,
        {
            keys.push(self.key_at(i));
            assert(keys@ =~= key_order(self.pairs()).take(i + 1));
            i += 1;
        }
        assert(keys@ =~= key_order(self.pairs()));
        keys
    }

    /// The stake of `name`, zero for a stranger.
    pub fn stake(&self, name: &PublicKey) -> (stake: Stake)
        ensures
            stake == self.stake_spec(*name),
            stake <= self.total(),
            self.wf(),
    {
        proof {
            use_type_invariant(self);
        }
        let n = self.authorities.len();
        match self.authorities.get(name) {
            Some(authority) => {
                proof {
                    lemma_stake_bounded(self.pairs(), *name);
                }
                authority.stake
            },
            None => 0,
        }
    }

    /// The stake of the whole committee.
    fn total_stake(&self) -> (total: u32)
        ensures
            total == self.total(),
            total <= 0x7fff_ffff,
            self.wf(),
    {
        proof {
            use_type_invariant(self);
        }
        let n = self.authorities.len();
        let mut total: u32 = 0;
        let mut i: usize = 0;
        while i < n
            invariant
                i <= n,
                n == self.pairs().len(),
                self.total() <= 0x7fff_ffff,
                total == total_stake(self.pairs().take(i as int)),
            decreases n - i,
        {
            proof {
                assert(self.pairs().take(i + 1).drop_last() =~= self.pairs().take(i as int));
                lemma_support_prefix(self.pairs(), Set::full(), i + 1);
            }
            total = total + self.authorities.value_at(i).stake;
            i += 1;
        }
        assert(self.pairs().take(n as int) =~= self.pairs());
        total
    }

    /// Stake needed for a quorum (2f + 1).
    pub fn quorum_threshold(&self) -> (threshold: Stake)
        ensures
            threshold == self.quorum(),
            self.wf(),
    {
        2 * self.total_stake() / 3 + 1
    }

    /// Stake that is sure to hold an honest authority (f + 1).
    pub fn validity_threshold(&self) -> (threshold: Stake)
        ensures
            threshold == self.validity(),
            self.wf(),
    {
        (self.total_stake() + 2) / 3
    }

    /// Stake needed to decide in one round trip: all of it (3f + 1).
    pub fn fast_threshold(&self) -> (threshold: Stake)
        ensures
            threshold == self.total(),
            self.wf(),
    {
        self.total_stake()
    }

    /// The primary addresses of `name`.
    pub fn primary(&self, name: &PublicKey) -> (addresses: Option<PrimaryAddresses>)
        ensures
            addresses == (if self@.contains_key(*name) {
                Some(self@[*name].primary)
            } else {
                None
            }),
    {
        match self.authorities.get(name) {
            Some(authority) => Some(authority.primary),
            None => None,
        }
    }

    /// The consensus addresses of `name`.
    pub fn consensus(&self, name: &PublicKey) -> (addresses: Option<ConsensusAddresses>)
        ensures
            addresses == (if self@.contains_key(*name) {
                Some(self@[*name].consensus)
            } else {
                None
            }),
    {
        match self.authorities.get(name) {
            Some(authority) => Some(authority.consensus),
            None => None,
        }
    }

    /// The addresses of worker `id` of `name`.
    pub fn worker(&self, name: &PublicKey, id: &WorkerId) -> (addresses: Option<WorkerAddresses>)
        ensures
            addresses == worker_in(self@, *name, *id),
    {
        match self.authorities.get(name) {
            Some(authority) => match authority.workers.get(id) {
                Some(addresses) => Some(*addresses),
                None => None,
            },
            None => None,
        }
    }

    /// The primary addresses of every authority but `name`, in key order.
    pub fn others_primaries(&self, name: &PublicKey) -> (others: Vec<(PublicKey, PrimaryAddresses)>)
        ensures
            others@ == others_in(self.pairs(), *name).map_values(
                |entry: (PublicKey, Authority)| (entry.0, entry.1.primary),
            ),
    {
        let n = self.size();
        let ghost f = |entry: (PublicKey, Authority)| (entry.0, entry.1.primary);
        let mut others: Vec<(PublicKey, PrimaryAddresses)> = Vec::new();
        let mut i: usize = 0;
        while i < n
            invariant
                i <= n == self.pairs().len(),
                f == (|entry: (PublicKey, Authority)| (entry.0, entry.1.primary)),
                others@ == others_in(self.pairs().take(i as int), *name).map_values(f),
            decreases n - i,
        {
            let key = self.key_at(i);
            let ghost pairs = self.pairs();
            assert(pairs.take(i + 1).drop_last() =~= pairs.take(i as int));
            if key != *name {
                others.push((key, self.authority_at(i).primary));
                assert(others@ =~= others_in(pairs.take(i + 1), *name).map_values(f));
            }
            i += 1;
        }
        assert(self.pairs().take(n as int) =~= self.pairs());
        others
    }

    /// The consensus addresses of every authority but `name`, in key order.
    pub fn others_consensus(&self, name: &PublicKey) -> (others: Vec<
        (PublicKey, ConsensusAddresses),
    >)
        ensures
            others@ == others_in(self.pairs(), *name).map_values(
                |entry: (PublicKey, Authority)| (entry.0, entry.1.consensus),
            ),
    {
        let n = self.size();
        let ghost f = |entry: (PublicKey, Authority)| (entry.0, entry.1.consensus);
        let mut others: Vec<(PublicKey, ConsensusAddresses)> = Vec::new();
        let mut i: usize = 0;
        while i < n
            invariant
                i <= n == self.pairs().len(),
                f == (|entry: (PublicKey, Authority)| (entry.0, entry.1.consensus)),
                others@ == others_in(self.pairs().take(i as int), *name).map_values(f),
            decreases n - i,
        {
            let key = self.key_at(i);
            let ghost pairs = self.pairs();
            assert(pairs.take(i + 1).drop_last() =~= pairs.take(i as int));
            if key != *name {
                others.push((key, self.authority_at(i).consensus));
                assert(others@ =~= others_in(pairs.take(i + 1), *name).map_values(f));
            }
            i += 1;
        }
        assert(self.pairs().take(n as int) =~= self.pairs());
        others
    }
}

/// The listed authorities other than `name`.
pub open spec fn others_in(pairs: Seq<(PublicKey, Authority)>, name: PublicKey) -> Seq<
    (PublicKey, Authority),
>
    decreases pairs.len(),
{
    if pairs.len() == 0 {
        Seq::empty()
    } else if pairs.last().0 == name {
        others_in(pairs.drop_last(), name)
    } else {
        others_in(pairs.drop_last(), name).push(pairs.last())
    }
}

/// The keys of the listed authorities.
pub open spec fn key_order(pairs: Seq<(PublicKey, Authority)>) -> Seq<PublicKey> {
    Seq::new(pairs.len(), |i: int| pairs[i].0)
}

/// The addresses of worker `id` of `name`.
pub open spec fn worker_in(
    authorities: Map<PublicKey, Authority>,
    name: PublicKey,
    id: WorkerId,
) -> Option<WorkerAddresses> {
    if authorities.contains_key(name) && authorities[name].workers@.contains_key(id) {
        Some(authorities[name].workers@[id])
    } else {
        None
    }
}

/// A prefix of the list has no more support than the whole.
proof fn lemma_support_prefix(pairs: Seq<(PublicKey, Authority)>, members: Set<PublicKey>, n: int)
    requires
        0 <= n <= pairs.len(),
    ensures
        support(pairs.take(n), members) <= support(pairs, members),
    decreases pairs.len(),
{
    if n == pairs.len() {
        assert(pairs.take(n) =~= pairs);
    } else {
        assert(pairs.drop_last().take(n) =~= pairs.take(n));
        lemma_support_prefix(pairs.drop_last(), members, n);
    }
}

/// One authority has no more stake than all.
proof fn lemma_stake_bounded(pairs: Seq<(PublicKey, Authority)>, name: PublicKey)
    requires
        sorted(pairs),
    ensures
        stake_in(as_map(pairs), name) <= total_stake(pairs),
{
    lemma_as_map(pairs);
    if as_map(pairs).contains_key(name) {
        let i = choose|i: int|
            0 <= i < pairs.len() && (#[trigger] pairs[i]).0 == name && as_map(pairs)[name]
                == pairs[i].1;
        assert(pairs.take(i + 1).last() == pairs[i]);
        lemma_support_prefix(pairs, Set::full(), i + 1);
    }
}

/// The support of a set grows by the stake of each authority that joins it.
pub proof fn lemma_support_insert(
    pairs: Seq<(PublicKey, Authority)>,
    members: Set<PublicKey>,
    name: PublicKey,
)
    requires
        sorted(pairs),
        !members.contains(name),
    ensures
        support(pairs, members.insert(name)) == support(pairs, members) + stake_in(
            as_map(pairs),
            name,
        ),
    decreases pairs.len(),
{
    lemma_as_map(pairs);
    if pairs.len() > 0 {
        let front = pairs.drop_last();
        assert forall|i: int, j: int| 0 <= i < j < front.len() implies (#[trigger] front[i]).0.rank()
            < (#[trigger] front[j]).0.rank() by {
            assert(front[i] == pairs[i] && front[j] == pairs[j]);
        }
        lemma_support_insert(front, members, name);
        lemma_as_map(front);
        if pairs.last().0 == name {
            assert(!as_map(front).contains_key(name)) by {
                if as_map(front).contains_key(name) {
                    let i = choose|i: int| 0 <= i < front.len() && (#[trigger] front[i]).0 == name;
                    assert(pairs[i].0.rank() < pairs[pairs.len() - 1].0.rank());
                }
            }
            assert(as_map(pairs)[pairs[pairs.len() - 1].0] == pairs.last().1);
        } else {
            if as_map(front).contains_key(name) {
                let i = choose|i: int|
                    0 <= i < front.len() && (#[trigger] front[i]).0 == name && as_map(front)[name]
                        == front[i].1;
                assert(pairs[i] == front[i]);
                assert(as_map(pairs).contains_key(pairs[i].0));
            }
            if as_map(pairs).contains_key(name) {
                let i = choose|i: int|
                    0 <= i < pairs.len() && (#[trigger] pairs[i]).0 == name && as_map(pairs)[name]
                        == pairs[i].1;
                assert(pairs[i] == front[i]);
                assert(as_map(front).contains_key(front[i].0));
            }
        }
    } else {
        if as_map(pairs).contains_key(name) {
            let i = choose|i: int| 0 <= i < pairs.len() && (#[trigger] pairs[i]).0 == name;
        }
    }
}

/// The empty set has no support.
pub proof fn lemma_support_empty(pairs: Seq<(PublicKey, Authority)>)
    ensures
        support(pairs, Set::empty()) == 0,
    decreases pairs.len(),
{
    if pairs.len() > 0 {
        lemma_support_empty(pairs.drop_last());
    }
}

/// A smaller set has no more support.
pub proof fn lemma_support_monotone(
    pairs: Seq<(PublicKey, Authority)>,
    a: Set<PublicKey>,
    b: Set<PublicKey>,
)
    requires
        a.subset_of(b),
    ensures
        support(pairs, a) <= support(pairs, b),
    decreases pairs.len(),
{
    if pairs.len() > 0 {
        lemma_support_monotone(pairs.drop_last(), a, b);
    }
}

/// Stake counted in two sets beyond the total is counted twice.
pub proof fn lemma_support_overlap(
    pairs: Seq<(PublicKey, Authority)>,
    a: Set<PublicKey>,
    b: Set<PublicKey>,
)
    ensures
        support(pairs, a) + support(pairs, b) <= total_stake(pairs) + support(pairs, a.intersect(b)),
    decreases pairs.len(),
{
    if pairs.len() > 0 {
        lemma_support_overlap(pairs.drop_last(), a, b);
    }
}

/// Any two quorums share authorities with the stake of at least one honest
/// authority.
pub proof fn lemma_quorum_intersection(committee: &Committee, a: Set<PublicKey>, b: Set<PublicKey>)
    requires
        committee.support_of(a) >= committee.quorum(),
        committee.support_of(b) >= committee.quorum(),
    ensures
        committee.support_of(a.intersect(b)) >= committee.validity(),
        committee.total() > 0 ==> exists|name: PublicKey|
            a.contains(name) && #[trigger] b.contains(name),
{
    lemma_support_overlap(committee.pairs(), a, b);
    if committee.total() > 0 && !(exists|name: PublicKey|
        a.contains(name) && #[trigger] b.contains(name)) {
        assert(a.intersect(b) =~= Set::empty());
        lemma_support_empty(committee.pairs());
    }
}

/// The thresholds are ordered, and a quorum is within reach of an honest
/// committee: f + 1 <= 2f + 1 <= 3f + 1.
pub proof fn lemma_thresholds_ordered(committee: &Committee)
    requires
        committee.total() > 0,
    ensures
        0 < committee.validity() <= committee.quorum() <= committee.total(),
        2 * committee.quorum() > committee.total(),
{
}

/// Elects the leader of each view of each slot by going round the committee
/// in key order.
pub struct LeaderElector {
    keys: Vec<PublicKey>,
}

impl LeaderElector {
    #[verifier::type_invariant]
    spec fn inhabited(self) -> bool {
        self.keys@.len() > 0
    }

    /// The committee in the order in which its members lead.
    pub closed spec fn order(&self) -> Seq<PublicKey> {
        self.keys@
    }

    /// An elector for `committee`; `None` for an empty one.
    pub fn new(committee: &Committee) -> (elector: Option<LeaderElector>)
        ensures
            elector is Some <==> committee.pairs().len() > 0,
            elector matches Some(elector) ==> elector.order() == key_order(committee.pairs()),
    {
        let keys = committee.keys();
        if keys.len() == 0 {
            None
        } else {
            Some(LeaderElector { keys })
        }
    }

    /// The leader of `view` of `slot`.
    pub fn get_leader(&self, slot: u64, view: u64) -> (leader: PublicKey)
        ensures
            self.order().len() > 0,
            leader == leader_in(self.order(), slot as nat + view as nat),
    {
        proof {
            use_type_invariant(self);
        }
        let turn: u128 = slot as u128 + view as u128;
        self.keys[(turn % (self.keys.len() as u128)) as usize]
    }

    /// The leader of `view` where there is one view at a time.
    pub fn get_view_leader(&self, view: u64) -> (leader: PublicKey)
        ensures
            self.order().len() > 0,
            leader == leader_in(self.order(), view as nat),
    {
        self.get_leader(0, view)
    }
}

/// The leader of turn `turn` in the order `order`.
pub open spec fn leader_in(order: Seq<PublicKey>, turn: nat) -> PublicKey {
    order[turn as int % order.len() as int]
}

/// The thresholds are no larger than they must be: a quorum is the least stake
/// that is more than two thirds of the total, and the least stake that no third
/// of the total can leave out is what makes a certificate valid.
pub proof fn law_thresholds_are_least(committee: &Committee, stake: nat)
    ensures
        stake >= committee.quorum() <==> 3 * stake > 2 * committee.total(),
        stake >= committee.validity() <==> 3 * stake >= committee.total(),
{
}

/// Everybody leads in turn: the leader of each turn is the member behind that of
/// the turn before, and after a round it is the first one again.
pub proof fn law_leaders_take_turns(order: Seq<PublicKey>, turn: nat)
    requires
        order.len() > 0,
    ensures
        order.contains(leader_in(order, turn)),
        turn < order.len() ==> leader_in(order, turn) == order[turn as int],
        leader_in(order, turn + order.len()) == leader_in(order, turn),
        order.no_duplicates() && order.len() > 1 ==> leader_in(order, turn) != leader_in(
            order,
            turn + 1,
        ),
{
    let n = order.len() as int;
    let t = turn as int;
    assert(0 <= t % n < n);
    assert(order[t % n] == leader_in(order, turn));
    if t < n {
        vstd::arithmetic::div_mod::lemma_small_mod(turn, order.len());
    }
    assert((t + n) % n == t % n) by {
        vstd::arithmetic::div_mod::lemma_mod_add_multiples_vanish(t, n);
        assert(n + t == t + n);
    }
    if n > 1 {
        let a = t % n;
        let b = (t + 1) % n;
        assert(a != b) by {
            vstd::arithmetic::div_mod::lemma_add_mod_noop(t, 1, n);
            vstd::arithmetic::div_mod::lemma_small_mod(1, order.len());
            assert(b == (a + 1) % n);
            if a + 1 < n {
                vstd::arithmetic::div_mod::lemma_small_mod((a + 1) as nat, order.len());
            } else {
                vstd::arithmetic::div_mod::lemma_mod_self_0(n);
            }
        }
        assert(0 <= b < n);
    }
}

/// The others are all the members but the named one, each as it is listed.
pub proof fn law_others_are_the_rest(
    pairs: Seq<(PublicKey, Authority)>,
    name: PublicKey,
    entry: (PublicKey, Authority),
)
    ensures
        others_in(pairs, name).contains(entry) <==> pairs.contains(entry) && entry.0 != name,
    decreases pairs.len(),
{
    if pairs.len() > 0 {
        let front = pairs.drop_last();
        let n = pairs.len() - 1;
        law_others_are_the_rest(front, name, entry);
        let all = others_in(pairs, name);
        let earlier = others_in(front, name);
        if all.contains(entry) {
            let k = choose|k: int| 0 <= k < all.len() && all[k] == entry;
            if k < earlier.len() {
                assert(earlier[k] == entry);
                let i = choose|i: int| 0 <= i < front.len() && front[i] == entry;
                assert(pairs[i] == entry);
            } else {
                assert(pairs[n] == entry);
            }
        }
        if pairs.contains(entry) && entry.0 != name {
            let i = choose|i: int| 0 <= i < pairs.len() && pairs[i] == entry;
            if i < n {
                assert(front[i] == entry);
                let k = choose|k: int| 0 <= k < earlier.len() && earlier[k] == entry;
                assert(all[k] == entry);
            } else {
                assert(all[earlier.len() as int] == entry);
            }
        }
    }
}

} // verus!
