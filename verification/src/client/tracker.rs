//! Counts the replicas that answered each transaction.

use crate::bytes::{be_value, bytes_precede, lemma_be_value_injective};
use crate::collections::{as_map, lemma_as_map, sorted, Key, SortedMap};
use crate::worker::client_reply::MAX_REPLIERS;
use vstd::prelude::*;

verus! {

/// How long, in microseconds, a transaction may hold fewer than `quorum`
/// replies before the client gives up on it.
pub const PARTIAL_REPLY_TIMEOUT: u64 = 60_000_000;

/// The bytes by which a reply is matched to its transaction.
#[derive(Clone, Copy, Debug)]
pub struct Tag(pub [u8; 9]);

impl View for Tag {
    type V = Seq<u8>;

    open spec fn view(&self) -> Seq<u8> {
        self.0@
    }
}

impl Key for Tag {
    open spec fn rank(self) -> nat {
        be_value(self@)
    }

    proof fn rank_injective(a: Self, b: Self) {
        lemma_be_value_injective(a@, b@);
        assert(a.0 =~= b.0);
    }

    fn precedes(&self, other: &Self) -> (before: bool) {
        bytes_precede(self.0.as_slice(), other.0.as_slice())
    }
}

/// Tags with the same bytes are the same tag.
pub proof fn lemma_tag_extensional(a: Tag, b: Tag)
    requires
        a@ == b@,
    ensures
        a == b,
{
    assert(a.0 =~= b.0);
}

/// One transaction still expecting replies.
#[derive(Clone, Copy, Debug, PartialEq, Eq, Structural)]
pub struct Pending {
    /// A bit per replica that has answered.
    pub repliers: u64,
    /// Whether it has already reached the quorum and been counted.
    pub done: bool,
    /// When its first reply arrived, in microseconds.
    pub first: u64,
}

/// How many of the `width` low bits of `x` are set.
pub open spec fn bit_count(x: u64, width: nat) -> nat
    decreases width,
{
    if width == 0 {
        0
    } else {
        bit_count(x, (width - 1) as nat) + (if bit_set(x, (width - 1) as u64) {
            1nat
        } else {
            0nat
        })
    }
}

/// Whether bit `i` of `x` is set.
pub open spec fn bit_set(x: u64, i: u64) -> bool {
    (x >> i) & 1 == 1
}

/// How many replicas have answered.
pub open spec fn distinct_repliers(repliers: u64) -> nat {
    bit_count(repliers, 64)
}

fn count_ones(x: u64) -> (count: usize)
    ensures
        count == distinct_repliers(x),
        count <= 64,
{
    let mut count: usize = 0;
    let mut i: u64 = 0;
    while i < 64
        invariant
            i <= 64,
            count <= i,
            count == bit_count(x, i as nat),
        decreases 64 - i,
    {
        if (x >> i) & 1 == 1 {
            count += 1;
        }
        i += 1;
    }
    count
}

/// What a reply by `bit` makes of the state of its transaction (`None`: no
/// replies pending), and whether it completes the transaction.
pub open spec fn recorded(
    quorum: nat,
    count: nat,
    state: Option<Pending>,
    bit: u64,
    now: u64,
) -> (Option<Pending>, bool) {
    if count <= 1 {
        (state, true)
    } else {
        match state {
            Some(pending) => if pending.repliers & bit != 0 {
                (state, false)
            } else {
                let repliers = pending.repliers | bit;
                let seen = distinct_repliers(repliers);
                let complete = !pending.done && seen >= quorum;
                let next = if seen >= count {
                    None
                } else {
                    Some(
                        Pending {
                            repliers,
                            done: pending.done || complete,
                            first: pending.first,
                        },
                    )
                };
                (next, complete)
            },
            None => (Some(Pending { repliers: bit, done: quorum <= 1, first: now }), quorum <= 1),
        }
    }
}

/// The state of one transaction.
pub open spec fn state_of(pending: Map<Tag, Pending>, tag: Tag) -> Option<Pending> {
    if pending.contains_key(tag) {
        Some(pending[tag])
    } else {
        None
    }
}

/// The table with the state of one transaction replaced.
pub open spec fn with_state(
    pending: Map<Tag, Pending>,
    tag: Tag,
    state: Option<Pending>,
) -> Map<Tag, Pending> {
    match state {
        Some(entry) => pending.insert(tag, entry),
        None => pending.remove(tag),
    }
}

/// Whether an entry is older than the client is willing to wait.
pub open spec fn expired(entry: Pending, now: u64) -> bool {
    now - entry.first >= PARTIAL_REPLY_TIMEOUT
}

/// The transactions whose entries are too old.
pub open spec fn expired_tags(pending: Map<Tag, Pending>, now: u64) -> Set<Tag> {
    Set::new(|tag: Tag| pending.contains_key(tag) && expired(pending[tag], now))
}

/// The transactions given up on: too old, and short of the quorum.
pub open spec fn abandoned_tags(pending: Map<Tag, Pending>, now: u64) -> Set<Tag> {
    Set::new(
        |tag: Tag| pending.contains_key(tag) && expired(pending[tag], now) && !pending[tag].done,
    )
}

/// Counts distinct repliers per transaction. A transaction completes once,
/// on its `quorum`-th distinct replier, and its entry stays until all `count`
/// repliers have answered or PARTIAL_REPLY_TIMEOUT passes, so late replies do
/// not complete it again.
pub struct ReplyTracker {
    /// Distinct replicas that must reply before a transaction counts.
    quorum: usize,
    /// Distinct replicas that answer each transaction; at least `quorum`.
    count: usize,
    pending: SortedMap<Tag, Pending>,
}

/// `value` brought into the range from `low` to `high`.
pub open spec fn clamped(value: int, low: int, high: int) -> int {
    if value < low {
        low
    } else if value > high {
        high
    } else {
        value
    }
}

fn clamp(value: usize, low: usize, high: usize) -> (result: usize)
    ensures
        result == clamped(value as int, low as int, high as int),
{
    if value < low {
        low
    } else if value > high {
        high
    } else {
        value
    }
}

impl ReplyTracker {
    /// Distinct replicas that must reply before a transaction counts.
    pub closed spec fn quorum_spec(&self) -> nat {
        self.quorum as nat
    }

    /// Distinct replicas that answer each transaction.
    pub closed spec fn count_spec(&self) -> nat {
        self.count as nat
    }

    /// The transactions with replies outstanding.
    pub closed spec fn table(&self) -> Map<Tag, Pending> {
        self.pending@
    }

    /// A tracker that counts a transaction at `quorum` of `count` repliers;
    /// both are brought into the range that a mask can hold.
    pub fn new(quorum: usize, count: usize) -> (tracker: Self)
        ensures
            tracker.quorum_spec() == clamped(quorum as int, 1, MAX_REPLIERS as int),
            tracker.count_spec() == clamped(
                count as int,
                tracker.quorum_spec() as int,
                MAX_REPLIERS as int,
            ),
            tracker.table() == Map::<Tag, Pending>::empty(),
    {
        let quorum = clamp(quorum, 1, MAX_REPLIERS);
        ReplyTracker { quorum, count: clamp(count, quorum, MAX_REPLIERS), pending: SortedMap::new() }
    }

    /// Whether no transaction has replies outstanding.
    pub fn is_empty(&self) -> (empty: bool)
        ensures
            empty == (self.table() == Map::<Tag, Pending>::empty()),
    {
        let n = self.pending.len();
        proof {
            let pairs = self.pending.pairs();
            lemma_as_map(pairs);
            if pairs.len() > 0 {
                assert(as_map(pairs).contains_key(pairs[0].0));
            } else {
                assert forall|tag: Tag| !self.table().contains_key(tag) by {
                    if as_map(pairs).contains_key(tag) {
                        let i = choose|i: int| 0 <= i < pairs.len() && (#[trigger] pairs[i]).0 == tag;
                    }
                }
                assert(self.table() =~= Map::<Tag, Pending>::empty());
            }
        }
        n == 0
    }

    /// Record `bit`'s reply to `tag`; true if this reply completes it.
    pub fn record(&mut self, tag: Tag, bit: u64, now: u64) -> (complete: bool)
        ensures
            final(self).quorum_spec() == old(self).quorum_spec(),
            final(self).count_spec() == old(self).count_spec(),
            ({
                let (state, completes) = recorded(
                    old(self).quorum_spec(),
                    old(self).count_spec(),
                    state_of(old(self).table(), tag),
                    bit,
                    now,
                );
                complete == completes && final(self).table() == with_state(
                    old(self).table(),
                    tag,
                    state,
                )
            }),
    {
        if self.count <= 1 {
            assert(self.table() =~= with_state(
                self.table(),
                tag,
                state_of(self.table(), tag),
            ));
            return true;
        }
        let found: Option<Pending> = match self.pending.get(&tag) {
            Some(entry) => Some(*entry),
            None => None,
        };
        match found {
            Some(entry) => {
                if entry.repliers & bit != 0 {
                    assert(self.table() =~= self.table().insert(tag, entry));
                    return false;
                }
                let repliers = entry.repliers | bit;
                let seen = count_ones(repliers);
                let complete = !entry.done && seen >= self.quorum;
                if seen >= self.count {
                    self.pending.remove(&tag);
                } else {
                    self.pending.insert(
                        tag,
                        Pending { repliers, done: entry.done || complete, first: entry.first },
                    );
                }
                complete
            },
            None => {
                let complete = self.quorum <= 1;
                self.pending.insert(tag, Pending { repliers: bit, done: complete, first: now });
                complete
            },
        }
    }

    /// Drop entries older than PARTIAL_REPLY_TIMEOUT; returns how many of
    /// them had not reached the quorum.
    pub fn sweep(&mut self, now: u64) -> (abandoned: u64)
        ensures
            final(self).quorum_spec() == old(self).quorum_spec(),
            final(self).count_spec() == old(self).count_spec(),
            final(self).table() == old(self).table().remove_keys(
                expired_tags(old(self).table(), now),
            ),
            abandoned_tags(old(self).table(), now).finite(),
            abandoned == abandoned_tags(old(self).table(), now).len(),
    {
        let n = self.pending.len();
        let ghost pairs = self.pending.pairs();
        let ghost table = self.table();
        let mut old_tags: Vec<Tag> = Vec::new();
        let mut abandoned: usize = 0;
        let ghost mut given_up: Set<Tag> = Set::empty();
        let mut i: usize = 0;
        proof {
            lemma_as_map(pairs);
        }
        while i < n
            invariant
                i <= n == pairs.len(),
                pairs == self.pending.pairs(),
                sorted(pairs),
                table == self.pending@,
                table == as_map(pairs),
                *self == *old(self),
                given_up.finite(),
                abandoned == given_up.len(),
                abandoned <= i,
                forall|tag: Tag| #[trigger]
                    old_tags@.contains(tag) <==> exists|j: int|
                        0 <= j < i && (#[trigger] pairs[j]).0 == tag && expired(pairs[j].1, now),
                forall|tag: Tag| #[trigger]
                    given_up.contains(tag) <==> exists|j: int|
                        0 <= j < i && (#[trigger] pairs[j]).0 == tag && expired(pairs[j].1, now)
                            && !pairs[j].1.done,
            decreases n - i,
        {
            let tag = self.pending.key_at(i);
            let entry = *self.pending.value_at(i);
            let ghost before_tags = old_tags@;
            let ghost before_up = given_up;
            if now >= entry.first && now - entry.first >= PARTIAL_REPLY_TIMEOUT {
                old_tags.push(tag);
                if !entry.done {
                    proof {
                        assert(!given_up.contains(tag)) by {
                            if given_up.contains(tag) {
                                let j = choose|j: int|
                                    0 <= j < i && (#[trigger] pairs[j]).0 == tag;
                                assert(pairs[j].0.rank() < pairs[i as int].0.rank());
                            }
                        }
                        given_up = given_up.insert(tag);
                    }
                    abandoned += 1;
                }
            }
            proof {
                assert(pairs[i as int] == (tag, entry));
                let now_expired = expired(entry, now);
                assert forall|t: Tag| #[trigger]
                    old_tags@.contains(t) <==> exists|j: int|
                        0 <= j < i + 1 && (#[trigger] pairs[j]).0 == t && expired(pairs[j].1, now) by {
                    if old_tags@.contains(t) {
                        let k = choose|k: int| 0 <= k < old_tags@.len() && old_tags@[k] == t;
                        if k < before_tags.len() {
                            assert(before_tags[k] == t);
                            assert(before_tags.contains(t));
                        } else {
                            assert(pairs[i as int].0 == t);
                        }
                    }
                    if before_tags.contains(t) {
                        let k = choose|k: int| 0 <= k < before_tags.len() && before_tags[k] == t;
                        assert(old_tags@[k] == t);
                    }
                    if t == tag && now_expired {
                        assert(old_tags@[before_tags.len() as int] == t);
                    }
                }
                assert forall|t: Tag| #[trigger]
                    given_up.contains(t) <==> exists|j: int|
                        0 <= j < i + 1 && (#[trigger] pairs[j]).0 == t && expired(pairs[j].1, now)
                            && !pairs[j].1.done by {
                    if given_up.contains(t) {
                        if before_up.contains(t) {
                            let j = choose|j: int|
                                0 <= j < i && (#[trigger] pairs[j]).0 == t && expired(
                                    pairs[j].1,
                                    now,
                                ) && !pairs[j].1.done;
                            assert(pairs[j].0 == t);
                        } else {
                            assert(pairs[i as int].0 == t);
                        }
                    }
                }
            }
            i += 1;
        }
        proof {
            assert forall|tag: Tag| given_up.contains(tag) <==> abandoned_tags(table, now).contains(
                tag,
            ) by {
                if given_up.contains(tag) {
                    let j = choose|j: int|
                        0 <= j < n && (#[trigger] pairs[j]).0 == tag && expired(pairs[j].1, now)
                            && !pairs[j].1.done;
                    assert(table.contains_key(pairs[j].0));
                }
                if abandoned_tags(table, now).contains(tag) {
                    let j = choose|j: int|
                        0 <= j < pairs.len() && (#[trigger] pairs[j]).0 == tag && table[tag]
                            == pairs[j].1;
                    assert(pairs[j].0 == tag);
                }
            }
            assert(given_up =~= abandoned_tags(table, now));
            assert forall|tag: Tag| #[trigger]
                old_tags@.contains(tag) <==> expired_tags(table, now).contains(tag) by {
                if old_tags@.contains(tag) {
                    let j = choose|j: int|
                        0 <= j < n && (#[trigger] pairs[j]).0 == tag && expired(pairs[j].1, now);
                    assert(table.contains_key(pairs[j].0));
                }
                if expired_tags(table, now).contains(tag) {
                    let j = choose|j: int|
                        0 <= j < pairs.len() && (#[trigger] pairs[j]).0 == tag && table[tag]
                            == pairs[j].1;
                    assert(pairs[j].0 == tag);
                }
            }
        }
        let mut k: usize = 0;
        assert(table.remove_keys(old_tags@.take(0).to_set()) =~= table);
        while k < old_tags.len()
            invariant
                k <= old_tags@.len(),
                self.quorum == old(self).quorum,
                self.count == old(self).count,
                self.pending@ == table.remove_keys(old_tags@.take(k as int).to_set()),
            decreases old_tags@.len() - k,
        {
            self.pending.remove(&old_tags[k]);
            proof {
                let shorter = old_tags@.take(k as int);
                let longer = old_tags@.take(k + 1);
                assert(longer =~= shorter.push(old_tags@[k as int]));
                assert forall|tag: Tag| longer.to_set().contains(tag) <==> shorter.to_set().contains(
                    tag,
                ) || tag == old_tags@[k as int] by {
                    if shorter.contains(tag) {
                        let j = choose|j: int| 0 <= j < shorter.len() && shorter[j] == tag;
                        assert(longer[j] == tag);
                    }
                    if tag == old_tags@[k as int] {
                        assert(longer[k as int] == tag);
                    }
                    if longer.contains(tag) && tag != old_tags@[k as int] {
                        let j = choose|j: int| 0 <= j < longer.len() && longer[j] == tag;
                        assert(shorter[j] == tag);
                    }
                }
                assert(self.pending@ =~= table.remove_keys(longer.to_set()));
            }
            k += 1;
        }
        proof {
            assert(old_tags@.take(old_tags@.len() as int) =~= old_tags@);
            assert(old_tags@.to_set() =~= expired_tags(table, now));
        }
        abandoned as u64
    }
}

/// Whether exactly one bit is set: the mask of a single replica.
pub open spec fn is_single(bit: u64) -> bool {
    exists|k: u64| k < 64 && bit == #[trigger] (1u64 << k)
}

/// What holds of the entry of a transaction that was only ever answered by one
/// replica at a time: it has some but not all repliers, and it is done exactly
/// when it has a quorum.
pub open spec fn consistent(quorum: nat, count: nat, state: Option<Pending>) -> bool {
    state matches Some(entry) ==> 0 < distinct_repliers(entry.repliers) < count && (entry.done
        <==> distinct_repliers(entry.repliers) >= quorum)
}

/// The replicas that have answered.
pub open spec fn answered(state: Option<Pending>) -> nat {
    match state {
        Some(entry) => distinct_repliers(entry.repliers),
        None => 0,
    }
}

/// A transaction completes exactly on the reply that brings it to the quorum:
/// a replica that answers again changes nothing, and the replies after the
/// quorum complete nothing, for as long as the entry stays.
pub proof fn lemma_completes_once(
    quorum: nat,
    count: nat,
    state: Option<Pending>,
    bit: u64,
    now: u64,
)
    requires
        1 <= quorum <= count,
        1 < count,
        consistent(quorum, count, state),
        is_single(bit),
    ensures
        ({
            let (next, complete) = recorded(quorum, count, state, bit, now);
            let repeated = state is Some && state->0.repliers & bit != 0;
            &&& consistent(quorum, count, next)
            &&& repeated ==> next == state && !complete
            &&& !repeated ==> (complete <==> answered(state) + 1 == quorum)
            &&& !repeated && answered(state) + 1 < count ==> answered(next) == answered(state) + 1
            &&& !repeated && answered(state) + 1 >= count ==> next is None
        }),
{
    let k = choose|k: u64| k < 64 && bit == #[trigger] (1u64 << k);
    match state {
        Some(entry) => {
            if entry.repliers & bit == 0 {
                lemma_add_bit(entry.repliers, k);
            }
        },
        None => {
            assert(0u64 & (1u64 << k) == 0) by (bit_vector);
            assert(0u64 | (1u64 << k) == 1u64 << k) by (bit_vector);
            lemma_add_bit(0, k);
            lemma_zero_bits(64);
        },
    }
}

proof fn lemma_zero_bits(width: nat)
    requires
        width <= 64,
    ensures
        bit_count(0, width) == 0,
    decreases width,
{
    if width > 0 {
        lemma_zero_bits((width - 1) as nat);
        let i: u64 = (width - 1) as u64;
        assert((0u64 >> i) & 1 == 0) by (bit_vector);
    }
}

/// Setting a clear bit adds one to the count.
proof fn lemma_add_bit(x: u64, k: u64)
    requires
        k < 64,
        x & (1u64 << k) == 0,
    ensures
        distinct_repliers(x | (1u64 << k)) == distinct_repliers(x) + 1,
{
    assert((x >> k) & 1 == 0) by (bit_vector)
        requires
            k < 64,
            x & (1u64 << k) == 0,
    ;
    lemma_add_bit_prefix(x, k, 64);
}

proof fn lemma_add_bit_prefix(x: u64, k: u64, width: nat)
    requires
        k < 64,
        width <= 64,
        (x >> k) & 1 == 0,
    ensures
        bit_count(x | (1u64 << k), width) == bit_count(x, width) + (if k < width {
            1nat
        } else {
            0nat
        }),
    decreases width,
{
    if width > 0 {
        lemma_add_bit_prefix(x, k, (width - 1) as nat);
        let i: u64 = (width - 1) as u64;
        assert(i != k ==> ((x | (1u64 << k)) >> i) & 1 == (x >> i) & 1) by (bit_vector)
            requires
                k < 64,
                i < 64,
        ;
        assert(i == k ==> ((x | (1u64 << k)) >> i) & 1 == 1) by (bit_vector)
            requires
                k < 64,
                i < 64,
        ;
    }
}

/// A reply that is counted is remembered until all have answered: its replier
/// and those before, when the first of them came, and whether there is a quorum.
pub proof fn law_replies_remembered(
    quorum: nat,
    count: nat,
    state: Option<Pending>,
    bit: u64,
    now: u64,
)
    requires
        1 <= quorum <= count,
        1 < count,
        consistent(quorum, count, state),
        is_single(bit),
    ensures
        recorded(quorum, count, state, bit, now).0 matches Some(entry) ==> {
            &&& entry.first == (match state {
                Some(before) => before.first,
                None => now,
            })
            &&& entry.done <==> distinct_repliers(entry.repliers) >= quorum
            &&& recorded(quorum, count, Some(entry), bit, now) == (Some(entry), false)
        },
{
    lemma_completes_once(quorum, count, state, bit, now);
    let k = choose|k: u64| k < 64 && bit == #[trigger] (1u64 << k);
    let (next, complete) = recorded(quorum, count, state, bit, now);
    match state {
        Some(before) => {
            let r = before.repliers;
            assert((r | (1u64 << k)) & (1u64 << k) != 0) by (bit_vector)
                requires
                    k < 64,
            ;
        },
        None => {
            assert((1u64 << k) & (1u64 << k) != 0) by (bit_vector)
                requires
                    k < 64,
            ;
        },
    }
}

/// Where one reply is enough every reply completes its transaction, and nothing
/// is remembered.
pub proof fn law_single_reply_completes(quorum: nat, state: Option<Pending>, bit: u64, now: u64)
    ensures
        recorded(quorum, 0, state, bit, now) == (state, true),
        recorded(quorum, 1, state, bit, now) == (state, true),
{
}

/// After the timeout an entry is dropped. It counts as abandoned if and only if
/// it was still short of its quorum.
pub proof fn law_old_entries_dropped(pending: Map<Tag, Pending>, tag: Tag, now: u64)
    requires
        pending.contains_key(tag),
    ensures
        expired_tags(pending, now).contains(tag) <==> pending[tag].first
            + PARTIAL_REPLY_TIMEOUT <= now,
        abandoned_tags(pending, now).contains(tag) <==> expired_tags(pending, now).contains(tag)
            && !pending[tag].done,
        abandoned_tags(pending, now).subset_of(expired_tags(pending, now)),
{
}

/// A clamped value lies within its limits, and is itself if it does already.
pub proof fn law_clamped_within(value: int, low: int, high: int)
    requires
        low <= high,
    ensures
        low <= clamped(value, low, high) <= high,
        low <= value <= high ==> clamped(value, low, high) == value,
        value < low ==> clamped(value, low, high) == low,
        value > high ==> clamped(value, low, high) == high,
{
}

} // verus!
