//! A map kept in key order.

use crate::bytes::{be_value, bytes_precede, lemma_be_value_injective};
use crate::crypto::{lemma_digest_extensional, lemma_public_key_extensional, Digest, PublicKey};
use vstd::prelude::*;

verus! {

/// A key of a [`SortedMap`]: a type whose values are ordered by a number that
/// tells them apart.
pub trait Key: Copy {
    /// The position of the key in the order.
    spec fn rank(self) -> nat;

    /// Keys at the same position are the same key.
    proof fn rank_injective(a: Self, b: Self)
        requires
            a.rank() == b.rank(),
        ensures
            a == b,
    ;

    /// Whether this key comes before `other`.
    fn precedes(&self, other: &Self) -> (before: bool)
        ensures
            before == (self.rank() < other.rank()),
    ;
}

impl Key for u32 {
    open spec fn rank(self) -> nat {
        self as nat
    }

    proof fn rank_injective(a: Self, b: Self) {
    }

    fn precedes(&self, other: &Self) -> (before: bool) {
        *self < *other
    }
}

impl Key for u64 {
    open spec fn rank(self) -> nat {
        self as nat
    }

    proof fn rank_injective(a: Self, b: Self) {
    }

    fn precedes(&self, other: &Self) -> (before: bool) {
        *self < *other
    }
}

/// Two numbers, ordered by the first and then by the second.
#[derive(Clone, Copy, Debug, PartialEq, Eq, Structural)]
pub struct Pair {
    pub first: u64,
    pub second: u64,
}

impl Key for Pair {
    open spec fn rank(self) -> nat {
        self.first as nat * 0x1_0000_0000_0000_0000 + self.second as nat
    }

    proof fn rank_injective(a: Self, b: Self) {
    }

    fn precedes(&self, other: &Self) -> (before: bool) {
        self.first < other.first || (self.first == other.first && self.second < other.second)
    }
}

impl Key for Digest {
    open spec fn rank(self) -> nat {
        be_value(self@)
    }

    proof fn rank_injective(a: Self, b: Self) {
        lemma_be_value_injective(a@, b@);
        lemma_digest_extensional(a, b);
    }

    fn precedes(&self, other: &Self) -> (before: bool) {
        bytes_precede(self.0.as_slice(), other.0.as_slice())
    }
}

impl Key for PublicKey {
    open spec fn rank(self) -> nat {
        be_value(self@)
    }

    proof fn rank_injective(a: Self, b: Self) {
        lemma_be_value_injective(a@, b@);
        lemma_public_key_extensional(a, b);
    }

    fn precedes(&self, other: &Self) -> (before: bool) {
        bytes_precede(self.0.as_slice(), other.0.as_slice())
    }
}

/// Whether the keys of `pairs` are in strictly increasing order.
pub open spec fn sorted<K: Key, V>(pairs: Seq<(K, V)>) -> bool {
    forall|i: int, j: int|
        0 <= i < j < pairs.len() ==> (#[trigger] pairs[i]).0.rank() < (#[trigger] pairs[j]).0.rank()
}

/// Whether `key` occurs in `pairs` at position `i`.
pub open spec fn found_at<K, V>(pairs: Seq<(K, V)>, key: K, i: int) -> bool {
    0 <= i < pairs.len() && pairs[i].0 == key
}

/// Whether `key` occurs in `pairs`.
pub open spec fn has_key<K, V>(pairs: Seq<(K, V)>, key: K) -> bool {
    exists|i: int| #[trigger] found_at(pairs, key, i)
}

/// The value that stands beside `key` in `pairs`.
pub open spec fn value_of<K, V>(pairs: Seq<(K, V)>, key: K) -> V {
    pairs[choose|i: int| #[trigger] found_at(pairs, key, i)].1
}

/// The map that `pairs` lists.
pub open spec fn as_map<K, V>(pairs: Seq<(K, V)>) -> Map<K, V> {
    Map::new(|key: K| has_key(pairs, key), |key: K| value_of(pairs, key))
}

/// The listed pairs are the entries of the map.
pub proof fn lemma_as_map<K: Key, V>(pairs: Seq<(K, V)>)
    requires
        sorted(pairs),
    ensures
        forall|i: int|
            0 <= i < pairs.len() ==> as_map(pairs).contains_key((#[trigger] pairs[i]).0)
                && as_map(pairs)[pairs[i].0] == pairs[i].1,
        forall|key: K| #[trigger]
            as_map(pairs).contains_key(key) ==> exists|i: int|
                0 <= i < pairs.len() && (#[trigger] pairs[i]).0 == key && as_map(pairs)[key]
                    == pairs[i].1,
{
    assert forall|i: int| 0 <= i < pairs.len() implies as_map(pairs).contains_key(
        (#[trigger] pairs[i]).0,
    ) && as_map(pairs)[pairs[i].0] == pairs[i].1 by {
        assert(found_at(pairs, pairs[i].0, i));
        let j = choose|j: int| #[trigger] found_at(pairs, pairs[i].0, j);
        assert(found_at(pairs, pairs[i].0, j));
        assert(i == j) by {
            if i < j {
                assert(pairs[i].0.rank() < pairs[j].0.rank());
            } else if j < i {
                assert(pairs[j].0.rank() < pairs[i].0.rank());
            }
        }
    }
    assert forall|key: K| #[trigger] as_map(pairs).contains_key(key) implies exists|i: int|
        0 <= i < pairs.len() && (#[trigger] pairs[i]).0 == key && as_map(pairs)[key]
            == pairs[i].1 by {
        let i = choose|i: int| #[trigger] found_at(pairs, key, i);
        assert(found_at(pairs, key, i));
        assert(pairs[i].0 == key);
    }
}

/// A list in key order is determined by the map that it lists.
pub proof fn lemma_sorted_unique<K: Key, V>(a: Seq<(K, V)>, b: Seq<(K, V)>)
    requires
        sorted(a),
        sorted(b),
        as_map(a) == as_map(b),
    ensures
        a == b,
    decreases a.len(),
{
    lemma_as_map(a);
    lemma_as_map(b);
    if a.len() == 0 {
        if b.len() > 0 {
            assert(as_map(b).contains_key(b[0].0));
            assert(as_map(a).contains_key(b[0].0));
        }
        assert(a =~= b);
    } else {
        assert(as_map(b).contains_key(a.last().0));
        assert(b.len() > 0);
        let i = choose|i: int| 0 <= i < b.len() && (#[trigger] b[i]).0 == a.last().0;
        let j = choose|j: int| 0 <= j < a.len() && (#[trigger] a[j]).0 == b.last().0;
        assert(as_map(a).contains_key(b.last().0));
        assert(a.last().0.rank() == b.last().0.rank());
        K::rank_injective(a.last().0, b.last().0);
        assert(as_map(a)[a.last().0] == a.last().1);
        assert(as_map(b)[b.last().0] == b.last().1);
        lemma_drop_last(a);
        lemma_drop_last(b);
        lemma_sorted_unique(a.drop_last(), b.drop_last());
        assert(a =~= a.drop_last().push(a.last()));
        assert(b =~= b.drop_last().push(b.last()));
    }
}

/// The entries of a map, in key order.
pub open spec fn listing<K: Key, V>(map: Map<K, V>) -> Seq<(K, V)> {
    choose|pairs: Seq<(K, V)>| sorted(pairs) && #[trigger] as_map(pairs) == map
}

/// A list in key order is the listing of its map.
pub proof fn lemma_listing<K: Key, V>(pairs: Seq<(K, V)>)
    requires
        sorted(pairs),
    ensures
        listing(as_map(pairs)) == pairs,
{
    lemma_sorted_unique(listing(as_map(pairs)), pairs);
}

/// How many pairs come before the place of `key`.
pub open spec fn place_of<K: Key, V>(pairs: Seq<(K, V)>, key: K) -> nat
    decreases pairs.len(),
{
    if pairs.len() == 0 {
        0
    } else if pairs.last().0.rank() < key.rank() {
        pairs.len()
    } else {
        place_of(pairs.drop_last(), key)
    }
}

proof fn lemma_place_of<K: Key, V>(pairs: Seq<(K, V)>, key: K)
    requires
        sorted(pairs),
    ensures
        place_of(pairs, key) <= pairs.len(),
        forall|j: int|
            0 <= j < place_of(pairs, key) ==> (#[trigger] pairs[j]).0.rank() < key.rank(),
        forall|j: int|
            place_of(pairs, key) <= j < pairs.len() ==> key.rank() <= (#[trigger] pairs[j]).0.rank(),
    decreases pairs.len(),
{
    if pairs.len() > 0 {
        let last = pairs.len() - 1;
        if pairs.last().0.rank() < key.rank() {
            assert forall|j: int| 0 <= j < pairs.len() implies (#[trigger] pairs[j]).0.rank()
                < key.rank() by {
                if j < last {
                    assert(pairs[j].0.rank() < pairs[last].0.rank());
                }
            }
        } else {
            let front = pairs.drop_last();
            assert forall|i: int, j: int| 0 <= i < j < front.len() implies (
            #[trigger] front[i]).0.rank() < (#[trigger] front[j]).0.rank() by {
                assert(front[i] == pairs[i] && front[j] == pairs[j]);
            }
            lemma_place_of(front, key);
            assert forall|j: int| 0 <= j < place_of(pairs, key) implies (
            #[trigger] pairs[j]).0.rank() < key.rank() by {
                assert(front[j] == pairs[j]);
            }
            assert forall|j: int| place_of(pairs, key) <= j < pairs.len() implies key.rank() <= (
            #[trigger] pairs[j]).0.rank() by {
                if j < last {
                    assert(front[j] == pairs[j]);
                }
            }
        }
    }
}

/// The listing of a map with one more entry is in key order and lists it.
pub proof fn lemma_listing_insert<K: Key, V>(pairs: Seq<(K, V)>, key: K, value: V)
    requires
        sorted(pairs),
    ensures
        sorted(listing(as_map(pairs).insert(key, value))),
        as_map(listing(as_map(pairs).insert(key, value))) == as_map(pairs).insert(key, value),
{
    let place = place_of(pairs, key) as int;
    lemma_place_of(pairs, key);
    let found = place < pairs.len() && pairs[place].0 == key;
    let after = if found {
        pairs.update(place, (key, value))
    } else {
        pairs.insert(place, (key, value))
    };
    if !found {
        assert forall|j: int| place <= j < pairs.len() implies key.rank() < (
        #[trigger] pairs[j]).0.rank() by {
            if pairs[place].0.rank() == key.rank() {
                K::rank_injective(pairs[place].0, key);
            }
            if j > place {
                assert(pairs[place].0.rank() < pairs[j].0.rank());
            }
        }
    }
    lemma_put(pairs, after, key, value, place, found);
    lemma_listing(after);
}

/// Every finite map has a listing.
pub proof fn lemma_listing_exists<K: Key, V>(map: Map<K, V>)
    requires
        map.dom().finite(),
    ensures
        sorted(listing(map)),
        as_map(listing(map)) == map,
    decreases map.dom().len(),
{
    if map.dom().len() == 0 {
        let none = Seq::<(K, V)>::empty();
        assert(map.dom() =~= Set::empty());
        assert(as_map(none) =~= map);
        assert(sorted(none));
    } else {
        let key = map.dom().choose();
        let rest = map.remove(key);
        lemma_listing_exists(rest);
        lemma_listing_insert(listing(rest), key, map[key]);
        assert(rest.insert(key, map[key]) =~= map);
    }
}

/// Dropping the last pair removes its key.
proof fn lemma_drop_last<K: Key, V>(pairs: Seq<(K, V)>)
    requires
        sorted(pairs),
        pairs.len() > 0,
    ensures
        sorted(pairs.drop_last()),
        as_map(pairs.drop_last()) == as_map(pairs).remove(pairs.last().0),
{
    let front = pairs.drop_last();
    assert(sorted(front)) by {
        assert forall|i: int, j: int| 0 <= i < j < front.len() implies (#[trigger] front[i]).0.rank()
            < (#[trigger] front[j]).0.rank() by {
            assert(front[i] == pairs[i] && front[j] == pairs[j]);
        }
    }
    lemma_as_map(pairs);
    lemma_as_map(front);
    assert forall|key: K| as_map(front).contains_key(key) <==> as_map(pairs).remove(
        pairs.last().0,
    ).contains_key(key) by {
        if as_map(front).contains_key(key) {
            let i = choose|i: int| 0 <= i < front.len() && (#[trigger] front[i]).0 == key;
            assert(pairs[i].0 == key);
            assert(pairs[i].0.rank() < pairs[pairs.len() - 1].0.rank());
        }
        if as_map(pairs).contains_key(key) && key != pairs.last().0 {
            let i = choose|i: int| 0 <= i < pairs.len() && (#[trigger] pairs[i]).0 == key;
            assert(front[i].0 == key);
        }
    }
    assert forall|key: K| #[trigger] as_map(front).contains_key(key) implies as_map(front)[key]
        == as_map(pairs)[key] by {
        let i = choose|i: int| 0 <= i < front.len() && (#[trigger] front[i]).0 == key;
        assert(front[i] == pairs[i]);
    }
    assert(as_map(front) =~= as_map(pairs).remove(pairs.last().0));
}

/// A map whose entries are kept in increasing key order, each key once.
pub struct SortedMap<K: Key, V> {
    entries: Vec<(K, V)>,
}

impl<K: Key, V> View for SortedMap<K, V> {
    type V = Map<K, V>;

    open spec fn view(&self) -> Map<K, V> {
        as_map(self.pairs())
    }
}

impl<K: Key, V> SortedMap<K, V> {
    #[verifier::type_invariant]
    spec fn in_order(self) -> bool {
        sorted(self.entries@)
    }

    /// The entries in key order.
    pub closed spec fn pairs(&self) -> Seq<(K, V)> {
        self.entries@
    }

    /// The empty map.
    pub fn new() -> (map: Self)
        ensures
            map@ == Map::<K, V>::empty(),
            map.pairs() == Seq::<(K, V)>::empty(),
    {
        let map = SortedMap { entries: Vec::new() };
        assert(map@ =~= Map::<K, V>::empty()) by {
            assert forall|key: K| !has_key(map.pairs(), key) by {
                if has_key(map.pairs(), key) {
                    let i = choose|i: int| #[trigger] found_at(map.pairs(), key, i);
                    assert(found_at(map.pairs(), key, i));
                }
            }
        }
        map
    }

    /// How many entries there are.
    pub fn len(&self) -> (len: usize)
        ensures
            len == self.pairs().len(),
            sorted(self.pairs()),
    {
        proof {
            use_type_invariant(self);
        }
        self.entries.len()
    }

    /// Whether there are no entries.
    pub fn is_empty(&self) -> (empty: bool)
        ensures
            empty == (self.pairs().len() == 0),
    {
        self.entries.len() == 0
    }

    /// The key of the `i`-th entry.
    pub fn key_at(&self, i: usize) -> (key: K)
        requires
            i < self.pairs().len(),
        ensures
            key == self.pairs()[i as int].0,
            self@.contains_key(key),
    {
        proof {
            use_type_invariant(self);
            lemma_as_map(self.entries@);
            assert(as_map(self.entries@).contains_key(self.entries@[i as int].0));
        }
        self.entries[i].0
    }

    /// The value of the `i`-th entry.
    pub fn value_at(&self, i: usize) -> (value: &V)
        requires
            i < self.pairs().len(),
        ensures
            *value == self.pairs()[i as int].1,
            *value == self@[self.pairs()[i as int].0],
    {
        proof {
            use_type_invariant(self);
            lemma_as_map(self.entries@);
            assert(as_map(self.entries@).contains_key(self.entries@[i as int].0));
        }
        &self.entries[i].1
    }

    /// The number of entries whose key comes before `key`, and whether the
    /// entry after them is the one for `key`.
    fn locate(&self, key: &K) -> (place: (usize, bool))
        ensures
            place.0 <= self.pairs().len(),
            forall|j: int| 0 <= j < place.0 ==> (#[trigger] self.pairs()[j]).0.rank() < key.rank(),
            forall|j: int|
                place.0 <= j < self.pairs().len() ==> key.rank() <= (#[trigger] self.pairs()[j]).0.rank(),
            place.1 ==> place.0 < self.pairs().len() && self.pairs()[place.0 as int].0 == *key,
            !place.1 ==> forall|j: int|
                place.0 <= j < self.pairs().len() ==> key.rank() < (#[trigger] self.pairs()[j]).0.rank(),
    {
        proof {
            use_type_invariant(self);
        }
        let mut low: usize = 0;
        let mut high: usize = self.entries.len();
        while low < high
            invariant
                low <= high <= self.entries@.len(),
                sorted(self.entries@),
                forall|j: int| 0 <= j < low ==> (#[trigger] self.entries@[j]).0.rank() < key.rank(),
                forall|j: int|
                    high <= j < self.entries@.len() ==> key.rank() <= (#[trigger] self.entries@[j]).0.rank(),
            decreases high - low,
        {
            let middle: usize = low + (high - low) / 2;
            if self.entries[middle].0.precedes(key) {
                low = middle + 1;
            } else {
                high = middle;
            }
        }
        if low < self.entries.len() && !key.precedes(&self.entries[low].0) {
            proof {
                K::rank_injective(*key, self.entries@[low as int].0);
            }
            (low, true)
        } else {
            proof {
                assert forall|j: int| low <= j < self.pairs().len() implies key.rank() < (
                #[trigger] self.pairs()[j]).0.rank() by {
                    if j > low {
                        assert(self.entries@[low as int].0.rank() < self.entries@[j].0.rank());
                    }
                }
            }
            (low, false)
        }
    }

    /// The value for `key`.
    pub fn get(&self, key: &K) -> (value: Option<&V>)
        ensures
            value == (if self@.contains_key(*key) { Some(&self@[*key]) } else { None }),
    {
        let (place, found) = self.locate(key);
        proof {
            use_type_invariant(self);
            lemma_as_map(self.entries@);
            if !found && self@.contains_key(*key) {
                let i = choose|i: int| 0 <= i < self.pairs().len() && (#[trigger] self.pairs()[i]).0 == *key;
                assert(self.pairs()[i].0.rank() == key.rank());
            }
        }
        if found {
            Some(&self.entries[place].1)
        } else {
            None
        }
    }

    /// Whether there is an entry for `key`.
    pub fn contains_key(&self, key: &K) -> (found: bool)
        ensures
            found == self@.contains_key(*key),
    {
        self.get(key).is_some()
    }

    /// Sets the value for `key`; returns the value it had.
    pub fn insert(&mut self, key: K, value: V) -> (previous: Option<V>)
        ensures
            final(self)@ == old(self)@.insert(key, value),
            final(self).pairs() == listing(old(self)@.insert(key, value)),
            previous == (if old(self)@.contains_key(key) { Some(old(self)@[key]) } else { None }),
            final(self).pairs().len() == old(self).pairs().len() + (if previous is None { 1int } else {
                0int
            }),
    {
        let (place, found) = self.locate(&key);
        let ghost before = self.entries@;
        proof {
            use_type_invariant(&*self);
            lemma_as_map(before);
        }
        let mut entries: Vec<(K, V)> = Vec::new();
        std::mem::swap(&mut entries, &mut self.entries);
        let mut previous: Option<V> = None;
        if found {
            let entry = entries.remove(place);
            previous = Some(entry.1);
            entries.insert(place, (key, value));
            assert(entries@ =~= before.update(place as int, (key, value)));
        } else {
            entries.insert(place, (key, value));
            assert(entries@ =~= before.insert(place as int, (key, value)));
        }
        proof {
            lemma_put(before, entries@, key, value, place as int, found);
            lemma_listing(entries@);
        }
        self.entries = entries;
        previous
    }

    /// Adds an entry behind all others.
    pub fn push_last(&mut self, key: K, value: V)
        requires
            forall|i: int|
                0 <= i < old(self).pairs().len() ==> (#[trigger] old(self).pairs()[i]).0.rank()
                    < key.rank(),
        ensures
            final(self).pairs() == old(self).pairs().push((key, value)),
    {
        proof {
            use_type_invariant(&*self);
        }
        let ghost before = self.entries@;
        let mut entries: Vec<(K, V)> = Vec::new();
        std::mem::swap(&mut entries, &mut self.entries);
        entries.push((key, value));
        assert forall|i: int, j: int| 0 <= i < j < entries@.len() implies (
        #[trigger] entries@[i]).0.rank() < (#[trigger] entries@[j]).0.rank() by {
            if j < before.len() {
                assert(before[i].0.rank() < before[j].0.rank());
            } else {
                assert(old(self).pairs()[i].0.rank() < key.rank());
            }
        }
        self.entries = entries;
    }

    /// Removes the entry for `key`; returns its value.
    pub fn remove(&mut self, key: &K) -> (removed: Option<V>)
        ensures
            final(self)@ == old(self)@.remove(*key),
            removed == (if old(self)@.contains_key(*key) { Some(old(self)@[*key]) } else { None }),
            final(self).pairs().len() == old(self).pairs().len() - (if removed is None { 0int } else {
                1int
            }),
    {
        let (place, found) = self.locate(key);
        let ghost before = self.entries@;
        proof {
            use_type_invariant(&*self);
            lemma_as_map(before);
            if !found && self@.contains_key(*key) {
                let i = choose|i: int| 0 <= i < before.len() && (#[trigger] before[i]).0 == *key;
                assert(self.pairs()[i].0.rank() == key.rank());
            }
        }
        if !found {
            assert(old(self)@.remove(*key) =~= old(self)@);
            return None;
        }
        let mut entries: Vec<(K, V)> = Vec::new();
        std::mem::swap(&mut entries, &mut self.entries);
        let entry = entries.remove(place);
        proof {
            assert(entries@ =~= before.remove(place as int));
            lemma_take_out(before, entries@, place as int);
        }
        self.entries = entries;
        Some(entry.1)
    }
}

impl<V> SortedMap<u64, V> {
    /// Removes the entries whose key is below `bound`.
    pub fn drop_before(&mut self, bound: u64)
        ensures
            final(self)@ == old(self)@.remove_keys(Set::new(|key: u64| key < bound)),
    {
        let ghost before = self@;
        let ghost mut removed: Set<u64> = Set::empty();
        assert(self@ =~= before.remove_keys(removed));
        while self.len() > 0 && self.key_at(0) < bound
            invariant
                self@ == before.remove_keys(removed),
                forall|key: u64| removed.contains(key) ==> key < bound,
            decreases self.pairs().len(),
        {
            let oldest = self.key_at(0);
            self.remove(&oldest);
            proof {
                removed = removed.insert(oldest);
                assert(self@ =~= before.remove_keys(removed));
            }
        }
        proof {
            use_type_invariant(&*self);
            let pairs = self.pairs();
            lemma_as_map(pairs);
            assert forall|key: u64| self@.contains_key(key) <==> before.contains_key(key) && key
                >= bound by {
                if self@.contains_key(key) {
                    let i = choose|i: int| 0 <= i < pairs.len() && (#[trigger] pairs[i]).0 == key;
                    if i > 0 {
                        assert(pairs[0].0.rank() < pairs[i].0.rank());
                    }
                }
            }
            assert(self@ =~= before.remove_keys(Set::new(|key: u64| key < bound)));
        }
    }
}

impl<K: Key, V: Copy> SortedMap<K, V> {
    /// Another map with the same entries.
    pub fn duplicate(&self) -> (map: Self)
        ensures
            map.pairs() == self.pairs(),
            map@ == self@,
    {
        proof {
            use_type_invariant(self);
        }
        let mut entries: Vec<(K, V)> = Vec::new();
        let mut i: usize = 0;
        while i < self.entries.len()
            invariant
                i <= self.entries@.len(),
                entries@ == self.entries@.take(i as int),
            decreases self.entries@.len() - i,
        {
            let entry = self.entries[i];
            entries.push(entry);
            assert(entries@ =~= self.entries@.take(i + 1));
            i += 1;
        }
        assert(entries@ =~= self.entries@);
        SortedMap { entries }
    }
}

/// Setting one key of a sorted list keeps it sorted and sets the key in the map.
proof fn lemma_put<K: Key, V>(
    before: Seq<(K, V)>,
    after: Seq<(K, V)>,
    key: K,
    value: V,
    place: int,
    found: bool,
)
    requires
        sorted(before),
        0 <= place <= before.len(),
        forall|j: int| 0 <= j < place ==> (#[trigger] before[j]).0.rank() < key.rank(),
        found ==> place < before.len() && before[place].0 == key && after == before.update(
            place,
            (key, value),
        ),
        !found ==> after == before.insert(place, (key, value)) && forall|j: int|
            place <= j < before.len() ==> key.rank() < (#[trigger] before[j]).0.rank(),
    ensures
        sorted(after),
        as_map(after) == as_map(before).insert(key, value),
        as_map(before).contains_key(key) == found,
        found ==> as_map(before)[key] == before[place].1,
{
    assert(sorted(after)) by {
        assert forall|i: int, j: int| 0 <= i < j < after.len() implies (#[trigger] after[i]).0.rank()
            < (#[trigger] after[j]).0.rank() by {
            if found {
                assert(before[i].0.rank() < before[j].0.rank());
            } else {
                let a = if i < place { i } else { i - 1 };
                let b = if j < place { j } else { j - 1 };
                if i != place && j != place {
                    assert(before[a].0.rank() < before[b].0.rank());
                }
            }
        }
    }
    lemma_as_map(before);
    lemma_as_map(after);
    assert(after[place] == (key, value));
    if as_map(before).contains_key(key) && !found {
        let i = choose|i: int| 0 <= i < before.len() && (#[trigger] before[i]).0 == key;
        assert(before[i].0.rank() == key.rank());
    }
    if found {
        assert(as_map(before).contains_key(before[place].0));
    }
    let target = as_map(before).insert(key, value);
    assert forall|k: K| as_map(after).contains_key(k) <==> target.contains_key(k) by {
        if as_map(after).contains_key(k) && k != key {
            let i = choose|i: int| 0 <= i < after.len() && (#[trigger] after[i]).0 == k;
            let a = if found || i < place { i } else { i - 1 };
            assert(before[a] == after[i]);
            assert(as_map(before).contains_key(before[a].0));
        }
        if as_map(before).contains_key(k) && k != key {
            let a = choose|i: int| 0 <= i < before.len() && (#[trigger] before[i]).0 == k;
            let i = if found || a < place { a } else { a + 1 };
            assert(before[a] == after[i]);
            assert(as_map(after).contains_key(after[i].0));
        }
        if k == key {
            assert(as_map(after).contains_key(after[place].0));
        }
    }
    assert forall|k: K| #[trigger] as_map(after).contains_key(k) implies as_map(after)[k]
        == target[k] by {
        let i = choose|i: int| 0 <= i < after.len() && (#[trigger] after[i]).0 == k;
        if k == key {
            assert(as_map(after)[after[place].0] == after[place].1);
        } else {
            let a = if found || i < place { i } else { i - 1 };
            assert(before[a] == after[i]);
            assert(as_map(before)[before[a].0] == before[a].1);
        }
    }
    assert(as_map(after) =~= target);
}

/// Taking out one entry of a sorted list removes its key from the map.
proof fn lemma_take_out<K: Key, V>(before: Seq<(K, V)>, after: Seq<(K, V)>, place: int)
    requires
        sorted(before),
        0 <= place < before.len(),
        after == before.remove(place),
    ensures
        sorted(after),
        as_map(after) == as_map(before).remove(before[place].0),
        as_map(before).contains_key(before[place].0),
        as_map(before)[before[place].0] == before[place].1,
{
    let key = before[place].0;
    assert(sorted(after)) by {
        assert forall|i: int, j: int| 0 <= i < j < after.len() implies (#[trigger] after[i]).0.rank()
            < (#[trigger] after[j]).0.rank() by {
            let a = if i < place { i } else { i + 1 };
            let b = if j < place { j } else { j + 1 };
            assert(before[a].0.rank() < before[b].0.rank());
        }
    }
    lemma_as_map(before);
    lemma_as_map(after);
    let target = as_map(before).remove(key);
    assert forall|k: K| as_map(after).contains_key(k) <==> target.contains_key(k) by {
        if as_map(after).contains_key(k) {
            let i = choose|i: int| 0 <= i < after.len() && (#[trigger] after[i]).0 == k;
            let a = if i < place { i } else { i + 1 };
            assert(before[a] == after[i]);
            if a < place {
                assert(before[a].0.rank() < before[place].0.rank());
            } else {
                assert(before[place].0.rank() < before[a].0.rank());
            }
            assert(as_map(before).contains_key(before[a].0));
        }
        if target.contains_key(k) {
            let a = choose|i: int| 0 <= i < before.len() && (#[trigger] before[i]).0 == k;
            let i = if a < place { a } else { a - 1 };
            assert(before[a] == after[i]);
            assert(as_map(after).contains_key(after[i].0));
        }
    }
    assert forall|k: K| #[trigger] as_map(after).contains_key(k) implies as_map(after)[k]
        == target[k] by {
        let i = choose|i: int| 0 <= i < after.len() && (#[trigger] after[i]).0 == k;
        let a = if i < place { i } else { i + 1 };
        assert(before[a] == after[i]);
        assert(as_map(before)[before[a].0] == before[a].1);
    }
    assert(as_map(after) =~= target);
}

} // verus!
