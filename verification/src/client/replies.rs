//! The reply side of the client: checks signed replies, counts them towards
//! their transactions' quorums, and times the sampled ones.

use crate::bytes::{append_bytes, be_value, copy_bytes, copy_range, u64_from_be};
use crate::client::tracker::{
    abandoned_tags, expired_tags, lemma_tag_extensional, recorded, state_of, with_state, Pending,
    ReplyTracker, Tag,
};
use crate::collections::SortedMap;
use crate::crypto::{byte_strings, PublicKey};
use crate::worker::client_reply::{
    reply_verdict, verify_reply_entries, KIND_SAMPLE, REPLY_ENTRY_LEN, REPLY_HEADER_LEN,
    SIGNED_REPLY_ENTRY_LEN, TAG_LEN,
};
use vstd::prelude::*;

verus! {

/// Most frames read off one connection and verified together.
pub const VERIFY_GROUP: usize = 64;

/// Most signed reply entries batch-checked at once.
pub const VERIFY_ENTRIES: usize = 256;

/// One signed reply entry: the frame it came in, who claims to have sent it,
/// and its bytes.
pub struct Item {
    pub owner: usize,
    pub replier: u8,
    pub entry: Vec<u8>,
}

/// A signed reply entry as a value.
pub struct ItemView {
    pub owner: int,
    pub replier: u8,
    pub entry: Seq<u8>,
}

impl View for Item {
    type V = ItemView;

    open spec fn view(&self) -> ItemView {
        ItemView { owner: self.owner as int, replier: self.replier, entry: self.entry@ }
    }
}

/// The entries as values.
pub open spec fn item_views(items: Seq<Item>) -> Seq<ItemView> {
    Seq::new(items.len(), |i: int| items[i]@)
}

/// How many whole signed entries a frame holds.
pub open spec fn whole_entries(frame: Seq<u8>) -> nat {
    if frame.len() < 1 {
        0
    } else {
        ((frame.len() - 1) / 73) as nat
    }
}

/// The whole entries of frame number `owner`; none when its replier is not one
/// of the `known` replicas.
pub open spec fn frame_items(frame: Seq<u8>, owner: int, known: int) -> Seq<ItemView> {
    if frame.len() < 1 || frame[0] >= known {
        Seq::empty()
    } else {
        Seq::new(
            whole_entries(frame),
            |j: int|
                ItemView {
                    owner,
                    replier: frame[0],
                    entry: frame.subrange(1 + 73 * j, 74 + 73 * j),
                },
        )
    }
}

/// The whole entries of all frames, in order.
pub open spec fn all_items(frames: Seq<Seq<u8>>, known: int) -> Seq<ItemView>
    decreases frames.len(),
{
    if frames.len() == 0 {
        Seq::empty()
    } else {
        all_items(frames.drop_last(), known) + frame_items(
            frames.last(),
            frames.len() - 1,
            known,
        )
    }
}

/// Bad entries that no signature check is needed for: a trailing partial entry
/// counts as one, and so does every entry from an unknown replier.
pub open spec fn malformed_in(frame: Seq<u8>, known: int) -> nat {
    if frame.len() < 1 {
        0
    } else {
        (if (frame.len() - 1) % 73 != 0 {
            1nat
        } else {
            0nat
        }) + (if frame[0] >= known {
            whole_entries(frame)
        } else {
            0
        })
    }
}

/// Such entries of all frames.
pub open spec fn malformed(frames: Seq<Seq<u8>>, known: int) -> nat
    decreases frames.len(),
{
    if frames.len() == 0 {
        0
    } else {
        malformed(frames.drop_last(), known) + malformed_in(frames.last(), known)
    }
}

/// All whole entries of all frames, whoever they claim to be from.
pub open spec fn entry_count(frames: Seq<Seq<u8>>) -> nat
    decreases frames.len(),
{
    if frames.len() == 0 {
        0
    } else {
        entry_count(frames.drop_last()) + whole_entries(frames.last())
    }
}

/// The tags of the entries of frame `owner` that passed, in order.
pub open spec fn kept_tags(items: Seq<ItemView>, flags: Seq<bool>, owner: int) -> Seq<u8>
    decreases items.len(),
{
    if items.len() == 0 {
        Seq::empty()
    } else {
        let earlier = kept_tags(items.drop_last(), flags, owner);
        if items.last().owner == owner && flags[items.len() - 1] {
            earlier + items.last().entry.take(9)
        } else {
            earlier
        }
    }
}

/// How many flags are down.
pub open spec fn failures(flags: Seq<bool>) -> nat
    decreases flags.len(),
{
    if flags.len() == 0 {
        0
    } else {
        failures(flags.drop_last()) + (if flags.last() {
            0nat
        } else {
            1nat
        })
    }
}

/// The frames that are left once every entry was judged: the replier index of
/// each frame followed by the tags that passed.
pub open spec fn kept_frames(frames: Seq<Seq<u8>>, known: int, flags: Seq<bool>) -> Seq<Seq<u8>> {
    Seq::new(
        frames.len(),
        |i: int|
            if frames[i].len() < 1 {
                Seq::<u8>::empty()
            } else {
                seq![frames[i][0]] + kept_tags(all_items(frames, known), flags, i)
            },
    )
}

/// The places of the entries that claim to be from `replier`, in order.
pub open spec fn places_of(items: Seq<ItemView>, replier: u8) -> Seq<int>
    decreases items.len(),
{
    if items.len() == 0 {
        Seq::empty()
    } else if items.last().replier == replier {
        places_of(items.drop_last(), replier).push(items.len() - 1)
    } else {
        places_of(items.drop_last(), replier)
    }
}

/// The places that are checked together as group `g`.
pub open spec fn group_of(places: Seq<int>, g: int) -> Seq<int> {
    places.subrange(
        256 * g,
        if 256 * g + 256 < places.len() {
            256 * g + 256
        } else {
            places.len() as int
        },
    )
}

/// The entries at the given places.
pub open spec fn entries_at(items: Seq<ItemView>, places: Seq<int>) -> Seq<Seq<u8>> {
    Seq::new(places.len(), |j: int| items[places[j]].entry)
}

/// The flags at the given places.
pub open spec fn flags_at(flags: Seq<bool>, places: Seq<int>) -> Seq<bool> {
    Seq::new(places.len(), |j: int| flags[places[j]])
}

/// Whether the flags on group `g` of a replier's entries are what a check of
/// exactly that group against the replier's key may answer.
pub open spec fn group_judged(
    keys: Seq<PublicKey>,
    crypto_disabled: bool,
    items: Seq<ItemView>,
    flags: Seq<bool>,
    replier: u8,
    g: int,
) -> bool {
    let group = group_of(places_of(items, replier), g);
    reply_verdict(
        keys[replier as int],
        replier,
        entries_at(items, group),
        crypto_disabled,
        flags_at(flags, group),
    )
}

/// Whether the flags are possible verdicts on the entries: each replier's
/// entries are checked in groups.
pub open spec fn verdicts_ok(
    keys: Seq<PublicKey>,
    crypto_disabled: bool,
    items: Seq<ItemView>,
    flags: Seq<bool>,
) -> bool {
    &&& flags.len() == items.len()
    &&& forall|replier: u8, g: int|
        replier < keys.len() && 0 <= g && 256 * g < places_of(items, replier).len()
            ==> #[trigger] group_judged(keys, crypto_disabled, items, flags, replier, g)
}

/// Places are those of the replier's entries, in order and without gaps.
proof fn lemma_places(items: Seq<ItemView>, replier: u8)
    ensures
        forall|j: int|
            0 <= j < places_of(items, replier).len() ==> 0 <= (#[trigger] places_of(
                items,
                replier,
            )[j]) < items.len() && items[places_of(items, replier)[j]].replier == replier,
        forall|i: int, j: int|
            0 <= i < j < places_of(items, replier).len() ==> #[trigger] places_of(
                items,
                replier,
            )[i] < #[trigger] places_of(items, replier)[j],
    decreases items.len(),
{
    if items.len() > 0 {
        let front = items.drop_last();
        lemma_places(front, replier);
        let places = places_of(items, replier);
        let earlier = places_of(front, replier);
        assert forall|j: int| 0 <= j < places.len() implies 0 <= (#[trigger] places[j])
            < items.len() && items[places[j]].replier == replier by {
            if j < earlier.len() {
                assert(places[j] == earlier[j]);
                assert(front[earlier[j]] == items[earlier[j]]);
            }
        }
        assert forall|i: int, j: int| 0 <= i < j < places.len() implies #[trigger] places[i]
            < #[trigger] places[j] by {
            assert(places[i] == earlier[i]);
            if j < earlier.len() {
                assert(places[j] == earlier[j]);
            }
        }
    }
}

/// A group that was judged stays judged while its own flags stay.
proof fn lemma_judged_stays(
    keys: Seq<PublicKey>,
    crypto_disabled: bool,
    items: Seq<ItemView>,
    a: Seq<bool>,
    b: Seq<bool>,
    replier: u8,
    g: int,
)
    requires
        group_judged(keys, crypto_disabled, items, a, replier, g),
        0 <= g,
        256 * g < places_of(items, replier).len(),
        forall|j: int|
            256 * g <= j < 256 * g + 256 && j < places_of(items, replier).len()
                ==> a[#[trigger] places_of(items, replier)[j]] == b[places_of(items, replier)[j]],
    ensures
        group_judged(keys, crypto_disabled, items, b, replier, g),
{
    let places = places_of(items, replier);
    let group = group_of(places, g);
    assert forall|j: int| 0 <= j < group.len() implies a[#[trigger] group[j]] == b[group[j]] by {
        assert(group[j] == places[256 * g + j]);
    }
    assert(flags_at(a, group) =~= flags_at(b, group));
}

/// What every gathered entry looks like.
proof fn lemma_items_shape(frames: Seq<Seq<u8>>, known: int)
    ensures
        forall|k: int|
            0 <= k < all_items(frames, known).len() ==> ({
                let item = #[trigger] all_items(frames, known)[k];
                item.entry.len() == 73 && item.replier < known && 0 <= item.owner < frames.len()
                    && frames[item.owner].len() >= 1
            }),
        all_items(frames, known).len() + malformed(frames, known) <= entry_count(frames)
            + frames.len(),
    decreases frames.len(),
{
    if frames.len() > 0 {
        lemma_items_shape(frames.drop_last(), known);
        let front = all_items(frames.drop_last(), known);
        let back = frame_items(frames.last(), frames.len() - 1, known);
        assert forall|k: int| 0 <= k < all_items(frames, known).len() implies ({
            let item = #[trigger] all_items(frames, known)[k];
            item.entry.len() == 73 && item.replier < known && 0 <= item.owner < frames.len()
                && frames[item.owner].len() >= 1
        }) by {
            if k < front.len() {
                assert(all_items(frames, known)[k] == front[k]);
                assert(frames.drop_last()[front[k].owner] == frames[front[k].owner]);
            } else {
                assert(all_items(frames, known)[k] == back[k - front.len()]);
                let j = k - front.len();
                assert(73 * j + 73 <= frames.last().len() - 1) by (nonlinear_arith)
                    requires
                        0 <= j < (frames.last().len() - 1) / 73,
                ;
            }
        }
    }
}

proof fn lemma_failures_bounded(flags: Seq<bool>)
    ensures
        failures(flags) <= flags.len(),
    decreases flags.len(),
{
    if flags.len() > 0 {
        lemma_failures_bounded(flags.drop_last());
    }
}

/// Collects the whole entries from known repliers out of `frames`.
pub fn gather_entries(frames: &Vec<Vec<u8>>, known: usize) -> (items: Vec<Item>)
    ensures
        item_views(items@) == all_items(byte_strings(frames@), known as int),
{
    let ghost strings = byte_strings(frames@);
    let mut items: Vec<Item> = Vec::new();
    let mut i: usize = 0;
    assert(item_views(items@) =~= all_items(strings.take(0), known as int));
    while i < frames.len()
        invariant
            i <= frames@.len(),
            strings == byte_strings(frames@),
            item_views(items@) == all_items(strings.take(i as int), known as int),
        decreases frames@.len() - i,
    {
        let frame = frames[i].as_slice();
        let ghost front = item_views(items@);
        let ghost back = frame_items(frame@, i as int, known as int);
        assert(strings.take(i + 1).drop_last() =~= strings.take(i as int));
        if frame.len() >= REPLY_HEADER_LEN && (frame[0] as usize) < known {
            let whole: usize = (frame.len() - REPLY_HEADER_LEN) / SIGNED_REPLY_ENTRY_LEN;
            let mut j: usize = 0;
            assert(front + back.take(0) =~= front);
            while j < whole
                invariant
                    j <= whole == whole_entries(frame@),
                    frame@.len() >= 1,
                    frame@.len() <= usize::MAX,
                    frame@[0] < known,
                    back == frame_items(frame@, i as int, known as int),
                    item_views(items@) == front + back.take(j as int),
                decreases whole - j,
            {
                let ghost before = items@;
                assert(73 * j + 73 <= frame@.len() - 1) by (nonlinear_arith)
                    requires
                        0 <= j < (frame@.len() - 1) / 73,
                ;
                let start: usize = 1 + SIGNED_REPLY_ENTRY_LEN * j;
                let entry = copy_range(frame, start, start + SIGNED_REPLY_ENTRY_LEN);
                items.push(Item { owner: i, replier: frame[0], entry });
                proof {
                    assert(items@.last()@ == back[j as int]);
                    assert(item_views(items@) =~= item_views(before).push(items@.last()@));
                    assert(item_views(items@) =~= front + back.take(j + 1));
                }
                j += 1;
            }
            assert(back.take(whole as int) =~= back);
        }
        assert(item_views(items@) =~= front + back);
        i += 1;
    }
    assert(strings.take(frames@.len() as int) =~= strings);
    items
}

/// The frames that are left once every entry was judged, and how many entries
/// were bad.
pub fn settle_entries(
    frames: &Vec<Vec<u8>>,
    known: usize,
    items: &Vec<Item>,
    flags: &Vec<bool>,
) -> (outcome: (Vec<Vec<u8>>, u64))
    requires
        item_views(items@) == all_items(byte_strings(frames@), known as int),
        flags@.len() == items@.len(),
        entry_count(byte_strings(frames@)) + frames@.len() <= u64::MAX,
    ensures
        byte_strings(outcome.0@) == kept_frames(byte_strings(frames@), known as int, flags@),
        outcome.1 == malformed(byte_strings(frames@), known as int) + failures(flags@),
{
    let ghost strings = byte_strings(frames@);
    let ghost views = all_items(strings, known as int);
    proof {
        lemma_items_shape(strings, known as int);
        lemma_failures_bounded(flags@);
    }
    let mut bad: u64 = 0;
    let mut out: Vec<Vec<u8>> = Vec::new();
    let mut i: usize = 0;
    while i < frames.len()
        invariant
            i <= frames@.len(),
            strings == byte_strings(frames@),
            entry_count(strings) + frames@.len() <= u64::MAX,
            bad == malformed(strings.take(i as int), known as int),
            out@.len() == i,
            forall|k: int|
                0 <= k < i ==> (#[trigger] out@[k])@ == (if strings[k].len() < 1 {
                    Seq::<u8>::empty()
                } else {
                    seq![strings[k][0]]
                }),
        decreases frames@.len() - i,
    {
        let frame = frames[i].as_slice();
        let mut head: Vec<u8> = Vec::new();
        proof {
            assert(strings.take(i + 1).drop_last() =~= strings.take(i as int));
            lemma_items_shape(strings.take(i + 1), known as int);
            lemma_entry_count_prefix(strings, i + 1);
        }
        if frame.len() >= REPLY_HEADER_LEN {
            let replier = frame[0];
            head.push(replier);
            let body: usize = frame.len() - REPLY_HEADER_LEN;
            if body % SIGNED_REPLY_ENTRY_LEN != 0 {
                bad = bad + 1;
            }
            if replier as usize >= known {
                bad = bad + (body / SIGNED_REPLY_ENTRY_LEN) as u64;
            }
            assert(head@ =~= seq![replier]);
        }
        out.push(head);
        i += 1;
    }
    assert(strings.take(frames@.len() as int) =~= strings);
    let ghost empty_kept = kept_tags(views.take(0), flags@, 0);
    let mut k: usize = 0;
    assert(flags@.take(0).len() == 0);
    while k < items.len()
        invariant
            k <= items@.len() == views.len(),
            items@.len() == flags@.len(),
            item_views(items@) == views,
            strings == byte_strings(frames@),
            views == all_items(strings, known as int),
            forall|j: int|
                0 <= j < views.len() ==> ({
                    let item = #[trigger] views[j];
                    item.entry.len() == 73 && item.replier < known && 0 <= item.owner
                        < strings.len()
                }),
            malformed(strings, known as int) + views.len() <= u64::MAX,
            failures(flags@.take(k as int)) <= k,
            bad == malformed(strings, known as int) + failures(flags@.take(k as int)),
            out@.len() == frames@.len(),
            forall|i: int|
                0 <= i < out@.len() ==> (#[trigger] out@[i])@ == (if strings[i].len() < 1 {
                    Seq::<u8>::empty()
                } else {
                    seq![strings[i][0]] + kept_tags(views.take(k as int), flags@, i)
                }),
            forall|j: int|
                0 <= j < views.len() ==> strings[(#[trigger] views[j]).owner].len() >= 1,
        decreases items@.len() - k,
    {
        let item = &items[k];
        proof {
            assert(views[k as int] == item@);
            assert(views.take(k + 1).drop_last() =~= views.take(k as int));
            assert(flags@.take(k + 1).drop_last() =~= flags@.take(k as int));
        }
        let ghost before = out@;
        if flags[k] {
            let tag = copy_range(item.entry.as_slice(), 0, TAG_LEN);
            assert(tag@ =~= item.entry@.take(9));
            let mut frame = out.remove(item.owner);
            append_bytes(&mut frame, tag.as_slice());
            out.insert(item.owner, frame);
        } else {
            bad = bad + 1;
        }
        proof {
            assert forall|i: int| 0 <= i < out@.len() implies (#[trigger] out@[i])@ == (
            if strings[i].len() < 1 {
                Seq::<u8>::empty()
            } else {
                seq![strings[i][0]] + kept_tags(views.take(k + 1), flags@, i)
            }) by {
                assert(strings[views[k as int].owner].len() >= 1);
                assert(before[i]@ == (if strings[i].len() < 1 {
                    Seq::<u8>::empty()
                } else {
                    seq![strings[i][0]] + kept_tags(views.take(k as int), flags@, i)
                }));
                if flags@[k as int] && i == item.owner {
                    assert(out@[i]@ =~= seq![strings[i][0]] + kept_tags(
                        views.take(k + 1),
                        flags@,
                        i,
                    ));
                } else {
                    assert(out@[i] == before[i]);
                }
            }
        }
        k += 1;
    }
    proof {
        assert(views.take(views.len() as int) =~= views);
        assert(flags@.take(flags@.len() as int) =~= flags@);
        assert(byte_strings(out@) =~= kept_frames(strings, known as int, flags@));
    }
    (out, bad)
}

proof fn lemma_entry_count_prefix(frames: Seq<Seq<u8>>, n: int)
    requires
        0 <= n <= frames.len(),
    ensures
        entry_count(frames.take(n)) <= entry_count(frames),
    decreases frames.len(),
{
    if n == frames.len() {
        assert(frames.take(n) =~= frames);
    } else {
        assert(frames.drop_last().take(n) =~= frames.take(n));
        lemma_entry_count_prefix(frames.drop_last(), n);
    }
}

/// Judges each entry against its replier's key. Each replier's entries are
/// batch-checked VERIFY_ENTRIES at a time.
fn check_entries(items: &Vec<Item>, keys: &Vec<PublicKey>, crypto_disabled: bool) -> (flags: Vec<
    bool,
>)
    ensures
        verdicts_ok(keys@, crypto_disabled, item_views(items@), flags@),
{
    let ghost views = item_views(items@);
    let mut flags: Vec<bool> = Vec::new();
    let mut k: usize = 0;
    while k < items.len()
        invariant
            k <= items@.len(),
            flags@.len() == k,
        decreases items@.len() - k,
    {
        flags.push(false);
        k += 1;
    }
    let mut replier: usize = 0;
    while replier < keys.len() && replier < 256
        invariant
            replier <= 256,
            replier <= keys@.len(),
            flags@.len() == items@.len(),
            views == item_views(items@),
            forall|r: u8, g: int|
                r < replier && 0 <= g && 256 * g < places_of(views, r).len()
                    ==> #[trigger] group_judged(keys@, crypto_disabled, views, flags@, r, g),
        decreases 256 - replier,
    {
        let ghost before = flags@;
        check_replier(items, keys, replier as u8, crypto_disabled, &mut flags);
        proof {
            assert forall|r: u8, g: int|
                r < replier + 1 && 0 <= g && 256 * g < places_of(views, r).len() implies
                #[trigger] group_judged(keys@, crypto_disabled, views, flags@, r, g) by {
                if r < replier {
                    assert(group_judged(keys@, crypto_disabled, views, before, r, g));
                    lemma_places(views, r);
                    assert forall|j: int|
                        256 * g <= j < 256 * g + 256 && j < places_of(views, r).len() implies before[
                    #[trigger] places_of(views, r)[j]] == flags@[places_of(views, r)[j]] by {
                        let p = places_of(views, r)[j];
                        assert(views[p] == items@[p]@);
                    }
                    lemma_judged_stays(keys@, crypto_disabled, views, before, flags@, r, g);
                }
            }
        }
        replier += 1;
    }
    flags
}

/// The places of the entries of one replier, in order.
fn positions_of(items: &Vec<Item>, replier: u8) -> (positions: Vec<usize>)
    ensures
        positions@.len() == places_of(item_views(items@), replier).len(),
        forall|j: int|
            0 <= j < positions@.len() ==> #[trigger] positions@[j] == places_of(
                item_views(items@),
                replier,
            )[j],
{
    let ghost views = item_views(items@);
    let mut positions: Vec<usize> = Vec::new();
    let mut k: usize = 0;
    while k < items.len()
        invariant
            k <= items@.len(),
            views == item_views(items@),
            positions@.len() == places_of(views.take(k as int), replier).len(),
            forall|j: int|
                0 <= j < positions@.len() ==> #[trigger] positions@[j] == places_of(
                    views.take(k as int),
                    replier,
                )[j],
        decreases items@.len() - k,
    {
        assert(views.take(k + 1).drop_last() =~= views.take(k as int));
        assert(views.take(k + 1).last() == items@[k as int]@);
        if items[k].replier == replier {
            positions.push(k);
        }
        k += 1;
    }
    assert(views.take(items@.len() as int) =~= views);
    positions
}

/// Judges the entries of one replier, a group at a time.
fn check_replier(
    items: &Vec<Item>,
    keys: &Vec<PublicKey>,
    replier: u8,
    crypto_disabled: bool,
    flags: &mut Vec<bool>,
)
    requires
        replier < keys@.len(),
        old(flags)@.len() == items@.len(),
    ensures
        final(flags)@.len() == items@.len(),
        forall|g: int|
            0 <= g && 256 * g < places_of(item_views(items@), replier).len()
                ==> #[trigger] group_judged(
                keys@,
                crypto_disabled,
                item_views(items@),
                final(flags)@,
                replier,
                g,
            ),
        forall|k: int|
            0 <= k < items@.len() && (#[trigger] items@[k]).replier != replier ==> final(flags)@[k]
                == old(flags)@[k],
{
    let ghost views = item_views(items@);
    let ghost places = places_of(views, replier);
    let positions = positions_of(items, replier);
    let ghost mut done: int = 0;
    let n: usize = positions.len();
    let mut start: usize = 0;
    proof {
        lemma_places(views, replier);
    }
    while start < n
        invariant
            start <= n == positions@.len() == places.len(),
            start < n ==> start == 256 * done,
            start <= 256 * done,
            0 <= done,
            replier < keys@.len(),
            flags@.len() == items@.len(),
            old(flags)@.len() == items@.len(),
            views == item_views(items@),
            places == places_of(views, replier),
            forall|j: int| 0 <= j < n ==> #[trigger] positions@[j] == places[j],
            forall|j: int|
                0 <= j < n ==> 0 <= (#[trigger] places[j]) < views.len() && views[places[j]].replier
                    == replier,
            forall|i: int, j: int|
                0 <= i < j < n ==> #[trigger] places[i] < #[trigger] places[j],
            forall|g: int|
                0 <= g < done ==> #[trigger] group_judged(
                    keys@,
                    crypto_disabled,
                    views,
                    flags@,
                    replier,
                    g,
                ),
            forall|k: int|
                0 <= k < items@.len() && (#[trigger] items@[k]).replier != replier ==> flags@[k]
                    == old(flags)@[k],
        decreases n - start,
    {
        let ghost before = flags@;
        let ghost group = group_of(places, done);
        let end: usize = if n - start > VERIFY_ENTRIES {
            start + VERIFY_ENTRIES
        } else {
            n
        };
        let mut entries: Vec<Vec<u8>> = Vec::new();
        let mut j: usize = start;
        while j < end
            invariant
                start <= j <= end <= n,
                n == positions@.len() == places.len(),
                views == item_views(items@),
                forall|j: int| 0 <= j < n ==> #[trigger] positions@[j] == places[j],
                forall|j: int| 0 <= j < n ==> 0 <= (#[trigger] places[j]) < views.len(),
                entries@.len() == j - start,
                forall|i: int|
                    0 <= i < entries@.len() ==> (#[trigger] entries@[i])@ == views[places[start
                        + i]].entry,
            decreases end - j,
        {
            let p: usize = positions[j];
            assert(p == places[j as int]);
            entries.push(copy_bytes(items[p].entry.as_slice()));
            assert(views[p as int] == items@[p as int]@);
            j += 1;
        }
        let good = verify_reply_entries(
            &keys[replier as usize],
            replier,
            entries.as_slice(),
            crypto_disabled,
        );
        proof {
            assert(group.len() == end - start);
            assert forall|i: int| 0 <= i < group.len() implies byte_strings(entries@)[i]
                == entries_at(views, group)[i] by {
                assert(entries@[i]@ == views[places[start + i]].entry);
                assert(group[i] == places[start + i]);
            }
            assert(byte_strings(entries@) =~= entries_at(views, group));
            assert(good@.len() == group.len());
        }
        let mut j: usize = start;
        while j < end
            invariant
                start <= j <= end <= n,
                n == positions@.len() == places.len(),
                good@.len() == end - start,
                flags@.len() == items@.len() == before.len(),
                views == item_views(items@),
                forall|j: int| 0 <= j < n ==> #[trigger] positions@[j] == places[j],
                forall|j: int|
                    0 <= j < n ==> 0 <= (#[trigger] places[j]) < views.len()
                        && views[places[j]].replier == replier,
                forall|i: int, j: int|
                    0 <= i < j < n ==> #[trigger] places[i] < #[trigger] places[j],
                forall|i: int| start <= i < j ==> flags@[#[trigger] places[i]] == good@[i - start],
                forall|i: int| 0 <= i < start ==> flags@[#[trigger] places[i]] == before[places[i]],
                forall|k: int|
                    0 <= k < items@.len() && (#[trigger] items@[k]).replier != replier ==> flags@[k]
                        == before[k],
            decreases end - j,
        {
            let p: usize = positions[j];
            assert(p == places[j as int]);
            assert(views[p as int] == items@[p as int]@);
            let ghost earlier = flags@;
            flags[p] = good[j - start];
            assert forall|i: int| start <= i < j + 1 implies flags@[#[trigger] places[i]]
                == good@[i - start] by {
                if i < j {
                    assert(places[i] < places[j as int]);
                }
            }
            assert forall|i: int| 0 <= i < start implies flags@[#[trigger] places[i]]
                == before[places[i]] by {
                assert(places[i] < places[j as int]);
            }
            j += 1;
        }
        proof {
            assert forall|i: int| 0 <= i < group.len() implies flags_at(flags@, group)[i]
                == good@[i] by {
                assert(group[i] == places[start + i]);
            }
            assert(flags_at(flags@, group) =~= good@);
            assert forall|g: int| 0 <= g < done + 1 implies #[trigger] group_judged(
                keys@,
                crypto_disabled,
                views,
                flags@,
                replier,
                g,
            ) by {
                if g < done {
                    assert(group_judged(keys@, crypto_disabled, views, before, replier, g));
                    lemma_judged_stays(
                        keys@,
                        crypto_disabled,
                        views,
                        before,
                        flags@,
                        replier,
                        g,
                    );
                }
            }
            done = done + 1;
        }
        start = end;
    }
}

/// Whether `kept` and `bad` are what is left of `frames` under the verdicts
/// `flags`.
pub open spec fn settled(
    frames: Seq<Seq<u8>>,
    known: int,
    kept: Seq<Seq<u8>>,
    bad: nat,
    flags: Seq<bool>,
) -> bool {
    kept == kept_frames(frames, known, flags) && bad == malformed(frames, known) + failures(flags)
}

/// Keep the signed reply entries that verify against their replier's committee
/// key. Returns one frame per input frame, its replier index followed by the
/// tags that verified, and how many entries were bad.
///
/// A trailing partial entry counts as one bad entry, and so does every entry
/// from an unknown replier index.
pub fn verify_entries(frames: &Vec<Vec<u8>>, keys: &Vec<PublicKey>, crypto_disabled: bool) -> (
    outcome: (Vec<Vec<u8>>, u64))
    requires
        entry_count(byte_strings(frames@)) + frames@.len() <= u64::MAX,
    ensures
        exists|flags: Seq<bool>|
            verdicts_ok(
                keys@,
                crypto_disabled,
                all_items(byte_strings(frames@), keys@.len() as int),
                flags,
            ) && #[trigger] settled(
                byte_strings(frames@),
                keys@.len() as int,
                byte_strings(outcome.0@),
                outcome.1 as nat,
                flags,
            ),
{
    let known: usize = keys.len();
    let items = gather_entries(frames, known);
    let flags = check_entries(&items, keys, crypto_disabled);
    let outcome = settle_entries(frames, known, &items, &flags);
    assert(settled(
        byte_strings(frames@),
        keys@.len() as int,
        byte_strings(outcome.0@),
        outcome.1 as nat,
        flags@,
    ));
    outcome
}

/// The tag with the given bytes.
pub open spec fn tag_of(bytes: Seq<u8>) -> Tag {
    choose|tag: Tag| #[trigger] tag@ == bytes
}

/// The tags of a frame, behind its replier index.
pub open spec fn frame_tags(frame: Seq<u8>) -> Seq<Tag> {
    Seq::new(
        ((frame.len() - 1) / 9) as nat,
        |i: int| tag_of(frame.subrange(1 + 9 * i, 10 + 9 * i)),
    )
}

/// The mask of the replier that a frame names.
pub open spec fn replier_bit(frame: Seq<u8>) -> u64 {
    1u64 << ((frame[0] % 64) as u64)
}

/// What the replies of one replier to `tags` make of the table, and the tags
/// whose transactions they complete, in order.
pub open spec fn record_all(
    quorum: nat,
    count: nat,
    table: Map<Tag, Pending>,
    tags: Seq<Tag>,
    bit: u64,
    now: u64,
) -> (Map<Tag, Pending>, Seq<Tag>)
    decreases tags.len(),
{
    if tags.len() == 0 {
        (table, Seq::empty())
    } else {
        let (before, done) = record_all(quorum, count, table, tags.drop_last(), bit, now);
        let (state, complete) = recorded(quorum, count, state_of(before, tags.last()), bit, now);
        (
            with_state(before, tags.last(), state),
            if complete {
                done.push(tags.last())
            } else {
                done
            },
        )
    }
}

/// The transaction ids of the sampled ones among completed transactions.
pub open spec fn sampled_ids(done: Seq<Tag>) -> Seq<u64>
    decreases done.len(),
{
    if done.len() == 0 {
        Seq::empty()
    } else if done.last()@[0] == KIND_SAMPLE {
        sampled_ids(done.drop_last()).push(be_value(done.last()@.subrange(1, 9)) as u64)
    } else {
        sampled_ids(done.drop_last())
    }
}

/// How long a sampled transaction took, in microseconds.
#[derive(Clone, Copy, Debug, PartialEq, Eq, Structural)]
pub struct Latency {
    pub id: u64,
    pub elapsed: u64,
}

/// The samples left when those in `ids` are taken out, each once, and how long
/// those took.
pub open spec fn take_samples(samples: Map<u64, u64>, ids: Seq<u64>, now: u64) -> (
    Map<u64, u64>,
    Seq<Latency>,
)
    decreases ids.len(),
{
    if ids.len() == 0 {
        (samples, Seq::empty())
    } else {
        let (left, timed) = take_samples(samples, ids.drop_last(), now);
        let id = ids.last();
        if left.contains_key(id) {
            let elapsed = if now >= left[id] {
                (now - left[id]) as u64
            } else {
                0
            };
            (left.remove(id), timed.push(Latency { id, elapsed }))
        } else {
            (left, timed)
        }
    }
}

/// Reply-side state shared by every replica's connection.
pub struct Replies {
    /// Replica public keys in committee order, when replies are signed and
    /// must verify before they count.
    pub verify_keys: Option<Vec<PublicKey>>,
    /// Send times of the sampled transactions still awaiting a reply.
    pub samples: SortedMap<u64, u64>,
    pub tracker: ReplyTracker,
    /// Transactions that reached the quorum, each counted once.
    pub completed: u64,
    /// Reply entries received, from every replier.
    pub entries: u64,
    /// Transactions dropped short of the quorum after the timeout.
    pub abandoned: u64,
    /// Signed reply entries that did not verify, and so did not count.
    pub bad_sig: u64,
}

impl Replies {
    /// No replies yet.
    pub fn new(verify_keys: Option<Vec<PublicKey>>, quorum: usize, count: usize) -> (replies: Self)
        ensures
            replies.verify_keys == verify_keys,
            replies.samples@ == Map::<u64, u64>::empty(),
            replies.tracker.table() == Map::<Tag, Pending>::empty(),
            replies.tracker.quorum_spec() == crate::client::tracker::clamped(quorum as int, 1, 64),
            replies.tracker.count_spec() == crate::client::tracker::clamped(
                count as int,
                replies.tracker.quorum_spec() as int,
                64,
            ),
            replies.completed == 0,
            replies.entries == 0,
            replies.abandoned == 0,
            replies.bad_sig == 0,
    {
        Replies {
            verify_keys,
            samples: SortedMap::new(),
            tracker: ReplyTracker::new(quorum, count),
            completed: 0,
            entries: 0,
            abandoned: 0,
            bad_sig: 0,
        }
    }

    /// Notes when a sampled transaction was handed to the sender.
    pub fn sample_sent(&mut self, id: u64, now: u64)
        ensures
            *final(self) == (Replies { samples: final(self).samples, ..*old(self) }),
            final(self).samples@ == old(self).samples@.insert(id, now),
    {
        self.samples.insert(id, now);
    }

    /// Count one frame's entries toward their transactions' quorums; returns
    /// how long the sampled transactions among the completed ones took.
    ///
    /// `frame` is the replier index followed by tags, with any signatures
    /// already stripped.
    pub fn record_frame(&mut self, frame: &[u8], now: u64) -> (timed: Vec<Latency>)
        ensures
            frame@.len() < 1 ==> *final(self) == *old(self) && timed@ == Seq::<Latency>::empty(),
            frame@.len() >= 1 ==> ({
                let (table, done) = record_all(
                    old(self).tracker.quorum_spec(),
                    old(self).tracker.count_spec(),
                    old(self).tracker.table(),
                    frame_tags(frame@),
                    replier_bit(frame@),
                    now,
                );
                let (left, latencies) = take_samples(old(self).samples@, sampled_ids(done), now);
                &&& final(self).tracker.table() == table
                &&& final(self).tracker.quorum_spec() == old(self).tracker.quorum_spec()
                &&& final(self).tracker.count_spec() == old(self).tracker.count_spec()
                &&& final(self).samples@ == left
                &&& timed@ == latencies
                &&& final(self).completed == old(self).completed.wrapping_add(done.len() as u64)
                &&& final(self).entries == old(self).entries.wrapping_add(
                    frame_tags(frame@).len() as u64,
                )
                &&& final(self).abandoned == old(self).abandoned
                &&& final(self).bad_sig == old(self).bad_sig
                &&& final(self).verify_keys == old(self).verify_keys
            }),
    {
        let mut timed: Vec<Latency> = Vec::new();
        if frame.len() < REPLY_HEADER_LEN {
            return timed;
        }
        let bit: u64 = 1u64 << ((frame[0] % 64) as u64);
        let len: usize = frame.len();
        let count: usize = (len - REPLY_HEADER_LEN) / REPLY_ENTRY_LEN;
        let ghost tags = frame_tags(frame@);
        let ghost q = old(self).tracker.quorum_spec();
        let ghost c = old(self).tracker.count_spec();
        let ghost before = old(self).tracker.table();
        let ghost mut done: Seq<Tag> = Seq::empty();
        let mut completed: usize = 0;
        let mut sampled: Vec<u64> = Vec::new();
        let mut i: usize = 0;
        while i < count
            invariant
                i <= count,
                count == (len - 1) / 9,
                len == frame@.len(),
                len >= 1,
                tags == frame_tags(frame@),
                tags.len() == count,
                *self == (Replies { tracker: self.tracker, ..*old(self) }),
                self.tracker.quorum_spec() == q,
                self.tracker.count_spec() == c,
                (self.tracker.table(), done) == record_all(
                    q,
                    c,
                    before,
                    tags.take(i as int),
                    bit,
                    now,
                ),
                completed == done.len(),
                completed <= i,
                sampled@ == sampled_ids(done),
            decreases count - i,
        {
            let start: usize = 1 + REPLY_ENTRY_LEN * i;
            let tag = Tag(array_9(frame, start));
            proof {
                lemma_tag_extensional(tag, tag_of(frame@.subrange(1 + 9 * i, 10 + 9 * i)));
                assert(tags[i as int] == tag);
                assert(tags.take(i + 1).drop_last() =~= tags.take(i as int));
            }
            let complete = self.tracker.record(tag, bit, now);
            if complete {
                completed += 1;
                let ghost earlier = done;
                proof {
                    done = done.push(tag);
                    assert(done.drop_last() =~= earlier);
                }
                if tag.0[0] == KIND_SAMPLE {
                    let id_bytes = copy_range(tag.0.as_slice(), 1, TAG_LEN);
                    sampled.push(u64_from_be(id_bytes.as_slice()));
                }
            }
            i += 1;
        }
        assert(tags.take(count as int) =~= tags);
        self.entries = self.entries.wrapping_add(count as u64);
        self.completed = self.completed.wrapping_add(completed as u64);
        let ghost samples = self.samples@;
        let ghost counted = *self;
        let mut k: usize = 0;
        while k < sampled.len()
            invariant
                k <= sampled@.len(),
                *self == (Replies { samples: self.samples, ..counted }),
                (self.samples@, timed@) == take_samples(samples, sampled@.take(k as int), now),
            decreases sampled@.len() - k,
        {
            assert(sampled@.take(k + 1).drop_last() =~= sampled@.take(k as int));
            // Taken out of the map, so a later reply is not timed again.
            let id = sampled[k];
            if let Some(sent_at) = self.samples.remove(&id) {
                let elapsed: u64 = if now >= sent_at {
                    now - sent_at
                } else {
                    0
                };
                timed.push(Latency { id, elapsed });
            } else {
                assert(self.samples@ =~= take_samples(samples, sampled@.take(k as int), now).0);
            }
            k += 1;
        }
        assert(sampled@.take(sampled@.len() as int) =~= sampled@);
        timed
    }

    /// Drop transactions still waiting on replies after the timeout, so a lost
    /// reply does not hold memory for the run.
    pub fn sweep(&mut self, now: u64)
        ensures
            *final(self) == (Replies {
                tracker: final(self).tracker,
                abandoned: final(self).abandoned,
                ..*old(self)
            }),
            final(self).tracker.table() == old(self).tracker.table().remove_keys(
                expired_tags(old(self).tracker.table(), now),
            ),
            final(self).tracker.quorum_spec() == old(self).tracker.quorum_spec(),
            final(self).tracker.count_spec() == old(self).tracker.count_spec(),
            final(self).abandoned == old(self).abandoned.wrapping_add(
                abandoned_tags(old(self).tracker.table(), now).len() as u64,
            ),
    {
        let abandoned = self.tracker.sweep(now);
        self.abandoned = self.abandoned.wrapping_add(abandoned);
    }

    /// Counts signed reply entries that did not verify.
    pub fn count_bad(&mut self, bad: u64)
        ensures
            *final(self) == (Replies { bad_sig: old(self).bad_sig.wrapping_add(bad), ..*old(self) }),
    {
        self.bad_sig = self.bad_sig.wrapping_add(bad);
    }
}

/// Nine bytes of a frame.
fn array_9(bytes: &[u8], start: usize) -> (array: [u8; 9])
    requires
        start + 9 <= bytes@.len(),
    ensures
        array@ == bytes@.subrange(start as int, start + 9),
{
    let len: usize = bytes.len();
    let mut array: [u8; 9] = [0u8; 9];
    let mut i: usize = 0;
    while i < 9
        invariant
            i <= 9,
            start + 9 <= len,
            len == bytes@.len(),
            forall|j: int| 0 <= j < i ==> array@[j] == bytes@[start + j],
        decreases 9 - i,
    {
        array[i] = bytes[start + i];
        i += 1;
    }
    assert(array@ =~= bytes@.subrange(start as int, start + 9));
    array
}

/// A frame whose tags differ counts once towards each of their transactions, and
/// towards no other. The completed ones are exactly those for which its reply
/// completes the quorum.
pub proof fn law_each_tag_recorded(
    quorum: nat,
    count: nat,
    table: Map<Tag, Pending>,
    tags: Seq<Tag>,
    bit: u64,
    now: u64,
)
    requires
        tags.no_duplicates(),
    ensures
        ({
            let (after, done) = record_all(quorum, count, table, tags, bit, now);
            &&& forall|i: int|
                0 <= i < tags.len() ==> {
                    let (state, complete) = recorded(
                        quorum,
                        count,
                        state_of(table, #[trigger] tags[i]),
                        bit,
                        now,
                    );
                    &&& state_of(after, tags[i]) == state
                    &&& done.contains(tags[i]) <==> complete
                }
            &&& forall|tag: Tag|
                !tags.contains(tag) ==> #[trigger] state_of(after, tag) == state_of(table, tag)
                    && !done.contains(tag)
            &&& done.no_duplicates()
        }),
    decreases tags.len(),
{
    if tags.len() > 0 {
        let front = tags.drop_last();
        let n = tags.len() - 1;
        law_each_tag_recorded(quorum, count, table, front, bit, now);
        let (before, earlier) = record_all(quorum, count, table, front, bit, now);
        let (after, done) = record_all(quorum, count, table, tags, bit, now);
        assert(!front.contains(tags[n])) by {
            if front.contains(tags[n]) {
                let i = choose|i: int| 0 <= i < front.len() && front[i] == tags[n];
                assert(tags[i] == tags[n]);
            }
        }
        assert(state_of(before, tags[n]) == state_of(table, tags[n]));
        let (state, complete) = recorded(quorum, count, state_of(table, tags[n]), bit, now);
        assert forall|tag: Tag| #[trigger] done.contains(tag) <==> earlier.contains(tag) || (
        complete && tag == tags[n]) by {
            if earlier.contains(tag) {
                let i = choose|i: int| 0 <= i < earlier.len() && earlier[i] == tag;
                assert(done[i] == tag);
            }
            if complete && tag == tags[n] {
                assert(done[earlier.len() as int] == tag);
            }
            if done.contains(tag) && !(complete && tag == tags[n]) {
                let i = choose|i: int| 0 <= i < done.len() && done[i] == tag;
                assert(earlier[i] == tag);
            }
        }
        assert forall|i: int| 0 <= i < tags.len() implies ({
            let (state, complete) = recorded(
                quorum,
                count,
                state_of(table, #[trigger] tags[i]),
                bit,
                now,
            );
            &&& state_of(after, tags[i]) == state
            &&& done.contains(tags[i]) <==> complete
        }) by {
            if i < n {
                assert(front[i] == tags[i]);
                assert(tags[i] != tags[n]);
                assert(state_of(after, tags[i]) == state_of(before, tags[i]));
            }
        }
        assert forall|tag: Tag| !tags.contains(tag) implies #[trigger] state_of(after, tag)
            == state_of(table, tag) && !done.contains(tag) by {
            assert(tags[n] != tag);
            if front.contains(tag) {
                let i = choose|i: int| 0 <= i < front.len() && front[i] == tag;
                assert(tags[i] == tag);
            }
            assert(state_of(before, tag) == state_of(table, tag));
        }
    }
}

/// The tags of a frame stand behind the replier index, nine bytes each; a
/// partial one at the end is passed over.
pub proof fn law_frame_tags_in_order(frame: Seq<u8>, i: int)
    requires
        frame.len() >= 1,
        0 <= i,
        10 + 9 * i <= frame.len(),
    ensures
        frame_tags(frame).len() * 9 < frame.len(),
        frame.len() < frame_tags(frame).len() * 9 + 10,
        i < frame_tags(frame).len(),
        frame_tags(frame)[i] == tag_of(frame.subrange(1 + 9 * i, 10 + 9 * i)),
{
}

/// A completed transaction whose kind is that of a sample is taken for one, by
/// its id.
pub proof fn law_samples_recognised(done: Seq<Tag>, i: int)
    requires
        0 <= i < done.len(),
        done[i]@[0] == KIND_SAMPLE,
    ensures
        sampled_ids(done).contains(be_value(done[i]@.subrange(1, 9)) as u64),
    decreases done.len(),
{
    let front = done.drop_last();
    let ids = sampled_ids(done);
    let earlier = sampled_ids(front);
    let id = be_value(done[i]@.subrange(1, 9)) as u64;
    if i < front.len() {
        law_samples_recognised(front, i);
        let k = choose|k: int| 0 <= k < earlier.len() && earlier[k] == id;
        assert(ids[k] == id);
    } else {
        assert(ids[earlier.len() as int] == id);
    }
}

/// Nothing else is taken for a sample.
pub proof fn law_only_samples_recognised(done: Seq<Tag>, id: u64)
    requires
        sampled_ids(done).contains(id),
    ensures
        exists|i: int|
            0 <= i < done.len() && (#[trigger] done[i])@[0] == KIND_SAMPLE && be_value(
                done[i]@.subrange(1, 9),
            ) as u64 == id,
    decreases done.len(),
{
    let front = done.drop_last();
    let ids = sampled_ids(done);
    let earlier = sampled_ids(front);
    let k = choose|k: int| 0 <= k < ids.len() && ids[k] == id;
    if k < earlier.len() {
        assert(earlier[k] == id);
        law_only_samples_recognised(front, id);
        let i = choose|i: int|
            0 <= i < front.len() && (#[trigger] front[i])@[0] == KIND_SAMPLE && be_value(
                front[i]@.subrange(1, 9),
            ) as u64 == id;
        assert(done[i] == front[i]);
    } else {
        assert(done[done.len() - 1]@[0] == KIND_SAMPLE);
    }
}

/// Every sample that completes is timed once, from when it was sent, and is then
/// no longer awaited; all others stay as they are.
pub proof fn law_samples_timed_once(samples: Map<u64, u64>, ids: Seq<u64>, now: u64)
    ensures
        ({
            let (left, timed) = take_samples(samples, ids, now);
            &&& forall|id: u64| #[trigger]
                left.contains_key(id) <==> samples.contains_key(id) && !ids.contains(id)
            &&& forall|id: u64| #[trigger] left.contains_key(id) ==> left[id] == samples[id]
            &&& forall|k: int|
                0 <= k < timed.len() ==> {
                    let latency = #[trigger] timed[k];
                    &&& ids.contains(latency.id)
                    &&& samples.contains_key(latency.id)
                    &&& now >= samples[latency.id] ==> latency.elapsed == now
                        - samples[latency.id]
                    &&& now < samples[latency.id] ==> latency.elapsed == 0
                }
            &&& forall|id: u64|
                samples.contains_key(id) && #[trigger] ids.contains(id) ==> exists|k: int|
                    0 <= k < timed.len() && (#[trigger] timed[k]).id == id
            &&& forall|j: int, k: int|
                0 <= j < k < timed.len() ==> (#[trigger] timed[j]).id != (#[trigger] timed[k]).id
        }),
    decreases ids.len(),
{
    if ids.len() > 0 {
        let front = ids.drop_last();
        let n = ids.len() - 1;
        let id = ids[n];
        law_samples_timed_once(samples, front, now);
        let (left1, timed1) = take_samples(samples, front, now);
        let (left, timed) = take_samples(samples, ids, now);
        assert forall|other: u64| #[trigger] ids.contains(other) <==> front.contains(other)
            || other == id by {
            if front.contains(other) {
                let i = choose|i: int| 0 <= i < front.len() && front[i] == other;
                assert(ids[i] == other);
            }
            if other == id {
                assert(ids[n] == other);
            }
            if ids.contains(other) && other != id {
                let i = choose|i: int| 0 <= i < ids.len() && ids[i] == other;
                assert(front[i] == other);
            }
        }
        assert forall|k: int| 0 <= k < timed.len() implies ({
            let latency = #[trigger] timed[k];
            &&& ids.contains(latency.id)
            &&& samples.contains_key(latency.id)
            &&& now >= samples[latency.id] ==> latency.elapsed == now - samples[latency.id]
            &&& now < samples[latency.id] ==> latency.elapsed == 0
        }) by {
            if k < timed1.len() {
                assert(timed[k] == timed1[k]);
                assert(front.contains(timed1[k].id));
            }
        }
        assert forall|other: u64|
            samples.contains_key(other) && #[trigger] ids.contains(other) implies exists|k: int|
            0 <= k < timed.len() && (#[trigger] timed[k]).id == other by {
            if front.contains(other) {
                let k = choose|k: int| 0 <= k < timed1.len() && (#[trigger] timed1[k]).id == other;
                assert(timed[k].id == other);
            } else {
                assert(left1.contains_key(other));
                assert(timed[timed1.len() as int].id == other);
            }
        }
        assert forall|j: int, k: int| 0 <= j < k < timed.len() implies (#[trigger] timed[j]).id
            != (#[trigger] timed[k]).id by {
            assert(timed[j] == timed1[j]);
            if k < timed1.len() {
                assert(timed[k] == timed1[k]);
            } else {
                assert(front.contains(timed1[j].id));
            }
        }
    }
}

proof fn lemma_every_place(items: Seq<ItemView>, i: int)
    requires
        0 <= i < items.len(),
    ensures
        places_of(items, items[i].replier).contains(i),
    decreases items.len(),
{
    let front = items.drop_last();
    let replier = items[i].replier;
    let places = places_of(items, replier);
    let earlier = places_of(front, replier);
    if i < front.len() {
        lemma_every_place(front, i);
        assert(front[i] == items[i]);
        let j = choose|j: int| 0 <= j < earlier.len() && earlier[j] == i;
        assert(places[j] == i);
    } else {
        assert(places[earlier.len() as int] == i);
    }
}

/// Every entry of a known replier is checked, in some group of its replier.
pub proof fn law_every_entry_judged(
    keys: Seq<PublicKey>,
    crypto_disabled: bool,
    items: Seq<ItemView>,
    flags: Seq<bool>,
    i: int,
)
    requires
        verdicts_ok(keys, crypto_disabled, items, flags),
        0 <= i < items.len(),
        items[i].replier < keys.len(),
    ensures
        exists|g: int, j: int|
            #![trigger group_of(places_of(items, items[i].replier), g)[j]]
            {
                let group = group_of(places_of(items, items[i].replier), g);
                &&& 0 <= j < group.len()
                &&& group[j] == i
                &&& reply_verdict(
                    keys[items[i].replier as int],
                    items[i].replier,
                    entries_at(items, group),
                    crypto_disabled,
                    flags_at(flags, group),
                )
            },
        crypto_disabled ==> flags[i],
{
    let replier = items[i].replier;
    let places = places_of(items, replier);
    lemma_every_place(items, i);
    let p = choose|p: int| 0 <= p < places.len() && places[p] == i;
    let g = p / 256;
    let j = p % 256;
    let group = group_of(places, g);
    assert(group_judged(keys, crypto_disabled, items, flags, replier, g));
    assert(group[j] == i);
    if crypto_disabled {
        assert(flags_at(flags, group)[j] == flags[i]);
    }
}

/// How many entries of frame `owner` passed.
pub open spec fn passed(items: Seq<ItemView>, flags: Seq<bool>, owner: int) -> nat
    decreases items.len(),
{
    if items.len() == 0 {
        0
    } else {
        passed(items.drop_last(), flags, owner) + (if items.last().owner == owner
            && flags[items.len() - 1] {
            1nat
        } else {
            0nat
        })
    }
}

/// Of each frame exactly the tags of the entries that passed are kept, nine bytes
/// each and in order.
pub proof fn law_passed_tags_kept(
    items: Seq<ItemView>,
    flags: Seq<bool>,
    owner: int,
    k: int,
)
    requires
        0 <= k < items.len(),
        forall|j: int| 0 <= j < items.len() ==> (#[trigger] items[j]).entry.len() == 73,
    ensures
        ({
            let tags = kept_tags(items, flags, owner);
            let before = passed(items.take(k), flags, owner) as int;
            &&& tags.len() == 9 * passed(items, flags, owner)
            &&& items[k].owner == owner && flags[k] ==> {
                &&& 9 * before + 9 <= tags.len()
                &&& tags.subrange(9 * before, 9 * before + 9) == items[k].entry.take(9)
            }
        }),
    decreases items.len(),
{
    let front = items.drop_last();
    let n = items.len() - 1;
    let tags = kept_tags(items, flags, owner);
    let earlier = kept_tags(front, flags, owner);
    let before = passed(items.take(k), flags, owner) as int;
    assert forall|j: int| 0 <= j < front.len() implies (#[trigger] front[j]).entry.len() == 73 by {
        assert(front[j] == items[j]);
    }
    assert(items[n].entry.len() == 73);
    if front.len() > 0 {
        let j = if k < n {
            k
        } else {
            0
        };
        law_passed_tags_kept(front, flags, owner, j);
    }
    assert(earlier.len() == 9 * passed(front, flags, owner));
    if items[k].owner == owner && flags[k] {
        if k < n {
            assert(front.take(k) =~= items.take(k));
            assert(front[k] == items[k]);
            assert(tags.subrange(9 * before, 9 * before + 9) =~= earlier.subrange(
                9 * before,
                9 * before + 9,
            ));
        } else {
            assert(items.take(k) =~= front);
            assert(tags.subrange(9 * before, 9 * before + 9) =~= items[k].entry.take(9));
        }
    }
}

/// Every whole entry of a frame of a known replier is looked at, as that
/// replier's.
pub proof fn law_whole_entries_gathered(frames: Seq<Seq<u8>>, known: int, i: int, j: int)
    requires
        0 <= i < frames.len(),
        frames[i].len() >= 1,
        frames[i][0] < known,
        0 <= j,
        74 + 73 * j <= frames[i].len(),
    ensures
        all_items(frames, known).contains(
            ItemView {
                owner: i,
                replier: frames[i][0],
                entry: frames[i].subrange(1 + 73 * j, 74 + 73 * j),
            },
        ),
    decreases frames.len(),
{
    let front = frames.drop_last();
    let item = ItemView {
        owner: i,
        replier: frames[i][0],
        entry: frames[i].subrange(1 + 73 * j, 74 + 73 * j),
    };
    let all = all_items(frames, known);
    let earlier = all_items(front, known);
    if i < front.len() {
        law_whole_entries_gathered(front, known, i, j);
        let k = choose|k: int| 0 <= k < earlier.len() && earlier[k] == item;
        assert(all[k] == item);
    } else {
        assert(j < whole_entries(frames[i]));
        assert(all[earlier.len() + j] == item);
    }
}

/// A frame keeps its place and its replier index; what is left out is counted as
/// bad: entries that failed, entries of unknown repliers and partial ones.
pub proof fn law_bad_entries_counted(
    frames: Seq<Seq<u8>>,
    known: int,
    kept: Seq<Seq<u8>>,
    bad: nat,
    flags: Seq<bool>,
    i: int,
)
    requires
        settled(frames, known, kept, bad, flags),
        0 <= i < frames.len(),
    ensures
        kept.len() == frames.len(),
        frames[i].len() == 0 ==> kept[i].len() == 0,
        frames[i].len() > 0 ==> kept[i].len() > 0 && kept[i][0] == frames[i][0] && kept[i].skip(1)
            == kept_tags(all_items(frames, known), flags, i),
        (forall|j: int| 0 <= j < flags.len() ==> #[trigger] flags[j]) && (forall|j: int|
            0 <= j < frames.len() && (#[trigger] frames[j]).len() > 0 ==> frames[j][0] < known && (
            frames[j].len() - 1) % 73 == 0) ==> bad == 0,
        (exists|j: int| 0 <= j < flags.len() && !(#[trigger] flags[j])) ==> bad > 0,
        frames[i].len() > 0 && (frames[i].len() - 1) % 73 != 0 ==> bad > 0,
        frames[i].len() >= 74 && frames[i][0] >= known ==> bad > 0,
{
    lemma_failures_found(flags);
    lemma_malformed_found(frames, known, i);
    if frames[i].len() > 0 {
        assert(kept[i].skip(1) =~= kept_tags(all_items(frames, known), flags, i));
    }
}

proof fn lemma_failures_found(flags: Seq<bool>)
    ensures
        failures(flags) == 0 <==> forall|j: int| 0 <= j < flags.len() ==> #[trigger] flags[j],
    decreases flags.len(),
{
    if flags.len() > 0 {
        let front = flags.drop_last();
        let n = flags.len() - 1;
        lemma_failures_found(front);
        if forall|j: int| 0 <= j < flags.len() ==> #[trigger] flags[j] {
            assert forall|j: int| 0 <= j < front.len() implies #[trigger] front[j] by {
                assert(flags[j]);
            }
            assert(flags[n]);
        }
        if failures(flags) == 0 {
            assert forall|j: int| 0 <= j < flags.len() implies #[trigger] flags[j] by {
                if j < n {
                    assert(front[j]);
                }
            }
        }
    }
}

proof fn lemma_malformed_found(frames: Seq<Seq<u8>>, known: int, i: int)
    requires
        0 <= i < frames.len(),
    ensures
        malformed(frames, known) >= malformed_in(frames[i], known),
        (forall|j: int|
            0 <= j < frames.len() && (#[trigger] frames[j]).len() > 0 ==> frames[j][0] < known && (
            frames[j].len() - 1) % 73 == 0) ==> malformed(frames, known) == 0,
    decreases frames.len(),
{
    let front = frames.drop_last();
    let n = frames.len() - 1;
    if front.len() > 0 {
        let j = if i < n {
            i
        } else {
            0
        };
        lemma_malformed_found(front, known, j);
        if i < n {
            assert(front[i] == frames[i]);
        }
    } else {
        assert(malformed(front, known) == 0);
    }
    if forall|j: int|
        0 <= j < frames.len() && (#[trigger] frames[j]).len() > 0 ==> frames[j][0] < known && (
        frames[j].len() - 1) % 73 == 0 {
        assert forall|j: int| 0 <= j < front.len() && (#[trigger] front[j]).len() > 0 implies
            front[j][0] < known && (front[j].len() - 1) % 73 == 0 by {
            assert(front[j] == frames[j]);
        }
        assert(frames[n].len() > 0 ==> frames[n][0] < known && (frames[n].len() - 1) % 73 == 0);
    }
}

} // verus!
