//! Answers the clients whose requests just committed.
//!
//! A committed header names its batches by digest only. The replica is told
//! which digests committed and who authored them, decides whether it is one of
//! the repliers, reads the batches back, and answers each client with one
//! frame per batch.

use crate::bytes::{append_bytes, copy_range};
use crate::collections::SortedMap;
use crate::config::{key_order, Committee, SocketAddress};
use crate::crypto::{byte_strings, Digest, PublicKey, Signer};
use crate::worker::client_reply::{
    decode_reply_addr, reply_address, sign_reply_entries, signed_entries, MAX_REPLIERS, TAG_LEN,
};
use std::collections::VecDeque;
use vstd::prelude::*;

verus! {

/// Committed batch digests remembered so a redelivered commit does not make
/// us answer every one of its requests a second time.
pub const RECENT_BATCHES: usize = 100_000;

/// How often the reply count is reported.
pub const LOG_EVERY: u64 = 100_000;

/// A reply frame and the client it goes to.
pub struct ReplyFrame {
    pub address: SocketAddress,
    pub bytes: Vec<u8>,
}

/// A reply frame as a value.
pub type FrameView = (SocketAddress, Seq<u8>);

/// The frames as values.
pub open spec fn frame_views(frames: Seq<ReplyFrame>) -> Seq<FrameView> {
    Seq::new(frames.len(), |i: int| (frames[i].address, frames[i].bytes@))
}

/// How many transactions of `batch` ask for a reply.
pub open spec fn requests(batch: Seq<Seq<u8>>) -> nat
    decreases batch.len(),
{
    if batch.len() == 0 {
        0
    } else {
        requests(batch.drop_last()) + (if reply_address(batch.last()) is Some {
            1nat
        } else {
            0nat
        })
    }
}

/// The clients that asked for a reply, in the order of their first request.
pub open spec fn clients(batch: Seq<Seq<u8>>) -> Seq<SocketAddress>
    decreases batch.len(),
{
    if batch.len() == 0 {
        Seq::empty()
    } else {
        let earlier = clients(batch.drop_last());
        match reply_address(batch.last()) {
            Some(address) => if earlier.contains(address) {
                earlier
            } else {
                earlier.push(address)
            },
            None => earlier,
        }
    }
}

/// The tags of the requests of one client, in batch order.
pub open spec fn tags_for(batch: Seq<Seq<u8>>, address: SocketAddress) -> Seq<u8>
    decreases batch.len(),
{
    if batch.len() == 0 {
        Seq::empty()
    } else if reply_address(batch.last()) == Some(address) {
        tags_for(batch.drop_last(), address) + batch.last().take(9)
    } else {
        tags_for(batch.drop_last(), address)
    }
}

/// How many requests of `batch` come from one client.
pub open spec fn requests_from(batch: Seq<Seq<u8>>, address: SocketAddress) -> nat
    decreases batch.len(),
{
    if batch.len() == 0 {
        0
    } else {
        requests_from(batch.drop_last(), address) + (if reply_address(batch.last()) == Some(
            address,
        ) {
            1nat
        } else {
            0nat
        })
    }
}

/// The frames that answer `batch`, unsigned: one per client, holding the
/// replier's index and then the tags of the client's requests.
pub open spec fn unsigned_frames(replier: u8, batch: Seq<Seq<u8>>) -> Seq<FrameView> {
    Seq::new(
        clients(batch).len(),
        |i: int| (clients(batch)[i], seq![replier] + tags_for(batch, clients(batch)[i])),
    )
}

/// An unsigned frame with a signature behind each of its tags.
pub open spec fn signed_frame(
    disabled: bool,
    keypair: Seq<u8>,
    replier: u8,
    frame: FrameView,
) -> FrameView {
    let tags = frame.1.skip(1);
    (
        frame.0,
        seq![replier] + signed_entries(disabled, keypair, replier, tags, tags.len() / 9),
    )
}

/// The frames with a signature behind each tag.
pub open spec fn signed_frames(
    disabled: bool,
    keypair: Seq<u8>,
    replier: u8,
    frames: Seq<FrameView>,
) -> Seq<FrameView> {
    Seq::new(frames.len(), |i: int| signed_frame(disabled, keypair, replier, frames[i]))
}

/// Every client is answered once, in one frame that holds a whole tag for each
/// of its requests.
pub proof fn lemma_one_frame_per_client(replier: u8, batch: Seq<Seq<u8>>)
    ensures
        clients(batch).no_duplicates(),
        forall|address: SocketAddress| #[trigger]
            clients(batch).contains(address) <==> requests_from(batch, address) > 0,
        forall|address: SocketAddress|
            (#[trigger] tags_for(batch, address)).len() == 9 * requests_from(batch, address),
    decreases batch.len(),
{
    if batch.len() > 0 {
        lemma_one_frame_per_client(replier, batch.drop_last());
        let earlier = clients(batch.drop_last());
        assert forall|address: SocketAddress|
            (#[trigger] tags_for(batch, address)).len() == 9 * requests_from(batch, address) by {
            assert(tags_for(batch.drop_last(), address).len() == 9 * requests_from(
                batch.drop_last(),
                address,
            ));
        }
        match reply_address(batch.last()) {
            Some(address) => {
                if !earlier.contains(address) {
                    assert(earlier.push(address).last() == address);
                }
                assert forall|other: SocketAddress| #[trigger]
                    clients(batch).contains(other) <==> requests_from(batch, other) > 0 by {
                    if earlier.contains(other) {
                        let i = choose|i: int| 0 <= i < earlier.len() && earlier[i] == other;
                        assert(clients(batch)[i] == other);
                    }
                    if clients(batch).contains(other) && other != address {
                        let i = choose|i: int|
                            0 <= i < clients(batch).len() && clients(batch)[i] == other;
                        assert(earlier[i] == other);
                    }
                    if other == address && !earlier.contains(address) {
                        assert(clients(batch)[earlier.len() as int] == other);
                    }
                }
            },
            None => {},
        }
    }
}

/// What the replica remembers between commits.
pub struct ClientReplier {
    /// Our position in committee order, used to decide which batches we answer.
    our_index: usize,
    /// Committee order.
    order: Vec<PublicKey>,
    /// How many replicas reply per batch.
    reply_count: usize,
    /// Signs each reply with our key; `None` sends replies unsigned.
    signer: Option<Signer>,
    /// Batches already answered.
    answered: SortedMap<Digest, ()>,
    /// The same batches, most recent last.
    answered_order: VecDeque<Digest>,
    /// Replies sent, and the next count at which to report it.
    sent: u64,
    next_log: u64,
}

/// What answering one batch produces.
pub struct Replies {
    /// The frames to send.
    pub frames: Vec<ReplyFrame>,
    /// The total number of replies so far, when it is time to report it.
    pub report: Option<u64>,
}

/// The first position of `name` in `order`.
pub open spec fn index_in(order: Seq<PublicKey>, name: PublicKey) -> int {
    choose|i: int| #[trigger] is_first(order, name, i)
}

/// Whether `name` stands at position `i` of `order` and nowhere before.
pub open spec fn is_first(order: Seq<PublicKey>, name: PublicKey, i: int) -> bool {
    &&& 0 <= i < order.len()
    &&& order[i] == name
    &&& forall|j: int| 0 <= j < i ==> order[j] != name
}

/// Whether the replica at `index` answers batches of the replica at
/// `author_index`, with `reply_count` repliers out of `n`.
pub open spec fn is_replier(n: int, reply_count: int, author_index: int, index: int) -> bool {
    (index + n - author_index) % n < reply_count
}

/// The positions of the replicas that answer batches of the replica at
/// `author_index`.
pub open spec fn repliers(n: int, reply_count: int, author_index: int) -> Set<int> {
    Set::new(|index: int| 0 <= index < n && is_replier(n, reply_count, author_index, index))
}

/// Every batch is answered by exactly as many replicas as configured, the
/// author among them if there is any; by all of them when more are asked for
/// than there are.
pub proof fn lemma_replier_count(n: int, reply_count: int, author_index: int)
    requires
        0 <= author_index < n,
        0 <= reply_count,
    ensures
        repliers(n, reply_count, author_index).finite(),
        repliers(n, reply_count, author_index).len() == (if reply_count < n {
            reply_count
        } else {
            n
        }),
        reply_count > 0 ==> repliers(n, reply_count, author_index).contains(author_index),
{
    let count = if reply_count < n { reply_count } else { n };
    let offsets = vstd::set_lib::set_int_range(0, count);
    vstd::set_lib::lemma_int_range(0, count);
    let f = |k: int| if author_index + k < n { author_index + k } else { author_index + k - n };
    assert(vstd::relations::injective_on(f, offsets));
    let all = repliers(n, reply_count, author_index);
    assert forall|index: int| all.contains(index) <==> offsets.map(f).contains(index) by {
        let k = if index >= author_index { index - author_index } else { index + n - author_index };
        if 0 <= index < n {
            assert((index + n - author_index) % n == k) by {
                if index >= author_index {
                    vstd::arithmetic::div_mod::lemma_mod_add_multiples_vanish(k, n);
                } else {
                    vstd::arithmetic::div_mod::lemma_small_mod(k as nat, n as nat);
                }
                if index >= author_index {
                    vstd::arithmetic::div_mod::lemma_small_mod(k as nat, n as nat);
                }
            }
            if all.contains(index) {
                assert(offsets.contains(k) && f(k) == index);
            }
        }
        if offsets.map(f).contains(index) {
            let j = choose|j: int| offsets.contains(j) && f(j) == index;
            assert(j == k);
        }
    }
    assert(all =~= offsets.map(f));
    vstd::set_lib::lemma_map_size(offsets, all, f);
    if reply_count > 0 {
        assert((author_index + n - author_index) % n == 0) by {
            vstd::arithmetic::div_mod::lemma_mod_self_0(n);
        }
    }
}

/// A batch that is remembered is not answered again.
pub proof fn lemma_answered_once(recent: Seq<Digest>, digest: Digest)
    ensures
        remembered(recent, digest).contains(digest),
        remembered(remembered(recent, digest), digest) == remembered(recent, digest),
        recent.len() <= RECENT_BATCHES ==> remembered(recent, digest).len() <= RECENT_BATCHES,
{
    if !recent.contains(digest) {
        let longer = recent.push(digest);
        assert(longer[recent.len() as int] == digest);
        if recent.len() + 1 > RECENT_BATCHES {
            assert(longer.drop_first()[recent.len() - 1] == digest);
        }
    }
}

impl ClientReplier {
    /// What holds of every replier: its index is one of a committee that
    /// clients can tell apart, and the memory of answered batches lists each
    /// batch once and is bounded.
    pub closed spec fn wf(&self) -> bool {
        &&& 0 <= self.our_index < self.order@.len() <= MAX_REPLIERS
        &&& self.answered@.dom() == self.answered_order@.to_set()
        &&& self.answered_order@.no_duplicates()
        &&& self.answered_order@.len() <= RECENT_BATCHES
    }

    /// Our position in committee order.
    pub closed spec fn index(&self) -> int {
        self.our_index as int
    }

    /// The committee order.
    pub closed spec fn committee_order(&self) -> Seq<PublicKey> {
        self.order@
    }

    /// How many replicas reply per batch.
    pub closed spec fn count(&self) -> int {
        self.reply_count as int
    }

    /// The batches answered recently, most recent last.
    pub closed spec fn recent(&self) -> Seq<Digest> {
        self.answered_order@
    }

    /// Replies sent.
    pub closed spec fn replies(&self) -> int {
        self.sent as int
    }

    /// The count at which the number of replies is reported next.
    pub closed spec fn next_report(&self) -> int {
        self.next_log as int
    }

    /// The signer, when replies are signed.
    pub closed spec fn signing(&self) -> Option<Signer> {
        self.signer
    }

    /// Whether nothing but the memory of answered batches differs.
    pub open spec fn same_but_recent(&self, other: &Self) -> bool {
        &&& self.index() == other.index()
        &&& self.committee_order() == other.committee_order()
        &&& self.count() == other.count()
        &&& self.replies() == other.replies()
        &&& self.next_report() == other.next_report()
        &&& self.signing() == other.signing()
    }

    /// A replier for `name`, a member of a committee of at most MAX_REPLIERS.
    pub fn new(
        name: PublicKey,
        committee: &Committee,
        reply_count: usize,
        signer: Option<Signer>,
    ) -> (replier: Self)
        requires
            committee.pairs().len() <= MAX_REPLIERS,
            key_order(committee.pairs()).contains(name),
        ensures
            replier.wf(),
            replier.committee_order() == key_order(committee.pairs()),
            replier.index() == index_in(replier.committee_order(), name),
            replier.count() == reply_count,
            replier.recent() == Seq::<Digest>::empty(),
            replier.replies() == 0,
            replier.next_report() == LOG_EVERY,
            replier.signing() == signer,
    {
        let order = committee.keys();
        let our_index = match position(&order, &name) {
            Some(index) => index,
            None => 0,
        };
        let answered: SortedMap<Digest, ()> = SortedMap::new();
        let answered_order: VecDeque<Digest> = VecDeque::new();
        assert(answered@.dom() =~= answered_order@.to_set());
        ClientReplier {
            our_index,
            order,
            reply_count,
            signer,
            answered,
            answered_order,
            sent: 0,
            next_log: LOG_EVERY,
        }
    }

    /// Whether this replica replies for batches authored by `author`.
    ///
    /// The repliers are the `reply_count` replicas starting at the author, in
    /// committee order. With `reply_count = 1` that is the author itself;
    /// raising it draws a different set per batch.
    pub fn participates(&self, author: &PublicKey) -> (answer: bool)
        requires
            self.wf(),
        ensures
            answer == (self.count() >= self.committee_order().len() || (
            self.committee_order().contains(*author) && is_replier(
                self.committee_order().len() as int,
                self.count(),
                index_in(self.committee_order(), *author),
                self.index(),
            ))),
    {
        let n: usize = self.order.len();
        if self.reply_count >= n {
            return true;
        }
        match position(&self.order, author) {
            Some(author_index) => (self.our_index + n - author_index) % n < self.reply_count,
            None => false,
        }
    }

    /// Remember a batch as answered; returns false if it already was. The
    /// oldest batch is forgotten when there are too many.
    pub fn mark_answered(&mut self, digest: &Digest) -> (fresh: bool)
        requires
            old(self).wf(),
        ensures
            final(self).wf(),
            fresh == !old(self).recent().contains(*digest),
            final(self).recent() == remembered(old(self).recent(), *digest),
            final(self).same_but_recent(old(self)),
    {
        let ghost before = self.answered_order@;
        assert(self.answered@.dom().contains(*digest) == before.contains(*digest));
        if self.answered.contains_key(digest) {
            return false;
        }
        self.answered.insert(*digest, ());
        self.answered_order.push_back(*digest);
        assert(self.answered_order@ =~= before.push(*digest));
        assert(self.answered_order@.no_duplicates());
        assert(self.answered@.dom() =~= self.answered_order@.to_set()) by {
            assert forall|d: Digest| self.answered_order@.to_set().contains(d) <==> (
            before.to_set().contains(d) || d == *digest) by {
                if before.contains(d) {
                    let i = choose|i: int| 0 <= i < before.len() && before[i] == d;
                    assert(self.answered_order@[i] == d);
                }
                if d == *digest {
                    assert(self.answered_order@[before.len() as int] == d);
                }
                if self.answered_order@.contains(d) && d != *digest {
                    let i = choose|i: int|
                        0 <= i < self.answered_order@.len() && self.answered_order@[i] == d;
                    assert(before[i] == d);
                }
            }
        }
        if self.answered_order.len() > RECENT_BATCHES {
            let ghost full = self.answered_order@;
            if let Some(oldest) = self.answered_order.pop_front() {
                self.answered.remove(&oldest);
                assert(self.answered_order@ =~= full.drop_first());
                assert(self.answered@.dom() =~= self.answered_order@.to_set()) by {
                    assert forall|d: Digest| self.answered_order@.to_set().contains(d) <==> (
                    full.to_set().contains(d) && d != oldest) by {
                        if self.answered_order@.contains(d) {
                            let i = choose|i: int|
                                0 <= i < self.answered_order@.len() && self.answered_order@[i] == d;
                            assert(full[i + 1] == d);
                        }
                        if full.contains(d) && d != oldest {
                            let i = choose|i: int| 0 <= i < full.len() && full[i] == d;
                            assert(self.answered_order@[i - 1] == d);
                        }
                    }
                }
            }
        }
        true
    }

    /// Takes note of committed batches by `author`; returns those that this
    /// replica has to answer now, in order.
    pub fn committed(&mut self, digests: &Vec<Digest>, author: &PublicKey) -> (due: Vec<Digest>)
        requires
            old(self).wf(),
        ensures
            final(self).wf(),
            final(self).same_but_recent(old(self)),
            ({
                let answers = old(self).count() >= old(self).committee_order().len() || (
                old(self).committee_order().contains(*author) && is_replier(
                    old(self).committee_order().len() as int,
                    old(self).count(),
                    index_in(old(self).committee_order(), *author),
                    old(self).index(),
                ));
                if answers {
                    (due@, final(self).recent()) == fresh_batches(old(self).recent(), digests@)
                } else {
                    due@ == Seq::<Digest>::empty() && final(self).recent() == old(self).recent()
                }
            }),
    {
        let mut due: Vec<Digest> = Vec::new();
        if !self.participates(author) {
            return due;
        }
        let mut i: usize = 0;
        while i < digests.len()
            invariant
                i <= digests@.len(),
                self.wf(),
                self.same_but_recent(old(self)),
                (due@, self.recent()) == fresh_batches(old(self).recent(), digests@.take(i as int)),
            decreases digests@.len() - i,
        {
            assert(digests@.take(i + 1).drop_last() =~= digests@.take(i as int));
            if self.mark_answered(&digests[i]) {
                due.push(digests[i]);
            }
            i += 1;
        }
        assert(digests@.take(digests@.len() as int) =~= digests@);
        due
    }

    /// The replies to the transactions of one committed batch.
    ///
    /// One frame per client per batch: requests are what is answered, batches
    /// are what is sent.
    pub fn reply_for_batch(&mut self, batch: &[Vec<u8>]) -> (replies: Replies)
        requires
            old(self).wf(),
            old(self).replies() + batch@.len() + LOG_EVERY <= u64::MAX,
        ensures
            final(self).wf(),
            final(self).index() == old(self).index(),
            final(self).committee_order() == old(self).committee_order(),
            final(self).count() == old(self).count(),
            final(self).recent() == old(self).recent(),
            final(self).signing() == old(self).signing(),
            frame_views(replies.frames@) == ({
                let frames = unsigned_frames(old(self).index() as u8, byte_strings(batch@));
                match old(self).signing() {
                    Some(signer) => signed_frames(
                        signer.disabled(),
                        signer.keypair(),
                        old(self).index() as u8,
                        frames,
                    ),
                    None => frames,
                }
            }),
            final(self).replies() == old(self).replies() + requests(byte_strings(batch@)),
            ({
                let due = final(self).replies() >= old(self).next_report();
                &&& replies.report == (if due { Some(final(self).replies() as u64) } else { None })
                &&& final(self).next_report() == (if due {
                    final(self).replies() + LOG_EVERY
                } else {
                    old(self).next_report()
                })
            }),
    {
        let replier: u8 = self.our_index as u8;
        let ghost strings = byte_strings(batch@);
        let mut frames: Vec<ReplyFrame> = Vec::new();
        let mut i: usize = 0;
        assert(frame_views(frames@) =~= unsigned_frames(replier, strings.take(0)));
        while i < batch.len()
            invariant
                i <= batch@.len(),
                strings == byte_strings(batch@),
                old(self).replies() + batch@.len() + LOG_EVERY <= u64::MAX,
                *self == (ClientReplier { sent: self.sent, ..*old(self) }),
                self.sent == old(self).sent + requests(strings.take(i as int)),
                requests(strings.take(i as int)) <= i,
                frame_views(frames@) == unsigned_frames(replier, strings.take(i as int)),
            decreases batch@.len() - i,
        {
            let tx = batch[i].as_slice();
            assert(strings.take(i + 1).drop_last() =~= strings.take(i as int));
            assert(strings.take(i + 1).last() == tx@);
            if let Some(address) = decode_reply_addr(tx) {
                let tag = copy_range(tx, 0, TAG_LEN);
                assert(tag@ =~= tx@.take(9));
                add_to_frame(&mut frames, replier, address, &tag, Ghost(strings.take(i as int)), Ghost(tx@));
                assert(strings.take(i as int).push(tx@) =~= strings.take(i + 1));
                self.sent = self.sent + 1;
            } else {
                proof {
                    lemma_no_request(replier, strings.take(i as int), tx@);
                    assert(strings.take(i as int).push(tx@) =~= strings.take(i + 1));
                }
            }
            i += 1;
        }
        assert(strings.take(batch@.len() as int) =~= strings);
        assert forall|j: int| 0 <= j < frames@.len() implies (#[trigger] frames@[j]).bytes@.len()
            >= 1 by {
            assert(frame_views(frames@)[j].1.len() >= 1);
        }
        let frames = match &self.signer {
            Some(signer) => sign_replies(signer, replier, frames),
            None => frames,
        };
        let mut report: Option<u64> = None;
        if self.sent >= self.next_log {
            report = Some(self.sent);
            self.next_log = self.sent + LOG_EVERY;
        }
        Replies { frames, report }
    }
}

/// A transaction that asks for no reply changes no frame.
proof fn lemma_no_request(replier: u8, batch: Seq<Seq<u8>>, tx: Seq<u8>)
    requires
        reply_address(tx) is None,
    ensures
        unsigned_frames(replier, batch.push(tx)) == unsigned_frames(replier, batch),
{
    assert(batch.push(tx).drop_last() =~= batch);
    assert(unsigned_frames(replier, batch.push(tx)) =~= unsigned_frames(replier, batch));
}

/// The frame that goes to `address`.
fn find_frame(frames: &Vec<ReplyFrame>, address: SocketAddress) -> (found: Option<usize>)
    ensures
        found matches Some(i) ==> i < frames@.len() && frames@[i as int].address == address,
        found is None ==> forall|j: int|
            0 <= j < frames@.len() ==> (#[trigger] frames@[j]).address != address,
{
    let mut i: usize = 0;
    while i < frames.len()
        invariant
            i <= frames@.len(),
            forall|j: int| 0 <= j < i ==> (#[trigger] frames@[j]).address != address,
        decreases frames@.len() - i,
    {
        if frames[i].address == address {
            return Some(i);
        }
        i += 1;
    }
    None
}

/// Adds a tag to the frame of its client, or opens a new frame for it.
fn add_to_frame(
    frames: &mut Vec<ReplyFrame>,
    replier: u8,
    address: SocketAddress,
    tag: &Vec<u8>,
    Ghost(batch): Ghost<Seq<Seq<u8>>>,
    Ghost(tx): Ghost<Seq<u8>>,
)
    requires
        frame_views(old(frames)@) == unsigned_frames(replier, batch),
        reply_address(tx) == Some(address),
        tag@ == tx.take(9),
    ensures
        frame_views(final(frames)@) == unsigned_frames(replier, batch.push(tx)),
{
    let ghost before = frame_views(frames@);
    proof {
        lemma_one_frame_per_client(replier, batch);
        assert(batch.push(tx).drop_last() =~= batch);
    }
    assert(before.len() == frames@.len());
    if let Some(i) = find_frame(frames, address) {
        assert(before[i as int].0 == clients(batch)[i as int]);
        assert(clients(batch).contains(address));
        let mut frame = frames.remove(i);
        append_bytes(&mut frame.bytes, tag.as_slice());
        frames.insert(i, frame);
        proof {
            let after = unsigned_frames(replier, batch.push(tx));
            assert forall|j: int| 0 <= j < after.len() implies frame_views(frames@)[j] == after[j] by {
                assert(before[j] == unsigned_frames(replier, batch)[j]);
                if j == i {
                    assert((seq![replier] + tags_for(batch, address)) + tag@ =~= seq![replier] + (
                    tags_for(batch, address) + tag@));
                } else {
                    assert(clients(batch)[j] != address);
                }
            }
            assert(frame_views(frames@) =~= after);
        }
        return;
    }
    assert(forall|j: int| 0 <= j < before.len() ==> (#[trigger] before[j]).0 != address);
    let mut bytes: Vec<u8> = Vec::new();
    bytes.push(replier);
    append_bytes(&mut bytes, tag.as_slice());
    frames.push(ReplyFrame { address, bytes });
    proof {
        assert(!clients(batch).contains(address)) by {
            if clients(batch).contains(address) {
                let j = choose|j: int| 0 <= j < clients(batch).len() && clients(batch)[j] == address;
                assert(before[j].0 == address);
            }
        }
        assert(tags_for(batch, address) =~= Seq::<u8>::empty());
        let after = unsigned_frames(replier, batch.push(tx));
        assert forall|j: int| 0 <= j < after.len() implies frame_views(frames@)[j] == after[j] by {
            if j < before.len() {
                assert(before[j] == unsigned_frames(replier, batch)[j]);
                assert(clients(batch)[j] != address);
            } else {
                assert(seq![replier] + tags_for(batch.push(tx), address) =~= bytes@);
            }
        }
        assert(frame_views(frames@) =~= after);
    }
}

/// Turn unsigned frames (`[replier][tag]...`) into signed ones
/// (`[replier]([tag][signature])...`), keeping their order.
pub fn sign_replies(signer: &Signer, replier: u8, frames: Vec<ReplyFrame>) -> (signed: Vec<
    ReplyFrame,
>)
    requires
        forall|i: int| 0 <= i < frames@.len() ==> (#[trigger] frames@[i]).bytes@.len() >= 1,
    ensures
        frame_views(signed@) == signed_frames(
            signer.disabled(),
            signer.keypair(),
            replier,
            frame_views(frames@),
        ),
{
    let ghost views = frame_views(frames@);
    let ghost target = signed_frames(signer.disabled(), signer.keypair(), replier, views);
    let mut signed: Vec<ReplyFrame> = Vec::new();
    let mut i: usize = 0;
    while i < frames.len()
        invariant
            i <= frames@.len(),
            views == frame_views(frames@),
            target == signed_frames(signer.disabled(), signer.keypair(), replier, views),
            forall|i: int| 0 <= i < frames@.len() ==> (#[trigger] frames@[i]).bytes@.len() >= 1,
            frame_views(signed@) == target.take(i as int),
        decreases frames@.len() - i,
    {
        let frame = &frames[i];
        let tags = copy_range(frame.bytes.as_slice(), 1, frame.bytes.len());
        assert(tags@ =~= frame.bytes@.skip(1));
        let entries = sign_reply_entries(signer, replier, tags.as_slice());
        let mut bytes: Vec<u8> = Vec::new();
        bytes.push(replier);
        append_bytes(&mut bytes, entries.as_slice());
        assert(bytes@ =~= seq![replier] + entries@);
        let ghost before = signed@;
        signed.push(ReplyFrame { address: frame.address, bytes });
        proof {
            assert(frame_views(signed@) =~= frame_views(before).push((frame.address, bytes@)));
            assert(target[i as int] == (frame.address, bytes@));
            assert(frame_views(signed@) =~= target.take(i + 1));
        }
        i += 1;
    }
    assert(frame_views(signed@) =~= target);
    signed
}

/// The batches among `digests` that were not answered yet, in order, and what
/// is remembered after them.
pub open spec fn fresh_batches(recent: Seq<Digest>, digests: Seq<Digest>) -> (
    Seq<Digest>,
    Seq<Digest>,
)
    decreases digests.len(),
{
    if digests.len() == 0 {
        (Seq::empty(), recent)
    } else {
        let (due, memory) = fresh_batches(recent, digests.drop_last());
        if memory.contains(digests.last()) {
            (due, memory)
        } else {
            (due.push(digests.last()), remembered(memory, digests.last()))
        }
    }
}

/// The batches remembered after `digest` was answered.
pub open spec fn remembered(recent: Seq<Digest>, digest: Digest) -> Seq<Digest> {
    if recent.contains(digest) {
        recent
    } else if recent.len() + 1 > RECENT_BATCHES {
        recent.push(digest).drop_first()
    } else {
        recent.push(digest)
    }
}

/// The first position of `name` in `order`.
fn position(order: &Vec<PublicKey>, name: &PublicKey) -> (index: Option<usize>)
    ensures
        index is Some <==> order@.contains(*name),
        index matches Some(i) ==> i == index_in(order@, *name) && i < order@.len() && order@[i as int] == *name,
{
    let mut i: usize = 0;
    while i < order.len()
        invariant
            i <= order@.len(),
            forall|j: int| 0 <= j < i ==> order@[j] != *name,
        decreases order@.len() - i,
    {
        if order[i] == *name {
            assert(is_first(order@, *name, i as int));
            assert(i == index_in(order@, *name)) by {
                let k = index_in(order@, *name);
                assert(is_first(order@, *name, k));
            }
            return Some(i);
        }
        i += 1;
    }
    None
}

/// A batch is answered by its author and the replicas that follow it in
/// committee order, as many as configured.
pub proof fn law_repliers_follow_author(n: int, reply_count: int, author_index: int, k: int)
    requires
        0 <= author_index < n,
        0 <= k < n,
    ensures
        is_replier(
            n,
            reply_count,
            author_index,
            if author_index + k < n {
                author_index + k
            } else {
                author_index + k - n
            },
        ) <==> k < reply_count,
{
    let index = if author_index + k < n {
        author_index + k
    } else {
        author_index + k - n
    };
    let sum = index + n - author_index;
    if author_index + k < n {
        assert(sum == k + n);
        vstd::arithmetic::div_mod::lemma_mod_add_multiples_vanish(k, n);
        assert(n + k == k + n);
    } else {
        assert(sum == k);
    }
    vstd::arithmetic::div_mod::lemma_small_mod(k as nat, n as nat);
}

/// The frame of a client holds, behind the index of the replier, the first nine
/// bytes of each of its requests, in the order of the batch.
pub proof fn law_requests_answered(replier: u8, batch: Seq<Seq<u8>>, i: int)
    requires
        0 <= i < batch.len(),
        reply_address(batch[i]) is Some,
    ensures
        ({
            let address = reply_address(batch[i])->0;
            let before = requests_from(batch.take(i), address) as int;
            let tags = tags_for(batch, address);
            &&& clients(batch).contains(address)
            &&& 9 * before + 9 <= tags.len()
            &&& tags.subrange(9 * before, 9 * before + 9) == batch[i].take(9)
            &&& exists|k: int|
                0 <= k < unsigned_frames(replier, batch).len()
                    && #[trigger] unsigned_frames(replier, batch)[k] == (
                    address,
                    seq![replier] + tags,
                )
        }),
    decreases batch.len(),
{
    let address = reply_address(batch[i])->0;
    let front = batch.drop_last();
    let n = batch.len() - 1;
    let before = requests_from(batch.take(i), address) as int;
    let tags = tags_for(batch, address);
    lemma_one_frame_per_client(replier, batch);
    lemma_one_frame_per_client(replier, front);
    lemma_one_frame_per_client(replier, batch.take(i));
    assert(tags_for(batch, address).len() == 9 * requests_from(batch, address));
    assert(tags_for(front, address).len() == 9 * requests_from(front, address));
    assert(batch[i].len() >= 15);
    if i < n {
        assert(front[i] == batch[i]);
        law_requests_answered(replier, front, i);
        assert(front.take(i) =~= batch.take(i));
        let earlier = tags_for(front, address);
        assert(tags.subrange(9 * before, 9 * before + 9) =~= earlier.subrange(
            9 * before,
            9 * before + 9,
        ));
        assert(requests_from(front, address) > 0) by {
            assert(clients(front).contains(address));
        }
    } else {
        assert(batch.take(i) =~= front);
        assert(tags.subrange(9 * before, 9 * before + 9) =~= batch[i].take(9));
    }
    assert(clients(batch).contains(address));
    let k = choose|k: int| 0 <= k < clients(batch).len() && clients(batch)[k] == address;
    assert(unsigned_frames(replier, batch)[k] == (address, seq![replier] + tags));
}

/// Of several batches at once, those not answered yet are due, each once, in
/// order; of the batches remembered only the oldest make room.
pub proof fn law_each_batch_answered_once(recent: Seq<Digest>, digests: Seq<Digest>)
    requires
        recent.no_duplicates(),
        recent.len() + digests.len() <= RECENT_BATCHES,
    ensures
        ({
            let (due, memory) = fresh_batches(recent, digests);
            &&& memory == recent + due
            &&& memory.no_duplicates()
            &&& due.len() <= digests.len()
            &&& forall|digest: Digest| #[trigger]
                memory.contains(digest) <==> recent.contains(digest) || digests.contains(digest)
        }),
    decreases digests.len(),
{
    if digests.len() > 0 {
        let front = digests.drop_last();
        let n = digests.len() - 1;
        let last = digests[n];
        law_each_batch_answered_once(recent, front);
        let (due1, memory1) = fresh_batches(recent, front);
        let (due, memory) = fresh_batches(recent, digests);
        assert forall|digest: Digest| #[trigger] digests.contains(digest) <==> front.contains(
            digest,
        ) || digest == last by {
            if front.contains(digest) {
                let i = choose|i: int| 0 <= i < front.len() && front[i] == digest;
                assert(digests[i] == digest);
            }
            if digest == last {
                assert(digests[n] == digest);
            }
            if digests.contains(digest) && digest != last {
                let i = choose|i: int| 0 <= i < digests.len() && digests[i] == digest;
                assert(front[i] == digest);
            }
        }
        if !memory1.contains(last) {
            assert(memory == memory1.push(last));
            assert(memory =~= recent + due);
            assert forall|digest: Digest| #[trigger] memory.contains(digest)
                <==> memory1.contains(digest) || digest == last by {
                if memory1.contains(digest) {
                    let i = choose|i: int| 0 <= i < memory1.len() && memory1[i] == digest;
                    assert(memory[i] == digest);
                }
                if digest == last {
                    assert(memory[memory1.len() as int] == digest);
                }
                if memory.contains(digest) && digest != last {
                    let i = choose|i: int| 0 <= i < memory.len() && memory[i] == digest;
                    assert(memory1[i] == digest);
                }
            }
        }
    } else {
        assert(recent + Seq::<Digest>::empty() =~= recent);
    }
}

} // verus!
