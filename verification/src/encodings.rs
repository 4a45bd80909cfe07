//! Different things are hashed and signed as different bytes.

use crate::bytes::{le_bytes, lemma_encoding_width};
use crate::config::WorkerId;
use crate::consensus::messages::{
    accept_bytes, certificate_bytes, optional_bytes, parent_bytes, special_bytes, timeout_bytes,
    HeaderModel, Round,
};
use crate::crypto::{
    lemma_digest_extensional, lemma_public_key_extensional, Digest, PublicKey,
};
use crate::primary::error::{Height, ViewNumber};
use crate::primary::messages::{
    active_count, header_bytes, message_bytes, payload_bytes, proposal_bytes, vote_bytes,
    MessageKind, MessageModel, ProposalList,
};
use crate::primary::synchronizer::batch_key;
use crate::worker::client_reply::reply_message;
use vstd::arithmetic::power::pow;
use vstd::prelude::*;

verus! {

proof fn lemma_split(a: Seq<u8>, b: Seq<u8>, x: Seq<u8>, y: Seq<u8>)
    requires
        a + x == b + y,
        a.len() == b.len(),
    ensures
        a == b,
        x == y,
{
    assert((a + x).take(a.len() as int) =~= a);
    assert((b + y).take(b.len() as int) =~= b);
    assert((a + x).skip(a.len() as int) =~= x);
    assert((b + y).skip(b.len() as int) =~= y);
}

proof fn lemma_le_injective(a: nat, b: nat, width: nat)
    requires
        a < pow(256, width),
        b < pow(256, width),
        le_bytes(a, width) == le_bytes(b, width),
    ensures
        a == b,
    decreases width,
{
    reveal(pow);
    if width > 0 {
        let rest = (width - 1) as nat;
        let x = seq![(a % 256) as u8];
        let y = seq![(b % 256) as u8];
        assert(x.len() == y.len());
        lemma_split(x, y, le_bytes(a / 256, rest), le_bytes(b / 256, rest));
        assert(x[0] == y[0]);
        assert(a % 256 == b % 256);
        assert(a / 256 < pow(256, rest));
        assert(b / 256 < pow(256, rest));
        lemma_le_injective(a / 256, b / 256, rest);
    }
}

proof fn lemma_u64(a: u64, b: u64)
    ensures
        le_bytes(a as nat, 8).len() == 8,
        le_bytes(b as nat, 8).len() == 8,
        le_bytes(a as nat, 8) == le_bytes(b as nat, 8) ==> a == b,
{
    lemma_encoding_width(a as nat, 8);
    lemma_encoding_width(b as nat, 8);
    assert(pow(256, 8) == 0x1_0000_0000_0000_0000) by {
        reveal_with_fuel(pow, 9);
    }
    if le_bytes(a as nat, 8) == le_bytes(b as nat, 8) {
        lemma_le_injective(a as nat, b as nat, 8);
    }
}

proof fn lemma_u32(a: u32, b: u32)
    ensures
        le_bytes(a as nat, 4).len() == 4,
        le_bytes(b as nat, 4).len() == 4,
        le_bytes(a as nat, 4) == le_bytes(b as nat, 4) ==> a == b,
{
    lemma_encoding_width(a as nat, 4);
    lemma_encoding_width(b as nat, 4);
    assert(pow(256, 4) == 0x1_0000_0000) by {
        reveal_with_fuel(pow, 5);
    }
    if le_bytes(a as nat, 4) == le_bytes(b as nat, 4) {
        lemma_le_injective(a as nat, b as nat, 4);
    }
}

proof fn lemma_digest(a: Digest, b: Digest)
    ensures
        a@.len() == 32,
        b@.len() == 32,
        a@ == b@ ==> a == b,
{
    if a@ == b@ {
        lemma_digest_extensional(a, b);
    }
}

proof fn lemma_key(a: PublicKey, b: PublicKey)
    ensures
        a@.len() == 32,
        b@.len() == 32,
        a@ == b@ ==> a == b,
{
    if a@ == b@ {
        lemma_public_key_extensional(a, b);
    }
}

/// What is signed of a consensus message tells its kind, slot and view.
pub proof fn law_message_bytes_tell(a: MessageModel, b: MessageModel)
    requires
        message_bytes(a) == message_bytes(b),
    ensures
        a.kind == b.kind,
        a.slot == b.slot,
        a.view == b.view,
{
    lemma_u64(a.slot, b.slot);
    lemma_u64(a.view, b.view);
    let x = message_bytes(a);
    let y = message_bytes(b);
    let none = crate::crypto::digest_of(Seq::empty());
    assert(none@.len() == 32);
    assert(x.last() == (match a.kind {
        MessageKind::Prepare => 0u8,
        MessageKind::Confirm => 1u8,
        MessageKind::Commit => 2u8,
    }));
    assert(y.last() == (match b.kind {
        MessageKind::Prepare => 0u8,
        MessageKind::Confirm => 1u8,
        MessageKind::Commit => 2u8,
    }));
    assert(x.subrange(0, 8) =~= le_bytes(a.slot as nat, 8));
    assert(y.subrange(0, 8) =~= le_bytes(b.slot as nat, 8));
    assert(x.subrange(8, 16) =~= le_bytes(a.view as nat, 8));
    assert(y.subrange(8, 16) =~= le_bytes(b.view as nat, 8));
}

/// What is signed of a vote tells the header and its height.
pub proof fn law_vote_bytes_tell(id: Digest, height: Height, id2: Digest, height2: Height)
    requires
        vote_bytes(id, height) == vote_bytes(id2, height2),
    ensures
        id == id2,
        height == height2,
{
    lemma_digest(id, id2);
    lemma_u64(height, height2);
    lemma_split(id@, id2@, le_bytes(height as nat, 8), le_bytes(height2 as nat, 8));
}

proof fn lemma_payload_width(payload: Seq<(Digest, WorkerId)>)
    ensures
        payload_bytes(payload).len() == 36 * payload.len(),
    decreases payload.len(),
{
    if payload.len() > 0 {
        lemma_payload_width(payload.drop_last());
        lemma_digest(payload.last().0, payload.last().0);
        lemma_u32(payload.last().1, payload.last().1);
    }
}

proof fn lemma_payload_injective(a: Seq<(Digest, WorkerId)>, b: Seq<(Digest, WorkerId)>)
    requires
        payload_bytes(a) == payload_bytes(b),
    ensures
        a == b,
    decreases a.len(),
{
    lemma_payload_width(a);
    lemma_payload_width(b);
    assert(a.len() == b.len());
    if a.len() > 0 {
        let (d, w) = a.last();
        let (e, v) = b.last();
        lemma_payload_width(a.drop_last());
        lemma_payload_width(b.drop_last());
        lemma_digest(d, e);
        lemma_u32(w, v);
        lemma_split(
            payload_bytes(a.drop_last()) + d@,
            payload_bytes(b.drop_last()) + e@,
            le_bytes(w as nat, 4),
            le_bytes(v as nat, 4),
        );
        lemma_split(payload_bytes(a.drop_last()), payload_bytes(b.drop_last()), d@, e@);
        lemma_payload_injective(a.drop_last(), b.drop_last());
        assert(a =~= a.drop_last().push(a.last()));
        assert(b =~= b.drop_last().push(b.last()));
    } else {
        assert(a =~= b);
    }
}

/// What the id of a header covers tells its author, height and payload.
pub proof fn law_header_bytes_tell(
    author: PublicKey,
    height: Height,
    payload: Seq<(Digest, WorkerId)>,
    author2: PublicKey,
    height2: Height,
    payload2: Seq<(Digest, WorkerId)>,
)
    requires
        header_bytes(author, height, payload) == header_bytes(author2, height2, payload2),
    ensures
        author == author2,
        height == height2,
        payload == payload2,
{
    lemma_key(author, author2);
    lemma_u64(height, height2);
    lemma_split(
        author@ + le_bytes(height as nat, 8),
        author2@ + le_bytes(height2 as nat, 8),
        payload_bytes(payload),
        payload_bytes(payload2),
    );
    lemma_split(author@, author2@, le_bytes(height as nat, 8), le_bytes(height2 as nat, 8));
    lemma_payload_injective(payload, payload2);
}

/// The digest of what a message proposes covers every proposed header, in order.
pub proof fn law_proposal_bytes_tell(a: ProposalList, b: ProposalList)
    requires
        proposal_bytes(a) == proposal_bytes(b),
    ensures
        a.len() == b.len(),
        forall|i: int|
            0 <= i < a.len() ==> (#[trigger] a[i]).1.header_digest == b[i].1.header_digest,
    decreases a.len(),
{
    lemma_proposals_width(a);
    lemma_proposals_width(b);
    if a.len() > 0 {
        let d = a.last().1.header_digest;
        let e = b.last().1.header_digest;
        lemma_proposals_width(a.drop_last());
        lemma_proposals_width(b.drop_last());
        lemma_digest(d, e);
        lemma_split(proposal_bytes(a.drop_last()), proposal_bytes(b.drop_last()), d@, e@);
        law_proposal_bytes_tell(a.drop_last(), b.drop_last());
        assert forall|i: int| 0 <= i < a.len() implies (#[trigger] a[i]).1.header_digest
            == b[i].1.header_digest by {
            if i < a.len() - 1 {
                assert(a.drop_last()[i] == a[i]);
                assert(b.drop_last()[i] == b[i]);
            }
        }
    }
}

proof fn lemma_proposals_width(proposals: ProposalList)
    ensures
        proposal_bytes(proposals).len() == 32 * proposals.len(),
    decreases proposals.len(),
{
    if proposals.len() > 0 {
        lemma_proposals_width(proposals.drop_last());
        lemma_digest(proposals.last().1.header_digest, proposals.last().1.header_digest);
    }
}

/// The key of a stored batch tells the batch and its worker.
pub proof fn law_batch_keys_tell(digest: Digest, id: WorkerId, digest2: Digest, id2: WorkerId)
    requires
        batch_key(digest, id) == batch_key(digest2, id2),
    ensures
        digest == digest2,
        id == id2,
{
    lemma_digest(digest, digest2);
    lemma_u32(id, id2);
    lemma_split(digest@, digest2@, le_bytes(id as nat, 4), le_bytes(id2 as nat, 4));
}

/// What is signed of a reply tells the replier and the transaction.
pub proof fn law_reply_messages_tell(replier: u8, tag: Seq<u8>, replier2: u8, tag2: Seq<u8>)
    requires
        reply_message(replier, tag) == reply_message(replier2, tag2),
    ensures
        replier == replier2,
        tag == tag2,
{
    lemma_split(seq![replier], seq![replier2], tag, tag2);
    assert(seq![replier][0] == seq![replier2][0]);
}

/// How many consensus messages are active: all but the Commits.
pub proof fn law_commits_are_not_active(messages: Seq<(Digest, MessageModel)>)
    ensures
        ({
            let active = Set::new(
                |i: int| 0 <= i < messages.len() && messages[i].1.kind != MessageKind::Commit,
            );
            active.finite() && active.len() == active_count(messages)
        }),
    decreases messages.len(),
{
    let active = Set::new(
        |i: int| 0 <= i < messages.len() && messages[i].1.kind != MessageKind::Commit,
    );
    if messages.len() == 0 {
        assert(active =~= Set::empty());
    } else {
        let front = messages.drop_last();
        let n = messages.len() - 1;
        law_commits_are_not_active(front);
        let earlier = Set::new(
            |i: int| 0 <= i < front.len() && front[i].1.kind != MessageKind::Commit,
        );
        assert forall|i: int| 0 <= i < front.len() implies front[i] == messages[i] by {}
        if messages[n].1.kind != MessageKind::Commit {
            assert(active =~= earlier.insert(n));
        } else {
            assert(active =~= earlier);
        }
    }
}

/// What is signed to accept a header tells the header, its view and its round.
pub proof fn law_accept_bytes_tell(
    hash: Digest,
    view: ViewNumber,
    round: Round,
    hash2: Digest,
    view2: ViewNumber,
    round2: Round,
)
    requires
        accept_bytes(hash, view, round) == accept_bytes(hash2, view2, round2),
    ensures
        hash == hash2,
        view == view2,
        round == round2,
{
    lemma_digest(hash, hash2);
    lemma_u64(view, view2);
    lemma_u64(round, round2);
    lemma_split(
        hash@ + le_bytes(view as nat, 8),
        hash2@ + le_bytes(view2 as nat, 8),
        le_bytes(round as nat, 8),
        le_bytes(round2 as nat, 8),
    );
    lemma_split(hash@, hash2@, le_bytes(view as nat, 8), le_bytes(view2 as nat, 8));
}

/// What is signed to give up on a view tells the view and that of the highest
/// certificate.
pub proof fn law_timeout_bytes_tell(
    view: ViewNumber,
    high: ViewNumber,
    view2: ViewNumber,
    high2: ViewNumber,
)
    requires
        timeout_bytes(view, high) == timeout_bytes(view2, high2),
    ensures
        view == view2,
        high == high2,
{
    lemma_u64(view, view2);
    lemma_u64(high, high2);
    lemma_split(
        le_bytes(view as nat, 8),
        le_bytes(view2 as nat, 8),
        le_bytes(high as nat, 8),
        le_bytes(high2 as nat, 8),
    );
}

/// What identifies a certificate tells the header, its round and its author.
pub proof fn law_certificate_bytes_tell(
    id: Digest,
    round: Round,
    origin: PublicKey,
    id2: Digest,
    round2: Round,
    origin2: PublicKey,
)
    requires
        certificate_bytes(id, round, origin) == certificate_bytes(id2, round2, origin2),
    ensures
        id == id2,
        round == round2,
        origin == origin2,
{
    lemma_digest(id, id2);
    lemma_u64(round, round2);
    lemma_key(origin, origin2);
    lemma_split(
        id@ + le_bytes(round as nat, 8),
        id2@ + le_bytes(round2 as nat, 8),
        origin@,
        origin2@,
    );
    lemma_split(id@, id2@, le_bytes(round as nat, 8), le_bytes(round2 as nat, 8));
}

proof fn lemma_parents_width(parents: Seq<(Digest, ())>)
    ensures
        parent_bytes(parents).len() == 32 * parents.len(),
    decreases parents.len(),
{
    if parents.len() > 0 {
        lemma_parents_width(parents.drop_last());
        lemma_digest(parents.last().0, parents.last().0);
    }
}

proof fn lemma_parents_injective(a: Seq<(Digest, ())>, b: Seq<(Digest, ())>)
    requires
        parent_bytes(a) == parent_bytes(b),
    ensures
        a == b,
    decreases a.len(),
{
    lemma_parents_width(a);
    lemma_parents_width(b);
    if a.len() > 0 {
        let d = a.last().0;
        let e = b.last().0;
        lemma_parents_width(a.drop_last());
        lemma_parents_width(b.drop_last());
        lemma_digest(d, e);
        lemma_split(parent_bytes(a.drop_last()), parent_bytes(b.drop_last()), d@, e@);
        lemma_parents_injective(a.drop_last(), b.drop_last());
        assert(a.last() == b.last());
        assert(a =~= a.drop_last().push(a.last()));
        assert(b =~= b.drop_last().push(b.last()));
    } else {
        assert(a =~= b);
    }
}

/// What the id of a special header covers tells all that it says, among headers
/// with as many batches and parents and the same optional parts.
pub proof fn law_special_bytes_tell(a: HeaderModel, b: HeaderModel)
    requires
        special_bytes(a) == special_bytes(b),
        a.payload.len() == b.payload.len(),
        a.parents.len() == b.parents.len(),
        a.special_parent is Some <==> b.special_parent is Some,
        a.consensus_parent is Some <==> b.consensus_parent is Some,
    ensures
        a.author == b.author,
        a.round == b.round,
        a.payload == b.payload,
        a.parents == b.parents,
        a.view == b.view,
        a.prev_view_round == b.prev_view_round,
        a.special_parent == b.special_parent,
        a.special_parent_round == b.special_parent_round,
        a.consensus_parent == b.consensus_parent,
{
    lemma_key(a.author, b.author);
    lemma_u64(a.round, b.round);
    lemma_payload_width(a.payload);
    lemma_payload_width(b.payload);
    lemma_parents_width(a.parents);
    lemma_parents_width(b.parents);
    lemma_u64(a.view, b.view);
    lemma_u64(a.prev_view_round, b.prev_view_round);
    lemma_u64(a.special_parent_round, b.special_parent_round);
    if a.special_parent is Some {
        lemma_digest(a.special_parent->0, b.special_parent->0);
    }
    if a.consensus_parent is Some {
        lemma_digest(a.consensus_parent->0, b.consensus_parent->0);
    }
    let a1 = a.author@;
    let b1 = b.author@;
    let a2 = a1 + le_bytes(a.round as nat, 8);
    let b2 = b1 + le_bytes(b.round as nat, 8);
    let a3 = a2 + payload_bytes(a.payload);
    let b3 = b2 + payload_bytes(b.payload);
    let a4 = a3 + parent_bytes(a.parents);
    let b4 = b3 + parent_bytes(b.parents);
    let a5 = a4 + le_bytes(a.view as nat, 8);
    let b5 = b4 + le_bytes(b.view as nat, 8);
    let a6 = a5 + le_bytes(a.prev_view_round as nat, 8);
    let b6 = b5 + le_bytes(b.prev_view_round as nat, 8);
    let a7 = a6 + optional_bytes(a.special_parent);
    let b7 = b6 + optional_bytes(b.special_parent);
    let a8 = a7 + le_bytes(a.special_parent_round as nat, 8);
    let b8 = b7 + le_bytes(b.special_parent_round as nat, 8);
    lemma_split(a8, b8, optional_bytes(a.consensus_parent), optional_bytes(b.consensus_parent));
    lemma_split(
        a7,
        b7,
        le_bytes(a.special_parent_round as nat, 8),
        le_bytes(b.special_parent_round as nat, 8),
    );
    lemma_split(a6, b6, optional_bytes(a.special_parent), optional_bytes(b.special_parent));
    lemma_split(
        a5,
        b5,
        le_bytes(a.prev_view_round as nat, 8),
        le_bytes(b.prev_view_round as nat, 8),
    );
    lemma_split(a4, b4, le_bytes(a.view as nat, 8), le_bytes(b.view as nat, 8));
    lemma_split(a3, b3, parent_bytes(a.parents), parent_bytes(b.parents));
    lemma_split(a2, b2, payload_bytes(a.payload), payload_bytes(b.payload));
    lemma_split(a1, b1, le_bytes(a.round as nat, 8), le_bytes(b.round as nat, 8));
    lemma_payload_injective(a.payload, b.payload);
    lemma_parents_injective(a.parents, b.parents);
}

} // verus!
