//! Orders what was decided: slots one after the other, and the headers of each
//! after their ancestors.

use crate::collections::SortedMap;
use crate::crypto::{Digest, PublicKey};
use crate::primary::error::{Height, Slot};
use crate::primary::messages::{ConsensusMessage, Header, HeaderModel, MessageModel};
use vstd::prelude::*;

verus! {

/// What the committer remembers.
#[verifier::ext_equal]
pub struct CommitterModel {
    /// The slot that is handed on next.
    pub next_slot: Slot,
    /// Decided slots that wait for an earlier one.
    pub waiting: Map<Slot, MessageModel>,
    /// The height up to which the headers of each author were handed on.
    pub heights: Map<PublicKey, Height>,
}

/// The messages as values.
pub open spec fn waiting_models(waiting: Map<Slot, ConsensusMessage>) -> Map<Slot, MessageModel> {
    waiting.map_values(|message: ConsensusMessage| message.model())
}

/// The headers as values.
pub open spec fn chain_models(chain: Seq<Header>) -> Seq<HeaderModel> {
    Seq::new(chain.len(), |i: int| chain[i].model())
}

/// The height up to which the headers of an author were handed on.
pub open spec fn height_of(s: CommitterModel, author: PublicKey) -> Height {
    if s.heights.contains_key(author) {
        s.heights[author]
    } else {
        0
    }
}

/// Learning that a slot was decided. A slot that was handed on, or is known to be
/// decided, changes nothing.
pub open spec fn slot_decided(s: CommitterModel, message: MessageModel) -> CommitterModel {
    if message.slot < s.next_slot || s.waiting.contains_key(message.slot) {
        s
    } else {
        CommitterModel { waiting: s.waiting.insert(message.slot, message), ..s }
    }
}

/// Handing on the next slot, if it was decided. Behind the last slot that a number
/// can name nothing is handed on.
pub open spec fn slot_taken(s: CommitterModel) -> (CommitterModel, Option<MessageModel>) {
    if s.waiting.contains_key(s.next_slot) && s.next_slot < u64::MAX {
        (
            CommitterModel {
                next_slot: (s.next_slot + 1) as u64,
                waiting: s.waiting.remove(s.next_slot),
                ..s
            },
            Some(s.waiting[s.next_slot]),
        )
    } else {
        (s, None)
    }
}

/// The headers of a chain that are above `height`, oldest first. The chain is
/// given from its highest header downwards.
pub open spec fn headers_above(chain: Seq<HeaderModel>, height: Height) -> Seq<HeaderModel>
    decreases chain.len(),
{
    if chain.len() == 0 {
        Seq::empty()
    } else if chain[0].height > height {
        headers_above(chain.drop_first(), height).push(chain[0])
    } else {
        headers_above(chain.drop_first(), height)
    }
}

/// Handing on the chain of headers of an author.
pub open spec fn chain_taken(s: CommitterModel, author: PublicKey, chain: Seq<HeaderModel>) -> (
    CommitterModel,
    Seq<HeaderModel>,
) {
    let headers = headers_above(chain, height_of(s, author));
    if headers.len() == 0 {
        (s, headers)
    } else {
        (
            CommitterModel { heights: s.heights.insert(author, headers.last().height), ..s },
            headers,
        )
    }
}

/// Slots are handed on one after the other, each once.
pub proof fn law_slots_in_order(s: CommitterModel, message: MessageModel)
    ensures
        ({
            let (t, taken) = slot_taken(s);
            &&& taken is Some ==> t.next_slot == s.next_slot + 1 && s.waiting[s.next_slot]
                == taken->0
            &&& taken is None ==> t == s
            &&& message.slot < s.next_slot ==> slot_decided(s, message) == s
            &&& slot_decided(s, message).next_slot == s.next_slot
        }),
{
}

/// The headers of an author are handed on in the order of their heights, and only
/// above what was handed on before.
pub proof fn law_headers_in_order(s: CommitterModel, author: PublicKey, chain: Seq<HeaderModel>)
    requires
        forall|i: int, j: int|
            0 <= i < j < chain.len() ==> (#[trigger] chain[j]).height < (#[trigger] chain[i]).height,
    ensures
        ({
            let (t, headers) = chain_taken(s, author, chain);
            &&& forall|i: int, j: int|
                0 <= i < j < headers.len() ==> (#[trigger] headers[i]).height < (
                #[trigger] headers[j]).height
            &&& forall|i: int|
                0 <= i < headers.len() ==> height_of(s, author) < (#[trigger] headers[i]).height
                    && headers[i].height <= height_of(t, author)
            &&& forall|header: HeaderModel| #[trigger]
                headers.contains(header) <==> chain.contains(header) && header.height > height_of(
                    s,
                    author,
                )
        }),
{
    lemma_headers_above(chain, height_of(s, author));
    let headers = headers_above(chain, height_of(s, author));
    assert forall|i: int| 0 <= i < headers.len() implies height_of(s, author) < (
    #[trigger] headers[i]).height && headers[i].height <= headers.last().height by {
        assert(headers.contains(headers[i]));
        if i < headers.len() - 1 {
            assert(headers[i].height < headers[headers.len() - 1].height);
        }
    }
}

proof fn lemma_headers_above(chain: Seq<HeaderModel>, height: Height)
    requires
        forall|i: int, j: int|
            0 <= i < j < chain.len() ==> (#[trigger] chain[j]).height < (#[trigger] chain[i]).height,
    ensures
        ({
            let headers = headers_above(chain, height);
            &&& forall|i: int, j: int|
                0 <= i < j < headers.len() ==> (#[trigger] headers[i]).height < (
                #[trigger] headers[j]).height
            &&& forall|header: HeaderModel| #[trigger]
                headers.contains(header) <==> chain.contains(header) && header.height > height
        }),
    decreases chain.len(),
{
    if chain.len() > 0 {
        let rest = chain.drop_first();
        assert forall|i: int, j: int| 0 <= i < j < rest.len() implies (#[trigger] rest[j]).height < (
        #[trigger] rest[i]).height by {
            assert(rest[i] == chain[i + 1]);
            assert(rest[j] == chain[j + 1]);
        }
        lemma_headers_above(rest, height);
        let headers = headers_above(chain, height);
        let earlier = headers_above(rest, height);
        assert forall|header: HeaderModel| #[trigger] headers.contains(header) <==> chain.contains(
            header,
        ) && header.height > height by {
            if headers.contains(header) {
                let i = choose|i: int| 0 <= i < headers.len() && headers[i] == header;
                if i < earlier.len() {
                    assert(earlier[i] == header);
                    assert(earlier.contains(header));
                    let j = choose|j: int| 0 <= j < rest.len() && rest[j] == header;
                    assert(chain[j + 1] == header);
                } else {
                    assert(chain[0] == header);
                }
            }
            if chain.contains(header) && header.height > height {
                let j = choose|j: int| 0 <= j < chain.len() && chain[j] == header;
                if j > 0 {
                    assert(rest[j - 1] == header);
                    assert(earlier.contains(header));
                    let i = choose|i: int| 0 <= i < earlier.len() && earlier[i] == header;
                    assert(headers[i] == header);
                } else {
                    assert(headers[headers.len() - 1] == header);
                }
            }
        }
        assert forall|i: int, j: int| 0 <= i < j < headers.len() implies (
        #[trigger] headers[i]).height < (#[trigger] headers[j]).height by {
            assert(headers[i] == earlier[i]);
            if j < earlier.len() {
                assert(headers[j] == earlier[j]);
            } else {
                assert(earlier.contains(earlier[i]));
                let k = choose|k: int| 0 <= k < rest.len() && rest[k] == earlier[i];
                assert(chain[k + 1] == earlier[i]);
                assert(chain[0].height > chain[k + 1].height);
            }
        }
    }
}

/// Hands on the headers of decided slots.
pub struct Committer {
    next_slot: Slot,
    waiting: SortedMap<Slot, ConsensusMessage>,
    heights: SortedMap<PublicKey, Height>,
}

impl Committer {
    /// What the committer remembers.
    pub closed spec fn model(&self) -> CommitterModel {
        CommitterModel {
            next_slot: self.next_slot,
            waiting: waiting_models(self.waiting@),
            heights: self.heights@,
        }
    }

    /// A committer that starts with the first slot.
    pub fn new() -> (committer: Self)
        ensures
            committer.model() == (CommitterModel {
                next_slot: 1,
                waiting: Map::empty(),
                heights: Map::empty(),
            }),
    {
        let committer = Committer {
            next_slot: 1,
            waiting: SortedMap::new(),
            heights: SortedMap::new(),
        };
        assert(committer.model().waiting =~= Map::empty());
        committer
    }

    /// Learns that a slot was decided.
    pub fn decided(&mut self, message: ConsensusMessage)
        ensures
            final(self).model() == slot_decided(old(self).model(), message.model()),
    {
        let slot = message.slot();
        if slot < self.next_slot || self.waiting.contains_key(&slot) {
            return;
        }
        let ghost before = self.waiting@;
        let ghost model = message.model();
        self.waiting.insert(slot, message);
        assert(waiting_models(self.waiting@) =~= waiting_models(before).insert(slot, model));
    }

    /// Takes the message of the next slot, if it was decided.
    pub fn next(&mut self) -> (taken: Option<ConsensusMessage>)
        ensures
            (
                final(self).model(),
                crate::primary::messages::optional_model(taken),
            ) == slot_taken(old(self).model()),
    {
        if self.next_slot == u64::MAX {
            return None;
        }
        let slot = self.next_slot;
        let ghost before = self.waiting@;
        match self.waiting.remove(&slot) {
            Some(message) => {
                self.next_slot = slot + 1;
                assert(waiting_models(self.waiting@) =~= waiting_models(before).remove(slot));
                Some(message)
            },
            None => {
                assert(waiting_models(self.waiting@) =~= waiting_models(before));
                None
            },
        }
    }

    /// The header before `header`, if it is to be handed on with it.
    pub fn parent_wanted(&self, author: &PublicKey, header: &Header) -> (wanted: Option<Digest>)
        ensures
            wanted == (if header.parent_cert.height > height_of(self.model(), *author) {
                Some(header.parent_cert.header_digest)
            } else {
                None
            }),
    {
        if header.parent_cert.height > self.height(author) {
            Some(header.parent_cert.header_digest)
        } else {
            None
        }
    }

    /// The height up to which the headers of an author were handed on.
    pub fn height(&self, author: &PublicKey) -> (height: Height)
        ensures
            height == height_of(self.model(), *author),
    {
        match self.heights.get(author) {
            Some(height) => *height,
            None => 0,
        }
    }

    /// Hands on the headers of a chain of `author` that were not handed on before,
    /// oldest first. The chain is given from its highest header downwards.
    pub fn hand_on(&mut self, author: PublicKey, chain: Vec<Header>) -> (headers: Vec<Header>)
        ensures
            (final(self).model(), chain_models(headers@)) == chain_taken(
                old(self).model(),
                author,
                chain_models(chain@),
            ),
    {
        let ghost models = chain_models(chain@);
        let height = self.height(&author);
        let mut headers: Vec<Header> = Vec::new();
        let mut i: usize = chain.len();
        assert(models.skip(i as int).len() == 0);
        assert(chain_models(headers@) =~= headers_above(models.skip(i as int), height));
        while i > 0
            invariant
                i <= chain@.len(),
                models == chain_models(chain@),
                chain_models(headers@) == headers_above(models.skip(i as int), height),
            decreases i,
        {
            i -= 1;
            assert(models.skip(i as int).drop_first() =~= models.skip(i + 1));
            assert(models.skip(i as int)[0] == chain@[i as int].model());
            if chain[i].height > height {
                let ghost before = headers@;
                headers.push(chain[i].duplicate());
                assert(chain_models(headers@) =~= chain_models(before).push(
                    chain@[i as int].model(),
                ));
            }
        }
        assert(models.skip(0) =~= models);
        if headers.len() > 0 {
            let highest = headers[headers.len() - 1].height;
            assert(chain_models(headers@).last() == headers@.last().model());
            self.heights.insert(author, highest);
        }
        headers
    }
}

/// A decided slot is handed out when its turn comes, with the first message that
/// decided it; the slots that wait behind it go on waiting.
pub proof fn law_decided_slots_handed_out(
    s: CommitterModel,
    message: MessageModel,
    again: MessageModel,
)
    requires
        s.next_slot < u64::MAX,
        message.slot >= s.next_slot,
        !s.waiting.contains_key(message.slot),
        again.slot == message.slot,
    ensures
        ({
            let t = slot_decided(s, message);
            let (u, taken) = slot_taken(t);
            &&& t.waiting == s.waiting.insert(message.slot, message)
            &&& t.heights == s.heights
            &&& slot_decided(t, again) == t
            &&& message.slot == s.next_slot ==> {
                &&& taken == Some(message)
                &&& u.next_slot == s.next_slot + 1
                &&& u.waiting == s.waiting
                &&& u.heights == s.heights
            }
            &&& taken is Some <==> message.slot == s.next_slot || s.waiting.contains_key(
                s.next_slot,
            )
        }),
{
    let t = slot_decided(s, message);
    let u = slot_taken(t).0;
    if message.slot == s.next_slot {
        assert(u.waiting =~= s.waiting);
    }
}

/// The height up to which an author is committed is that of its last committed
/// header; committing one author's headers leaves the others alone.
pub proof fn law_committed_heights(
    s: CommitterModel,
    author: PublicKey,
    chain: Seq<HeaderModel>,
    other: PublicKey,
)
    ensures
        ({
            let (t, headers) = chain_taken(s, author, chain);
            &&& headers.len() == 0 ==> t == s
            &&& headers.len() > 0 ==> height_of(t, author) == headers.last().height
            &&& other != author ==> height_of(t, other) == height_of(s, other)
            &&& t.next_slot == s.next_slot
            &&& t.waiting == s.waiting
        }),
{
}

} // verus!
