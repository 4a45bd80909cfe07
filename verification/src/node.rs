//! What a node does with committed headers: it tells its workers which of their
//! batches committed, so that they can answer the clients.

use crate::collections::{lemma_as_map, sorted, Key, SortedMap};
use crate::config::{worker_in, Committee, SocketAddress, WorkerId};
use crate::crypto::{Digest, PublicKey};
use crate::primary::messages::Header;
use vstd::prelude::*;

verus! {

/// What a primary tells its workers.
#[derive(Debug)]
pub enum PrimaryWorkerMessage {
    /// These batches of a header of the given author committed.
    Committed(Vec<Digest>, PublicKey),
}

/// A message for one of our workers.
#[derive(Debug)]
pub struct Notice {
    pub worker_id: WorkerId,
    pub address: SocketAddress,
    pub message: PrimaryWorkerMessage,
}

/// The batches in `payload` that worker `id` stores, in order.
pub open spec fn batches_of(payload: Seq<(Digest, WorkerId)>, id: WorkerId) -> Seq<Digest>
    decreases payload.len(),
{
    if payload.len() == 0 {
        Seq::empty()
    } else if payload.last().1 == id {
        batches_of(payload.drop_last(), id).push(payload.last().0)
    } else {
        batches_of(payload.drop_last(), id)
    }
}

/// A worker is told of exactly the batches that it stores.
pub proof fn law_batches_told(payload: Seq<(Digest, WorkerId)>, id: WorkerId, digest: Digest)
    ensures
        batches_of(payload, id).contains(digest) <==> payload.contains((digest, id)),
    decreases payload.len(),
{
    if payload.len() > 0 {
        let front = payload.drop_last();
        law_batches_told(front, id, digest);
        let all = batches_of(payload, id);
        let earlier = batches_of(front, id);
        if all.contains(digest) {
            let k = choose|k: int| 0 <= k < all.len() && all[k] == digest;
            if k < earlier.len() {
                assert(earlier[k] == digest);
                let i = choose|i: int| 0 <= i < front.len() && front[i] == (digest, id);
                assert(payload[i] == (digest, id));
            } else {
                assert(payload[payload.len() - 1] == (digest, id));
            }
        }
        if payload.contains((digest, id)) {
            let i = choose|i: int| 0 <= i < payload.len() && payload[i] == (digest, id);
            if i < front.len() {
                assert(front[i] == (digest, id));
                let k = choose|k: int| 0 <= k < earlier.len() && earlier[k] == digest;
                assert(all[k] == digest);
            } else {
                assert(all[earlier.len() as int] == digest);
            }
        }
    }
}

/// Whether `notice` tells worker `id` of `name` about its batches in `header`.
pub open spec fn tells(
    notice: Notice,
    header: Header,
    name: PublicKey,
    committee: &Committee,
) -> bool {
    &&& worker_in(committee@, name, notice.worker_id) is Some
    &&& notice.address == worker_in(committee@, name, notice.worker_id)->Some_0.primary_to_worker
    &&& notice.message matches PrimaryWorkerMessage::Committed(digests, author) && digests@
        == batches_of(header.payload.pairs(), notice.worker_id) && author == header.author
}

/// The workers among whose batches is one of `header`.
fn workers_of(header: &Header) -> (ids: SortedMap<WorkerId, ()>)
    ensures
        forall|id: WorkerId| #[trigger]
            ids@.contains_key(id) <==> batches_of(header.payload.pairs(), id).len() > 0,
{
    let n = header.payload.len();
    let ghost payload = header.payload.pairs();
    let mut ids: SortedMap<WorkerId, ()> = SortedMap::new();
    let mut i: usize = 0;
    while i < n
        invariant
            i <= n == payload.len(),
            payload == header.payload.pairs(),
            forall|id: WorkerId| #[trigger]
                ids@.contains_key(id) <==> batches_of(payload.take(i as int), id).len() > 0,
        decreases n - i,
    {
        assert(payload.take(i + 1).drop_last() =~= payload.take(i as int));
        ids.insert(*header.payload.value_at(i), ());
        i += 1;
    }
    assert(payload.take(n as int) =~= payload);
    ids
}

/// The batches of `header` that worker `id` stores.
fn digests_of(header: &Header, id: WorkerId) -> (digests: Vec<Digest>)
    ensures
        digests@ == batches_of(header.payload.pairs(), id),
{
    let n = header.payload.len();
    let ghost payload = header.payload.pairs();
    let mut digests: Vec<Digest> = Vec::new();
    let mut i: usize = 0;
    while i < n
        invariant
            i <= n == payload.len(),
            payload == header.payload.pairs(),
            digests@ == batches_of(payload.take(i as int), id),
        decreases n - i,
    {
        assert(payload.take(i + 1).drop_last() =~= payload.take(i as int));
        if *header.payload.value_at(i) == id {
            digests.push(header.payload.key_at(i));
        }
        i += 1;
    }
    assert(payload.take(n as int) =~= payload);
    digests
}

/// What to tell our workers about a committed header, in the order of their
/// ids. Each known worker with a batch in the header is told of all its batches
/// in one message; a worker that the committee does not list is passed over.
/// Clients that expect no reply are send-only, and nothing is told.
pub fn analyze(
    header: &Header,
    name: &PublicKey,
    committee: &Committee,
    client_reply_count: usize,
) -> (notices: Vec<Notice>)
    ensures
        client_reply_count == 0 ==> notices@.len() == 0,
        client_reply_count > 0 ==> {
            &&& forall|i: int|
                0 <= i < notices@.len() ==> tells(#[trigger] notices@[i], *header, *name, committee)
            &&& forall|i: int|
                0 <= i < notices@.len() ==> batches_of(
                    header.payload.pairs(),
                    (#[trigger] notices@[i]).worker_id,
                ).len() > 0
            &&& forall|i: int, j: int|
                0 <= i < j < notices@.len() ==> (#[trigger] notices@[i]).worker_id < (
                #[trigger] notices@[j]).worker_id
            &&& forall|id: WorkerId|
                batches_of(header.payload.pairs(), id).len() > 0 && worker_in(
                    committee@,
                    *name,
                    id,
                ) is Some ==> exists|i: int|
                    0 <= i < notices@.len() && (#[trigger] notices@[i]).worker_id == id
        },
{
    let mut notices: Vec<Notice> = Vec::new();
    if client_reply_count == 0 {
        return notices;
    }
    // Group the header's batches by the worker of ours that stores them.
    let ids = workers_of(header);
    let n = ids.len();
    let ghost listed = ids.pairs();
    let ghost mut places: Seq<int> = Seq::empty();
    let mut i: usize = 0;
    while i < n
        invariant
            i <= n == listed.len(),
            listed == ids.pairs(),
            sorted(listed),
            forall|id: WorkerId| #[trigger]
                ids@.contains_key(id) <==> batches_of(header.payload.pairs(), id).len() > 0,
            places.len() == notices@.len(),
            forall|k: int|
                0 <= k < notices@.len() ==> tells(#[trigger] notices@[k], *header, *name, committee),
            forall|k: int|
                0 <= k < notices@.len() ==> 0 <= #[trigger] places[k] < i && notices@[k].worker_id
                    == listed[places[k]].0,
            forall|k: int, l: int|
                0 <= k < l < places.len() ==> #[trigger] places[k] < #[trigger] places[l],
            forall|j: int|
                0 <= j < i && worker_in(committee@, *name, (#[trigger] listed[j]).0) is Some
                    ==> exists|k: int|
                    0 <= k < notices@.len() && (#[trigger] notices@[k]).worker_id == listed[j].0,
        decreases n - i,
    {
        let worker_id = ids.key_at(i);
        let ghost before = notices@;
        if let Some(addresses) = committee.worker(name, &worker_id) {
            let message = PrimaryWorkerMessage::Committed(
                digests_of(header, worker_id),
                header.author,
            );
            notices.push(Notice { worker_id, address: addresses.primary_to_worker, message });
            proof {
                places = places.push(i as int);
                assert(notices@[before.len() as int].worker_id == worker_id);
                assert forall|j: int|
                    0 <= j < i && worker_in(
                        committee@,
                        *name,
                        (#[trigger] listed[j]).0,
                    ) is Some implies exists|k: int|
                    0 <= k < notices@.len() && (#[trigger] notices@[k]).worker_id == listed[j].0 by {
                    let k = choose|k: int|
                        0 <= k < before.len() && (#[trigger] before[k]).worker_id == listed[j].0;
                    assert(notices@[k] == before[k]);
                }
            }
        }
        i += 1;
    }
    proof {
        lemma_as_map(listed);
        assert forall|k: int| 0 <= k < notices@.len() implies batches_of(
            header.payload.pairs(),
            (#[trigger] notices@[k]).worker_id,
        ).len() > 0 by {
            assert(ids@.contains_key(listed[places[k]].0));
        }
        assert forall|k: int, l: int| 0 <= k < l < notices@.len() implies (
        #[trigger] notices@[k]).worker_id < (#[trigger] notices@[l]).worker_id by {
            assert(places[k] < places[l]);
            assert(listed[places[k]].0.rank() < listed[places[l]].0.rank());
        }
        assert forall|id: WorkerId|
            batches_of(header.payload.pairs(), id).len() > 0 && worker_in(
                committee@,
                *name,
                id,
            ) is Some implies exists|k: int|
            0 <= k < notices@.len() && (#[trigger] notices@[k]).worker_id == id by {
            assert(ids@.contains_key(id));
            let j = choose|j: int| 0 <= j < listed.len() && (#[trigger] listed[j]).0 == id;
            assert(listed[j].0 == id);
        }
    }
    notices
}

} // verus!
