//! Checks, hashes and announces batches of transactions.

use crate::bytes::copy_range;
use crate::config::WorkerId;
use crate::crypto::{
    byte_strings, digest_of, hash_bytes, may_pass, transaction_flags_spec, transaction_items,
    transaction_undecodable, transaction_valid, verify_transactions, Digest, PublicKey,
};
use vstd::prelude::*;

verus! {

/// Transactions per verification task.
pub const VERIFY_CHUNK: usize = 128;

/// Batches from other workers whose signatures may be checked at once.
pub const MAX_BATCHES_IN_FLIGHT: usize = 16;

/// Where one transaction lies within a serialized batch.
#[derive(Clone, Copy, Debug, PartialEq, Eq, Structural)]
pub struct Span {
    pub start: usize,
    pub end: usize,
}

/// What a worker tells its primary about a batch.
#[derive(Clone, Copy, Debug)]
pub enum WorkerPrimaryMessage {
    /// The worker made the batch itself.
    OurBatch(Digest, WorkerId),
    /// The worker received the batch from a worker of another authority.
    OthersBatch(Digest, WorkerId),
}

/// What to do with a batch that just arrived.
pub enum BatchRoute {
    /// Pass it on as it is.
    Forward(Vec<u8>),
    /// Check its client signatures first.
    Check(Vec<u8>),
}

/// Whether every span lies within `len` bytes.
pub open spec fn spans_within(spans: Seq<Span>, len: nat) -> bool {
    forall|i: int|
        0 <= i < spans.len() ==> (#[trigger] spans[i]).start <= spans[i].end && spans[i].end <= len
}

/// The transactions that the spans cut out of `serialized`.
pub open spec fn transactions_in(serialized: Seq<u8>, spans: Seq<Span>) -> Seq<Seq<u8>> {
    Seq::new(
        spans.len(),
        |i: int| serialized.subrange(spans[i].start as int, spans[i].end as int),
    )
}

/// Whether every flag is up.
pub open spec fn all_pass(flags: Seq<bool>) -> bool {
    forall|i: int| 0 <= i < flags.len() ==> #[trigger] flags[i]
}

/// Whether every check of a batch passed.
pub fn all_passed(flags: &Vec<bool>) -> (passed: bool)
    ensures
        passed == all_pass(flags@),
{
    let mut i: usize = 0;
    while i < flags.len()
        invariant
            i <= flags@.len(),
            forall|j: int| 0 <= j < i ==> #[trigger] flags@[j],
        decreases flags@.len() - i,
    {
        if !flags[i] {
            return false;
        }
        i += 1;
    }
    true
}

/// The transactions that are checked together as number `k`.
pub open spec fn chunk_of(txs: Seq<Seq<u8>>, k: int) -> Seq<Seq<u8>> {
    txs.subrange(128 * k, if 128 * k + 128 < txs.len() { 128 * k + 128 } else { txs.len() as int })
}

/// Whether the check of one chunk may let all of it pass: every transaction is
/// long enough and can be decoded, and either each is valid or the batch check
/// may accept exactly these.
pub open spec fn chunk_may_pass(author: PublicKey, txs: Seq<Seq<u8>>) -> bool {
    &&& forall|i: int|
        0 <= i < txs.len() ==> (#[trigger] txs[i]).len() >= 64 && !transaction_undecodable(txs[i])
    &&& (forall|i: int| 0 <= i < txs.len() ==> transaction_valid(author, #[trigger] txs[i]))
        || may_pass(transaction_items(author, txs))
}

/// Checks every client signature in a serialized batch of `author` from another
/// worker, a chunk at a time. Returns the batch if all of them hold; `spans`
/// tells where its transactions lie.
pub fn verify_peer_batch(serialized: Vec<u8>, author: &PublicKey, spans: &Vec<Span>) -> (accepted:
    Option<Vec<u8>>)
    requires
        spans_within(spans@, serialized@.len()),
    ensures
        ({
            let txs = transactions_in(serialized@, spans@);
            // An accepted batch is handed back as it came, and passed the check
            // chunk by chunk.
            &&& accepted matches Some(batch) ==> batch@ == serialized@ && forall|k: int|
                0 <= k && 128 * k < txs.len() ==> chunk_may_pass(*author, #[trigger] chunk_of(txs, k))
            // Only an invalid transaction spoils its batch.
            &&& accepted is None ==> exists|i: int|
                0 <= i < txs.len() && !transaction_valid(*author, #[trigger] txs[i])
            // A transaction that cannot be a signed one does.
            &&& (exists|i: int|
                0 <= i < txs.len() && ((#[trigger] txs[i]).len() < 64 || transaction_undecodable(
                    txs[i],
                ))) ==> accepted is None
        }),
{
    let ghost txs = transactions_in(serialized@, spans@);
    let ghost mut done: int = 0;
    let n: usize = spans.len();
    let mut start: usize = 0;
    while start < n
        invariant
            start <= n == spans@.len(),
            start < n ==> start == 128 * done,
            start <= 128 * done,
            0 <= done,
            txs == transactions_in(serialized@, spans@),
            spans_within(spans@, serialized@.len()),
            forall|k: int|
                0 <= k < done ==> chunk_may_pass(*author, #[trigger] chunk_of(txs, k)),
            forall|i: int|
                0 <= i < start ==> (#[trigger] txs[i]).len() >= 64 && !transaction_undecodable(
                    txs[i],
                ),
        decreases n - start,
    {
        let end: usize = if n - start > VERIFY_CHUNK {
            start + VERIFY_CHUNK
        } else {
            n
        };
        let chunk = cut(&serialized, spans, start, end);
        let flags = verify_transactions(author, chunk.as_slice());
        let ghost strings = byte_strings(chunk@);
        let ghost strict = transaction_flags_spec(*author, strings, false);
        proof {
            assert forall|i: int| 0 <= i < strings.len() implies #[trigger] strings[i] == txs[start
                + i] by {
                assert(chunk@[i]@ == txs[start + i]);
            }
            assert(strings =~= chunk_of(txs, done));
        }
        if !all_passed(&flags) {
            proof {
                let j = choose|j: int| 0 <= j < flags@.len() && !#[trigger] flags@[j];
                assert(!strict[j]);
                assert(strings[j] == txs[start + j]);
                assert(!transaction_valid(*author, txs[start + j]));
            }
            return None;
        }
        proof {
            assert forall|i: int| 0 <= i < strings.len() implies (#[trigger] strings[i]).len() >= 64
                && !transaction_undecodable(strings[i]) by {
                assert(flags@[i]);
            }
            if flags@ == strict {
                assert forall|i: int| 0 <= i < strings.len() implies transaction_valid(
                    *author,
                    #[trigger] strings[i],
                ) by {
                    assert(flags@[i]);
                }
            }
            assert(chunk_may_pass(*author, chunk_of(txs, done)));
            assert forall|i: int| start <= i < end implies (#[trigger] txs[i]).len() >= 64
                && !transaction_undecodable(txs[i]) by {
                assert(strings[i - start] == txs[start + (i - start)]);
            }
            done = done + 1;
        }
        start = end;
    }
    Some(serialized)
}

/// The transactions of one chunk.
fn cut(serialized: &Vec<u8>, spans: &Vec<Span>, start: usize, end: usize) -> (chunk: Vec<Vec<u8>>)
    requires
        start <= end <= spans@.len(),
        spans_within(spans@, serialized@.len()),
    ensures
        chunk@.len() == end - start,
        forall|i: int|
            0 <= i < chunk@.len() ==> (#[trigger] chunk@[i])@ == transactions_in(
                serialized@,
                spans@,
            )[start + i],
{
    let mut chunk: Vec<Vec<u8>> = Vec::new();
    let mut i: usize = start;
    while i < end
        invariant
            start <= i <= end <= spans@.len(),
            spans_within(spans@, serialized@.len()),
            chunk@.len() == i - start,
            forall|j: int|
                0 <= j < chunk@.len() ==> (#[trigger] chunk@[j])@ == transactions_in(
                    serialized@,
                    spans@,
                )[start + j],
        decreases end - i,
    {
        let span = spans[i];
        assert(spans@[i as int].start <= spans@[i as int].end);
        chunk.push(copy_range(serialized.as_slice(), span.start, span.end));
        i += 1;
    }
    chunk
}

/// What to do with a batch that was let through.
pub enum BatchAction {
    /// Store the batch under its digest.
    Store(Digest, Vec<u8>),
    /// Tell the primary about it.
    Announce(WorkerPrimaryMessage),
}

/// Such an action as a value.
pub enum BatchActionModel {
    Store(Digest, Seq<u8>),
    Announce(WorkerPrimaryMessage),
}

impl BatchAction {
    /// The action as a value.
    pub open spec fn model(self) -> BatchActionModel {
        match self {
            BatchAction::Store(digest, batch) => BatchActionModel::Store(digest, batch@),
            BatchAction::Announce(message) => BatchActionModel::Announce(message),
        }
    }
}

/// The actions as values.
pub open spec fn batch_actions(actions: Seq<BatchAction>) -> Seq<BatchActionModel> {
    Seq::new(actions.len(), |i: int| actions[i].model())
}

/// What the primary is told about a batch.
pub open spec fn announcement(id: WorkerId, batch: Seq<u8>, own_digest: bool) -> WorkerPrimaryMessage {
    if own_digest {
        WorkerPrimaryMessage::OurBatch(digest_of(batch), id)
    } else {
        WorkerPrimaryMessage::OthersBatch(digest_of(batch), id)
    }
}

/// What is done with batches in the order of their arrival, each given with
/// whether it was let through: it is stored, and then announced.
pub open spec fn deliveries(id: WorkerId, checked: Seq<Option<Seq<u8>>>, own_digest: bool) -> Seq<
    BatchActionModel,
>
    decreases checked.len(),
{
    if checked.len() == 0 {
        Seq::empty()
    } else {
        let earlier = deliveries(id, checked.drop_last(), own_digest);
        match checked.last() {
            Some(batch) => earlier.push(BatchActionModel::Store(digest_of(batch), batch)).push(
                BatchActionModel::Announce(announcement(id, batch, own_digest)),
            ),
            None => earlier,
        }
    }
}

/// The outcomes of checks as values.
pub open spec fn checked_views(checked: Seq<Option<Vec<u8>>>) -> Seq<Option<Seq<u8>>> {
    Seq::new(
        checked.len(),
        |i: int|
            match checked[i] {
                Some(batch) => Some(batch@),
                None => None,
            },
    )
}

/// A batch is announced only right after it was stored, and only if it was let
/// through.
pub proof fn law_stored_before_announced(
    id: WorkerId,
    checked: Seq<Option<Seq<u8>>>,
    own_digest: bool,
    j: int,
)
    requires
        0 <= j < deliveries(id, checked, own_digest).len(),
        deliveries(id, checked, own_digest)[j] is Announce,
    ensures
        ({
            let actions = deliveries(id, checked, own_digest);
            exists|i: int|
                0 <= i < checked.len() && (#[trigger] checked[i]) is Some && j > 0 && actions[j - 1]
                    == BatchActionModel::Store(digest_of(checked[i]->0), checked[i]->0) && actions[j]
                    == BatchActionModel::Announce(announcement(id, checked[i]->0, own_digest))
        }),
    decreases checked.len(),
{
    let actions = deliveries(id, checked, own_digest);
    if checked.len() > 0 {
        let front = checked.drop_last();
        let earlier = deliveries(id, front, own_digest);
        if j < earlier.len() {
            assert(actions[j] == earlier[j]);
            law_stored_before_announced(id, front, own_digest, j);
            let i = choose|i: int|
                0 <= i < front.len() && (#[trigger] front[i]) is Some && j > 0 && earlier[j - 1]
                    == BatchActionModel::Store(digest_of(front[i]->0), front[i]->0) && earlier[j]
                    == BatchActionModel::Announce(announcement(id, front[i]->0, own_digest));
            assert(checked[i] == front[i]);
            assert(actions[j - 1] == earlier[j - 1]);
        } else {
            assert(checked[checked.len() - 1] is Some);
        }
    }
}

/// Batches are stored and announced in the order of their arrival: what comes
/// later adds to what is done for the earlier ones.
pub proof fn law_batches_in_order(
    id: WorkerId,
    a: Seq<Option<Seq<u8>>>,
    b: Seq<Option<Seq<u8>>>,
    own_digest: bool,
)
    ensures
        deliveries(id, a + b, own_digest) == deliveries(id, a, own_digest) + deliveries(
            id,
            b,
            own_digest,
        ),
    decreases b.len(),
{
    if b.len() == 0 {
        assert(a + b =~= a);
    } else {
        law_batches_in_order(id, a, b.drop_last(), own_digest);
        assert((a + b).drop_last() =~= a + b.drop_last());
    }
    assert(deliveries(id, a + b, own_digest) =~= deliveries(id, a, own_digest) + deliveries(
        id,
        b,
        own_digest,
    ));
}

/// Hashes batches and announces their digests.
pub struct Processor;

impl Processor {
    /// Whether another batch may be taken in while `pending` are being checked.
    pub fn may_receive(pending: usize) -> (room: bool)
        ensures
            room == (pending < MAX_BATCHES_IN_FLIGHT),
    {
        pending < MAX_BATCHES_IN_FLIGHT
    }

    /// What to do with a batch that just arrived. Own batches were checked when
    /// they were made; with crypto disabled the clients send zero signatures.
    pub fn route(batch: Vec<u8>, own_digest: bool, crypto_disabled: bool) -> (route: BatchRoute)
        ensures
            route == (if own_digest || crypto_disabled {
                BatchRoute::Forward(batch)
            } else {
                BatchRoute::Check(batch)
            }),
    {
        if own_digest || crypto_disabled {
            BatchRoute::Forward(batch)
        } else {
            BatchRoute::Check(batch)
        }
    }

    /// The digest under which a batch is stored, and what the primary is told
    /// about it.
    pub fn process(id: WorkerId, batch: &[u8], own_digest: bool) -> (outcome: (
        Digest,
        WorkerPrimaryMessage,
    ))
        ensures
            outcome.0 == digest_of(batch@),
            outcome.1 == announcement(id, batch@, own_digest),
    {
        let digest = hash_bytes(batch);
        let message = if own_digest {
            WorkerPrimaryMessage::OurBatch(digest, id)
        } else {
            WorkerPrimaryMessage::OthersBatch(digest, id)
        };
        (digest, message)
    }

    /// Stores and announces the batches that were let through, in the order of
    /// their arrival.
    pub fn deliver(
        id: WorkerId,
        checked: Vec<Option<Vec<u8>>>,
        own_digest: bool,
        actions: &mut Vec<BatchAction>,
    )
        ensures
            batch_actions(final(actions)@) == batch_actions(old(actions)@) + deliveries(
                id,
                checked_views(checked@),
                own_digest,
            ),
    {
        let ghost before = batch_actions(actions@);
        let ghost views = checked_views(checked@);
        let n: usize = checked.len();
        let mut i: usize = 0;
        assert(batch_actions(actions@) =~= before + deliveries(id, views.take(0), own_digest));
        while i < n
            invariant
                i <= n == checked@.len(),
                views == checked_views(checked@),
                batch_actions(actions@) == before + deliveries(
                    id,
                    views.take(i as int),
                    own_digest,
                ),
            decreases n - i,
        {
            let ghost so_far = batch_actions(actions@);
            assert(views.take(i + 1).drop_last() =~= views.take(i as int));
            if let Some(batch) = &checked[i] {
                let (digest, message) = Processor::process(id, batch.as_slice(), own_digest);
                actions.push(BatchAction::Store(digest, copy_range(batch.as_slice(), 0, batch.len())));
                actions.push(BatchAction::Announce(message));
                assert(actions@[actions@.len() - 2]->Store_1@ =~= batch@);
                assert(batch_actions(actions@) =~= so_far.push(
                    BatchActionModel::Store(digest_of(batch@), batch@),
                ).push(BatchActionModel::Announce(announcement(id, batch@, own_digest))));
            }
            assert(batch_actions(actions@) =~= before + deliveries(
                id,
                views.take(i + 1),
                own_digest,
            ));
            i += 1;
        }
        assert(views.take(n as int) =~= views);
    }
}

/// Every batch that was let through is stored under its digest, and the primary
/// is told of it: as ours or as somebody else's.
pub proof fn law_batches_delivered(
    id: WorkerId,
    checked: Seq<Option<Seq<u8>>>,
    own_digest: bool,
    i: int,
)
    requires
        0 <= i < checked.len(),
        checked[i] is Some,
    ensures
        ({
            let actions = deliveries(id, checked, own_digest);
            let batch = checked[i]->0;
            let digest = digest_of(batch);
            &&& actions.contains(BatchActionModel::Store(digest, batch))
            &&& own_digest ==> actions.contains(
                BatchActionModel::Announce(WorkerPrimaryMessage::OurBatch(digest, id)),
            )
            &&& !own_digest ==> actions.contains(
                BatchActionModel::Announce(WorkerPrimaryMessage::OthersBatch(digest, id)),
            )
        }),
    decreases checked.len(),
{
    let front = checked.drop_last();
    let actions = deliveries(id, checked, own_digest);
    let earlier = deliveries(id, front, own_digest);
    let batch = checked[i]->0;
    let store = BatchActionModel::Store(digest_of(batch), batch);
    let announce = BatchActionModel::Announce(
        if own_digest {
            WorkerPrimaryMessage::OurBatch(digest_of(batch), id)
        } else {
            WorkerPrimaryMessage::OthersBatch(digest_of(batch), id)
        },
    );
    if i < front.len() {
        law_batches_delivered(id, front, own_digest, i);
        let j = choose|j: int| 0 <= j < earlier.len() && earlier[j] == store;
        let k = choose|k: int| 0 <= k < earlier.len() && earlier[k] == announce;
        assert(actions[j] == store);
        assert(actions[k] == announce);
    } else {
        assert(actions[earlier.len() as int] == store);
        assert(actions[earlier.len() as int + 1] == announce);
    }
}

/// The chunks in which transactions are checked leave none out.
pub proof fn law_chunks_cover(txs: Seq<Seq<u8>>, i: int)
    requires
        0 <= i < txs.len(),
    ensures
        0 <= i % 128 < chunk_of(txs, i / 128).len(),
        chunk_of(txs, i / 128)[i % 128] == txs[i],
{
}

} // verus!
