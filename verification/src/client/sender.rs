//! The send side of the client: builds and signs transactions at a steady rate.

use crate::bytes::{append_bytes, be_bytes, be_value, lemma_be_round_trip, lemma_encoding_width, u64_be};
use crate::config::SocketAddress;
use crate::crypto::{
    digest_of, hash_bytes, neutral_point, signer_output, transaction_body, transaction_signature,
    transaction_valid, PublicKey, Signer,
};
use crate::worker::client_reply::{
    encoded_address, lemma_address_round_trip, reply_address, KIND_SAMPLE, MAX_REPLIERS,
};
use vstd::prelude::*;

verus! {

/// Bursts per second.
pub const PRECISION: u64 = 20;

/// Milliseconds between bursts.
pub const BURST_DURATION: u64 = 50;

/// Smallest transaction, so that all transactions are different.
pub const MIN_SIZE: usize = 16;

/// Kind byte of a transaction whose latency is not tracked.
pub const KIND_STANDARD: u8 = 1;

/// Why the client cannot run.
#[derive(Clone, Copy, Debug, PartialEq, Eq, Structural)]
pub enum ClientError {
    /// Transaction size must be at least 16 bytes.
    TransactionTooSmall,
    /// The reply address must be IPv4: it has to fit in the transaction.
    ReplyAddressNotIpv4,
}

/// The unsigned part of a transaction: kind, id and reply address, padded with
/// zeros to `size` bytes.
pub open spec fn body_of(kind: u8, id: u64, reply: Seq<u8>, size: nat) -> Seq<u8> {
    let head = seq![kind] + be_bytes(id as nat, 8) + reply;
    head + Seq::new((size - head.len()) as nat, |i: int| 0u8)
}

/// A whole transaction: the body and the signature over its digest.
pub open spec fn signed_transaction(disabled: bool, keypair: Seq<u8>, body: Seq<u8>) -> Seq<u8> {
    body + signer_output(disabled, keypair, digest_of(body)@)
}

/// The id of the transaction with the given first nine bytes.
pub open spec fn id_in(tag: Seq<u8>) -> nat {
    be_value(tag.subrange(1, 9))
}

/// What a transaction carries can be read back from it: its kind, its id, and
/// the address that its reply goes to.
pub proof fn lemma_transaction_carries(
    kind: u8,
    id: u64,
    addr: SocketAddress,
    size: nat,
    rest: Seq<u8>,
)
    requires
        size >= MIN_SIZE,
        encoded_address(addr) is Some,
        addr.port != 0,
    ensures
        ({
            let tx = body_of(kind, id, encoded_address(addr)->0, size) + rest;
            &&& tx.len() == size + rest.len()
            &&& tx[0] == kind
            &&& id_in(tx.take(9)) == id
            &&& reply_address(tx) == Some(addr)
        }),
{
    let reply = encoded_address(addr)->0;
    let body = body_of(kind, id, reply, size);
    let tx = body + rest;
    lemma_encoding_width(id as nat, 8);
    assert(vstd::arithmetic::power::pow(256, 8) == 0x1_0000_0000_0000_0000) by {
        reveal_with_fuel(vstd::arithmetic::power::pow, 9);
    }
    lemma_be_round_trip(id as nat, 8);
    assert(tx.take(9).subrange(1, 9) =~= be_bytes(id as nat, 8));
    assert(tx.subrange(9, 15) =~= reply);
    lemma_address_round_trip(addr, tx);
}

/// A transaction that carries no reply address asks for no reply.
pub proof fn lemma_no_address_no_reply(kind: u8, id: u64, size: nat, rest: Seq<u8>)
    requires
        size >= MIN_SIZE,
    ensures
        reply_address(body_of(kind, id, Seq::new(6, |i: int| 0u8), size) + rest) is None,
{
    lemma_encoding_width(id as nat, 8);
    let tx = body_of(kind, id, Seq::new(6, |i: int| 0u8), size) + rest;
    assert(tx[13] == 0 && tx[14] == 0);
}

/// Whether a message is as long as a transaction of `size` bytes with its
/// signature, and accepted from the signer if that is a working one, unless the
/// first half of the signature is the neutral point.
pub open spec fn accepted_from(signer: &Signer, size: nat, tx: Seq<u8>) -> bool {
    &&& tx.len() == size + 64
    &&& forall|key: PublicKey|
        !signer.disabled() && key@ == signer.public_view() && tx.subrange(
            size as int,
            size as int + 32,
        ) != neutral_point() ==> #[trigger] transaction_valid(key, tx)
}

/// Builds and signs one transaction.
pub fn make_transaction(signer: &Signer, kind: u8, id: u64, reply: &[u8; 6], size: usize) -> (tx:
    Vec<u8>)
    requires
        size >= MIN_SIZE,
    ensures
        tx@ == signed_transaction(
            signer.disabled(),
            signer.keypair(),
            body_of(kind, id, reply@, size as nat),
        ),
        accepted_from(signer, size as nat, tx@),
{
    let mut tx: Vec<u8> = Vec::new();
    tx.push(kind);
    let id_bytes = u64_be(id);
    append_bytes(&mut tx, id_bytes.as_slice());
    append_bytes(&mut tx, reply.as_slice());
    let ghost head = seq![kind] + be_bytes(id as nat, 8) + reply@;
    proof {
        lemma_encoding_width(id as nat, 8);
        assert(tx@ =~= head);
    }
    while tx.len() < size
        invariant
            head.len() == 15,
            15 <= tx@.len() <= size,
            tx@ == head + Seq::new((tx@.len() - 15) as nat, |i: int| 0u8),
        decreases size - tx@.len(),
    {
        let ghost before = tx@;
        tx.push(0);
        assert(tx@ =~= head + Seq::new((tx@.len() - 15) as nat, |i: int| 0u8));
    }
    let ghost body = body_of(kind, id, reply@, size as nat);
    assert(tx@ =~= body);
    let signature = signer.sign(&hash_bytes(tx.as_slice()));
    let flat = signature.flatten();
    append_bytes(&mut tx, flat.as_slice());
    proof {
        assert(transaction_body(tx@) =~= body);
        assert(transaction_signature(tx@) =~= flat@);
        assert(tx@.subrange(size as int, size + 32) =~= signature.part1@);
    }
    tx
}

/// A transaction ready to be sent.
pub struct Outgoing {
    pub message: Vec<u8>,
    /// The id under which its latency is tracked, for a sampled transaction.
    pub sampled: Option<u64>,
}

/// The kind and id of transaction number `x` of a burst of `burst`: one of
/// them is the sample, identified by the burst's number, and the others count
/// up from `nonce`.
pub open spec fn planned(burst: int, counter: u64, nonce: u64, x: int) -> (u8, u64) {
    let sample = counter as int % burst;
    if x == sample {
        (KIND_SAMPLE, counter)
    } else if x < sample {
        (KIND_STANDARD, nonce.wrapping_add((x + 1) as u64))
    } else {
        (KIND_STANDARD, nonce.wrapping_add(x as u64))
    }
}

/// What to do when it is time for the next burst.
pub struct Tick {
    /// The transactions to send.
    pub burst: Vec<Outgoing>,
    /// Whether the counters are reported now: once per second.
    pub report: bool,
}

/// What became of a transaction that was handed to the sender.
#[derive(Clone, Copy, Debug, PartialEq, Eq, Structural)]
pub enum Handover {
    Accepted,
    Full,
    Closed,
}

/// Send-side counters.
#[derive(Clone, Copy, Debug, PartialEq, Eq, Structural)]
pub struct SendStats {
    /// Transactions generated.
    pub produced: u64,
    /// Transactions that made it to the sender.
    pub dispatched: u64,
    /// Transactions that did not.
    pub dropped: u64,
}

impl SendStats {
    /// Nothing sent yet.
    pub fn new() -> (stats: Self)
        ensures
            stats == (SendStats { produced: 0, dispatched: 0, dropped: 0 }),
    {
        SendStats { produced: 0, dispatched: 0, dropped: 0 }
    }

    /// Counts one transaction; whether the burst goes on.
    pub fn handed_over(&mut self, outcome: Handover) -> (go_on: bool)
        ensures
            go_on == (outcome != Handover::Closed),
            final(self).produced == old(self).produced.wrapping_add(1),
            final(self).dispatched == (if outcome == Handover::Accepted {
                old(self).dispatched.wrapping_add(1)
            } else {
                old(self).dispatched
            }),
            final(self).dropped == (if outcome == Handover::Full {
                old(self).dropped.wrapping_add(1)
            } else {
                old(self).dropped
            }),
            // Every transaction is either dispatched or dropped.
            go_on && old(self).balanced() && old(self).produced < u64::MAX ==>
                final(self).balanced(),
    {
        self.produced = self.produced.wrapping_add(1);
        match outcome {
            Handover::Accepted => {
                self.dispatched = self.dispatched.wrapping_add(1);
                true
            },
            Handover::Full => {
                self.dropped = self.dropped.wrapping_add(1);
                true
            },
            Handover::Closed => false,
        }
    }

    /// Whether every transaction was either dispatched or dropped.
    pub open spec fn balanced(&self) -> bool {
        self.produced == self.dispatched + self.dropped
    }
}

/// Sends transactions at a steady rate.
pub struct Client {
    /// Bytes of each transaction, without its signature.
    size: usize,
    /// Transactions per burst.
    burst: u64,
    signer: Signer,
    /// The reply address, in the form embedded in each transaction.
    reply_bytes: [u8; 6],
    /// Bursts sent so far.
    counter: u64,
    /// The id that the next burst counts up from.
    nonce: u64,
}

/// The number of distinct replicas that must reply before a transaction
/// counts, and the number that answer each, as configured: the first is 1
/// unless given, the second is the first unless given.
pub fn reply_limits(quorum: Option<usize>, count: Option<usize>) -> (limits: (usize, usize))
    ensures
        limits.0 == crate::client::tracker::clamped(
            (match quorum {
                Some(q) => q as int,
                None => 1,
            }),
            1,
            MAX_REPLIERS as int,
        ),
        limits.1 == crate::client::tracker::clamped(
            (match count {
                Some(c) => c as int,
                None => limits.0 as int,
            }),
            limits.0 as int,
            MAX_REPLIERS as int,
        ),
{
    let quorum: usize = match quorum {
        Some(q) => q,
        None => 1,
    };
    let quorum: usize = if quorum < 1 {
        1
    } else if quorum > MAX_REPLIERS {
        MAX_REPLIERS
    } else {
        quorum
    };
    let count: usize = match count {
        Some(c) => c,
        None => quorum,
    };
    let count: usize = if count < quorum {
        quorum
    } else if count > MAX_REPLIERS {
        MAX_REPLIERS
    } else {
        count
    };
    (quorum, count)
}

/// Room for a whole run's worth of offered load, with a floor for slow clients.
pub fn buffer_size(rate: u64) -> (size: u64)
    requires
        rate * 120 <= u64::MAX,
    ensures
        size == (if rate * 120 > 200_000 {
            rate * 120
        } else {
            200_000
        }),
{
    let wanted: u64 = rate * 120;
    if wanted > 200_000 {
        wanted
    } else {
        200_000
    }
}

impl Client {
    /// Bytes of each transaction, without its signature.
    pub closed spec fn tx_size(&self) -> nat {
        self.size as nat
    }

    /// Transactions per burst.
    pub closed spec fn burst_size(&self) -> nat {
        self.burst as nat
    }

    /// The embedded reply address.
    pub closed spec fn reply(&self) -> Seq<u8> {
        self.reply_bytes@
    }

    /// Bursts sent so far.
    pub closed spec fn bursts(&self) -> u64 {
        self.counter
    }

    /// The id that the next burst counts up from.
    pub closed spec fn next_nonce(&self) -> u64 {
        self.nonce
    }

    /// Signs the transactions.
    pub closed spec fn key(&self) -> Signer {
        self.signer
    }

    /// What holds of every client: transactions are large enough.
    pub open spec fn wf(&self) -> bool {
        self.tx_size() >= MIN_SIZE
    }

    /// A client sending transactions of `size` bytes at `rate` per second, with
    /// replies to `reply_addr`; ids count up from `nonce`.
    pub fn new(
        size: usize,
        rate: u64,
        signer: Signer,
        reply_addr: Option<SocketAddress>,
        nonce: u64,
    ) -> (client: Result<Client, ClientError>)
        ensures
            client matches Err(e) ==> e == (if reply_addr is Some && encoded_address(
                reply_addr->0,
            ) is None {
                ClientError::ReplyAddressNotIpv4
            } else {
                ClientError::TransactionTooSmall
            }),
            client is Err <==> size < MIN_SIZE || (reply_addr is Some && encoded_address(
                reply_addr->0,
            ) is None),
            client matches Ok(client) ==> {
                &&& client.wf()
                &&& client.tx_size() == size
                &&& client.burst_size() == rate / PRECISION
                &&& client.key() == signer
                &&& client.reply() == (match reply_addr {
                    Some(addr) => encoded_address(addr)->0,
                    None => Seq::new(6, |i: int| 0u8),
                })
                &&& client.bursts() == 0
                &&& client.next_nonce() == nonce
            },
    {
        let mut reply_bytes: [u8; 6] = [0u8; 6];
        assert(reply_bytes@ =~= Seq::new(6, |i: int| 0u8));
        if let Some(addr) = reply_addr {
            match crate::worker::client_reply::encode_reply_addr(&addr) {
                Some(encoded) => {
                    reply_bytes = encoded;
                },
                None => {
                    return Err(ClientError::ReplyAddressNotIpv4);
                },
            }
        }
        if size < MIN_SIZE {
            return Err(ClientError::TransactionTooSmall);
        }
        Ok(Client { size, burst: rate / PRECISION, signer, reply_bytes, counter: 0, nonce })
    }

    /// The next burst of transactions; `None` when the sender is gone.
    pub fn tick(&mut self, closed: bool) -> (tick: Option<Tick>)
        requires
            old(self).wf(),
            old(self).bursts() < u64::MAX,
            old(self).burst_size() <= usize::MAX,
        ensures
            final(self).wf(),
            final(self).tx_size() == old(self).tx_size(),
            final(self).burst_size() == old(self).burst_size(),
            final(self).reply() == old(self).reply(),
            final(self).key() == old(self).key(),
            tick is None <==> closed,
            closed ==> final(self).bursts() == old(self).bursts() && final(self).next_nonce()
                == old(self).next_nonce(),
            !closed ==> final(self).bursts() == old(self).bursts() + 1 && final(self).next_nonce()
                == old(self).next_nonce().wrapping_add(old(self).burst_size() as u64),
            tick matches Some(tick) ==> {
                &&& tick.report == (old(self).bursts() % PRECISION == 0)
                &&& tick.burst@.len() == old(self).burst_size()
                &&& forall|x: int|
                    0 <= x < tick.burst@.len() ==> {
                        let (kind, id) = planned(
                            old(self).burst_size() as int,
                            old(self).bursts(),
                            old(self).next_nonce(),
                            x,
                        );
                        &&& (#[trigger] tick.burst@[x]).message@ == signed_transaction(
                            old(self).key().disabled(),
                            old(self).key().keypair(),
                            body_of(kind, id, old(self).reply(), old(self).tx_size()),
                        )
                        &&& accepted_from(
                            &old(self).key(),
                            old(self).tx_size(),
                            tick.burst@[x].message@,
                        )
                        &&& tick.burst@[x].sampled == (if kind == KIND_SAMPLE {
                            Some(id)
                        } else {
                            None::<u64>
                        })
                    }
            },
    {
        if closed {
            return None;
        }
        let report = self.counter % PRECISION == 0;
        let burst = self.burst;
        let mut batch: Vec<Outgoing> = Vec::new();
        let mut x: u64 = 0;
        while x < burst
            invariant
                x <= burst == self.burst,
                *self == *old(self),
                self.wf(),
                batch@.len() == x,
                forall|i: int|
                    0 <= i < batch@.len() ==> {
                        let (kind, id) = planned(burst as int, self.counter, self.nonce, i);
                        &&& (#[trigger] batch@[i]).message@ == signed_transaction(
                            self.signer.disabled(),
                            self.signer.keypair(),
                            body_of(kind, id, self.reply_bytes@, self.size as nat),
                        )
                        &&& accepted_from(&self.signer, self.size as nat, batch@[i].message@)
                        &&& batch@[i].sampled == (if kind == KIND_SAMPLE {
                            Some(id)
                        } else {
                            None::<u64>
                        })
                    },
            decreases burst - x,
        {
            let sample: u64 = self.counter % burst;
            if x == sample {
                let message = make_transaction(
                    &self.signer,
                    KIND_SAMPLE,
                    self.counter,
                    &self.reply_bytes,
                    self.size,
                );
                batch.push(Outgoing { message, sampled: Some(self.counter) });
            } else {
                let step: u64 = if x < sample {
                    x + 1
                } else {
                    x
                };
                let message = make_transaction(
                    &self.signer,
                    KIND_STANDARD,
                    self.nonce.wrapping_add(step),
                    &self.reply_bytes,
                    self.size,
                );
                batch.push(Outgoing { message, sampled: None });
            }
            x += 1;
        }
        self.nonce = self.nonce.wrapping_add(burst);
        self.counter = self.counter + 1;
        Some(Tick { burst: batch, report })
    }
}

/// The transactions of a burst have different ids of their kind, as long as
/// there are no more of them than there are ids.
pub proof fn lemma_burst_distinct(burst: int, counter: u64, nonce: u64, x: int, y: int)
    requires
        0 <= x < y < burst <= u64::MAX,
    ensures
        planned(burst, counter, nonce, x) != planned(burst, counter, nonce, y),
{
}

/// A burst has exactly one sample, identified by the number of the burst.
pub proof fn lemma_one_sample(burst: int, counter: u64, nonce: u64, x: int)
    requires
        0 <= x < burst,
    ensures
        planned(burst, counter, nonce, x).0 == KIND_SAMPLE <==> x == counter as int % burst,
        0 <= counter as int % burst < burst,
        planned(burst, counter, nonce, counter as int % burst) == (KIND_SAMPLE, counter),
{
}

/// The standard ids of a burst lie between its nonce and that of the next
/// burst.
pub proof fn law_ids_follow_nonce(burst: int, counter: u64, nonce: u64)
    requires
        0 < burst,
        nonce + burst <= u64::MAX,
    ensures
        forall|x: int|
            0 <= x < burst && (#[trigger] planned(burst, counter, nonce, x)).0 == KIND_STANDARD
                ==> nonce < planned(burst, counter, nonce, x).1 < nonce + burst,
{
}

/// Every id between the nonces of two bursts is given to a transaction of the
/// first.
pub proof fn law_no_id_left_out(burst: int, counter: u64, nonce: u64, id: u64)
    requires
        0 < burst,
        nonce + burst <= u64::MAX,
        nonce < id < nonce + burst,
    ensures
        exists|x: int|
            0 <= x < burst && #[trigger] planned(burst, counter, nonce, x) == (KIND_STANDARD, id),
{
    let sample = counter as int % burst;
    let x = if id - nonce - 1 < sample {
        id - nonce - 1
    } else {
        id - nonce
    };
    assert(planned(burst, counter, nonce, x) == (KIND_STANDARD, id));
}

/// No two transactions of a client are the same: those of different bursts have
/// different ids of their kind, as long as the ids last.
pub proof fn law_bursts_distinct(
    burst: int,
    first: u64,
    second: u64,
    nonce: u64,
    later: u64,
    x: int,
    y: int,
)
    requires
        0 < burst,
        first < second,
        later == nonce + (second - first) * burst,
        later + burst <= u64::MAX,
        0 <= x < burst,
        0 <= y < burst,
    ensures
        planned(burst, first, nonce, x) != planned(burst, second, later, y),
{
    assert((second - first) * burst >= burst) by (nonlinear_arith)
        requires
            first < second,
            0 < burst,
    ;
    law_ids_follow_nonce(burst, first, nonce);
    law_ids_follow_nonce(burst, second, later);
    lemma_one_sample(burst, first, nonce, x);
    lemma_one_sample(burst, second, later, y);
}

/// A transaction is its body followed by the signature over the digest of the
/// body.
pub proof fn law_transaction_is_signed(disabled: bool, keypair: Seq<u8>, body: Seq<u8>)
    ensures
        signed_transaction(disabled, keypair, body).take(body.len() as int) == body,
        signed_transaction(disabled, keypair, body).skip(body.len() as int) == signer_output(
            disabled,
            keypair,
            digest_of(body)@,
        ),
{
}

} // verus!
