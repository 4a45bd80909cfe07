//! Wire format shared by the client and the replicas that answer it.
//!
//! Each client's reply address travels inside the transaction itself, so any
//! replica that stores the batch can answer. Transaction layout, ahead of the
//! trailing 64-byte client signature:
//!
//! ```text
//! byte  0        kind: 0 = sampled (latency-tracked), 1 = ordinary
//! bytes 1..9     transaction id (u64, big endian)
//! bytes 9..13    client reply address, IPv4
//! bytes 13..15   client reply port (u16, big endian); 0 = do not reply
//! bytes 15..     padding out to the configured transaction size
//! ```
//!
//! A reply is the request's own first 9 bytes echoed back. Each frame starts
//! with the replying replica's index in committee order.
//!
//! ```text
//! unsigned:  [replier index][tag]...
//! signed:    [replier index]([tag][64-byte Ed25519 signature])...
//! ```

use crate::bytes::{append_bytes, copy_range};
use crate::config::{IpAddress, SocketAddress};
use crate::crypto::{
    byte_strings, digest_of, ed25519_verifies, hash_bytes, may_pass, signer_output, transaction_body, transaction_flags_spec, transaction_items, transaction_signature, transaction_undecodable, transaction_valid, transaction_verdict, verify_transactions, PublicKey, Signer,
};
use vstd::prelude::*;

verus! {

/// Bytes of the transaction echoed back so the client can match the reply.
pub const TAG_LEN: usize = 9;

/// One reply. The tag is the whole of it.
pub const REPLY_ENTRY_LEN: usize = TAG_LEN;

/// Leading byte of every reply frame: the replier's index in committee order.
pub const REPLY_HEADER_LEN: usize = 1;

/// Signature following each tag in a signed reply frame.
pub const REPLY_SIGNATURE_LEN: usize = 64;

/// One signed reply: a tag and its signature.
pub const SIGNED_REPLY_ENTRY_LEN: usize = TAG_LEN + REPLY_SIGNATURE_LEN;

/// Largest committee whose repliers a client can tell apart.
pub const MAX_REPLIERS: usize = 64;

/// Offset of the client's reply address within a transaction.
pub const REPLY_ADDR_OFFSET: usize = TAG_LEN;

/// IPv4 address plus port.
pub const REPLY_ADDR_LEN: usize = 6;

/// Smallest transaction payload that can carry a reply address.
pub const MIN_TX_LEN: usize = REPLY_ADDR_OFFSET + REPLY_ADDR_LEN;

/// Kind byte marking a transaction whose latency the client tracks.
pub const KIND_SAMPLE: u8 = 0;

/// The six bytes that stand for an address in a transaction; none for IPv6.
pub open spec fn encoded_address(addr: SocketAddress) -> Option<Seq<u8>> {
    match addr.ip {
        IpAddress::V4(a, b, c, d) => Some(
            seq![a, b, c, d, (addr.port / 256) as u8, (addr.port % 256) as u8],
        ),
        IpAddress::V6(_) => None,
    }
}

/// The address to which the sender of `tx` wants its reply: none when the
/// transaction is too short to carry one or its port is 0.
pub open spec fn reply_address(tx: Seq<u8>) -> Option<SocketAddress> {
    if tx.len() < MIN_TX_LEN {
        None
    } else {
        let port = (tx[13] * 256 + tx[14]) as u16;
        if port == 0 {
            None
        } else {
            Some(SocketAddress { ip: IpAddress::V4(tx[9], tx[10], tx[11], tx[12]), port })
        }
    }
}

/// Encode a reply address for the client to embed in its transactions.
///
/// Only IPv4 is supported.
pub fn encode_reply_addr(addr: &SocketAddress) -> (encoded: Option<[u8; 6]>)
    ensures
        encoded is Some <==> encoded_address(*addr) is Some,
        encoded matches Some(bytes) ==> encoded_address(*addr) == Some(bytes@),
{
    match addr.ip {
        IpAddress::V4(a, b, c, d) => {
            let bytes: [u8; 6] = [a, b, c, d, (addr.port / 256) as u8, (addr.port % 256) as u8];
            assert(bytes@ =~= seq![
                a,
                b,
                c,
                d,
                (addr.port / 256) as u8,
                (addr.port % 256) as u8,
            ]);
            Some(bytes)
        },
        IpAddress::V6(_) => None,
    }
}

/// Read the reply address out of a transaction.
///
/// `None` when the transaction is too short to carry one or the client asked
/// for no reply (port 0).
pub fn decode_reply_addr(tx: &[u8]) -> (address: Option<SocketAddress>)
    ensures
        address == reply_address(tx@),
{
    if tx.len() < MIN_TX_LEN {
        return None;
    }
    let port: u16 = tx[13] as u16 * 256 + tx[14] as u16;
    if port == 0 {
        return None;
    }
    Some(SocketAddress { ip: IpAddress::V4(tx[9], tx[10], tx[11], tx[12]), port })
}

/// An address written at its offset is read back, whatever stands around it.
pub proof fn lemma_address_round_trip(addr: SocketAddress, tx: Seq<u8>)
    requires
        encoded_address(addr) is Some,
        addr.port != 0,
        tx.len() >= MIN_TX_LEN,
        tx.subrange(9, 15) == encoded_address(addr)->0,
    ensures
        reply_address(tx) == Some(addr),
{
    let bytes = tx.subrange(9, 15);
    assert(bytes[0] == tx[9] && bytes[1] == tx[10] && bytes[2] == tx[11] && bytes[3] == tx[12]);
    assert(bytes[4] == tx[13] && bytes[5] == tx[14]);
    assert((addr.port / 256) * 256 + addr.port % 256 == addr.port);
}

/// A transaction whose port bytes are zero asks for no reply.
pub proof fn lemma_zero_port_asks_no_reply(tx: Seq<u8>)
    requires
        tx.len() >= MIN_TX_LEN,
        tx[13] == 0,
        tx[14] == 0,
    ensures
        reply_address(tx) is None,
{
}

/// Bytes a reply signature covers: the replier index then the tag.
pub open spec fn reply_message(replier: u8, tag: Seq<u8>) -> Seq<u8> {
    seq![replier] + tag
}

fn reply_entry_message(replier: u8, tag: &[u8]) -> (message: Vec<u8>)
    ensures
        message@ == reply_message(replier, tag@),
{
    let mut message: Vec<u8> = Vec::new();
    message.push(replier);
    append_bytes(&mut message, tag);
    assert(message@ =~= reply_message(replier, tag@));
    message
}

/// The `i`-th whole tag of concatenated tags.
pub open spec fn tag_at(tags: Seq<u8>, i: int) -> Seq<u8> {
    tags.subrange(9 * i, 9 * i + 9)
}

/// One signed entry: a tag and the signature over it as replier `replier`.
pub open spec fn signed_entry(disabled: bool, keypair: Seq<u8>, replier: u8, tag: Seq<u8>) -> Seq<
    u8,
> {
    tag + signer_output(disabled, keypair, digest_of(reply_message(replier, tag))@)
}

/// The signed entries of the first `count` tags, concatenated.
pub open spec fn signed_entries(
    disabled: bool,
    keypair: Seq<u8>,
    replier: u8,
    tags: Seq<u8>,
    count: nat,
) -> Seq<u8>
    decreases count,
{
    if count == 0 {
        Seq::empty()
    } else {
        signed_entries(disabled, keypair, replier, tags, (count - 1) as nat) + signed_entry(
            disabled,
            keypair,
            replier,
            tag_at(tags, count - 1),
        )
    }
}

/// Whether an entry is a tag followed by the signature of the owner of `key`
/// over it as replier `replier`.
pub open spec fn entry_valid(key: PublicKey, replier: u8, entry: Seq<u8>) -> bool {
    entry.len() == SIGNED_REPLY_ENTRY_LEN && ed25519_verifies(
        key@,
        digest_of(reply_message(replier, entry.take(9)))@,
        entry.skip(9),
    )
}

/// Signing tags in two parts gives the entries of both, if the first part
/// ends on a tag boundary.
pub proof fn lemma_signed_entries_split(
    disabled: bool,
    keypair: Seq<u8>,
    replier: u8,
    a: Seq<u8>,
    b: Seq<u8>,
    n: nat,
    m: nat,
)
    requires
        a.len() == 9 * n,
        b.len() >= 9 * m,
    ensures
        signed_entries(disabled, keypair, replier, a + b, n + m) == signed_entries(
            disabled,
            keypair,
            replier,
            a,
            n,
        ) + signed_entries(disabled, keypair, replier, b, m),
    decreases m,
{
    if m > 0 {
        lemma_signed_entries_split(disabled, keypair, replier, a, b, n, (m - 1) as nat);
        assert(tag_at(a + b, n + m - 1) =~= tag_at(b, m - 1));
        assert(signed_entries(disabled, keypair, replier, a + b, n + m) =~= signed_entries(
            disabled,
            keypair,
            replier,
            a,
            n,
        ) + signed_entries(disabled, keypair, replier, b, m));
    } else {
        lemma_signed_entries_prefix(disabled, keypair, replier, a + b, a, n);
        assert(signed_entries(disabled, keypair, replier, a, n) + Seq::<u8>::empty()
            =~= signed_entries(disabled, keypair, replier, a, n));
    }
}

/// The entries depend only on the tags that they sign.
proof fn lemma_signed_entries_prefix(
    disabled: bool,
    keypair: Seq<u8>,
    replier: u8,
    a: Seq<u8>,
    b: Seq<u8>,
    n: nat,
)
    requires
        a.len() >= 9 * n,
        b.len() >= 9 * n,
        forall|i: int| 0 <= i < 9 * n ==> a[i] == b[i],
    ensures
        signed_entries(disabled, keypair, replier, a, n) == signed_entries(
            disabled,
            keypair,
            replier,
            b,
            n,
        ),
    decreases n,
{
    if n > 0 {
        lemma_signed_entries_prefix(disabled, keypair, replier, a, b, (n - 1) as nat);
        assert(tag_at(a, n - 1) =~= tag_at(b, n - 1));
    }
}

/// Sign each tag in `tags` (concatenated, TAG_LEN apiece) as replier
/// `replier`, returning the signed entries (`tag || signature`). A trailing
/// part shorter than a tag is left out.
pub fn sign_reply_entries(signer: &Signer, replier: u8, tags: &[u8]) -> (entries: Vec<u8>)
    ensures
        entries@ == signed_entries(
            signer.disabled(),
            signer.keypair(),
            replier,
            tags@,
            tags@.len() / 9,
        ),
        entries@.len() == tags@.len() / 9 * 73,
        // Every entry made by a working signer is valid.
        forall|key: PublicKey|
            !signer.disabled() && key@ == signer.public_view() ==> #[trigger] entries_signed(
                key,
                replier,
                entries@,
            ),
{
    let len: usize = tags.len();
    let count: usize = len / TAG_LEN;
    let mut entries: Vec<u8> = Vec::new();
    let mut i: usize = 0;
    while i < count
        invariant
            i <= count == len / 9,
            len == tags@.len(),
            entries@.len() == 73 * i,
            entries@ == signed_entries(
                signer.disabled(),
                signer.keypair(),
                replier,
                tags@,
                i as nat,
            ),
            forall|key: PublicKey|
                !signer.disabled() && key@ == signer.public_view() ==> #[trigger] entries_signed(
                    key,
                    replier,
                    entries@,
                ),
        decreases count - i,
    {
        let tag = copy_range(tags, TAG_LEN * i, TAG_LEN * i + TAG_LEN);
        let message = reply_entry_message(replier, tag.as_slice());
        let signature = signer.sign(&hash_bytes(message.as_slice()));
        let flat = signature.flatten();
        let ghost before = entries@;
        append_bytes(&mut entries, tag.as_slice());
        append_bytes(&mut entries, flat.as_slice());
        proof {
            assert(tag@ =~= tag_at(tags@, i as int));
            assert(entries@ =~= before + (tag@ + flat@));
            assert forall|key: PublicKey|
                !signer.disabled() && key@ == signer.public_view() implies #[trigger] entries_signed(
                key,
                replier,
                entries@,
            ) by {
                assert forall|j: int|
                    #![trigger entries@.subrange(73 * j, 73 * j + 73)]
                    0 <= j < entries@.len() / 73 && entries@.subrange(73 * j + 9, 73 * j + 41)
                        != crate::crypto::neutral_point() implies entry_valid(
                    key,
                    replier,
                    entries@.subrange(73 * j, 73 * j + 73),
                ) by {
                    let entry = entries@.subrange(73 * j, 73 * j + 73);
                    if j < i {
                        assert(entries_signed(key, replier, before));
                        assert(entry =~= before.subrange(73 * j, 73 * j + 73));
                        assert(entries@.subrange(73 * j + 9, 73 * j + 41) =~= before.subrange(
                            73 * j + 9,
                            73 * j + 41,
                        ));
                    } else {
                        assert(entry =~= tag@ + flat@);
                        assert(entry.take(9) =~= tag@);
                        assert(entry.skip(9) =~= flat@);
                        assert(entries@.subrange(73 * j + 9, 73 * j + 41) =~= signature.part1@);
                    }
                }
            }
        }
        i += 1;
    }
    entries
}

/// One flag per entry, given the verdict on all well-formed ones together.
pub open spec fn reply_flags(
    key: PublicKey,
    replier: u8,
    entries: Seq<Seq<u8>>,
    batch_valid: bool,
) -> Seq<bool> {
    Seq::new(
        entries.len(),
        |i: int|
            entries[i].len() == SIGNED_REPLY_ENTRY_LEN && (batch_valid || entry_valid(
                key,
                replier,
                entries[i],
            )),
    )
}

/// An entry laid out as `message || signature`, the shape that transactions
/// are checked in; empty for an entry of the wrong length.
pub open spec fn as_transaction(replier: u8, entry: Seq<u8>) -> Seq<u8> {
    if entry.len() == SIGNED_REPLY_ENTRY_LEN {
        reply_message(replier, entry.take(9)) + entry.skip(9)
    } else {
        Seq::empty()
    }
}

proof fn lemma_as_transaction(key: PublicKey, replier: u8, entry: Seq<u8>)
    ensures
        as_transaction(replier, entry).len() >= 64 <==> entry.len() == 73,
        transaction_valid(key, as_transaction(replier, entry)) == entry_valid(key, replier, entry),
        entry.len() == 73 ==> as_transaction(replier, entry).last() == entry.last(),
{
    let tx = as_transaction(replier, entry);
    if entry.len() == 73 {
        assert(tx.len() == 74);
        assert(transaction_body(tx) =~= reply_message(replier, entry.take(9)));
        assert(transaction_signature(tx) =~= entry.skip(9));
    }
}

/// The well-formed entries in that shape, in order.
pub open spec fn as_transactions(replier: u8, entries: Seq<Seq<u8>>) -> Seq<Seq<u8>> {
    Seq::new(entries.len(), |i: int| as_transaction(replier, entries[i]))
}

/// Whether an entry is whole, but its signature cannot be decoded.
pub open spec fn entry_undecodable(entry: Seq<u8>) -> bool {
    entry.len() == SIGNED_REPLY_ENTRY_LEN && entry.last() >= 32
}

/// Whether the flags are what a check of the entries may answer. With crypto
/// disabled all pass. Otherwise either each is judged by itself, or all whole
/// ones pass because the batch check accepted exactly these. Whatever the batch
/// check said, nothing valid is refused, and a signature that cannot be decoded
/// fails the batch and fails by itself.
pub open spec fn reply_verdict(
    key: PublicKey,
    replier: u8,
    entries: Seq<Seq<u8>>,
    crypto_disabled: bool,
    flags: Seq<bool>,
) -> bool {
    let strict = reply_flags(key, replier, entries, false);
    if crypto_disabled {
        flags == Seq::new(entries.len(), |i: int| true)
    } else {
        &&& flags == strict || (flags == reply_flags(key, replier, entries, true) && may_pass(
            transaction_items(key, as_transactions(replier, entries)),
        ))
        &&& forall|i: int| 0 <= i < entries.len() && strict[i] ==> #[trigger] flags[i]
        &&& (exists|i: int| 0 <= i < entries.len() && entry_undecodable(#[trigger] entries[i]))
            ==> flags == strict
        &&& forall|i: int|
            0 <= i < entries.len() && entry_undecodable(#[trigger] entries[i]) ==> !flags[i]
    }
}

/// Concatenated signed entries, cut into single ones.
pub open spec fn cut_entries(entries: Seq<u8>) -> Seq<Seq<u8>> {
    Seq::new(entries.len() / 73, |i: int| entries.subrange(73 * i, 73 * i + 73))
}

/// Whether signed entries, as a working signer with public key `key` makes them
/// for replier `replier`, are valid but for signatures whose first half is the
/// neutral point.
pub open spec fn entries_signed(key: PublicKey, replier: u8, entries: Seq<u8>) -> bool {
    forall|i: int|
        #![trigger entries.subrange(73 * i, 73 * i + 73)]
        0 <= i < entries.len() / 73 && entries.subrange(73 * i + 9, 73 * i + 41)
            != crate::crypto::neutral_point() ==> entry_valid(
            key,
            replier,
            entries.subrange(73 * i, 73 * i + 73),
        )
}

/// Every entry made by a working signer is accepted, unless the first half of
/// its signature is the neutral point.
pub proof fn law_signed_entries_pass(
    key: PublicKey,
    replier: u8,
    entries: Seq<u8>,
    flags: Seq<bool>,
)
    requires
        entries_signed(key, replier, entries),
        reply_verdict(key, replier, cut_entries(entries), false, flags),
    ensures
        flags.len() == entries.len() / 73,
        forall|i: int|
            0 <= i < flags.len() && entries.subrange(73 * i + 9, 73 * i + 41)
                != crate::crypto::neutral_point() ==> #[trigger] flags[i],
{
    let strict = reply_flags(key, replier, cut_entries(entries), false);
    assert forall|i: int|
        0 <= i < flags.len() && entries.subrange(73 * i + 9, 73 * i + 41)
            != crate::crypto::neutral_point() implies #[trigger] flags[i] by {
        assert(cut_entries(entries)[i] == entries.subrange(73 * i, 73 * i + 73));
        assert(strict[i]);
    }
}

/// Check signed entries (`tag || signature`) that claim to come from
/// replier `replier`, owning `key`.
///
/// One flag per entry. The entries are checked as one batch, then one by one
/// if the batch fails. Entries of the wrong length fail. Always true when
/// crypto is disabled, since replicas then sign with zeros.
pub fn verify_reply_entries(
    key: &PublicKey,
    replier: u8,
    entries: &[Vec<u8>],
    crypto_disabled: bool,
) -> (flags: Vec<bool>)
    ensures
        reply_verdict(*key, replier, byte_strings(entries@), crypto_disabled, flags@),
{
    if crypto_disabled {
        let mut flags: Vec<bool> = Vec::new();
        let mut i: usize = 0;
        while i < entries.len()
            invariant
                i <= entries@.len(),
                flags@ == Seq::new(i as nat, |j: int| true),
            decreases entries@.len() - i,
        {
            flags.push(true);
            assert(flags@ =~= Seq::new((i + 1) as nat, |j: int| true));
            i += 1;
        }
        return flags;
    }
    let mut signed: Vec<Vec<u8>> = Vec::new();
    let mut i: usize = 0;
    while i < entries.len()
        invariant
            i <= entries@.len(),
            signed@.len() == i,
            forall|j: int|
                0 <= j < i ==> (#[trigger] signed@[j])@ == as_transaction(replier, entries@[j]@),
        decreases entries@.len() - i,
    {
        let entry = entries[i].as_slice();
        let mut laid_out: Vec<u8> = Vec::new();
        if entry.len() == SIGNED_REPLY_ENTRY_LEN {
            let tag = copy_range(entry, 0, TAG_LEN);
            let signature = copy_range(entry, TAG_LEN, entry.len());
            assert(tag@ =~= entry@.take(9));
            assert(signature@ =~= entry@.skip(9));
            laid_out = reply_entry_message(replier, tag.as_slice());
            append_bytes(&mut laid_out, signature.as_slice());
        }
        assert(laid_out@ =~= as_transaction(replier, entry@));
        signed.push(laid_out);
        i += 1;
    }
    let flags = verify_transactions(key, signed.as_slice());
    proof {
        let strings = byte_strings(entries@);
        let laid_out = byte_strings(signed@);
        assert forall|j: int| 0 <= j < strings.len() implies laid_out[j] == as_transaction(
            replier,
            #[trigger] strings[j],
        ) by {
            assert(signed@[j]@ == as_transaction(replier, entries@[j]@));
        }
        assert forall|batch: bool|
            #![auto]
            transaction_flags_spec(*key, laid_out, batch) == reply_flags(
                *key,
                replier,
                strings,
                batch,
            ) by {
            assert forall|j: int| 0 <= j < strings.len() implies transaction_flags_spec(
                *key,
                laid_out,
                batch,
            )[j] == reply_flags(*key, replier, strings, batch)[j] by {
                lemma_as_transaction(*key, replier, strings[j]);
            }
            assert(transaction_flags_spec(*key, laid_out, batch) =~= reply_flags(
                *key,
                replier,
                strings,
                batch,
            ));
        }
        assert(transaction_flags_spec(*key, laid_out, true) == reply_flags(
            *key,
            replier,
            strings,
            true,
        ));
        assert(transaction_flags_spec(*key, laid_out, false) == reply_flags(
            *key,
            replier,
            strings,
            false,
        ));
        assert(laid_out =~= as_transactions(replier, strings));
        assert forall|j: int|
            0 <= j < entries@.len() && entry_undecodable(#[trigger] strings[j]) implies flags@
            == reply_flags(*key, replier, strings, false) && !flags@[j] by {
            lemma_as_transaction(*key, replier, strings[j]);
            assert(transaction_undecodable(laid_out[j]));
        }
    }
    flags
}

/// Closes a reply frame with one signature over all of it.
pub fn sign_reply_frame(signer: &Signer, frame: &mut Vec<u8>)
    ensures
        final(frame)@ == old(frame)@ + signer_output(
            signer.disabled(),
            signer.keypair(),
            digest_of(old(frame)@)@,
        ),
        // A frame closed by a working signer is accepted from it.
        forall|key: PublicKey|
            !signer.disabled() && key@ == signer.public_view() && final(frame)@.subrange(
                old(frame)@.len() as int,
                (old(frame)@.len() + 32) as int,
            ) != crate::crypto::neutral_point() ==> #[trigger] transaction_valid(
                key,
                final(frame)@,
            ),
{
    let signature = signer.sign(&hash_bytes(frame.as_slice()));
    let flat = signature.flatten();
    let ghost body = frame@;
    append_bytes(frame, flat.as_slice());
    proof {
        assert(transaction_body(frame@) =~= body);
        assert(transaction_signature(frame@) =~= flat@);
        assert(frame@.subrange(body.len() as int, (body.len() + 32) as int) =~= signature.part1@);
    }
}

/// Checks frames that end in one signature by `key` over all that stands
/// before it. One flag per frame.
pub fn verify_reply_frames(key: &PublicKey, frames: &[Vec<u8>]) -> (flags: Vec<bool>)
    ensures
        transaction_verdict(*key, byte_strings(frames@), flags@),
{
    verify_transactions(key, frames)
}

/// A check of reply entries answers on each: a tag that is followed by the
/// replier's valid signature over replier and tag passes, and an entry of the
/// wrong length fails.
pub proof fn law_entries_judged(
    key: PublicKey,
    replier: u8,
    entries: Seq<Seq<u8>>,
    flags: Seq<bool>,
    i: int,
)
    requires
        reply_verdict(key, replier, entries, false, flags),
        0 <= i < entries.len(),
    ensures
        flags.len() == entries.len(),
        entries[i].len() == 73 && ed25519_verifies(
            key@,
            digest_of(seq![replier] + entries[i].take(9))@,
            entries[i].skip(9),
        ) ==> flags[i],
        entries[i].len() != 73 ==> !flags[i],
{
    let strict = reply_flags(key, replier, entries, false);
    assert(strict[i] == entry_valid(key, replier, entries[i]));
    if entries[i].len() != 73 {
        assert(!flags[i]);
    }
}

/// Each tag is followed by the signature over the replier and the tag.
pub proof fn law_tags_are_signed(
    disabled: bool,
    keypair: Seq<u8>,
    replier: u8,
    tags: Seq<u8>,
    n: nat,
)
    requires
        tags.len() >= 9 * n + 9,
    ensures
        signed_entries(disabled, keypair, replier, tags, 0).len() == 0,
        signed_entries(disabled, keypair, replier, tags, n + 1) == signed_entries(
            disabled,
            keypair,
            replier,
            tags,
            n,
        ) + (tags.subrange(9 * n as int, 9 * n as int + 9) + signer_output(
            disabled,
            keypair,
            digest_of(seq![replier] + tags.subrange(9 * n as int, 9 * n as int + 9))@,
        )),
{
}

} // verus!
