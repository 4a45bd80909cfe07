//! Hashing and Ed25519 signatures.
//!
//! Keys, signatures and digests are plain byte arrays. The primitives
//! themselves come from `ed25519_dalek`; their results are named by the
//! functions [`sha512`], [`derived_public_key`], [`ed25519_signature`] and
//! [`ed25519_verifies`], and [`ed25519_batch_may_pass`] tells what a randomised
//! batch check may accept. Everything above the five calls at the end of this
//! file is proved.

use crate::bytes::{append_bytes, bytes_equal, copy_range};
use vstd::prelude::*;

verus! {

/// Bytes of a public key, and of the seed it is derived from.
pub const KEY_LEN: usize = 32;

/// Bytes of a signature.
pub const SIGNATURE_LEN: usize = 64;

/// Why a signature was refused.
#[derive(Clone, Copy, Debug, PartialEq, Eq, Structural)]
pub enum CryptoError {
    InvalidSignature,
}

/// The SHA-512 hash of `message`, as `ed25519_dalek::Sha512` computes it.
pub uninterp spec fn sha512(message: Seq<u8>) -> Seq<u8>;

/// The Ed25519 public key of the secret seed `seed`.
pub uninterp spec fn derived_public_key(seed: Seq<u8>) -> Seq<u8>;

/// The Ed25519 signature over `message` by `keypair`, a seed followed by its
/// public key.
pub uninterp spec fn ed25519_signature(keypair: Seq<u8>, message: Seq<u8>) -> Seq<u8>;

/// Whether `signature` is accepted for `message` under `key` by strict
/// verification.
pub uninterp spec fn ed25519_verifies(key: Seq<u8>, message: Seq<u8>, signature: Seq<u8>) -> bool;

/// Whether some choice of random weights lets the batch check accept these
/// signatures, each given as key, message and signature. Which weights are
/// drawn is left to chance; whether any would do is not.
pub uninterp spec fn ed25519_batch_may_pass(items: Seq<(Seq<u8>, Seq<u8>, Seq<u8>)>) -> bool;

/// The encoding of the neutral curve point.
pub open spec fn neutral_point() -> Seq<u8> {
    Seq::new(32, |i: int| if i == 0 { 1u8 } else { 0u8 })
}

/// Whether `key` belongs to some secret seed.
pub open spec fn is_derived(key: Seq<u8>) -> bool {
    exists|seed: Seq<u8>| seed.len() == 32 && #[trigger] derived_public_key(seed) == key
}

/// A 32-byte hash.
#[derive(Clone, Copy, Debug, Hash, Eq)]
pub struct Digest(pub [u8; 32]);

/// A 32-byte Ed25519 public key.
#[derive(Clone, Copy, Debug, Hash, Eq)]
pub struct PublicKey(pub [u8; 32]);

/// A 64-byte Ed25519 signature, in two halves.
#[derive(Clone, Copy, Debug, Eq)]
pub struct Signature {
    pub part1: [u8; 32],
    pub part2: [u8; 32],
}

impl View for Digest {
    type V = Seq<u8>;

    open spec fn view(&self) -> Seq<u8> {
        self.0@
    }
}

impl View for PublicKey {
    type V = Seq<u8>;

    open spec fn view(&self) -> Seq<u8> {
        self.0@
    }
}

impl View for Signature {
    type V = Seq<u8>;

    open spec fn view(&self) -> Seq<u8> {
        self.part1@ + self.part2@
    }
}

impl PartialEq for Digest {
    fn eq(&self, other: &Self) -> (same: bool) {
        let same = bytes_equal(self.0.as_slice(), other.0.as_slice());
        proof {
            if same {
                assert(self.0 =~= other.0);
            }
        }
        same
    }
}

impl vstd::std_specs::cmp::PartialEqSpecImpl for Digest {
    open spec fn obeys_eq_spec() -> bool {
        true
    }

    open spec fn eq_spec(&self, other: &Self) -> bool {
        *self == *other
    }
}

impl PartialEq for PublicKey {
    fn eq(&self, other: &Self) -> (same: bool) {
        let same = bytes_equal(self.0.as_slice(), other.0.as_slice());
        proof {
            if same {
                assert(self.0 =~= other.0);
            }
        }
        same
    }
}

impl vstd::std_specs::cmp::PartialEqSpecImpl for PublicKey {
    open spec fn obeys_eq_spec() -> bool {
        true
    }

    open spec fn eq_spec(&self, other: &Self) -> bool {
        *self == *other
    }
}

impl PartialEq for Signature {
    fn eq(&self, other: &Self) -> (same: bool) {
        let first = bytes_equal(self.part1.as_slice(), other.part1.as_slice());
        let second = bytes_equal(self.part2.as_slice(), other.part2.as_slice());
        proof {
            if first && second {
                assert(self.part1 =~= other.part1);
                assert(self.part2 =~= other.part2);
            }
        }
        first && second
    }
}

impl vstd::std_specs::cmp::PartialEqSpecImpl for Signature {
    open spec fn obeys_eq_spec() -> bool {
        true
    }

    open spec fn eq_spec(&self, other: &Self) -> bool {
        *self == *other
    }
}

/// Digests with the same bytes are the same digest.
pub proof fn lemma_digest_extensional(a: Digest, b: Digest)
    requires
        a@ == b@,
    ensures
        a == b,
{
    assert(a.0 =~= b.0);
}

/// Public keys with the same bytes are the same key.
pub proof fn lemma_public_key_extensional(a: PublicKey, b: PublicKey)
    requires
        a@ == b@,
    ensures
        a == b,
{
    assert(a.0 =~= b.0);
}

/// Signatures with the same bytes are the same signature.
pub proof fn lemma_signature_extensional(a: Signature, b: Signature)
    requires
        a@ == b@,
    ensures
        a == b,
{
    assert(a@.take(32) =~= a.part1@);
    assert(b@.take(32) =~= b.part1@);
    assert(a@.skip(32) =~= a.part2@);
    assert(b@.skip(32) =~= b.part2@);
    assert(a.part1 =~= b.part1);
    assert(a.part2 =~= b.part2);
}

/// The digest of `message`: the first half of its SHA-512 hash.
pub open spec fn digest_of(message: Seq<u8>) -> Digest {
    choose|digest: Digest| #[trigger] digest@ == sha512(message).take(32)
}

/// Whether `signature` is a valid signature over `digest` by `key`.
pub open spec fn signed_by(digest: Digest, key: PublicKey, signature: Signature) -> bool {
    ed25519_verifies(key@, digest@, signature@)
}

/// Whether the commitment half of a signature is the neutral point: a valid
/// signer meets such a nonce with negligible probability, and strict
/// verification refuses it.
pub open spec fn is_degenerate(signature: Signature) -> bool {
    signature.part1@ == neutral_point()
}

/// Something that is identified by the digest of its canonical bytes.
pub trait Hashable {
    /// The bytes that are hashed.
    spec fn preimage(&self) -> Seq<u8>;

    /// The digest of the canonical bytes.
    fn digest(&self) -> (digest: Digest)
        ensures
            digest == digest_of(self.preimage()),
    ;
}

impl Hashable for [u8] {
    open spec fn preimage(&self) -> Seq<u8> {
        self@
    }

    fn digest(&self) -> (digest: Digest) {
        hash_bytes(self)
    }
}

/// The digest of `message`.
pub fn hash_bytes(message: &[u8]) -> (digest: Digest)
    ensures
        digest == digest_of(message@),
        digest@ == sha512(message@).take(32),
{
    let hash = sha512_digest(message);
    let digest = Digest(array_32(hash.as_slice()));
    assert(digest@ =~= sha512(message@).take(32));
    proof {
        lemma_digest_extensional(digest, digest_of(message@));
    }
    digest
}

/// The first 32 of at least 32 bytes, as an array.
pub fn array_32(bytes: &[u8]) -> (array: [u8; 32])
    requires
        bytes@.len() >= 32,
    ensures
        array@ == bytes@.take(32),
{
    let mut array: [u8; 32] = [0u8; 32];
    let mut i: usize = 0;
    while i < 32
        invariant
            i <= 32,
            bytes@.len() >= 32,
            forall|j: int| 0 <= j < i ==> array@[j] == bytes@[j],
        decreases 32 - i,
    {
        array[i] = bytes[i];
        i += 1;
    }
    assert(array@ =~= bytes@.take(32));
    array
}

impl Digest {
    /// Bytes of a digest.
    pub fn size() -> (size: usize)
        ensures
            size == 32,
    {
        32
    }

    /// The bytes of the digest.
    pub fn to_vec(&self) -> (bytes: Vec<u8>)
        ensures
            bytes@ == self@,
    {
        crate::bytes::copy_bytes(self.0.as_slice())
    }
}

impl Default for Digest {
    /// The digest of all zeros.
    fn default() -> (digest: Self)
        ensures
            digest@ == Seq::new(32, |i: int| 0u8),
    {
        let digest = Digest([0u8; 32]);
        assert(digest@ =~= Seq::new(32, |i: int| 0u8));
        digest
    }
}

impl Default for PublicKey {
    /// The key of all zeros.
    fn default() -> (key: Self)
        ensures
            key@ == Seq::new(32, |i: int| 0u8),
    {
        let key = PublicKey([0u8; 32]);
        assert(key@ =~= Seq::new(32, |i: int| 0u8));
        key
    }
}

impl Default for Signature {
    /// The signature of all zeros.
    fn default() -> (signature: Self)
        ensures
            signature@ == Seq::new(64, |i: int| 0u8),
    {
        let signature = Signature { part1: [0u8; 32], part2: [0u8; 32] };
        assert(signature@ =~= Seq::new(64, |i: int| 0u8));
        signature
    }
}

/// A secret key: a seed, kept together with the public key derived from it.
pub struct SecretKey {
    bytes: [u8; 64],
}

impl SecretKey {
    #[verifier::type_invariant]
    spec fn halves_agree(self) -> bool {
        derived_public_key(self.bytes@.take(32)) == self.bytes@.skip(32)
    }

    /// The secret seed.
    pub closed spec fn seed(&self) -> Seq<u8> {
        self.bytes@.take(32)
    }

    /// The seed followed by its public key.
    pub closed spec fn keypair(&self) -> Seq<u8> {
        self.bytes@
    }

    /// The key pair of a secret seed.
    pub fn from_seed(seed: &[u8; 32]) -> (pair: (PublicKey, SecretKey))
        ensures
            pair.1.seed() == seed@,
            pair.0@ == derived_public_key(seed@),
            pair.1.keypair() == seed@ + pair.0@,
    {
        let public = PublicKey(public_key_of_seed(seed));
        let mut bytes: [u8; 64] = [0u8; 64];
        let mut i: usize = 0;
        while i < 32
            invariant
                i <= 32,
                forall|j: int| 0 <= j < i ==> bytes@[j] == seed@[j],
                forall|j: int| 0 <= j < i ==> bytes@[32 + j] == public.0@[j],
            decreases 32 - i,
        {
            bytes[i] = seed[i];
            bytes[32 + i] = public.0[i];
            i += 1;
        }
        assert(bytes@.take(32) =~= seed@);
        assert(bytes@.skip(32) =~= public@);
        assert(bytes@ =~= seed@ + public@);
        (public, SecretKey { bytes })
    }

    /// A secret key from its stored form, a seed followed by its public key;
    /// `None` when the second half is not the public key of the first.
    pub fn from_bytes(bytes: &[u8]) -> (key: Option<SecretKey>)
        ensures
            key is Some <==> bytes@.len() == 64 && derived_public_key(bytes@.take(32))
                == bytes@.skip(32),
            key matches Some(key) ==> key.keypair() == bytes@ && key.seed() == bytes@.take(32),
    {
        if bytes.len() != 64 {
            return None;
        }
        let seed = array_32(bytes);
        let (public, key) = SecretKey::from_seed(&seed);
        let second = copy_range(bytes, 32, 64);
        assert(second@ =~= bytes@.skip(32));
        if bytes_equal(public.0.as_slice(), second.as_slice()) {
            assert(bytes@ =~= bytes@.take(32) + bytes@.skip(32));
            Some(key)
        } else {
            None
        }
    }

    /// Another handle on the same key.
    pub fn duplicate(&self) -> (key: Self)
        ensures
            key.keypair() == self.keypair(),
            key.seed() == self.seed(),
    {
        proof {
            use_type_invariant(self);
        }
        SecretKey { bytes: self.bytes }
    }

    /// The public half of the key.
    pub fn public(&self) -> (key: PublicKey)
        ensures
            key@ == self.public_view(),
    {
        proof {
            use_type_invariant(self);
        }
        let second = copy_range(self.bytes.as_slice(), 32, 64);
        let key = PublicKey(array_32(second.as_slice()));
        assert(key@ =~= self.bytes@.skip(32));
        key
    }

    /// The bytes of the public half of the key.
    pub open spec fn public_view(&self) -> Seq<u8> {
        derived_public_key(self.seed())
    }
}

impl Signature {
    /// Signs `digest`.
    pub fn new(digest: &Digest, secret: &SecretKey) -> (signature: Self)
        ensures
            signature@ == ed25519_signature(secret.keypair(), digest@),
            !is_degenerate(signature) ==> ed25519_verifies(
                secret.public_view(),
                digest@,
                signature@,
            ),
    {
        proof {
            use_type_invariant(secret);
        }
        let bytes = sign_bytes(&secret.bytes, digest.0.as_slice());
        let second = copy_range(bytes.as_slice(), 32, 64);
        let signature = Signature {
            part1: array_32(bytes.as_slice()),
            part2: array_32(second.as_slice()),
        };
        assert(second@ =~= bytes@.skip(32));
        assert(signature.part2@ =~= second@);
        assert(signature@ =~= bytes@);
        signature
    }

    /// The signature as 64 contiguous bytes.
    pub fn flatten(&self) -> (bytes: Vec<u8>)
        ensures
            bytes@ == self@,
            bytes@.len() == 64,
    {
        let mut bytes: Vec<u8> = Vec::new();
        append_bytes(&mut bytes, self.part1.as_slice());
        append_bytes(&mut bytes, self.part2.as_slice());
        assert(bytes@ =~= self@);
        bytes
    }

    /// Checks the signature over `digest` under `key`.
    pub fn verify(&self, digest: &Digest, key: &PublicKey) -> (result: Result<(), CryptoError>)
        ensures
            result is Ok <==> signed_by(*digest, *key, *self),
            self.part2@[31] >= 32 ==> result is Err,
            result matches Err(e) ==> e == CryptoError::InvalidSignature,
    {
        let signature = self.flatten();
        assert(signature@[63] == self.part2@[31]);
        if strict_verify(key.0.as_slice(), digest.0.as_slice(), signature.as_slice()) {
            Ok(())
        } else {
            Err(CryptoError::InvalidSignature)
        }
    }

    /// The signature held in 64 bytes.
    pub fn from_slice(bytes: &[u8]) -> (signature: Self)
        requires
            bytes@.len() == 64,
        ensures
            signature@ == bytes@,
    {
        let second = copy_range(bytes, 32, 64);
        let signature = Signature { part1: array_32(bytes), part2: array_32(second.as_slice()) };
        assert(signature.part2@ =~= second@);
        assert(signature@ =~= bytes@);
        signature
    }

    /// Checks signatures by several keys over one digest, all at once.
    ///
    /// The batch check is randomised: it accepts every batch of valid
    /// signatures by derived keys, refuses every batch holding a signature
    /// that cannot be decoded, and refuses the other invalid batches except
    /// with negligible probability.
    pub fn verify_batch(digest: &Digest, votes: &[(PublicKey, Signature)]) -> (result: Result<
        (),
        CryptoError,
    >)
        ensures
            batch_result(votes_on(*digest, votes@), result),
    {
        Signature::verify_batch_multi(&gather_votes(digest, votes))
    }

    /// Checks signatures over digests of their own, all at once.
    pub fn verify_batch_multi(items: &Vec<(PublicKey, Digest, Signature)>) -> (result: Result<
        (),
        CryptoError,
    >)
        ensures
            batch_result(items@, result),
    {
        batch_outcome(batch_verify(items))
    }
}

/// The votes as signed items over one digest: what is handed to the batch
/// check.
pub fn gather_votes(digest: &Digest, votes: &[(PublicKey, Signature)]) -> (items: Vec<
    (PublicKey, Digest, Signature),
>)
    ensures
        items@ == votes_on(*digest, votes@),
{
    let mut items: Vec<(PublicKey, Digest, Signature)> = Vec::new();
    let mut i: usize = 0;
    while i < votes.len()
        invariant
            i <= votes@.len(),
            items@ == votes_on(*digest, votes@).take(i as int),
        decreases votes@.len() - i,
    {
        items.push((votes[i].0, *digest, votes[i].1));
        assert(items@ =~= votes_on(*digest, votes@).take(i + 1));
        i += 1;
    }
    assert(items@ =~= votes_on(*digest, votes@));
    items
}

/// The outcome of a batch check whose verdict is `valid`.
pub fn batch_outcome(valid: bool) -> (result: Result<(), CryptoError>)
    ensures
        result == (if valid { Ok::<(), CryptoError>(()) } else { Err(CryptoError::InvalidSignature) }),
{
    if valid {
        Ok(())
    } else {
        Err(CryptoError::InvalidSignature)
    }
}

/// The votes as signed items over one digest.
pub open spec fn votes_on(digest: Digest, votes: Seq<(PublicKey, Signature)>) -> Seq<
    (PublicKey, Digest, Signature),
> {
    Seq::new(votes.len(), |i: int| (votes[i].0, digest, votes[i].1))
}

/// Whether every item is a valid signature by a derived key.
pub open spec fn all_valid(items: Seq<(PublicKey, Digest, Signature)>) -> bool {
    forall|i: int|
        0 <= i < items.len() ==> is_derived((#[trigger] items[i]).0@) && signed_by(
            items[i].1,
            items[i].0,
            items[i].2,
        )
}

/// Whether some item has a signature whose scalar half is out of range.
pub open spec fn some_undecodable(items: Seq<(PublicKey, Digest, Signature)>) -> bool {
    exists|i: int| 0 <= i < items.len() && (#[trigger] items[i]).2.part2@[31] >= 32
}

/// The items as byte strings: key, message and signature.
pub open spec fn item_bytes(items: Seq<(PublicKey, Digest, Signature)>) -> Seq<
    (Seq<u8>, Seq<u8>, Seq<u8>),
> {
    Seq::new(items.len(), |i: int| (items[i].0@, items[i].1@, items[i].2@))
}

/// Whether the batch check may accept these very items.
pub open spec fn may_pass(items: Seq<(PublicKey, Digest, Signature)>) -> bool {
    ed25519_batch_may_pass(item_bytes(items))
}

/// Whether `result` is what a check of these items together may answer: they
/// are accepted only if the batch check may accept them, always if all are
/// valid, and never if one cannot be decoded.
pub open spec fn batch_result(
    items: Seq<(PublicKey, Digest, Signature)>,
    result: Result<(), CryptoError>,
) -> bool {
    &&& result is Ok ==> may_pass(items)
    &&& all_valid(items) ==> result is Ok
    &&& some_undecodable(items) ==> result is Err
    &&& result matches Err(e) ==> e == CryptoError::InvalidSignature
}

/// Signs on behalf of one key; signs with zeros when crypto is disabled.
pub struct Signer {
    secret: SecretKey,
    crypto_disabled: bool,
}

impl Signer {
    /// Whether this signer produces zero signatures.
    pub closed spec fn disabled(&self) -> bool {
        self.crypto_disabled
    }

    /// The key pair behind the signer.
    pub closed spec fn keypair(&self) -> Seq<u8> {
        self.secret.keypair()
    }

    /// The bytes of the signer's public key.
    pub closed spec fn public_view(&self) -> Seq<u8> {
        self.secret.public_view()
    }

    /// A signer for `secret`.
    pub fn new(secret: &SecretKey) -> (signer: Self)
        ensures
            !signer.disabled(),
            signer.keypair() == secret.keypair(),
            signer.public_view() == secret.public_view(),
    {
        Signer::with_crypto(secret, false)
    }

    /// A signer for `secret` that signs with zeros if `crypto_disabled`.
    pub fn with_crypto(secret: &SecretKey, crypto_disabled: bool) -> (signer: Self)
        ensures
            signer.disabled() == crypto_disabled,
            signer.keypair() == secret.keypair(),
            signer.public_view() == secret.public_view(),
    {
        Signer { secret: secret.duplicate(), crypto_disabled }
    }

    /// Signs `digest`.
    pub fn sign(&self, digest: &Digest) -> (signature: Signature)
        ensures
            signature@ == signer_output(self.disabled(), self.keypair(), digest@),
            signature == signature_with(
                signer_output(self.disabled(), self.keypair(), digest@),
            ),
            !self.disabled() && !is_degenerate(signature) ==> ed25519_verifies(
                self.public_view(),
                digest@,
                signature@,
            ),
    {
        let signature = if self.crypto_disabled {
            Signature::default()
        } else {
            Signature::new(digest, &self.secret)
        };
        proof {
            lemma_signature_extensional(
                signature,
                signature_with(signer_output(self.disabled(), self.keypair(), digest@)),
            );
        }
        signature
    }
}

/// The signature with the given bytes.
pub open spec fn signature_with(bytes: Seq<u8>) -> Signature {
    choose|signature: Signature| #[trigger] signature@ == bytes
}

/// What a signer answers with.
pub open spec fn signer_output(disabled: bool, keypair: Seq<u8>, message: Seq<u8>) -> Seq<u8> {
    if disabled {
        Seq::new(64, |i: int| 0u8)
    } else {
        ed25519_signature(keypair, message)
    }
}

/// The signed part of a transaction.
pub open spec fn transaction_body(tx: Seq<u8>) -> Seq<u8> {
    tx.take(tx.len() - 64)
}

/// The signature at the end of a transaction.
pub open spec fn transaction_signature(tx: Seq<u8>) -> Seq<u8> {
    tx.skip(tx.len() - 64)
}

/// Whether a transaction ends in a valid signature by `key` over the digest of
/// what stands before it.
pub open spec fn transaction_valid(key: PublicKey, tx: Seq<u8>) -> bool {
    tx.len() >= 64 && ed25519_verifies(
        key@,
        digest_of(transaction_body(tx))@,
        transaction_signature(tx),
    )
}

/// One flag per transaction, given the verdict on all well-formed ones taken
/// together: with a good verdict every well-formed transaction passes, without
/// it each is judged by itself.
pub open spec fn transaction_flags_spec(
    key: PublicKey,
    txs: Seq<Seq<u8>>,
    batch_valid: bool,
) -> Seq<bool> {
    Seq::new(
        txs.len(),
        |i: int| txs[i].len() >= 64 && (batch_valid || transaction_valid(key, txs[i])),
    )
}

/// The transactions as byte strings.
pub open spec fn byte_strings(txs: Seq<Vec<u8>>) -> Seq<Seq<u8>> {
    Seq::new(txs.len(), |i: int| txs[i]@)
}

/// Splits a transaction into the digest of its body and its signature.
pub fn split_transaction(tx: &[u8]) -> (parts: (Digest, Signature))
    requires
        tx@.len() >= 64,
    ensures
        parts.0 == digest_of(transaction_body(tx@)),
        parts.1@ == transaction_signature(tx@),
{
    let split: usize = tx.len() - 64;
    let body = copy_range(tx, 0, split);
    let tail = copy_range(tx, split, tx.len());
    assert(body@ =~= transaction_body(tx@));
    assert(tail@ =~= transaction_signature(tx@));
    (hash_bytes(body.as_slice()), Signature::from_slice(tail.as_slice()))
}

/// Flags each transaction, given the verdict on the well-formed ones together.
pub fn transaction_flags(key: &PublicKey, txs: &[Vec<u8>], batch_valid: bool) -> (flags: Vec<bool>)
    ensures
        flags@ == transaction_flags_spec(*key, byte_strings(txs@), batch_valid),
        !batch_valid ==> forall|i: int|
            0 <= i < txs@.len() && (#[trigger] byte_strings(txs@)[i]).len() >= 64 && byte_strings(
                txs@,
            )[i].last() >= 32 ==> !flags@[i],
{
    let mut flags: Vec<bool> = Vec::new();
    let mut i: usize = 0;
    while i < txs.len()
        invariant
            i <= txs@.len(),
            flags@ == transaction_flags_spec(*key, byte_strings(txs@), batch_valid).take(i as int),
            !batch_valid ==> forall|j: int|
                0 <= j < i && (#[trigger] byte_strings(txs@)[j]).len() >= 64 && byte_strings(
                    txs@,
                )[j].last() >= 32 ==> !flags@[j],
        decreases txs@.len() - i,
    {
        let tx = txs[i].as_slice();
        let flag = if tx.len() < 64 {
            false
        } else if batch_valid {
            true
        } else {
            let (digest, signature) = split_transaction(tx);
            assert(signature@[63] == tx@.last());
            signature.verify(&digest, key).is_ok()
        };
        flags.push(flag);
        assert(flags@ =~= transaction_flags_spec(*key, byte_strings(txs@), batch_valid).take(
            i + 1,
        ));
        i += 1;
    }
    assert(flags@ =~= transaction_flags_spec(*key, byte_strings(txs@), batch_valid));
    flags
}

/// A well-formed transaction as a signed item.
pub open spec fn transaction_item(key: PublicKey, tx: Seq<u8>) -> (PublicKey, Digest, Signature) {
    (key, digest_of(transaction_body(tx)), signature_with(transaction_signature(tx)))
}

/// The well-formed transactions as signed items, in order.
pub open spec fn transaction_items(key: PublicKey, txs: Seq<Seq<u8>>) -> Seq<
    (PublicKey, Digest, Signature),
>
    decreases txs.len(),
{
    if txs.len() == 0 {
        Seq::empty()
    } else if txs.last().len() >= 64 {
        transaction_items(key, txs.drop_last()).push(transaction_item(key, txs.last()))
    } else {
        transaction_items(key, txs.drop_last())
    }
}

/// Whether a transaction is long enough for a signature, but its signature
/// cannot be decoded.
pub open spec fn transaction_undecodable(tx: Seq<u8>) -> bool {
    tx.len() >= 64 && tx.last() >= 32
}

/// Whether the flags are what a check of the transactions may answer: either
/// each is judged by itself, or all well-formed ones pass because the batch
/// check accepted exactly these. Whatever the batch check said, nothing valid
/// is refused, and a signature that cannot be decoded fails the batch and
/// fails by itself.
pub open spec fn transaction_verdict(
    key: PublicKey,
    txs: Seq<Seq<u8>>,
    flags: Seq<bool>,
) -> bool {
    let strict = transaction_flags_spec(key, txs, false);
    &&& flags == strict || (flags == transaction_flags_spec(key, txs, true) && may_pass(
        transaction_items(key, txs),
    ))
    &&& forall|i: int| 0 <= i < txs.len() && strict[i] ==> #[trigger] flags[i]
    &&& (exists|i: int| 0 <= i < txs.len() && transaction_undecodable(#[trigger] txs[i])) ==> flags
        == strict
    &&& forall|i: int|
        0 <= i < txs.len() && transaction_undecodable(#[trigger] txs[i]) ==> !flags[i]
}

/// Judging transactions one by one, it does not matter how they are grouped.
pub proof fn law_strict_flags_join(key: PublicKey, a: Seq<Seq<u8>>, b: Seq<Seq<u8>>)
    ensures
        transaction_flags_spec(key, a + b, false) == transaction_flags_spec(key, a, false)
            + transaction_flags_spec(key, b, false),
{
    assert(transaction_flags_spec(key, a + b, false) =~= transaction_flags_spec(key, a, false)
        + transaction_flags_spec(key, b, false));
}

/// The well-formed transactions as signed items: what is handed to the batch
/// check.
pub fn gather_transactions(key: &PublicKey, txs: &[Vec<u8>]) -> (items: Vec<
    (PublicKey, Digest, Signature),
>)
    ensures
        items@ == transaction_items(*key, byte_strings(txs@)),
        // Undecodable transactions are undecodable items.
        forall|i: int|
            0 <= i < txs@.len() && transaction_undecodable(#[trigger] byte_strings(txs@)[i])
                ==> some_undecodable(items@),
{
    let ghost strings = byte_strings(txs@);
    let mut items: Vec<(PublicKey, Digest, Signature)> = Vec::new();
    let mut i: usize = 0;
    while i < txs.len()
        invariant
            i <= txs@.len(),
            strings == byte_strings(txs@),
            items@ == transaction_items(*key, strings.take(i as int)),
            forall|j: int|
                0 <= j < i && transaction_undecodable(#[trigger] strings[j]) ==> some_undecodable(
                    items@,
                ),
        decreases txs@.len() - i,
    {
        let tx = txs[i].as_slice();
        proof {
            assert(strings.take(i + 1).drop_last() =~= strings.take(i as int));
            assert(strings.take(i + 1).last() == tx@);
        }
        if tx.len() >= 64 {
            let (digest, signature) = split_transaction(tx);
            proof {
                lemma_signature_extensional(
                    signature,
                    signature_with(transaction_signature(tx@)),
                );
            }
            let ghost before = items@;
            items.push((*key, digest, signature));
            proof {
                if some_undecodable(before) {
                    let j = choose|j: int|
                        0 <= j < before.len() && (#[trigger] before[j]).2.part2@[31] >= 32;
                    assert(items@[j] == before[j]);
                }
                assert(signature@[63] == tx@.last());
                if tx@.last() >= 32 {
                    assert(items@[before.len() as int].2.part2@[31] >= 32);
                }
            }
        }
        i += 1;
    }
    assert(strings.take(txs@.len() as int) =~= strings);
    items
}

/// Checks that each transaction ends in a signature by `key` over the digest
/// of its body. One flag per transaction; a transaction too short to hold a
/// signature fails. The rest are checked as one batch, then one by one if the
/// batch fails.
pub fn verify_transactions(key: &PublicKey, txs: &[Vec<u8>]) -> (flags: Vec<bool>)
    ensures
        transaction_verdict(*key, byte_strings(txs@), flags@),
{
    let items = gather_transactions(key, txs);
    let batch_valid = batch_verify(&items);
    let flags = transaction_flags(key, txs, batch_valid);
    proof {
        let strings = byte_strings(txs@);
        assert forall|i: int| 0 <= i < txs@.len() && transaction_undecodable(
            #[trigger] strings[i],
        ) implies !batch_valid && !flags@[i] by {
            assert(some_undecodable(items@));
        }
    }
    flags
}

/// `ed25519_dalek::Sha512::digest`: hashes a message in one call. Trusted: the
/// result depends on the message alone.
#[verifier::external_body]
fn sha512_digest(message: &[u8]) -> (hash: [u8; 64])
    ensures
        hash@ == sha512(message@),
{
    let mut hash = [0u8; 64];
    hash.copy_from_slice(&<ed25519_dalek::Sha512 as ed25519_dalek::Digest>::digest(message));
    hash
}

/// `ed25519_dalek::PublicKey::from(&SecretKey)`: derives the public key of a
/// seed. Trusted: the result depends on the seed alone. Every 32-byte string
/// is a seed, so the conversion of the seed does not fail.
#[verifier::external_body]
fn public_key_of_seed(seed: &[u8; 32]) -> (key: [u8; 32])
    ensures
        key@ == derived_public_key(seed@),
{
    let secret = ed25519_dalek::SecretKey::from_bytes(&seed[..]).expect("a seed has 32 bytes");
    ed25519_dalek::PublicKey::from(&secret).to_bytes()
}

/// `ed25519_dalek::Keypair::sign`: signs a message. Trusted: the signature is
/// a function of the key pair and the message, and a signature made with a
/// public half that was derived from the secret half passes strict
/// verification, unless its nonce is zero and its first half therefore the
/// neutral point. A derived public half always decodes, so the conversion of
/// the key pair does not fail.
#[verifier::external_body]
fn sign_bytes(keypair: &[u8; 64], message: &[u8]) -> (signature: [u8; 64])
    requires
        derived_public_key(keypair@.take(32)) == keypair@.skip(32),
    ensures
        signature@ == ed25519_signature(keypair@, message@),
        signature@.take(32) != neutral_point() ==> ed25519_verifies(
            keypair@.skip(32),
            message@,
            signature@,
        ),
{
    let keypair = ed25519_dalek::Keypair::from_bytes(&keypair[..]).expect("a derived key pair");
    ed25519_dalek::Signer::sign(&keypair, message).to_bytes()
}

/// `ed25519_dalek::PublicKey::verify_strict`: checks one signature. Trusted:
/// the verdict is a function of the three byte strings, and no signature is
/// accepted that is not 64 bytes long or whose scalar half has one of its
/// three highest bits set.
#[verifier::external_body]
fn strict_verify(key: &[u8], message: &[u8], signature: &[u8]) -> (valid: bool)
    ensures
        valid == ed25519_verifies(key@, message@, signature@),
        signature@.len() != 64 || signature@[63] >= 32 ==> !valid,
{
    let key = ed25519_dalek::PublicKey::from_bytes(key);
    let signature = ed25519_dalek::Signature::from_bytes(signature);
    match (key, signature) {
        (Ok(key), Ok(signature)) => key.verify_strict(message, &signature).is_ok(),
        _ => false,
    }
}

/// `ed25519_dalek::verify_batch`: checks many signatures together, with
/// random weights. Trusted: a batch is accepted only if some choice of weights
/// lets the check accept it, valid signatures by derived keys are always
/// accepted together, and a signature whose scalar half has one of its three
/// highest bits set never decodes. Of other batches nothing is claimed: the
/// verdict rests on chance.
#[verifier::external_body]
fn batch_verify(items: &Vec<(PublicKey, Digest, Signature)>) -> (valid: bool)
    ensures
        valid ==> ed25519_batch_may_pass(item_bytes(items@)),
        all_valid(items@) ==> valid,
        some_undecodable(items@) ==> !valid,
{
    let messages: Vec<&[u8]> = items.iter().map(|item| &item.1.0[..]).collect();
    let signatures: Result<Vec<_>, _> = items
        .iter()
        .map(|item| ed25519_dalek::Signature::from_bytes(&[item.2.part1, item.2.part2].concat()))
        .collect();
    let keys: Result<Vec<_>, _> =
        items.iter().map(|item| ed25519_dalek::PublicKey::from_bytes(&item.0.0)).collect();
    match (signatures, keys) {
        (Ok(signatures), Ok(keys)) => ed25519_dalek::verify_batch(&messages, &signatures, &keys).is_ok(),
        _ => false,
    }
}

/// A check of transactions answers on each: one that ends in a valid signature
/// over the digest of what stands before it passes, and one that is too short
/// for a signature, or whose signature cannot be decoded, fails.
pub proof fn law_transactions_judged(
    key: PublicKey,
    txs: Seq<Seq<u8>>,
    flags: Seq<bool>,
    i: int,
)
    requires
        transaction_verdict(key, txs, flags),
        0 <= i < txs.len(),
    ensures
        flags.len() == txs.len(),
        txs[i].len() >= 64 && ed25519_verifies(
            key@,
            digest_of(txs[i].take(txs[i].len() - 64))@,
            txs[i].skip(txs[i].len() - 64),
        ) ==> flags[i],
        txs[i].len() < 64 ==> !flags[i],
        txs[i].len() >= 64 && txs[i].last() >= 32 ==> !flags[i],
{
    let strict = transaction_flags_spec(key, txs, false);
    assert(strict[i] == transaction_valid(key, txs[i]));
    if txs[i].len() < 64 {
        assert(!flags[i]);
    }
}

/// Every transaction that is long enough is handed to the batch check, with its
/// own body and signature, and no other is.
pub proof fn law_transactions_batched(key: PublicKey, txs: Seq<Seq<u8>>, i: int)
    requires
        0 <= i < txs.len(),
        txs[i].len() >= 64,
    ensures
        transaction_items(key, txs).len() <= txs.len(),
        (forall|j: int| 0 <= j < txs.len() ==> (#[trigger] txs[j]).len() >= 64)
            ==> transaction_items(key, txs).len() == txs.len(),
        transaction_items(key, txs).contains(
            (
                key,
                digest_of(txs[i].take(txs[i].len() - 64)),
                signature_with(txs[i].skip(txs[i].len() - 64)),
            ),
        ),
    decreases txs.len(),
{
    let front = txs.drop_last();
    let n = txs.len() - 1;
    let items = transaction_items(key, txs);
    let earlier = transaction_items(key, front);
    let item = (
        key,
        digest_of(txs[i].take(txs[i].len() - 64)),
        signature_with(txs[i].skip(txs[i].len() - 64)),
    );
    lemma_items_bounded(key, front);
    if i < n {
        law_transactions_batched(key, front, i);
        let k = choose|k: int| 0 <= k < earlier.len() && earlier[k] == item;
        assert(items[k] == item);
    } else {
        assert(items[earlier.len() as int] == item);
    }
    if forall|j: int| 0 <= j < txs.len() ==> (#[trigger] txs[j]).len() >= 64 {
        assert forall|j: int| 0 <= j < front.len() implies (#[trigger] front[j]).len() >= 64 by {
            assert(front[j] == txs[j]);
        }
        assert(txs[n].len() >= 64);
    }
}

proof fn lemma_items_bounded(key: PublicKey, txs: Seq<Seq<u8>>)
    ensures
        transaction_items(key, txs).len() <= txs.len(),
        (forall|j: int| 0 <= j < txs.len() ==> (#[trigger] txs[j]).len() >= 64)
            ==> transaction_items(key, txs).len() == txs.len(),
    decreases txs.len(),
{
    if txs.len() > 0 {
        let front = txs.drop_last();
        lemma_items_bounded(key, front);
        if forall|j: int| 0 <= j < txs.len() ==> (#[trigger] txs[j]).len() >= 64 {
            assert forall|j: int| 0 <= j < front.len() implies (
            #[trigger] front[j]).len() >= 64 by {
                assert(front[j] == txs[j]);
            }
            assert(txs[txs.len() - 1].len() >= 64);
        }
    }
}

} // verus!
