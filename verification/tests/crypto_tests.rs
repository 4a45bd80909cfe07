use rand::rngs::StdRng;
use rand::{RngCore, SeedableRng};
use sailfish::crypto::{
    gather_transactions, gather_votes, hash_bytes, transaction_flags, verify_transactions, CryptoError, Digest, Hashable, PublicKey,
    SecretKey, Signature, Signer,
};

fn keys() -> Vec<(PublicKey, SecretKey)> {
    let mut rng = StdRng::from_seed([0; 32]);
    (0..4)
        .map(|_| {
            let mut seed = [0u8; 32];
            rng.fill_bytes(&mut seed);
            SecretKey::from_seed(&seed)
        })
        .collect()
}

#[test]
fn verify_valid_signature() {
    // Get a keypair.
    let (public_key, secret_key) = keys().pop().unwrap();

    // Make signature.
    let message: &[u8] = b"Hello, world!";
    let digest = message.digest();
    let signature = Signature::new(&digest, &secret_key);

    // Verify the signature.
    assert!(signature.verify(&digest, &public_key).is_ok());
}

#[test]
fn verify_invalid_signature() {
    // Get a keypair.
    let (public_key, secret_key) = keys().pop().unwrap();

    // Make signature.
    let message: &[u8] = b"Hello, world!";
    let digest = message.digest();
    let signature = Signature::new(&digest, &secret_key);

    // Verify the signature.
    let bad_message: &[u8] = b"Bad message!";
    let digest = bad_message.digest();
    assert!(signature.verify(&digest, &public_key).is_err());
}

#[test]
fn verify_valid_batch() {
    // Make signatures.
    let message: &[u8] = b"Hello, world!";
    let digest = message.digest();
    let mut keys = keys();
    let signatures: Vec<_> = (0..3)
        .map(|_| {
            let (public_key, secret_key) = keys.pop().unwrap();
            (public_key, Signature::new(&digest, &secret_key))
        })
        .collect();

    // Verify the batch.
    assert!(Signature::verify_batch(&digest, &signatures).is_ok());
}

#[test]
fn verify_invalid_batch() {
    // Make 2 valid signatures.
    let message: &[u8] = b"Hello, world!";
    let digest = message.digest();
    let mut keys = keys();
    let mut signatures: Vec<_> = (0..2)
        .map(|_| {
            let (public_key, secret_key) = keys.pop().unwrap();
            (public_key, Signature::new(&digest, &secret_key))
        })
        .collect();

    // Add an invalid signature.
    let (public_key, _) = keys.pop().unwrap();
    signatures.push((public_key, Signature::default()));

    // Verify the batch.
    assert!(Signature::verify_batch(&digest, &signatures).is_err());
}

#[test]
fn signature_service() {
    // Get a keypair.
    let (public_key, secret_key) = keys().pop().unwrap();

    // Make the signer.
    let signer = Signer::new(&secret_key);

    // Request a signature.
    let message: &[u8] = b"Hello, world!";
    let digest = message.digest();
    let signature = signer.sign(&digest);

    // Verify the signature we received.
    assert!(signature.verify(&digest, &public_key).is_ok());
}

fn signed_transactions(secret_key: &SecretKey, count: usize) -> Vec<Vec<u8>> {
    let signer = Signer::new(secret_key);
    (0..count)
        .map(|i| {
            let mut tx = vec![i as u8; 32];
            let signature = signer.sign(&tx.as_slice().digest()).flatten();
            tx.extend_from_slice(&signature);
            tx
        })
        .collect()
}

#[test]
fn verify_transactions_all_valid() {
    let (public_key, secret_key) = keys().pop().unwrap();
    let transactions = signed_transactions(&secret_key, 10);
    assert_eq!(verify_transactions(&public_key, &transactions), vec![true; 10]);
}

#[test]
fn verify_transactions_one_corrupted() {
    let (public_key, secret_key) = keys().pop().unwrap();
    let mut transactions = signed_transactions(&secret_key, 10);
    transactions[3][0] ^= 1;
    let mut expected = vec![true; 10];
    expected[3] = false;
    assert_eq!(verify_transactions(&public_key, &transactions), expected);
}

#[test]
fn verify_transactions_malformed() {
    let (public_key, secret_key) = keys().pop().unwrap();
    let mut transactions = signed_transactions(&secret_key, 3);
    transactions[1].truncate(10);
    assert_eq!(verify_transactions(&public_key, &transactions), vec![true, false, true]);
}

#[test]
fn verify_transactions_empty() {
    let (public_key, _) = keys().pop().unwrap();
    assert!(verify_transactions(&public_key, &[]).is_empty());
}

#[test]
fn the_digest_is_the_first_half_of_sha512() {
    // SHA-512 of "abc".
    let expected: [u8; 32] = [
        0xdd, 0xaf, 0x35, 0xa1, 0x93, 0x61, 0x7a, 0xba, 0xcc, 0x41, 0x73, 0x49, 0xae, 0x20, 0x41,
        0x31, 0x12, 0xe6, 0xfa, 0x4e, 0x89, 0xa9, 0x7e, 0xa2, 0x0a, 0x9e, 0xee, 0xe6, 0x4b, 0x55,
        0xd3, 0x9a,
    ];
    assert!(hash_bytes(b"abc") == Digest(expected));
    assert_eq!(Digest(expected).to_vec(), expected.to_vec());
    assert_eq!(Digest::size(), 32);
}

#[test]
fn a_seed_gives_the_standard_key_and_signature() {
    // The first test vector of RFC 8032.
    let seed: [u8; 32] = [
        0x9d, 0x61, 0xb1, 0x9d, 0xef, 0xfd, 0x5a, 0x60, 0xba, 0x84, 0x4a, 0xf4, 0x92, 0xec, 0x2c,
        0xc4, 0x44, 0x49, 0xc5, 0x69, 0x7b, 0x32, 0x69, 0x19, 0x70, 0x3b, 0xac, 0x03, 0x1c, 0xae,
        0x7f, 0x60,
    ];
    let public: [u8; 32] = [
        0xd7, 0x5a, 0x98, 0x01, 0x82, 0xb1, 0x0a, 0xb7, 0xd5, 0x4b, 0xfe, 0xd3, 0xc9, 0x64, 0x07,
        0x3a, 0x0e, 0xe1, 0x72, 0xf3, 0xda, 0xa6, 0x23, 0x25, 0xaf, 0x02, 0x1a, 0x68, 0xf7, 0x07,
        0x51, 0x1a,
    ];
    let (key, secret) = SecretKey::from_seed(&seed);
    assert!(key == PublicKey(public));
    assert!(secret.public() == key);
    let digest = hash_bytes(b"");
    assert!(Signature::new(&digest, &secret) == Signature::new(&digest, &secret.duplicate()));
    assert!(Signature::new(&digest, &secret).verify(&digest, &key).is_ok());
}

#[test]
fn a_secret_key_must_match_its_public_half() {
    let seed = [7u8; 32];
    let (key, _) = SecretKey::from_seed(&seed);
    let mut bytes = seed.to_vec();
    bytes.extend_from_slice(&key.0);
    assert!(SecretKey::from_bytes(&bytes).is_some());
    bytes[40] ^= 1;
    assert!(SecretKey::from_bytes(&bytes).is_none());
    assert!(SecretKey::from_bytes(&bytes[..63]).is_none());
}

#[test]
fn a_disabled_signer_signs_with_zeros() {
    let (key, secret) = SecretKey::from_seed(&[1u8; 32]);
    let signer = Signer::with_crypto(&secret, true);
    let digest = hash_bytes(b"x");
    assert_eq!(signer.sign(&digest).flatten(), vec![0u8; 64]);
    assert!(matches!(
        signer.sign(&digest).verify(&digest, &key),
        Err(CryptoError::InvalidSignature)
    ));
}

#[test]
fn signatures_survive_flattening() {
    let (_, secret) = SecretKey::from_seed(&[1u8; 32]);
    let signature = Signature::new(&hash_bytes(b"x"), &secret);
    assert!(Signature::from_slice(&signature.flatten()) == signature);
}

#[test]
fn a_batch_over_several_digests() {
    let (key_a, secret_a) = SecretKey::from_seed(&[1u8; 32]);
    let (key_b, secret_b) = SecretKey::from_seed(&[2u8; 32]);
    let (a, b) = (hash_bytes(b"a"), hash_bytes(b"b"));
    let good = vec![
        (key_a, a, Signature::new(&a, &secret_a)),
        (key_b, b, Signature::new(&b, &secret_b)),
    ];
    assert!(Signature::verify_batch_multi(&good).is_ok());
    let swapped = vec![
        (key_a, b, Signature::new(&a, &secret_a)),
        (key_b, a, Signature::new(&b, &secret_b)),
    ];
    assert!(Signature::verify_batch_multi(&swapped).is_err());
}

#[test]
fn the_batch_verdict_decides_only_for_well_formed_transactions() {
    let (key, secret) = SecretKey::from_seed(&[1u8; 32]);
    let mut txs = signed_transactions(&secret, 2);
    txs.push(vec![0u8; 63]);
    txs.push(vec![0u8; 64]);
    assert_eq!(transaction_flags(&key, &txs, true), vec![true, true, false, true]);
    assert_eq!(transaction_flags(&key, &txs, false), vec![true, true, false, false]);
}

#[test]
fn what_is_checked_together_is_what_was_handed_in() {
    let (key, secret) = keys().pop().unwrap();
    let digest = hash_bytes(b"together");
    let votes = vec![(key, Signature::new(&digest, &secret)), (key, Signature::default())];
    let items = gather_votes(&digest, &votes);
    assert_eq!(items.len(), 2);
    assert!(items[0] == (key, digest, votes[0].1) && items[1] == (key, digest, votes[1].1));
    // Transactions that are too short are left out, the others keep their order.
    let long: Vec<u8> = (0..80).collect();
    let items = gather_transactions(&key, &[vec![1, 2, 3], long.clone()]);
    assert_eq!(items.len(), 1);
    assert!(items[0].1 == hash_bytes(&long[..16]));
    assert!(items[0].2 == Signature::from_slice(&long[16..]));
}

#[test]
fn judging_one_by_one_does_not_depend_on_grouping() {
    let (key, _) = keys().pop().unwrap();
    let a: Vec<Vec<u8>> = vec![vec![0u8; 70], vec![1u8; 3]];
    let b: Vec<Vec<u8>> = vec![vec![2u8; 100]];
    let joined = [a.clone(), b.clone()].concat();
    let apart =
        [transaction_flags(&key, &a, false), transaction_flags(&key, &b, false)].concat();
    assert_eq!(transaction_flags(&key, &joined, false), apart);
    assert_eq!(apart, vec![false, false, false]);
    assert_eq!(transaction_flags(&key, &joined, true), vec![true, false, true]);
}
