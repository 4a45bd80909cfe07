use rand::rngs::StdRng;
use rand::{RngCore, SeedableRng};
use sailfish::config::{IpAddress, SocketAddress};
use sailfish::crypto::{PublicKey, SecretKey, Signer};
use sailfish::worker::client_reply::{
    decode_reply_addr, encode_reply_addr, sign_reply_entries, sign_reply_frame,
    verify_reply_entries, verify_reply_frames, KIND_SAMPLE, MIN_TX_LEN, REPLY_ADDR_LEN,
    REPLY_ADDR_OFFSET, REPLY_HEADER_LEN, REPLY_SIGNATURE_LEN, TAG_LEN,
};

fn keypair(seed: u8) -> (Signer, PublicKey) {
    let mut bytes = [0u8; 32];
    StdRng::from_seed([seed; 32]).fill_bytes(&mut bytes);
    let (public, secret) = SecretKey::from_seed(&bytes);
    (Signer::new(&secret), public)
}

/// Replier 3 acknowledging two requests.
fn signed_frame(signer: &Signer) -> Vec<u8> {
    let mut frame = vec![3u8];
    frame.extend_from_slice(&[KIND_SAMPLE, 0, 0, 0, 0, 0, 0, 0, 7]);
    frame.extend_from_slice(&[1, 0, 0, 0, 0, 0, 0, 0, 8]);
    sign_reply_frame(signer, &mut frame);
    frame
}

#[test]
fn a_signed_frame_verifies() {
    let (signer, key) = keypair(1);
    let frame = signed_frame(&signer);
    assert_eq!(frame.len(), REPLY_HEADER_LEN + 2 * TAG_LEN + REPLY_SIGNATURE_LEN);
    assert_eq!(verify_reply_frames(&key, &[frame]), vec![true]);
}

#[test]
fn a_tampered_tag_fails() {
    let (signer, key) = keypair(1);
    let good = signed_frame(&signer);
    let mut bad = good.clone();
    bad[REPLY_HEADER_LEN + TAG_LEN - 1] ^= 1;
    assert_eq!(verify_reply_frames(&key, &[good, bad]), vec![true, false]);
}

#[test]
fn a_tampered_replier_index_fails() {
    let (signer, key) = keypair(1);
    let mut frame = signed_frame(&signer);
    frame[0] = 2;
    assert_eq!(verify_reply_frames(&key, &[frame]), vec![false]);
}

#[test]
fn the_wrong_key_fails() {
    let (signer, _) = keypair(1);
    let (_, other) = keypair(2);
    let frame = signed_frame(&signer);
    assert_eq!(verify_reply_frames(&other, &[frame]), vec![false]);
}

#[test]
fn a_frame_shorter_than_a_signature_fails() {
    let (_, key) = keypair(1);
    assert_eq!(verify_reply_frames(&key, &[vec![0u8; 10]]), vec![false]);
}

#[test]
fn round_trips_an_address() {
    let addr = SocketAddress { ip: IpAddress::V4(10, 128, 0, 7), port: 5107 };
    let encoded = encode_reply_addr(&addr).unwrap();
    assert_eq!(encoded, [10, 128, 0, 7, 0x13, 0xf3]);

    let mut tx = vec![0u8; 80];
    tx[REPLY_ADDR_OFFSET..REPLY_ADDR_OFFSET + REPLY_ADDR_LEN].copy_from_slice(&encoded);

    assert_eq!(decode_reply_addr(&tx), Some(addr));
}

#[test]
fn a_zero_filled_payload_asks_for_no_reply() {
    // A client that wants no reply zero-fills the payload after the id, so the
    // port reads as 0.
    assert_eq!(decode_reply_addr(&vec![0u8; 80]), None);
}

#[test]
fn a_short_transaction_asks_for_no_reply() {
    assert_eq!(decode_reply_addr(&vec![1u8; MIN_TX_LEN - 1]), None);
    assert!(decode_reply_addr(&vec![1u8; MIN_TX_LEN]).is_some());
}

#[test]
fn ipv6_is_refused_rather_than_truncated() {
    let loopback = SocketAddress { ip: IpAddress::V6(1), port: 5107 };
    assert!(encode_reply_addr(&loopback).is_none());
}

#[test]
fn signed_entries_verify_one_by_one() {
    let (signer, key) = keypair(1);
    let tags: Vec<u8> = (0..18).collect();
    let entries = sign_reply_entries(&signer, 3, &tags);
    assert_eq!(entries.len(), 2 * (TAG_LEN + REPLY_SIGNATURE_LEN));
    assert_eq!(&entries[..9], &tags[..9]);
    assert_eq!(&entries[73..82], &tags[9..]);
    let split = [entries[..73].to_vec(), entries[73..].to_vec()];
    assert_eq!(verify_reply_entries(&key, 3, &split, false), vec![true, true]);
    // The replier's index is part of what is signed.
    assert_eq!(verify_reply_entries(&key, 4, &split, false), vec![false, false]);
    // One bad entry does not spoil the others; nor does a short one.
    let mut bad = split.to_vec();
    bad[0][0] ^= 1;
    bad.push(vec![0u8; 72]);
    assert_eq!(verify_reply_entries(&key, 3, &bad, false), vec![false, true, false]);
    // Without crypto everything passes.
    assert_eq!(verify_reply_entries(&key, 3, &bad, true), vec![true, true, true]);
}

#[test]
fn a_trailing_part_of_a_tag_is_not_signed() {
    let (signer, _) = keypair(1);
    assert!(sign_reply_entries(&signer, 0, &[1u8; 8]).is_empty());
}

#[test]
fn a_forged_entry_fails_beside_a_good_one() {
    let (signer, key) = keypair(1);
    let (_, other) = keypair(2);
    let good = sign_reply_entries(&signer, 3, &[0, 0, 0, 0, 0, 0, 0, 0, 7]);
    let mut bad = good.clone();
    bad[8] ^= 1;
    assert_eq!(
        verify_reply_entries(&key, 3, &[good.clone(), bad], false),
        vec![true, false]
    );
    // The signature binds the replier index and the key.
    assert_eq!(verify_reply_entries(&key, 2, &[good.clone()], false), vec![false]);
    assert_eq!(verify_reply_entries(&other, 3, &[good.clone()], false), vec![false]);
    assert_eq!(verify_reply_entries(&key, 3, &[good], false), vec![true]);
}
