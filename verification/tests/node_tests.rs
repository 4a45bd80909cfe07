use rand::rngs::StdRng;
use rand::{RngCore, SeedableRng};
use sailfish::collections::SortedMap;
use sailfish::config::{
    Authority, Committee, ConsensusAddresses, IpAddress, PrimaryAddresses, SocketAddress,
    WorkerAddresses,
};
use sailfish::client::replies::{gather_entries, settle_entries, verify_entries, Latency, Replies};
use sailfish::client::sender::{
    buffer_size, make_transaction, reply_limits, Client, ClientError, Handover, SendStats,
    KIND_STANDARD,
};
use sailfish::crypto::{hash_bytes, verify_transactions, Digest, PublicKey, SecretKey, Signer};
use sailfish::mempool::{Block, ConsensusMempoolMessage, Front, MempoolDriver};
use sailfish::network::{set_tcp_nodelay, tcp_nodelay, SocketOptions};
use sailfish::node::{analyze, PrimaryWorkerMessage};
use sailfish::primary::messages::{Certificate, Header};
use sailfish::worker::client_replier::{sign_replies, ClientReplier, ReplyFrame};
use sailfish::worker::client_reply::{
    decode_reply_addr, sign_reply_entries, verify_reply_entries, KIND_SAMPLE,
};
use sailfish::worker::processor::{
    all_passed, verify_peer_batch, BatchAction, BatchRoute, Processor, Span, WorkerPrimaryMessage,
};

fn keys() -> Vec<(PublicKey, SecretKey)> {
    let mut rng = StdRng::from_seed([0; 32]);
    (0..4)
        .map(|_| {
            let mut seed = [0u8; 32];
            rng.fill_bytes(&mut seed);
            SecretKey::from_seed(&seed)
        })
        .collect()
}

fn address(port: u16) -> SocketAddress {
    SocketAddress { ip: IpAddress::V4(127, 0, 0, 1), port }
}

fn committee() -> Committee {
    let mut authorities = SortedMap::new();
    for (i, (name, _)) in keys().into_iter().enumerate() {
        let i = i as u16;
        let mut workers = SortedMap::new();
        workers.insert(
            0,
            WorkerAddresses {
                primary_to_worker: address(300 + i),
                transactions: address(400 + i),
                worker_to_worker: address(500 + i),
            },
        );
        authorities.insert(
            name,
            Authority {
                stake: 1,
                consensus: ConsensusAddresses { consensus_to_consensus: address(i) },
                primary: PrimaryAddresses {
                    primary_to_primary: address(100 + i),
                    worker_to_primary: address(200 + i),
                },
                workers,
            },
        );
    }
    Committee::new(authorities).unwrap()
}

const REPLY_TO: SocketAddress = SocketAddress { ip: IpAddress::V4(10, 0, 0, 9), port: 4000 };

fn transaction(id: u64, to: Option<SocketAddress>) -> Vec<u8> {
    let reply = match to {
        Some(address) => sailfish::worker::client_reply::encode_reply_addr(&address).unwrap(),
        None => [0u8; 6],
    };
    make_transaction(&Signer::new(&keys()[0].1), KIND_STANDARD, id, &reply, 16)
}

#[test]
fn a_transaction_carries_kind_id_and_reply_address() {
    let tx = transaction(0x0102, Some(REPLY_TO));
    assert_eq!(tx.len(), 16 + 64);
    assert_eq!(&tx[..9], &[KIND_STANDARD, 0, 0, 0, 0, 0, 0, 1, 2]);
    assert_eq!(decode_reply_addr(&tx), Some(REPLY_TO));
    assert_eq!(decode_reply_addr(&transaction(1, None)), None);
    assert_eq!(verify_transactions(&keys()[0].0, &[tx]), vec![true]);
}

#[test]
fn a_burst_has_one_sample_and_distinct_ids() {
    let (name, secret) = keys().remove(0);
    let mut client = Client::new(16, 100, Signer::new(&secret), Some(REPLY_TO), 1_000).unwrap();
    let first = client.tick(false).unwrap();
    assert!(first.report);
    assert_eq!(first.burst.len(), 5);
    let sampled: Vec<Option<u64>> = first.burst.iter().map(|x| x.sampled).collect();
    assert_eq!(sampled, vec![Some(0), None, None, None, None]);
    assert_eq!(first.burst[0].message[0], KIND_SAMPLE);
    let mut tags: Vec<Vec<u8>> = first.burst.iter().map(|x| x.message[..9].to_vec()).collect();
    tags.sort();
    tags.dedup();
    assert_eq!(tags.len(), 5);
    let messages: Vec<Vec<u8>> = first.burst.into_iter().map(|x| x.message).collect();
    assert_eq!(verify_transactions(&name, &messages), vec![true; 5]);
    // The sample moves on with every burst.
    let second = client.tick(false).unwrap();
    assert!(!second.report);
    assert_eq!(second.burst[1].sampled, Some(1));
    assert!(client.tick(true).is_none());
}

#[test]
fn a_client_needs_room_and_a_reachable_address() {
    let signer = || Signer::new(&keys()[0].1);
    assert!(matches!(
        Client::new(15, 100, signer(), None, 0),
        Err(ClientError::TransactionTooSmall)
    ));
    let v6 = SocketAddress { ip: IpAddress::V6(1), port: 1 };
    assert!(matches!(
        Client::new(16, 100, signer(), Some(v6), 0),
        Err(ClientError::ReplyAddressNotIpv4)
    ));
}

#[test]
fn reply_settings_are_brought_into_range() {
    assert_eq!(reply_limits(None, None), (1, 1));
    assert_eq!(reply_limits(Some(3), None), (3, 3));
    assert_eq!(reply_limits(Some(3), Some(2)), (3, 3));
    assert_eq!(reply_limits(Some(0), Some(100)), (1, 64));
    assert_eq!(buffer_size(100), 200_000);
    assert_eq!(buffer_size(2_000), 240_000);
}

#[test]
fn sending_is_counted() {
    let mut stats = SendStats::new();
    assert!(stats.handed_over(Handover::Accepted));
    assert!(stats.handed_over(Handover::Full));
    assert!(!stats.handed_over(Handover::Closed));
    assert_eq!(stats.dropped, 1);
}

#[test]
fn a_completed_sample_is_timed() {
    let mut replies = Replies::new(None, 2, 3);
    replies.sample_sent(7, 100);
    let mut frame = vec![0u8];
    frame.extend_from_slice(&[KIND_SAMPLE, 0, 0, 0, 0, 0, 0, 0, 7]);
    frame.extend_from_slice(&[KIND_STANDARD, 0, 0, 0, 0, 0, 0, 0, 8]);
    assert!(replies.record_frame(&frame, 150).is_empty());
    assert_eq!((replies.completed, replies.entries), (0, 2));
    frame[0] = 1;
    let timed = replies.record_frame(&frame, 180);
    assert!(matches!(&timed[..], [Latency { id: 7, elapsed: 80 }]));
    assert_eq!((replies.completed, replies.entries), (2, 4));
    // An empty frame counts for nothing.
    assert!(replies.record_frame(&[], 200).is_empty());
    replies.count_bad(3);
    assert_eq!(replies.bad_sig, 3);
    // What never completes is given up.
    frame[1] = 2;
    replies.record_frame(&frame[..10], 200);
    replies.sweep(200 + sailfish::client::tracker::PARTIAL_REPLY_TIMEOUT);
    assert_eq!(replies.abandoned, 1);
}

#[test]
fn bad_reply_entries_are_dropped_and_counted() {
    let order: Vec<PublicKey> = keys().iter().map(|(name, _)| *name).collect();
    let signed = |i: usize, tags: &[u8]| {
        let mut frame = vec![i as u8];
        frame.extend_from_slice(&sign_reply_entries(&Signer::new(&keys()[i].1), i as u8, tags));
        frame
    };
    let good = signed(0, &[1u8; 9]);
    let mut half = signed(1, &[[2u8; 9], [3u8; 9]].concat());
    half[1] ^= 1;
    let mut trailing = signed(2, &[4u8; 9]);
    trailing.push(0);
    let stranger = { let mut frame = signed(0, &[5u8; 9]); frame[0] = 9; frame };
    let frames = vec![good, half, trailing, stranger];
    let (kept, bad) = verify_entries(&frames, &order, false);
    assert_eq!(kept[0], [vec![0u8], vec![1u8; 9]].concat());
    assert_eq!(kept[1], [vec![1u8], vec![3u8; 9]].concat());
    assert_eq!(kept[2], [vec![2u8], vec![4u8; 9]].concat());
    assert_eq!(kept[3], vec![9u8]);
    assert_eq!(bad, 3);
    // Without crypto only what is malformed counts as bad.
    assert_eq!(verify_entries(&frames, &order, true).1, 2);
    // The verdicts decide which tags are left.
    let items = gather_entries(&frames, 4);
    assert_eq!(items.len(), 4);
    let (kept, bad) = settle_entries(&frames, 4, &items, &vec![false, true, false, true]);
    assert_eq!(kept[0], vec![0u8]);
    assert_eq!(kept[1].len(), 10);
    assert_eq!(bad, 4);
}

#[test]
fn repliers_start_at_the_author() {
    let committee = committee();
    let order = committee.keys();
    let repliers = |author: usize, count: usize| -> Vec<usize> {
        (0..4)
            .filter(|i| ClientReplier::new(order[*i], &committee, count, None).participates(&order[author]))
            .collect()
    };
    assert_eq!(repliers(2, 1), vec![2]);
    assert_eq!(repliers(3, 2), vec![0, 3]);
    assert_eq!(repliers(0, 4), vec![0, 1, 2, 3]);
    let replier = ClientReplier::new(order[0], &committee, 2, None);
    assert!(!replier.participates(&PublicKey([9u8; 32])));
}

#[test]
fn a_batch_is_answered_once() {
    let committee = committee();
    let order = committee.keys();
    let mut replier = ClientReplier::new(order[0], &committee, 1, None);
    let (a, b) = (Digest([1u8; 32]), Digest([2u8; 32]));
    assert_eq!(replier.committed(&vec![a, b, a], &order[0]).len(), 2);
    assert!(replier.committed(&vec![b], &order[0]).is_empty());
    assert!(replier.committed(&vec![Digest([3u8; 32])], &order[1]).is_empty());
    assert!(!replier.mark_answered(&a));
    assert!(replier.mark_answered(&Digest([3u8; 32])));
}

#[test]
fn each_client_gets_one_frame_per_batch() {
    let committee = committee();
    let order = committee.keys();
    let other = SocketAddress { port: 4001, ..REPLY_TO };
    let batch = vec![
        transaction(1, Some(REPLY_TO)),
        transaction(2, Some(other)),
        transaction(3, None),
        transaction(4, Some(REPLY_TO)),
    ];
    let mut replier = ClientReplier::new(order[2], &committee, 4, None);
    let replies = replier.reply_for_batch(&batch);
    assert!(replies.report.is_none());
    assert_eq!(replies.frames.len(), 2);
    assert!(replies.frames[0].address == REPLY_TO);
    assert_eq!(replies.frames[0].bytes, [&[2u8][..], &batch[0][..9], &batch[3][..9]].concat());
    assert_eq!(replies.frames[1].bytes, [&[2u8][..], &batch[1][..9]].concat());
}

#[test]
fn signed_replies_verify_under_the_repliers_key() {
    let committee = committee();
    let order = committee.keys();
    let secret = keys().into_iter().find(|(name, _)| *name == order[1]).unwrap().1;
    let signer = || Signer::new(&secret);
    let mut replier = ClientReplier::new(order[1], &committee, 4, Some(signer()));
    let batch = vec![transaction(1, Some(REPLY_TO))];
    let frame = replier.reply_for_batch(&batch).frames.remove(0);
    assert_eq!(frame.bytes.len(), 1 + 73);
    assert_eq!(
        verify_reply_entries(&order[1], 1, &[frame.bytes[1..].to_vec()], false),
        vec![true]
    );
    let unsigned = ReplyFrame { address: REPLY_TO, bytes: [&[1u8][..], &batch[0][..9]].concat() };
    let signed = sign_replies(&signer(), 1, vec![unsigned]);
    assert_eq!(signed[0].bytes, frame.bytes);
}

#[test]
fn a_peers_batch_is_accepted_as_a_whole() {
    let author = keys()[0].0;
    let txs: Vec<Vec<u8>> = (0..130).map(|id| transaction(id, None)).collect();
    let serialized = txs.concat();
    let spans: Vec<Span> =
        (0..130).map(|i| Span { start: i * 80, end: i * 80 + 80 }).collect();
    assert_eq!(verify_peer_batch(serialized.clone(), &author, &spans), Some(serialized.clone()));
    let mut bad = serialized.clone();
    bad[129 * 80] ^= 1;
    assert_eq!(verify_peer_batch(bad, &author, &spans), None);
    let short = vec![Span { start: 0, end: 63 }];
    assert_eq!(verify_peer_batch(serialized, &author, &short), None);
    assert!(all_passed(&vec![true, true]));
    assert!(!all_passed(&vec![true, false]));
}

#[test]
fn batches_are_routed_hashed_and_announced() {
    assert!(Processor::may_receive(15));
    assert!(!Processor::may_receive(16));
    assert!(matches!(Processor::route(vec![1], true, false), BatchRoute::Forward(_)));
    assert!(matches!(Processor::route(vec![1], false, true), BatchRoute::Forward(_)));
    assert!(matches!(Processor::route(vec![1], false, false), BatchRoute::Check(_)));
    let (digest, message) = Processor::process(3, b"abc", true);
    assert!(digest == sailfish::crypto::hash_bytes(b"abc"));
    assert!(matches!(message, WorkerPrimaryMessage::OurBatch(x, 3) if x == digest));
    let (_, message) = Processor::process(3, b"abc", false);
    assert!(matches!(message, WorkerPrimaryMessage::OthersBatch(_, 3)));
}

#[test]
fn workers_are_told_of_their_committed_batches() {
    let (name, secret) = keys().remove(0);
    let mut payload = SortedMap::new();
    payload.insert(Digest([1u8; 32]), 0);
    payload.insert(Digest([2u8; 32]), 7);
    payload.insert(Digest([3u8; 32]), 0);
    let header = Header::new(
        keys()[1].0,
        1,
        payload,
        Certificate::default(),
        &Signer::new(&secret),
        SortedMap::new(),
        0,
    );
    assert!(analyze(&header, &name, &committee(), 0).is_empty());
    let notices = analyze(&header, &name, &committee(), 1);
    // Worker 7 is not listed.
    assert_eq!(notices.len(), 1);
    assert_eq!(notices[0].worker_id, 0);
    assert_eq!(notices[0].address.port, 300);
    match &notices[0].message {
        PrimaryWorkerMessage::Committed(digests, author) => {
            assert_eq!(digests.len(), 2);
            assert!(digests[0] == Digest([1u8; 32]) && digests[1] == Digest([3u8; 32]));
            assert!(*author == keys()[1].0);
        },
    }
}

#[test]
fn the_front_admits_what_the_client_signed() {
    let front = Front::new(keys()[0].0);
    let tx = transaction(1, None);
    assert!(front.admits(&tx));
    assert!(!front.admits(&tx[..63]));
    let mut bad = tx.clone();
    bad[0] ^= 1;
    assert!(!front.admits(&bad));
    assert!(!Front::new(keys()[1].0).admits(&tx));
}

#[test]
fn the_mempool_is_asked_to_forget_four_blocks() {
    let block = |n: u8, round: u64| Block { digest: Digest([n; 32]), round };
    let driver = MempoolDriver::new();
    match driver.cleanup(&block(1, 1), &block(2, 2), &block(3, 3), &block(4, 9)) {
        ConsensusMempoolMessage::Cleanup(digests, round) => {
            assert_eq!(round, 9);
            let first: Vec<u8> = digests.iter().map(|digest| digest.0[0]).collect();
            assert_eq!(first, vec![1, 2, 3, 4]);
        },
        _ => panic!("no cleanup"),
    }
    assert!(matches!(driver.get(500), ConsensusMempoolMessage::Get(500)));
    assert!(matches!(driver.verify(&block(1, 1)), Ok(true)));
}

#[test]
fn sockets_wait_unless_told_otherwise() {
    let mut options = SocketOptions::default();
    assert!(!tcp_nodelay(&options));
    set_tcp_nodelay(&mut options, true);
    assert!(tcp_nodelay(&options));
    set_tcp_nodelay(&mut options, false);
    assert!(!tcp_nodelay(&options));
}

#[test]
fn batches_are_stored_and_then_announced_in_order() {
    let mut actions = Vec::new();
    let batches = vec![Some(vec![1u8]), None, Some(vec![2u8, 3])];
    Processor::deliver(4, batches, false, &mut actions);
    assert_eq!(actions.len(), 4);
    for (i, batch) in [vec![1u8], vec![2u8, 3]].iter().enumerate() {
        let digest = hash_bytes(batch);
        assert!(matches!(
            &actions[2 * i],
            BatchAction::Store(x, stored) if *x == digest && stored == batch
        ));
        assert!(matches!(
            &actions[2 * i + 1],
            BatchAction::Announce(WorkerPrimaryMessage::OthersBatch(x, 4)) if *x == digest
        ));
    }
}
