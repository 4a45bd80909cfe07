use rand::rngs::StdRng;
use rand::{RngCore, SeedableRng};
use sailfish::collections::SortedMap;
use sailfish::config::{
    Authority, Committee, ConsensusAddresses, IpAddress, PrimaryAddresses, SocketAddress,
    WorkerAddresses,
};
use sailfish::config::LeaderElector;
use sailfish::crypto::{Digest, Hashable, PublicKey, SecretKey, Signature, Signer};
use sailfish::primary::error::DagError;
use sailfish::primary::committer::Committer;
use sailfish::primary::header_core::{Core, HeaderFacts, PrimaryMessage, Stored};
use sailfish::primary::messages::{
    Certificate, ConsensusMessage, Header, MessageKind, Proposal, Proposals, Timeout, Vote, QC, TC,
};
use sailfish::primary::state::Action;
use sailfish::primary::synchronizer::{Synchronizer, WaiterMessage};

fn keys() -> Vec<(PublicKey, SecretKey)> {
    let mut rng = StdRng::from_seed([0; 32]);
    (0..4)
        .map(|_| {
            let mut seed = [0u8; 32];
            rng.fill_bytes(&mut seed);
            SecretKey::from_seed(&seed)
        })
        .collect()
}

fn address(port: u16) -> SocketAddress {
    SocketAddress { ip: IpAddress::V4(127, 0, 0, 1), port }
}

fn committee() -> Committee {
    let mut authorities = SortedMap::new();
    for (i, (name, _)) in keys().into_iter().enumerate() {
        let i = i as u16;
        let mut workers = SortedMap::new();
        workers.insert(
            0,
            WorkerAddresses {
                primary_to_worker: address(300 + i),
                transactions: address(400 + i),
                worker_to_worker: address(500 + i),
            },
        );
        authorities.insert(
            name,
            Authority {
                stake: 1,
                consensus: ConsensusAddresses { consensus_to_consensus: address(i) },
                primary: PrimaryAddresses {
                    primary_to_primary: address(100 + i),
                    worker_to_primary: address(200 + i),
                },
                workers,
            },
        );
    }
    Committee::new(authorities).unwrap()
}

fn signer(i: usize) -> Signer {
    Signer::new(&keys()[i].1)
}

fn core_of(i: usize) -> Core {
    let committee = committee();
    let elector = LeaderElector::new(&committee).unwrap();
    Core::new(keys()[i].0, committee, signer(i), elector, 50)
}

/// The index of the authority that leads the given view of the given slot.
fn leading(slot: u64, view: u64) -> usize {
    let leader = LeaderElector::new(&committee()).unwrap().get_leader(slot, view);
    keys().iter().position(|(name, _)| *name == leader).unwrap()
}

fn facts(header: &Header) -> HeaderFacts {
    HeaderFacts {
        payload: vec![true; header.payload.len()],
        parent: true,
        known: SortedMap::new(),
        qc_valid: vec![true; header.consensus_messages.len()],
    }
}

/// A header at height 1 on the genesis certificate.
fn header_with(i: usize, messages: Vec<ConsensusMessage>) -> Header {
    let mut instances = SortedMap::new();
    for message in messages {
        instances.insert(message.digest(), message);
    }
    Header::new(
        keys()[i].0,
        1,
        SortedMap::new(),
        Certificate::genesis_cert(&committee()),
        &signer(i),
        instances,
        0,
    )
}

fn certificate_of(header: &Header, voters: usize) -> Certificate {
    let votes = (0..voters)
        .map(|i| Vote::new(header, &keys()[i].0, &signer(i), Vec::new()))
        .map(|vote| (vote.author, vote.signature))
        .collect();
    Certificate { author: header.author, header_digest: header.id, height: header.height, votes }
}

fn genesis_tips() -> Proposals {
    Header::genesis_proposals(&committee())
}

fn prepare(slot: u64, view: u64, tc: Option<TC>) -> ConsensusMessage {
    ConsensusMessage::Prepare { slot, view, tc, proposals: genesis_tips() }
}

/// The genesis headers are stored.
fn with_genesis(mut facts: HeaderFacts) -> HeaderFacts {
    let tips = genesis_tips();
    for i in 0..tips.len() {
        facts.known.insert(tips.value_at(i).header_digest, ());
    }
    facts
}

fn votes_sent(actions: &Vec<Action>) -> Vec<&Vote> {
    actions
        .iter()
        .filter_map(|action| match action {
            Action::SendVote(_, vote) => Some(vote),
            _ => None,
        })
        .collect()
}

#[test]
fn process_header() {
    // The header is not ours.
    let header = header_with(3, Vec::new());
    let mut core = core_of(2);
    let mut actions = Vec::new();
    core.handle_message(
        PrimaryMessage::Header(header.duplicate()),
        &facts(&header),
        &mut actions,
    )
    .unwrap();

    // Ensure the author gets our vote.
    let expected = Vote::new(&header, &keys()[2].0, &signer(2), Vec::new());
    let to = actions.iter().find_map(|action| match action {
        Action::SendVote(to, vote) => Some((*to, vote)),
        _ => None,
    });
    let (to, vote) = to.unwrap();
    assert!(to == header.author);
    assert!(*vote == expected);
    assert!(vote.verify(&committee()).is_ok());

    // Ensure the header is stored.
    assert!(actions.iter().any(|action| matches!(action, Action::StoreHeader(x) if *x == header)));
}

#[test]
fn a_second_header_at_the_same_height_gets_no_vote() {
    let header = header_with(3, Vec::new());
    let mut core = core_of(2);
    let mut actions = Vec::new();
    core.process_header(&header, &facts(&header), &mut actions).unwrap();
    assert_eq!(votes_sent(&actions).len(), 1);
    let mut payload = SortedMap::new();
    payload.insert(Digest([1u8; 32]), 0);
    let other = Header::new(
        keys()[3].0,
        1,
        payload,
        Certificate::genesis_cert(&committee()),
        &signer(3),
        SortedMap::new(),
        0,
    );
    let mut actions = Vec::new();
    core.process_header(&other, &facts(&other), &mut actions).unwrap();
    assert!(votes_sent(&actions).is_empty());
}

#[test]
fn process_header_missing_parent() {
    let parent = header_with(3, Vec::new());
    let header = Header::new(
        keys()[3].0,
        2,
        SortedMap::new(),
        certificate_of(&parent, 3),
        &signer(3),
        SortedMap::new(),
        0,
    );
    let mut core = core_of(2);
    let mut missing = facts(&header);
    missing.parent = false;
    let mut actions = Vec::new();
    core.process_header(&header, &missing, &mut actions).unwrap();
    // Ensure the header is not stored and gets no vote.
    assert!(actions.is_empty());
    // Once the parent is there it does.
    core.process_header(&header, &facts(&header), &mut actions).unwrap();
    assert_eq!(votes_sent(&actions).len(), 1);
}

#[test]
fn process_header_missing_payload() {
    let mut payload = SortedMap::new();
    payload.insert(Digest([5u8; 32]), 0);
    let header = Header::new(
        keys()[3].0,
        1,
        payload,
        Certificate::genesis_cert(&committee()),
        &signer(3),
        SortedMap::new(),
        0,
    );
    let mut core = core_of(2);
    let mut missing = facts(&header);
    missing.payload = vec![false];
    let mut actions = Vec::new();
    core.process_header(&header, &missing, &mut actions).unwrap();
    // Ensure the header is not stored; the batch is fetched.
    assert_eq!(actions.len(), 1);
    assert!(matches!(&actions[0], Action::Wait(WaiterMessage::SyncBatches(batches, _))
        if batches.len() == 1 && batches.contains_key(&Digest([5u8; 32]))));
}

#[test]
fn process_votes() {
    assert!(Header::default() == Header::genesis(&committee()));
    let header = header_with(3, Vec::new());
    let expected = certificate_of(&header, 4);
    let mut core = core_of(3);
    let mut actions = Vec::new();
    core.process_own_header(&header, &facts(&header), &mut actions).unwrap();
    assert!(matches!(actions[0], Action::BroadcastHeader(_)));
    // Our own vote was counted; another one completes the certificate.
    let mut actions = Vec::new();
    for i in 0..3 {
        let vote = Vote::new(&header, &keys()[i].0, &signer(i), Vec::new());
        core.handle_message(PrimaryMessage::Vote(vote), &facts(&header), &mut actions).unwrap();
    }
    let parents: Vec<&Certificate> = actions
        .iter()
        .filter_map(|action| match action {
            Action::SendParent(certificate) => Some(certificate),
            _ => None,
        })
        .collect();
    assert_eq!(parents.len(), 1);
    assert!(*parents[0] == expected);
}

#[test]
fn process_certificates() {
    let certificates: Vec<Certificate> =
        (0..3).map(|i| certificate_of(&header_with(i, Vec::new()), 4)).collect();
    let mut core = core_of(3);
    let blank = facts(&Header::default());
    for certificate in &certificates {
        let mut actions = Vec::new();
        core.handle_message(
            PrimaryMessage::Certificate(certificate.duplicate()),
            &blank,
            &mut actions,
        )
        .unwrap();
        // Ensure the certificate is stored.
        assert!(matches!(&actions[0], Action::StoreCertificate(x) if x == certificate));
    }
}

#[test]
fn a_header_must_follow_its_parent() {
    let mut core = core_of(2);
    let header = Header::new(
        keys()[3].0,
        2,
        SortedMap::new(),
        Certificate::genesis_cert(&committee()),
        &signer(3),
        SortedMap::new(),
        0,
    );
    assert!(matches!(
        core.process_header(&header, &facts(&header), &mut Vec::new()),
        Err(DagError::MalformedHeader(_))
    ));
    let parent = header_with(3, Vec::new());
    let header = Header::new(
        keys()[3].0,
        2,
        SortedMap::new(),
        certificate_of(&parent, 1),
        &signer(3),
        SortedMap::new(),
        0,
    );
    assert!(matches!(
        core.process_header(&header, &facts(&header), &mut Vec::new()),
        Err(DagError::HeaderRequiresQuorum(_))
    ));
}

#[test]
fn old_messages_are_refused_after_collection() {
    let mut core = core_of(2);
    core.collect_garbage(50);
    let header = header_with(3, Vec::new());
    assert!(core.sanitize_header(&header).is_ok());
    core.collect_garbage(60);
    assert!(matches!(core.sanitize_header(&header), Err(DagError::HeaderTooOld(_, 1))));
    let certificate = certificate_of(&header, 3);
    assert!(matches!(
        core.sanitize_certificate(&certificate),
        Err(DagError::CertificateTooOld(_, 1))
    ));
    let forged = Certificate { votes: Vec::new(), ..certificate_of(&header_with(3, Vec::new()), 3) };
    let fresh = core_of(2);
    assert!(matches!(
        fresh.sanitize_certificate(&forged),
        Err(DagError::CertificateRequiresQuorum)
    ));
    let mut vote = Vote::new(&header, &keys()[1].0, &signer(1), Vec::new());
    assert!(fresh.sanitize_vote(&vote).is_ok());
    vote.signature = Signature::default();
    assert!(matches!(fresh.sanitize_vote(&vote), Err(DagError::InvalidSignature(_))));
}

#[test]
fn one_prepare_per_view_gets_our_vote() {
    let author = leading(1, 1);
    let voter = (author + 1) % 4;
    let header = header_with(author, vec![prepare(1, 1, None)]);
    let mut core = core_of(voter);
    let mut actions = Vec::new();
    core.process_header(&header, &with_genesis(facts(&header)), &mut actions).unwrap();
    let vote = votes_sent(&actions)[0];
    assert_eq!(vote.consensus_sigs.len(), 1);
    let (digest, signature) = vote.consensus_sigs[0];
    assert!(digest == prepare(1, 1, None).digest());
    assert!(signature.verify(&digest, &keys()[voter].0).is_ok());
    // The ticket for the next slot starts its timer.
    assert!(actions.iter().any(|action| matches!(action, Action::StartTimer(2, 1))));
    // A second Prepare for the same view is not valid any more.
    assert!(!core.is_valid(&prepare(1, 1, None), true));
    // Nor is one for a later view without a ticket.
    assert!(!core.is_valid(&prepare(1, 2, None), true));
}

#[test]
fn a_prepare_waits_for_its_proposals() {
    let author = leading(1, 1);
    let header = header_with(author, vec![prepare(1, 1, None)]);
    let mut core = core_of((author + 1) % 4);
    let mut actions = Vec::new();
    core.process_header(&header, &facts(&header), &mut actions).unwrap();
    assert_eq!(actions.len(), 4);
    assert!(actions
        .iter()
        .all(|action| matches!(action, Action::Wait(WaiterMessage::SyncProposalHeaders(_, _, _)))));
}

#[test]
fn a_quorum_of_votes_confirms_a_prepare() {
    let message = prepare(1, 1, None);
    let header = header_with(0, vec![message.duplicate()]);
    let mut core = core_of(0);
    let mut actions = Vec::new();
    core.process_own_header(&header, &with_genesis(facts(&header)), &mut actions).unwrap();
    let mut actions = Vec::new();
    for i in 1..3 {
        let digest = message.digest();
        let signature = Signature::new(&digest, &keys()[i].1);
        let vote = Vote::new(&header, &keys()[i].0, &signer(i), vec![(digest, signature)]);
        core.process_vote(vote, &mut actions).unwrap();
    }
    let confirm = actions
        .iter()
        .find_map(|action| match action {
            Action::Propose(message) => Some(message),
            _ => None,
        })
        .unwrap();
    assert!(matches!(confirm.kind(), MessageKind::Confirm));
    assert_eq!((confirm.slot(), confirm.view_number()), (1, 1));
    // Our own header is proposed along.
    assert!(confirm.proposals().get(&keys()[0].0).unwrap().header_digest == header.id);
    // The certificate goes to the proposer with the QC.
    assert!(actions.iter().any(|action| matches!(action, Action::SendParent(_))));
    // The QC of the Confirm verifies.
    match confirm {
        ConsensusMessage::Confirm { qc, .. } => assert!(qc.verify(&committee()).is_ok()),
        _ => panic!("not a confirm"),
    }
}

#[test]
fn a_commit_with_its_headers_is_handed_on() {
    let digest = Digest([3u8; 32]);
    let votes: Vec<(PublicKey, Signature)> =
        keys().iter().take(3).map(|(name, secret)| (*name, Signature::new(&digest, secret))).collect();
    let commit = ConsensusMessage::Commit {
        slot: 1,
        view: 1,
        qc: QC { id: digest, votes },
        proposals: genesis_tips(),
    };
    let header = header_with(0, vec![commit.duplicate()]);
    let core = core_of(1);
    assert_eq!(core.check_qcs(&header), vec![true]);
    let known = with_genesis(facts(&header)).known;
    let mut actions = Vec::new();
    core.process_commit_message(&commit, &known, &mut actions);
    assert!(matches!(&actions[..], [Action::Commit(x)] if x.digest() == commit.digest()));
    // One that another replica passed on is handed on as well.
    let mut actions = Vec::new();
    core_of(1).process_forwarded_message(&commit, &known, &mut actions).unwrap();
    assert!(matches!(&actions[..], [Action::Commit(x)] if *x == commit));
    // What is missing is fetched first.
    let mut actions = Vec::new();
    core.process_commit_message(&commit, &SortedMap::new(), &mut actions);
    assert!(actions.iter().all(|action| matches!(action, Action::Wait(_))));
}

#[test]
fn a_ticket_is_passed_on_to_the_next_leader() {
    let next = leading(2, 1);
    let mut core = core_of((next + 1) % 4);
    let mut actions = Vec::new();
    core.process_forwarded_message(&prepare(1, 1, None), &SortedMap::new(), &mut actions).unwrap();
    assert!(matches!(&actions[..], [Action::Forward(to, _)] if *to == keys()[next].0));
    // The leader itself waits for enough new headers.
    let mut leader = core_of(next);
    let mut actions = Vec::new();
    assert!(!leader.is_prepare_ticket_ready(&prepare(1, 1, None), &mut actions));
    assert!(actions.is_empty());
}

#[test]
fn the_leader_proposes_the_next_slot_once_enough_headers_are_new() {
    let leader = leading(2, 1);
    let mut core = core_of(leader);
    let mut actions = Vec::new();
    core.process_forwarded_message(&prepare(1, 1, None), &SortedMap::new(), &mut actions).unwrap();
    assert!(actions.is_empty());
    for i in 0..3 {
        let author = (leader + 1 + i) % 4;
        let header = header_with(author, Vec::new());
        core.process_header(&header, &facts(&header), &mut actions).unwrap();
    }
    let proposed: Vec<u64> = actions
        .iter()
        .filter_map(|action| match action {
            Action::Propose(message) => Some(message.slot()),
            _ => None,
        })
        .collect();
    assert_eq!(proposed, vec![2]);
}

#[test]
fn a_quorum_of_timeouts_moves_to_the_next_view() {
    let leader = leading(1, 2);
    let mut core = core_of(leader);
    let mut actions = Vec::new();
    for i in 0..3 {
        let (author, secret) = keys().remove((leader + 1 + i) % 4);
        let timeout = Timeout::new_from_key(None, 1, 1, author, &secret);
        core.handle_message(
            PrimaryMessage::Timeout(timeout),
            &facts(&Header::default()),
            &mut actions,
        )
        .unwrap();
    }
    assert!(matches!(actions[0], Action::StartTimer(1, 2)));
    assert!(matches!(actions[1], Action::BroadcastTc(_)));
    let prepare = match &actions[2] {
        Action::Propose(message) => message,
        _ => panic!("no proposal"),
    };
    assert_eq!((prepare.slot(), prepare.view_number()), (1, 2));
    // What the leader proposes from a certificate is valid in that view.
    assert!(core.is_valid(prepare, true));
    // A later view needs a valid certificate of the view before, of the same slot.
    let made = |change: fn(&mut TC), with: bool| {
        let mut message = prepare.duplicate();
        if let ConsensusMessage::Prepare { tc, .. } = &mut message {
            change(tc.as_mut().unwrap());
            if !with {
                *tc = None;
            }
        }
        message
    };
    assert!(core.is_valid(&made(|_| (), true), true));
    assert!(!core.is_valid(&made(|_| (), false), true));
    assert!(!core.is_valid(&made(|tc| tc.slot = 2, true), true));
    assert!(!core.is_valid(&made(|tc| tc.view = 3, true), true));
    assert!(!core.is_valid(&made(|tc| tc.timeouts.truncate(2), true), true));
    // A timeout of a view that we left is ignored.
    let (author, secret) = keys().remove(leader);
    let late = Timeout::new_from_key(None, 1, 1, author, &secret);
    let mut actions = Vec::new();
    core.handle_timeout(&late, &mut actions).unwrap();
    assert!(actions.is_empty());
}

#[test]
fn a_timer_reports_its_view_once() {
    let mut core = core_of(0);
    let mut actions = Vec::new();
    core.local_timeout_round(1, 1, &mut actions).unwrap();
    let timeout = match &actions[..] {
        [Action::BroadcastTimeout(timeout)] => timeout,
        _ => panic!("no timeout"),
    };
    assert_eq!((timeout.slot, timeout.view), (1, 1));
    assert!(timeout.verify(&committee()).is_ok());
    assert!(matches!(
        core.local_timeout_round(1, 1, &mut Vec::new()),
        Err(DagError::AuthorityReuse(_))
    ));
}

#[test]
fn the_synchronizer_names_what_is_missing() {
    let synchronizer = Synchronizer::new(keys()[0].0, &committee());
    let mut payload = SortedMap::new();
    payload.insert(Digest([1u8; 32]), 7);
    payload.insert(Digest([2u8; 32]), 8);
    let header = Header::new(
        keys()[3].0,
        1,
        payload,
        Certificate::genesis_cert(&committee()),
        &signer(3),
        SortedMap::new(),
        0,
    );
    // A batch is stored under its digest and worker.
    let storage = Synchronizer::payload_keys(&header);
    assert_eq!(storage[0], [vec![1u8; 32], vec![7, 0, 0, 0]].concat());
    match synchronizer.missing_payload(&header, &vec![true, false]) {
        Some(WaiterMessage::SyncBatches(batches, _)) => {
            assert_eq!(batches.len(), 1);
            assert_eq!(batches.get(&Digest([2u8; 32])), Some(&8));
        },
        _ => panic!("nothing missing"),
    }
    assert!(synchronizer.missing_payload(&header, &vec![true, true]).is_none());
    assert!(matches!(
        synchronizer.fetch_header(Digest([4u8; 32])),
        WaiterMessage::SyncHeader(digest) if digest == Digest([4u8; 32])
    ));
    assert!(synchronizer.has_parent(&header, false));
}

#[test]
fn a_certificate_waits_for_its_header() {
    let synchronizer = Synchronizer::new(keys()[0].0, &committee());
    let certificate = certificate_of(&header_with(1, Vec::new()), 3);
    assert!(synchronizer.deliver_certificate(&certificate, true).is_none());
    match synchronizer.deliver_certificate(&certificate, false) {
        Some(WaiterMessage::SyncCertificate(awaited)) => assert!(awaited == certificate),
        _ => panic!("delivered without its header"),
    }
}

#[test]
fn a_special_certificate_is_delivered_with_a_stand_in() {
    let synchronizer = Synchronizer::new(keys()[0].0, &committee());
    let certificate = certificate_of(&header_with(1, Vec::new()), 3);
    let stored = Some(Digest([5u8; 32]));
    // A real certificate needs no stand-in.
    assert!(matches!(
        synchronizer.deliver_special_certificate(&certificate, true, stored, true),
        Ok((None, true, None))
    ));
    match synchronizer.deliver_special_certificate(&certificate, true, stored, false) {
        Ok((Some(stand_in), true, None)) => {
            assert_eq!(stand_in.header_digest, Digest([5u8; 32]));
            assert!(stand_in.votes.is_empty());
        },
        _ => panic!("not delivered"),
    }
    // Without anything stored it waits, or is refused.
    assert!(matches!(
        synchronizer.deliver_special_certificate(&certificate, true, None, false),
        Ok((None, false, Some(WaiterMessage::SyncCertificate(_))))
    ));
    assert!(matches!(
        synchronizer.deliver_special_certificate(&certificate, false, None, false),
        Err(DagError::InvalidSpecialParent)
    ));
    let genesis = Synchronizer::dummy_certificate(Header::genesis(&committee()).digest());
    assert!(matches!(
        synchronizer.deliver_special_certificate(&genesis, false, None, false),
        Ok((Some(_), true, None))
    ));
    let (parent, wait) = synchronizer.get_special_parent(&header_with(1, Vec::new()), true);
    assert!(parent.is_none() && !wait);
}

#[test]
fn headers_of_a_proposal_are_taken_until_the_height_is_reached() {
    let synchronizer = Synchronizer::new(keys()[0].0, &committee());
    let chain = chain_of(&[7, 4, 3]);
    let proposal = Proposal::new(chain[0].id, 7);
    let taken = synchronizer.get_all_headers_for_proposal(&proposal, 3, &chain, true).unwrap();
    assert_eq!(taken.iter().map(|header| header.height).collect::<Vec<_>>(), vec![7, 4]);
    assert!(synchronizer
        .get_all_headers_for_proposal(&proposal, 7, &chain, true)
        .unwrap()
        .is_empty());
    assert!(matches!(
        synchronizer.get_all_headers_for_proposal(&proposal, 3, &Vec::new(), false),
        Err(DagError::InvalidHeaderId)
    ));
    // Below the chains stands the genesis header.
    let genesis = synchronizer.get_parent_header(
        &Header::new(
            keys()[1].0,
            1,
            SortedMap::new(),
            Certificate::genesis_cert(&committee()),
            &signer(1),
            SortedMap::new(),
            0,
        ),
        None,
    );
    let genesis = genesis.unwrap();
    assert!(genesis == Header::default() && !genesis.special);
    assert_eq!((genesis.height, genesis.num_active_instances), (0, 0));
}

/// Headers of the given heights.
fn chain_of(heights: &[u64]) -> Vec<Header> {
    heights
        .iter()
        .map(|height| {
            let mut header = header_with(1, Vec::new());
            header.height = *height;
            header
        })
        .collect()
}

#[test]
fn decided_slots_are_handed_on_in_order() {
    let commit = |slot| ConsensusMessage::Commit {
        slot,
        view: 1,
        qc: QC::default(),
        proposals: genesis_tips(),
    };
    let mut committer = Committer::new();
    committer.decided(commit(2));
    assert!(committer.next().is_none());
    committer.decided(commit(1));
    assert_eq!(committer.next().unwrap().slot(), 1);
    assert_eq!(committer.next().unwrap().slot(), 2);
    assert!(committer.next().is_none());
    // A slot is handed on once.
    committer.decided(commit(1));
    assert!(committer.next().is_none());
}

#[test]
fn headers_are_handed_on_after_their_ancestors_and_once() {
    let author = keys()[1].0;
    let heights = |headers: Vec<Header>| -> Vec<u64> {
        headers.iter().map(|header| header.height).collect()
    };
    let mut committer = Committer::new();
    assert_eq!(heights(committer.hand_on(author, chain_of(&[3, 2, 1]))), vec![1, 2, 3]);
    assert_eq!(committer.height(&author), 3);
    let mut next = chain_of(&[5]).remove(0);
    next.parent_cert.height = 4;
    next.parent_cert.header_digest = Digest([4u8; 32]);
    assert_eq!(committer.parent_wanted(&author, &next), Some(Digest([4u8; 32])));
    next.parent_cert.height = 3;
    assert_eq!(committer.parent_wanted(&author, &next), None);
    assert_eq!(heights(committer.hand_on(author, chain_of(&[5, 4, 3, 2]))), vec![4, 5]);
    assert!(committer.hand_on(author, chain_of(&[5, 4])).is_empty());
    assert_eq!(committer.height(&keys()[2].0), 0);
}

#[test]
fn a_header_is_judged_by_its_own_certificates() {
    // A Confirm with a forged QC gets no vote.
    let confirm = |votes| ConsensusMessage::Confirm {
        slot: 1,
        view: 1,
        qc: QC { id: Digest([3u8; 32]), votes },
        proposals: genesis_tips(),
    };
    let good = keys()
        .iter()
        .take(3)
        .map(|(name, secret)| (*name, Signature::new(&Digest([3u8; 32]), secret)))
        .collect();
    let forged = keys().iter().take(3).map(|(name, _)| (*name, Signature::default())).collect();
    for (votes, expected) in [(good, 1), (forged, 0)] {
        let mut core = core_of(1);
        // The Prepare opens the view.
        let first = header_with(0, vec![prepare(1, 1, None)]);
        let second = header_with(2, vec![confirm(votes)]);
        for (header, signatures) in [(first, 1), (second, expected)] {
            let known = with_genesis(facts(&header)).known;
            let stored = Stored { payload: Vec::new(), parent: true, known };
            let mut actions = Vec::new();
            core.receive(PrimaryMessage::Header(header), stored, &mut actions).unwrap();
            let votes = votes_sent(&actions);
            assert_eq!(votes.len(), 1);
            assert_eq!(votes[0].consensus_sigs.len(), signatures);
        }
    }
}

#[test]
fn a_forged_certificate_is_not_stored() {
    let header = header_with(1, Vec::new());
    let good = certificate_of(&header, 3);
    let mut forged = good.duplicate();
    forged.votes[1].1 = Signature::default();
    let mut core = core_of(0);
    let stored = || Stored { payload: Vec::new(), parent: false, known: SortedMap::new() };
    let mut actions = Vec::new();
    assert!(matches!(
        core.receive(PrimaryMessage::Certificate(forged), stored(), &mut actions),
        Err(DagError::InvalidSignature(_))
    ));
    let weak = PrimaryMessage::Certificate(certificate_of(&header, 2));
    assert!(matches!(
        core.receive(weak, stored(), &mut actions),
        Err(DagError::CertificateRequiresQuorum)
    ));
    assert!(actions.is_empty());
    core.receive(PrimaryMessage::Certificate(good), stored(), &mut actions).unwrap();
    assert!(matches!(&actions[..], [Action::StoreCertificate(_)]));
}
