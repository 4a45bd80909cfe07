use rand::rngs::StdRng;
use rand::{RngCore, SeedableRng};
use sailfish::collections::SortedMap;
use sailfish::config::{
    Authority, Committee, ConsensusAddresses, IpAddress, PrimaryAddresses, SocketAddress,
    WorkerAddresses,
};
use sailfish::config::LeaderElector;
use sailfish::consensus::aggregator::{Aggregator, Collector};
use sailfish::consensus::messages::{
    AcceptVote, Certificate, ConsensusMessage, Header, Ticket, Timeout, QC, TC,
};
use sailfish::consensus::state::Action;
use sailfish::consensus::synchronizer::{SyncAction, Synchronizer};
use sailfish::consensus::view_core::Core;
use sailfish::crypto::{hash_bytes, Digest, Hashable, PublicKey, SecretKey, Signature, Signer};
use sailfish::primary::error::{ConsensusError, DagError};

fn keys() -> Vec<(PublicKey, SecretKey)> {
    let mut rng = StdRng::from_seed([0; 32]);
    (0..4)
        .map(|_| {
            let mut seed = [0u8; 32];
            rng.fill_bytes(&mut seed);
            SecretKey::from_seed(&seed)
        })
        .collect()
}

fn address(port: u16) -> SocketAddress {
    SocketAddress { ip: IpAddress::V4(127, 0, 0, 1), port }
}

fn committee() -> Committee {
    let mut authorities = SortedMap::new();
    for (i, (name, _)) in keys().into_iter().enumerate() {
        let i = i as u16;
        let mut workers = SortedMap::new();
        workers.insert(
            0,
            WorkerAddresses {
                primary_to_worker: address(300 + i),
                transactions: address(400 + i),
                worker_to_worker: address(500 + i),
            },
        );
        authorities.insert(
            name,
            Authority {
                stake: 1,
                consensus: ConsensusAddresses { consensus_to_consensus: address(i) },
                primary: PrimaryAddresses {
                    primary_to_primary: address(100 + i),
                    worker_to_primary: address(200 + i),
                },
                workers,
            },
        );
    }
    Committee::new(authorities).unwrap()
}

fn core_at(i: usize) -> Core {
    let (name, secret) = keys().remove(i);
    Core::new(name, committee(), Signer::new(&secret)).unwrap()
}

/// The index of the leader of a view.
fn leading(view: u64) -> usize {
    let leader = LeaderElector::new(&committee()).unwrap().get_view_leader(view);
    keys().iter().position(|(name, _)| *name == leader).unwrap()
}

fn special(author: usize, round: u64, view: u64, ticket: Option<Ticket>) -> Header {
    let (name, secret) = keys().remove(author);
    let mut header = Header::genesis();
    header.author = name;
    header.round = round;
    header.view = view;
    header.is_special = true;
    header.prev_view_round = 1;
    header.special_parent_round = 1;
    header.ticket = ticket;
    header.signed(&Signer::new(&secret))
}

fn genesis_header(round: u64) -> Header {
    special(leading(1), round, 1, Some(Ticket::genesis()))
}

fn qc_for(header: &Header, view_round: u64, voters: usize) -> QC {
    let votes = keys()
        .iter()
        .take(voters)
        .map(|(name, secret)| {
            AcceptVote::new_from_key(header.id, header.view, view_round, *name, secret)
        })
        .map(|vote| (vote.author, vote.signature))
        .collect();
    QC { hash: header.id, view: header.view, view_round, votes }
}

fn timeouts(view: u64, count: usize) -> Vec<Timeout> {
    keys()
        .iter()
        .take(count)
        .map(|(name, secret)| Timeout::new_from_key(QC::genesis(), view, *name, secret))
        .collect()
}

fn tc_for(view: u64, count: usize) -> TC {
    TC {
        hash: Digest([1u8; 32]),
        view,
        view_round: 1,
        votes: timeouts(view, count).iter().map(|t| (t.author, t.signature, 0)).collect(),
    }
}

#[test]
fn process_special_header() {
    let mut core = core_at(3);
    let header = genesis_header(2);
    let mut actions = Vec::new();
    core.process_special_header(header.duplicate(), &mut actions).unwrap();
    // The header is stored and taken for valid.
    assert!(matches!(&actions[0], Action::StoreHeader(x) if x.id == header.id));
    assert!(matches!(&actions[1], Action::Validate(x, 1) if x.id == header.id));
    assert_eq!(actions.len(), 2);
    // It is processed only once.
    let mut actions = Vec::new();
    core.process_special_header(header, &mut actions).unwrap();
    assert!(actions.is_empty());
}

#[test]
fn process_special_cert() {
    // A replica that does not lead the next view.
    let replica = (leading(2) + 1) % 4;
    let mut core = core_at(replica);
    let header = genesis_header(2);
    let certificate =
        Certificate { header: header.duplicate(), special_valids: Vec::new(), votes: Vec::new() };
    let (name, secret) = keys().remove(replica);
    let expected = AcceptVote::new_from_key(header.id, header.view, header.round, name, &secret);

    let mut actions = Vec::new();
    core.process_special_certificate(certificate.duplicate(), &mut actions).unwrap();
    // The header is processed too.
    assert!(actions.iter().any(|action| matches!(action, Action::Validate(_, 1))));
    // Ensure the next leader gets the vote.
    let next_leader = keys()[leading(2)].0;
    match actions.last().unwrap() {
        Action::SendVote(to, vote) => {
            assert!(*to == next_leader);
            assert!(*vote == expected);
            assert!(vote.signature == expected.signature);
            assert!(vote.verify(&committee()).is_ok());
        },
        _ => panic!("no vote"),
    }
    // There is no second vote in the view.
    assert!(matches!(
        core.process_special_certificate(certificate, &mut Vec::new()),
        Err(ConsensusError::AlreadyVoted(_, 1))
    ));
}

#[test]
fn generate_proposal() {
    // The leader of the next view.
    let mut core = core_at(leading(2));
    let header = genesis_header(1);
    let high_qc = qc_for(&header, 1, 4);
    let mut actions = Vec::new();
    core.handle_message(ConsensusMessage::QC(high_qc.duplicate()), &mut actions).unwrap();

    // Ensure the core sends a new ticket.
    let ticket = actions
        .iter()
        .find_map(|action| match action {
            Action::Propose(ticket) => Some(ticket),
            _ => None,
        })
        .unwrap();
    assert_eq!(ticket.round, 1);
    assert_eq!(ticket.view, 1);
    assert!(ticket.qc.digest() == high_qc.digest());
    assert_eq!(ticket.qc.votes.len(), 4);
    assert!(ticket.tc.is_none());
    assert_eq!(core.view(), 2);
}

#[test]
fn commit_header() {
    let mut core = core_at(3);
    let mut header = Header::genesis();
    header.author = keys()[leading(1)].0;
    header.round = 2;
    header.view = 1;
    header.is_special = true;
    header.prev_view_round = 1;
    header.ticket = Some(Ticket::genesis());
    let header = header.signed(&Signer::new(&keys()[leading(1)].1));
    let mut actions = Vec::new();
    core.process_special_header(header.duplicate(), &mut actions).unwrap();
    assert!(actions.iter().any(|action| matches!(action, Action::Validate(_, _))));

    let high_qc = qc_for(&header, 1, 4);
    let certificate = Certificate {
        header: header.duplicate(),
        special_valids: Vec::new(),
        votes: high_qc.votes.clone(),
    };
    core.process_special_certificate(certificate.duplicate(), &mut Vec::new()).unwrap();

    let mut actions = Vec::new();
    core.handle_qc(&high_qc, &mut actions).unwrap();
    let (digest, ticket) = actions
        .into_iter()
        .find_map(|action| match action {
            Action::ProcessCommit(digest, ticket) => Some((digest, ticket)),
            _ => None,
        })
        .unwrap();
    assert!(digest == header.id);
    // The first ticket has no parent to wait for.
    assert!(Synchronizer::deliver_parent_ticket(&header).is_none());
    let mut actions = Vec::new();
    core.process_commit(digest, ticket, Some(header.duplicate()), Vec::new(), true, &mut actions);
    // Ensure the core commits the head.
    assert!(matches!(&actions[0], Action::Commit(x) if x.digest() == certificate.digest()));
    assert!(matches!(&actions[1], Action::Cleanup(x) if x.len() == 1 && x[0].digest() == certificate.digest()));
    assert!(matches!(&actions[2], Action::StoreTicket(x) if x.view == 1));
    assert_eq!(core.last_committed_view(), 1);
    // It is committed only once.
    let mut actions = Vec::new();
    core.commit(header, Vec::new(), Ticket::genesis(), true, &mut actions);
    assert!(actions.is_empty());
}

#[test]
fn local_timeout_round() {
    let replica = leading(3);
    let (public_key, secret_key) = keys().remove(replica);
    let expected = Timeout::new_from_key(QC::genesis(), 1, public_key, &secret_key);
    let mut core = core_at(replica);
    let mut actions = Vec::new();
    core.local_timeout_view(&mut actions).unwrap();
    assert!(matches!(actions[0], Action::ResetTimer));
    match &actions[1] {
        Action::BroadcastTimeout(timeout) => {
            assert_eq!(timeout.view, 1);
            assert!(timeout.author == expected.author);
            assert!(timeout.signature == expected.signature);
            assert!(timeout.verify(&committee()).is_ok());
        },
        _ => panic!("no timeout"),
    }
    // From now on a header of the view is not valid any more.
    let mut actions = Vec::new();
    core.process_special_header(genesis_header(2), &mut actions).unwrap();
    assert!(matches!(&actions[..], [Action::Validate(_, 0)]));
}

#[test]
fn a_quorum_of_votes_decides_a_view() {
    let mut core = core_at(leading(2));
    let header = genesis_header(2);
    let mut actions = Vec::new();
    for (name, secret) in keys().iter().take(3) {
        let vote = AcceptVote::new_from_key(header.id, 1, 2, *name, secret);
        core.handle_message(ConsensusMessage::AcceptVote(vote), &mut actions).unwrap();
    }
    let qc = actions
        .iter()
        .find_map(|action| match action {
            Action::BroadcastQc(qc) => Some(qc),
            _ => None,
        })
        .unwrap();
    // What we put together verifies everywhere.
    assert!(qc.verify(&committee()).is_ok());
    assert_eq!((qc.view, qc.view_round), (1, 2));
    assert!(actions.iter().any(|action| matches!(action, Action::ProcessCommit(_, _))));
    assert!(actions.iter().any(|action| matches!(action, Action::Propose(_))));
    assert_eq!(core.view(), 2);
    // A vote for the view that was decided is ignored.
    let (name, secret) = keys().remove(3);
    let late = AcceptVote::new_from_key(header.id, 1, 2, name, &secret);
    let mut actions = Vec::new();
    core.handle_accept_vote(&late, &mut actions).unwrap();
    assert!(actions.is_empty());
}

#[test]
fn each_fault_of_a_message_is_named() {
    let mut core = core_at(0);
    let header = genesis_header(2);
    let mut vote = AcceptVote::new_from_key(header.id, 1, 2, keys()[0].0, &keys()[0].1);
    core.handle_accept_vote(&vote, &mut Vec::new()).unwrap();
    assert!(matches!(
        core.handle_accept_vote(&vote, &mut Vec::new()),
        Err(ConsensusError::AuthorityReuse(_))
    ));
    vote.view_round = 3;
    assert!(matches!(
        core.handle_accept_vote(&vote, &mut Vec::new()),
        Err(ConsensusError::InvalidSignature(_))
    ));
    vote.author = PublicKey([9u8; 32]);
    assert!(matches!(
        core.handle_accept_vote(&vote, &mut Vec::new()),
        Err(ConsensusError::UnknownAuthority(_))
    ));
    assert!(matches!(
        core.handle_qc(&qc_for(&header, 2, 2), &mut Vec::new()),
        Err(ConsensusError::InvalidQC(_, 1))
    ));
    assert!(matches!(
        core.handle_tc(&tc_for(1, 2), &mut Vec::new()),
        Err(ConsensusError::InvalidTC(_, 1))
    ));
    let mut timeout = timeouts(1, 1).remove(0);
    timeout.view = 2;
    assert!(matches!(
        core.handle_timeout(&timeout, &mut Vec::new()),
        Err(ConsensusError::InvalidSignature(_))
    ));
    assert_eq!(core.view(), 1);
    // The genesis certificate is accepted and changes nothing.
    let mut actions = Vec::new();
    core.handle_qc(&QC::genesis(), &mut actions).unwrap();
    assert!(actions.is_empty());
}

#[test]
fn each_fault_of_a_special_header_is_named() {
    let mut core = core_at(0);
    let mut unsigned = genesis_header(2);
    unsigned.signature = Signature::default();
    assert!(matches!(
        core.process_special_header(unsigned, &mut Vec::new()),
        Err(ConsensusError::InvalidHeader)
    ));
    let usurper = special((leading(1) + 1) % 4, 2, 1, Some(Ticket::genesis()));
    assert!(matches!(
        core.process_special_header(usurper, &mut Vec::new()),
        Err(ConsensusError::WrongProposer)
    ));
    let early = special(leading(2), 2, 2, Some(Ticket::genesis()));
    assert!(matches!(
        core.process_special_header(early, &mut Vec::new()),
        Err(ConsensusError::InvalidTicket)
    ));
    // Without a ticket a header is stored, but not taken for a valid proposal.
    let mut actions = Vec::new();
    core.process_special_header(special(leading(1), 3, 1, None), &mut actions).unwrap();
    assert!(matches!(actions.last().unwrap(), Action::Validate(_, 0)));
}

#[test]
fn a_certificate_of_an_old_view_is_refused() {
    let mut core = core_at(0);
    let header = genesis_header(2);
    core.handle_qc(&qc_for(&header, 2, 3), &mut Vec::new()).unwrap();
    let certificate = Certificate { header, special_valids: Vec::new(), votes: Vec::new() };
    assert!(matches!(
        core.process_special_certificate(certificate, &mut Vec::new()),
        Err(ConsensusError::TooOld(_, 1))
    ));
}

#[test]
fn everyones_votes_in_the_dag_decide_at_once() {
    let mut core = core_at(0);
    let header = genesis_header(2);
    let qc = qc_for(&header, 2, 4);
    let certificate =
        Certificate { header: header.duplicate(), special_valids: vec![1; 4], votes: qc.votes };
    let mut actions = Vec::new();
    core.process_special_certificate(certificate, &mut actions).unwrap();
    assert!(actions.iter().all(|action| !matches!(action, Action::SendVote(_, _))));
    assert!(actions.iter().any(|action| matches!(action, Action::ProcessCommit(digest, _)
        if *digest == header.id)));
    assert_eq!(core.view(), 2);
}

#[test]
fn a_quorum_of_timeouts_opens_the_next_view() {
    let mut core = core_at(leading(2));
    let mut actions = Vec::new();
    for timeout in timeouts(1, 3) {
        core.handle_message(ConsensusMessage::Timeout(timeout), &mut actions).unwrap();
    }
    let tc = actions
        .iter()
        .find_map(|action| match action {
            Action::BroadcastTc(tc) => Some(tc),
            _ => None,
        })
        .unwrap();
    assert!(tc.verify(&committee()).is_ok());
    assert_eq!(core.view(), 2);
    let ticket = actions
        .iter()
        .find_map(|action| match action {
            Action::Propose(ticket) => Some(ticket),
            _ => None,
        })
        .unwrap();
    assert_eq!(ticket.view, 1);
    assert!(ticket.tc.is_some());
    // A header with that ticket is a valid proposal of the next view.
    let next = special(leading(2), 2, 2, Some(ticket.duplicate()));
    let mut actions = Vec::new();
    core_at(3).process_special_header(next, &mut actions).unwrap();
    assert!(matches!(actions.last().unwrap(), Action::Validate(_, 1)));
}

#[test]
fn the_header_of_a_timed_out_view_is_not_committed() {
    let mut core = core_at(0);
    let header = genesis_header(2);
    let ticket = Ticket::new(header.id, 1, 2, QC::genesis(), Some(tc_for(1, 3)));
    let mut actions = Vec::new();
    core.commit(header.duplicate(), Vec::new(), ticket.duplicate(), true, &mut actions);
    assert!(matches!(&actions[..], [Action::StoreTicket(_)]));
    assert_eq!(core.last_committed_view(), 0);
    // Nor is a header whose parent ticket or which itself is missing.
    let ticket = Ticket::new(header.id, 1, 2, qc_for(&header, 2, 3), None);
    let mut actions = Vec::new();
    core.commit(header.duplicate(), Vec::new(), ticket.duplicate(), false, &mut actions);
    core.process_commit(header.id, ticket, None, Vec::new(), true, &mut actions);
    assert!(matches!(&actions[..], [Action::AwaitTicket(_, _), Action::FetchHeader(_, _)]));
}

#[test]
fn only_the_first_leader_proposes_upon_booting() {
    for i in 0..4 {
        let mut actions = Vec::new();
        core_at(i).boot(&mut actions);
        assert!(matches!(actions[0], Action::ResetTimer));
        assert_eq!(actions.len() == 2, i == leading(1));
        if i == leading(1) {
            assert!(matches!(&actions[1], Action::Propose(ticket) if ticket.view == 0));
        }
    }
}

#[test]
fn headers_must_be_what_their_author_signed() {
    let header = genesis_header(2);
    assert!(header.verify(&committee()).is_ok());
    let mut changed = header.duplicate();
    changed.view = 2;
    assert!(matches!(changed.verify(&committee()), Err(DagError::InvalidHeaderId)));
    let mut payload = SortedMap::new();
    payload.insert(Digest([1u8; 32]), 9);
    let mut unknown = Header::genesis();
    unknown.author = keys()[0].0;
    unknown.payload = payload;
    let unknown = unknown.signed(&Signer::new(&keys()[0].1));
    assert!(matches!(unknown.verify(&committee()), Err(DagError::MalformedHeader(_))));
    let stranger = Header::genesis().signed(&Signer::new(&keys()[0].1));
    assert!(matches!(stranger.verify(&committee()), Err(DagError::UnknownAuthority(_))));
    assert_eq!(header.round(), 2);
    assert!(header.origin() == header.author);
}

#[test]
fn what_is_signed_is_laid_out_as_stated() {
    let vote = AcceptVote::new_from_key(Digest([2u8; 32]), 3, 4, keys()[0].0, &keys()[0].1);
    let mut bytes = vec![2u8; 32];
    bytes.extend_from_slice(&3u64.to_le_bytes());
    bytes.extend_from_slice(&4u64.to_le_bytes());
    assert!(vote.digest() == hash_bytes(&bytes));
    let qc = QC { hash: Digest([2u8; 32]), view: 3, view_round: 4, votes: Vec::new() };
    assert!(qc.digest() == vote.digest());
    let timeout = timeouts(5, 1).remove(0);
    assert!(timeout.digest() == hash_bytes(&[5u64.to_le_bytes(), 0u64.to_le_bytes()].concat()));
    let header = genesis_header(2);
    let mut bytes = header.id.0.to_vec();
    bytes.extend_from_slice(&2u64.to_le_bytes());
    bytes.extend_from_slice(&header.author.0);
    assert!(Synchronizer::get_cert(&header) == hash_bytes(&bytes));
}

#[test]
fn the_highest_certificate_goes_into_the_tc() {
    let committee = committee();
    let header = genesis_header(2);
    let mut collector = Collector::new();
    let all = keys();
    let timeout = |i: usize, qc: QC| Timeout::new_from_key(qc, 4, all[i].0, &all[i].1);
    let high = QC { view: 3, ..qc_for(&header, 7, 0) };
    assert!(collector.append(&timeout(0, high), &committee).unwrap().is_none());
    assert!(collector.append(&timeout(1, qc_for(&header, 2, 0)), &committee).unwrap().is_none());
    assert!(matches!(
        collector.append(&timeout(1, QC::genesis()), &committee),
        Err(ConsensusError::AuthorityReuse(_))
    ));
    let tc = collector.append(&timeout(2, QC::genesis()), &committee).unwrap().unwrap();
    assert_eq!((tc.view, tc.view_round), (4, 7));
    assert!(tc.hash == header.id);
    assert!(tc.verify(&committee).is_ok());
    // There is no second certificate for the view.
    assert!(collector.append(&timeout(3, QC::genesis()), &committee).unwrap().is_none());
}

#[test]
fn old_views_are_forgotten() {
    let committee = committee();
    let mut aggregator = Aggregator::new();
    let vote = AcceptVote::new_from_key(Digest([2u8; 32]), 3, 4, keys()[0].0, &keys()[0].1);
    assert!(aggregator.add_accept_vote(&vote, &committee).unwrap().is_none());
    aggregator.cleanup(3);
    assert!(aggregator.add_accept_vote(&vote, &committee).is_err());
    aggregator.cleanup(4);
    assert!(aggregator.add_accept_vote(&vote, &committee).unwrap().is_none());
}

#[test]
fn a_header_waits_and_asks_once() {
    let mut synchronizer = Synchronizer::new(keys()[0].0, 100);
    let parent = Digest([8u8; 32]);
    let header = genesis_header(2);
    let mut actions = Vec::new();
    synchronizer.await_header(header.duplicate(), parent, 0, &mut actions);
    assert!(matches!(&actions[0], SyncAction::WaitHeader(x, _) if *x == parent));
    assert!(matches!(&actions[1], SyncAction::Request(to, x)
        if *to == header.author && *x == parent));
    synchronizer.await_header(header.duplicate(), parent, 1, &mut actions);
    assert_eq!(actions.len(), 2);
    // Another header for the same parent waits without asking.
    synchronizer.await_header(genesis_header(3), parent, 1, &mut actions);
    assert_eq!(actions.len(), 3);
    // Only an overdue request is repeated.
    let mut actions = Vec::new();
    synchronizer.retry(100, &mut actions);
    assert!(actions.is_empty());
    synchronizer.retry(101, &mut actions);
    assert!(matches!(&actions[..], [SyncAction::Repeat(x)] if *x == parent));
    assert!(matches!(synchronizer.request(parent), ConsensusMessage::SyncRequest(x, name)
        if x == parent && name == keys()[0].0));
    assert!(matches!(
        synchronizer.request_cert(parent),
        ConsensusMessage::SyncRequestCert(_, _)
    ));
    // When the parent came, the header goes back to the core.
    let mut actions = Vec::new();
    synchronizer.resume_header(header.duplicate(), parent, &mut actions);
    assert!(matches!(&actions[..], [SyncAction::LoopbackHeader(x)] if x.id == header.id));
    synchronizer.retry(1_000, &mut actions);
    assert_eq!(actions.len(), 1);
}

#[test]
fn a_certificate_waits_for_what_it_builds_on() {
    let mut synchronizer = Synchronizer::new(keys()[0].0, 100);
    let mut header = genesis_header(2);
    header.consensus_parent = Some(Digest([8u8; 32]));
    let certificate = Certificate { header, special_valids: Vec::new(), votes: Vec::new() };
    let mut actions = Vec::new();
    assert!(synchronizer.deliver_consensus_ancestor(&certificate, true, 0, &mut actions));
    assert!(actions.is_empty());
    assert!(!synchronizer.deliver_consensus_ancestor(&certificate, false, 0, &mut actions));
    assert!(matches!(&actions[0], SyncAction::WaitCertificate(_, _)));
    assert!(matches!(&actions[1], SyncAction::RequestCertificate(_, _)));
    let key = Synchronizer::get_parent_cert(&certificate).unwrap();
    assert!(key == Digest([8u8; 32]));
    assert!(Synchronizer::deliver_self(&certificate) == certificate.header.id);
    let mut actions = Vec::new();
    synchronizer.resume_certificate(certificate, key, &mut actions);
    assert!(matches!(&actions[..], [SyncAction::LoopbackCertificate(_)]));
}

#[test]
fn the_parent_header_is_named_by_the_ticket() {
    let mut synchronizer = Synchronizer::new(keys()[0].0, 100);
    let parent = genesis_header(2);
    let ticket = Ticket::new(parent.id, 1, 2, qc_for(&parent, 2, 3), None);
    let child = special(leading(2), 3, 2, Some(ticket.duplicate()));
    let mut actions = Vec::new();
    let found = synchronizer
        .get_parent_header(&child, Some(parent.duplicate()), 0, &mut actions)
        .unwrap();
    assert!(found.unwrap().id == parent.id);
    assert!(synchronizer.get_parent_header(&child, None, 0, &mut actions).unwrap().is_none());
    assert!(matches!(&actions[0], SyncAction::WaitHeader(x, _) if *x == parent.id));
    let late = special(leading(3), 3, 3, Some(ticket));
    assert!(matches!(
        synchronizer.get_parent_header(&late, None, 0, &mut Vec::new()),
        Err(ConsensusError::InvalidTicket)
    ));
    let mut actions = Vec::new();
    let first = genesis_header(2);
    assert!(synchronizer.get_parent_header(&first, None, 0, &mut actions).unwrap().is_none());
    assert!(actions.is_empty());
    // A special parent is fetched likewise.
    let mut child = genesis_header(2);
    child.special_parent = Some(Digest([6u8; 32]));
    assert!(synchronizer.get_special_parent_header(&child, None, 0, &mut actions).is_none());
    assert!(matches!(&actions[0], SyncAction::WaitHeader(x, _) if *x == Digest([6u8; 32])));
    assert!(synchronizer
        .get_special_parent_header(&child, Some(parent), 0, &mut Vec::new())
        .is_some());
}

#[test]
fn uncommitted_ancestors_are_committed_first() {
    let mut core = core_at(0);
    let first = genesis_header(2);
    let ticket = |header: &Header, round| {
        let qc = qc_for(header, round, 3);
        Some(Ticket::new(header.id, header.view, round, qc, None))
    };
    let second = special(leading(2), 3, 2, ticket(&first, 2));
    let third = special(leading(3), 4, 3, ticket(&second, 3));
    // The chain is asked for down to the last committed view.
    assert_eq!(core.next_ancestor(&third), Some(second.id));
    assert_eq!(core.next_ancestor(&second), Some(first.id));
    assert_eq!(core.next_ancestor(&first), None);
    let mut actions = Vec::new();
    core.commit(
        third.duplicate(),
        vec![second.duplicate(), first.duplicate()],
        ticket(&third, 4).unwrap(),
        true,
        &mut actions,
    );
    let committed: Vec<u64> = actions
        .iter()
        .filter_map(|action| match action {
            Action::Commit(certificate) => Some(certificate.header.view),
            _ => None,
        })
        .collect();
    assert_eq!(committed, vec![1, 2, 3]);
    assert!(matches!(&actions[3], Action::Cleanup(x) if x.len() == 3));
    assert!(matches!(&actions[4], Action::StoreTicket(_)));
    assert_eq!(core.last_committed_view(), 3);
    // What was committed is not committed again.
    let fifth = special(leading(5), 6, 5, ticket(&third, 4));
    assert_eq!(core.next_ancestor(&fifth), Some(third.id));
    let mut actions = Vec::new();
    core.commit(fifth.duplicate(), vec![third], ticket(&fifth, 6).unwrap(), true, &mut actions);
    assert!(matches!(&actions[0], Action::Commit(x) if x.header.id == fifth.id));
    assert!(matches!(&actions[1], Action::Cleanup(x) if x.len() == 1));
}
