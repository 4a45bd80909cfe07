use rand::rngs::StdRng;
use rand::{RngCore, SeedableRng};
use sailfish::collections::SortedMap;
use sailfish::config::{
    Authority, Committee, ConsensusAddresses, IpAddress, PrimaryAddresses, SocketAddress,
    WorkerAddresses,
};
use sailfish::crypto::{hash_bytes, CryptoError, Digest, Hashable, PublicKey, SecretKey, Signature, Signer};
use sailfish::primary::aggregators::{QCMaker, TCMaker, VotesAggregator};
use sailfish::primary::error::{ConsensusError, DagError, Severity};
use sailfish::primary::messages::{
    matching_valids, proposal_digest, Certificate, Committment, ConsensusMessage, Header, Proposal,
    Proposals, Timeout, Vote, QC, TC,
};
use sailfish::primary::timer::{FastTimer, Timer};

fn keys() -> Vec<(PublicKey, SecretKey)> {
    let mut rng = StdRng::from_seed([0; 32]);
    (0..4)
        .map(|_| {
            let mut seed = [0u8; 32];
            rng.fill_bytes(&mut seed);
            SecretKey::from_seed(&seed)
        })
        .collect()
}

fn address(port: u16) -> SocketAddress {
    SocketAddress { ip: IpAddress::V4(127, 0, 0, 1), port }
}

fn committee() -> Committee {
    let mut authorities = SortedMap::new();
    for (i, (name, _)) in keys().into_iter().enumerate() {
        let i = i as u16;
        let mut workers = SortedMap::new();
        workers.insert(
            0,
            WorkerAddresses {
                primary_to_worker: address(300 + i),
                transactions: address(400 + i),
                worker_to_worker: address(500 + i),
            },
        );
        authorities.insert(
            name,
            Authority {
                stake: 1,
                consensus: ConsensusAddresses { consensus_to_consensus: address(i) },
                primary: PrimaryAddresses {
                    primary_to_primary: address(100 + i),
                    worker_to_primary: address(200 + i),
                },
                workers,
            },
        );
    }
    Committee::new(authorities).unwrap()
}

fn header_by(i: usize, height: u64) -> Header {
    let (author, secret) = keys().remove(i);
    Header::new(
        author,
        height,
        SortedMap::new(),
        Certificate::genesis_cert(&committee()),
        &Signer::new(&secret),
        SortedMap::new(),
        0,
    )
}

fn vote_by(i: usize, header: &Header) -> Vote {
    let (author, secret) = keys().remove(i);
    Vote::new(header, &author, &Signer::new(&secret), Vec::new())
}

fn proposals_at(height: u64) -> Proposals {
    let mut proposals = SortedMap::new();
    for (name, _) in keys() {
        proposals.insert(name, Proposal::new(Digest([height as u8; 32]), height));
    }
    proposals
}

fn prepare(slot: u64, view: u64) -> ConsensusMessage {
    ConsensusMessage::Prepare { slot, view, tc: None, proposals: proposals_at(1) }
}

fn confirm(view: u64, height: u64) -> ConsensusMessage {
    let qc = QC { id: Digest([1u8; 32]), votes: Vec::new() };
    ConsensusMessage::Confirm { slot: 1, view, qc, proposals: proposals_at(height) }
}

fn timeout_by(i: usize, view: u64, high_qc: Option<ConsensusMessage>) -> Timeout {
    let (author, secret) = keys().remove(i);
    Timeout::new_from_key(high_qc, 1, view, author, &secret)
}

#[test]
fn a_signed_header_passes() {
    let header = header_by(0, 1);
    assert!(header.verify(&committee()).is_ok());
    assert_eq!(header.height(), 1);
    assert!(header.origin() == keys()[0].0);
    // The id covers author, height and payload.
    let mut bytes = header.author.0.to_vec();
    bytes.extend_from_slice(&1u64.to_le_bytes());
    assert!(header.id == hash_bytes(&bytes));
}

#[test]
fn each_fault_of_a_header_is_named() {
    let mut header = header_by(0, 1);
    header.height = 2;
    assert!(matches!(header.verify(&committee()), Err(DagError::InvalidHeaderId)));

    let (stranger, secret) = SecretKey::from_seed(&[77u8; 32]);
    let header = Header::new_from_key(stranger, 1, 1, &secret, &committee());
    assert!(matches!(header.verify(&committee()), Err(DagError::UnknownAuthority(_))));

    let (author, secret) = keys().remove(0);
    let mut payload = SortedMap::new();
    payload.insert(Digest([1u8; 32]), 5);
    let header = Header::new(
        author,
        1,
        payload,
        Certificate::default(),
        &Signer::new(&secret),
        SortedMap::new(),
        0,
    );
    assert!(matches!(header.verify(&committee()), Err(DagError::MalformedHeader(_))));

    let mut header = header_by(0, 1);
    header.signature = Signature::default();
    assert!(matches!(
        header.verify(&committee()),
        Err(DagError::InvalidSignature(CryptoError::InvalidSignature))
    ));
}

#[test]
fn genesis_is_known_to_everyone() {
    let committee = committee();
    assert_eq!(Header::genesis(&committee).height, 0);
    assert!(Header::genesis(&committee) == Header::default());
    assert_eq!(Header::genesis_headers(&committee).len(), 4);
    let tips = Header::genesis_proposals(&committee);
    let name = keys()[1].0;
    assert!(tips.get(&name).unwrap().header_digest == hash_bytes(&[&name.0[..], &[0u8; 8][..]].concat()));
    for certificate in Certificate::genesis(&committee) {
        assert!(certificate.verify(&committee).is_ok());
    }
    assert_eq!(Certificate::genesis_certs(&committee).len(), 4);
}

#[test]
fn votes_make_a_certificate() {
    let header = header_by(0, 1);
    let votes: Vec<Vote> = (0..3).map(|i| vote_by(i, &header)).collect();
    for vote in &votes {
        assert!(vote.verify(&committee()).is_ok());
    }
    let certificate = Certificate {
        author: header.author,
        header_digest: header.id,
        height: 1,
        votes: votes.iter().map(|vote| (vote.author, vote.signature)).collect(),
    };
    // Votes and certificate are over the same digest.
    assert!(votes[0].digest() == certificate.digest());
    assert!(certificate.verify(&committee()).is_ok());
    assert_eq!(certificate.height(), 1);
    assert!(certificate.origin() == header.author);
    assert!(certificate.is_special_valid(&committee()));
    assert!(!certificate.is_special_fast(&committee()));
}

#[test]
fn each_fault_of_a_vote_is_named() {
    let header = header_by(0, 1);
    let mut vote = vote_by(1, &header);
    vote.height = 2;
    assert!(matches!(vote.verify(&committee()), Err(DagError::InvalidSignature(_))));
    let mut vote = vote_by(1, &header);
    vote.author = PublicKey([9u8; 32]);
    assert!(matches!(vote.verify(&committee()), Err(DagError::UnknownAuthority(_))));
}

#[test]
fn each_fault_of_a_certificate_is_named() {
    let header = header_by(0, 1);
    let votes: Vec<(PublicKey, Signature)> = (0..3)
        .map(|i| vote_by(i, &header))
        .map(|vote| (vote.author, vote.signature))
        .collect();
    let with = |votes: Vec<(PublicKey, Signature)>| Certificate {
        author: header.author,
        header_digest: header.id,
        height: 1,
        votes,
    };
    assert!(matches!(
        with(votes[..2].to_vec()).verify(&committee()),
        Err(DagError::CertificateRequiresQuorum)
    ));
    assert!(matches!(
        with(vec![votes[0], votes[0], votes[1]]).verify(&committee()),
        Err(DagError::AuthorityReuse(_))
    ));
    assert!(matches!(
        with(vec![votes[0], (PublicKey([9u8; 32]), votes[1].1)]).verify(&committee()),
        Err(DagError::UnknownAuthority(_))
    ));
    assert!(matches!(
        with(vec![votes[0], votes[1], (votes[2].0, Signature::default())]).verify(&committee()),
        Err(DagError::InvalidSignature(_))
    ));
}

#[test]
fn a_quorum_certificate_covers_its_id() {
    let id = Digest([7u8; 32]);
    let votes: Vec<(PublicKey, Signature)> =
        keys().iter().take(3).map(|(name, secret)| (*name, Signature::new(&id, secret))).collect();
    assert!(QC { id, votes: votes.clone() }.verify(&committee()).is_ok());
    assert!(matches!(
        QC { id: Digest([8u8; 32]), votes: votes.clone() }.verify(&committee()),
        Err(ConsensusError::InvalidSignature(_))
    ));
    assert!(matches!(
        QC { id, votes: votes[1..].to_vec() }.verify(&committee()),
        Err(ConsensusError::QCRequiresQuorum)
    ));
    assert!(matches!(
        QC { id, votes: vec![votes[0], votes[0]] }.verify(&committee()),
        Err(ConsensusError::AuthorityReuse(_))
    ));
    assert!(matches!(
        QC { id, votes: vec![(PublicKey([9u8; 32]), votes[0].1)] }.verify(&committee()),
        Err(ConsensusError::UnknownAuthority(_))
    ));
    // The genesis certificate is always valid.
    assert!(QC::genesis(&committee()).verify(&committee()).is_ok());
    // Certificates are the same if they show the same votes for the same id.
    assert!(QC { id, votes: votes.clone() } == QC { id, votes: votes.clone() });
    assert!(QC { id, votes: votes.clone() } != QC { id, votes: votes[1..].to_vec() });
    assert!(QC { id, votes: votes.clone() } != QC { id: Digest([8u8; 32]), votes });
}

#[test]
fn matching_valids_compares_all_entries() {
    assert!(matching_valids(&vec![]));
    assert!(matching_valids(&vec![1, 1, 1]));
    assert!(!matching_valids(&vec![1, 0, 1]));
}

#[test]
fn consensus_messages_are_told_apart_by_kind_slot_view_and_proposals() {
    assert!(prepare(1, 1) == prepare(1, 1));
    assert!(prepare(1, 1) != prepare(2, 1));
    assert!(prepare(1, 1) != prepare(1, 2));
    let other =
        ConsensusMessage::Prepare { slot: 1, view: 1, tc: None, proposals: proposals_at(2) };
    assert!(prepare(1, 1) != other);
    // A message is the same as itself, whatever it carries.
    assert!(confirm(2, 20) == confirm(2, 20));
    assert!(confirm(2, 20) != confirm(2, 21));
    let with_ticket = |view| {
        let tc = TC::new(&committee(), 1, view, vec![timeout_by(0, view, Some(confirm(2, 20)))]);
        ConsensusMessage::Prepare { slot: 1, view: 6, tc: Some(tc), proposals: proposals_at(1) }
    };
    assert!(with_ticket(5) == with_ticket(5));
    assert!(with_ticket(5) != with_ticket(4));
    assert!(with_ticket(5) != prepare(1, 6));
    // The digest covers kind, slot and view; the proposals have one of their own.
    assert!(prepare(1, 1).digest() == other.digest());
    assert!(prepare(1, 1).digest() != prepare(1, 2).digest());
    assert!(proposal_digest(&prepare(1, 1)) != proposal_digest(&other));
    assert!(prepare(1, 1).digest() == prepare(1, 1).duplicate().digest());
    assert!(proposal_digest(&prepare(1, 1)) == proposal_digest(&prepare(3, 4)));
}

#[test]
fn a_proposal_digest_covers_header_and_height() {
    let proposal = Proposal::new(Digest([3u8; 32]), 9);
    let mut bytes = vec![3u8; 32];
    bytes.extend_from_slice(&9u64.to_le_bytes());
    assert!(proposal.digest() == hash_bytes(&bytes));
    assert!(proposal != Proposal::new(Digest([3u8; 32]), 8));
    assert!(Committment::default().digest() == Committment::default().digest());
}

#[test]
fn a_timeout_is_its_authors() {
    let timeout = timeout_by(0, 1, None);
    assert!(timeout.verify(&committee()).is_ok());
    let mut forged = timeout_by(0, 1, None);
    forged.author = keys()[1].0;
    assert!(matches!(forged.verify(&committee()), Err(DagError::InvalidSignature(_))));
    let mut forged = timeout_by(0, 1, None);
    forged.author = PublicKey([9u8; 32]);
    assert!(matches!(forged.verify(&committee()), Err(DagError::UnknownAuthority(_))));
}

#[test]
fn the_highest_confirm_wins_after_a_timeout() {
    let tc = TC::new(
        &committee(),
        1,
        5,
        vec![
            timeout_by(0, 5, None),
            timeout_by(1, 5, Some(confirm(2, 20))),
            timeout_by(2, 5, Some(confirm(4, 40))),
            timeout_by(3, 5, Some(confirm(3, 30))),
        ],
    );
    assert!(tc.get_winning_proposals().get(&keys()[0].0).unwrap().height == 40);
    let none = TC::new(&committee(), 1, 5, vec![timeout_by(0, 5, None)]);
    assert!(none.get_winning_proposals().is_empty());
}

#[test]
fn a_commit_settles_what_wins() {
    let qc = QC { id: Digest([1u8; 32]), votes: Vec::new() };
    let commit = ConsensusMessage::Commit { slot: 1, view: 1, qc, proposals: proposals_at(11) };
    let tc = TC::new(
        &committee(),
        1,
        5,
        vec![
            timeout_by(0, 5, Some(confirm(3, 30))),
            timeout_by(1, 5, Some(commit)),
            timeout_by(2, 5, Some(confirm(9, 90))),
        ],
    );
    assert!(tc.get_winning_proposals().get(&keys()[0].0).unwrap().height == 11);
}

#[test]
fn checking_a_timeout_certificate_finds_each_fault() {
    let make = |timeouts: Vec<Timeout>| TC::new(&committee(), 1, 2, timeouts);
    let good = make((0..3).map(|i| timeout_by(i, 2, None)).collect());
    assert!(good.verify(&committee()).is_ok());
    // Only the genesis certificate needs no timeouts.
    assert!(TC::genesis(&committee()).verify(&committee()).is_ok());
    let empty = TC::new(&committee(), 1, 1, Vec::new());
    assert!(matches!(empty.verify(&committee()), Err(ConsensusError::TCRequiresQuorum)));
    let weak = make((0..2).map(|i| timeout_by(i, 2, None)).collect());
    assert!(matches!(weak.verify(&committee()), Err(ConsensusError::TCRequiresQuorum)));
    let twice = make(vec![timeout_by(0, 2, None), timeout_by(0, 2, None)]);
    assert!(matches!(twice.verify(&committee()), Err(ConsensusError::AuthorityReuse(_))));
    let mut forged: Vec<Timeout> = (0..3).map(|i| timeout_by(i, 2, None)).collect();
    forged[1].signature = Signature::default();
    assert!(matches!(make(forged).verify(&committee()), Err(ConsensusError::DagError(_))));
    let mut unknown: Vec<Timeout> = (0..3).map(|i| timeout_by(i, 2, None)).collect();
    unknown[1].author = PublicKey([9u8; 32]);
    assert!(matches!(make(unknown).verify(&committee()), Err(ConsensusError::UnknownAuthority(_))));
}

#[test]
fn a_certificate_forms_with_enough_votes_and_only_once() {
    let header = header_by(0, 1);
    let committee = committee();
    let mut aggregator = VotesAggregator::new();
    assert!(matches!(aggregator.append(vote_by(0, &header), &committee, &header), Ok((false, false))));
    assert!(matches!(
        aggregator.append(vote_by(0, &header), &committee, &header),
        Err(DagError::AuthorityReuse(_))
    ));
    assert!(aggregator.get().unwrap().is_none());
    assert!(matches!(aggregator.append(vote_by(1, &header), &committee, &header), Ok((true, true))));
    assert!(matches!(aggregator.append(vote_by(2, &header), &committee, &header), Ok((true, false))));
    let certificate = aggregator.get().unwrap().unwrap();
    assert!(certificate.header_digest == header.id);
    assert_eq!(certificate.votes.len(), 2);
}

#[test]
fn a_quorum_makes_one_qc() {
    let committee = committee();
    let digest = Digest([5u8; 32]);
    let mut maker = QCMaker::new();
    let names: Vec<PublicKey> = committee.keys();
    for i in 0..2 {
        let (available, qc) =
            maker.append(names[i], (digest, Signature::default()), &committee).unwrap();
        assert!(!available && qc.is_none());
    }
    let (available, qc) = maker.append(names[2], (digest, Signature::default()), &committee).unwrap();
    assert!(available);
    assert!(qc.unwrap().id == digest);
    let (_, qc) = maker.append(names[3], (digest, Signature::default()), &committee).unwrap();
    assert!(qc.is_none());
    assert!(matches!(
        maker.append(names[3], (digest, Signature::default()), &committee),
        Err(DagError::AuthorityReuse(_))
    ));
}

#[test]
fn a_fast_qc_waits_for_everyone() {
    let committee = committee();
    let digest = Digest([5u8; 32]);
    let mut maker = QCMaker::new();
    maker.set_fast(true);
    assert!(matches!(maker.get_qc(), Err(DagError::InvalidSlowQCRequest)));
    let names: Vec<PublicKey> = committee.keys();
    for i in 0..2 {
        assert!(!maker.append(names[i], (digest, Signature::default()), &committee).unwrap().0);
    }
    // A mere quorum is announced once.
    let (available, qc) = maker.append(names[2], (digest, Signature::default()), &committee).unwrap();
    assert!(available && qc.is_none());
    assert_eq!(maker.get_qc().unwrap().1.unwrap().votes.len(), 3);
    let (available, qc) = maker.append(names[3], (digest, Signature::default()), &committee).unwrap();
    assert!(available);
    assert_eq!(qc.unwrap().votes.len(), 4);
}

#[test]
fn a_quorum_makes_one_tc() {
    let committee = committee();
    let mut maker = TCMaker::new();
    assert!(maker.append(timeout_by(0, 2, None), &committee).unwrap().is_none());
    assert!(matches!(
        maker.append(timeout_by(0, 2, None), &committee),
        Err(DagError::AuthorityReuse(_))
    ));
    assert!(maker.append(timeout_by(1, 2, None), &committee).unwrap().is_none());
    let tc = maker.append(timeout_by(2, 2, None), &committee).unwrap().unwrap();
    assert_eq!((tc.slot, tc.view, tc.timeouts.len()), (1, 2, 3));
    assert!(maker.append(timeout_by(3, 2, None), &committee).unwrap().is_none());
}

#[test]
fn late_messages_are_not_worth_a_warning() {
    let digest = Digest([0u8; 32]);
    assert_eq!(DagError::HeaderTooOld(digest, 1).severity(), Severity::Debug);
    assert_eq!(DagError::VoteTooOld(digest, 1).severity(), Severity::Debug);
    assert_eq!(DagError::CertificateTooOld(digest, 1).severity(), Severity::Debug);
    assert_eq!(DagError::InvalidHeaderId.severity(), Severity::Warning);
}

#[test]
fn timers_fire_when_their_time_has_come() {
    let mut timer = Timer::new(3, 1, 100, 1_000);
    assert_eq!(timer.poll(1_099), None);
    assert_eq!(timer.poll(1_100), Some((3, 1)));
    timer.reset(1_100);
    assert_eq!(timer.poll(1_199), None);
    assert_eq!(timer.poll(1_200), Some((3, 1)));
    let mut endless = Timer::new(3, 1, u64::MAX, 1_000);
    endless.reset(5);
    assert_eq!(endless.poll(u64::MAX - 1), None);
}

#[test]
fn a_fast_timer_gives_its_vote_back() {
    let vote = vote_by(1, &header_by(0, 1));
    let id = vote.id;
    let timer = FastTimer::new(vote, 50, 0);
    let timer = match timer.poll(49) {
        Err(timer) => timer,
        Ok(_) => panic!("fired early"),
    };
    match timer.poll(50) {
        Ok(vote) => assert!(vote.id == id),
        Err(_) => panic!("did not fire"),
    }
}

#[test]
fn the_winner_of_a_timeout_certificate_is_not_set_from_outside() {
    let timeouts = vec![timeout_by(0, 5, Some(confirm(2, 20)))];
    let tc = TC::new(&committee(), 1, 5, timeouts)
        .determine_winning_proposal(&committee())
        .set_winning_proposal(None, None, None);
    assert_eq!((tc.slot, tc.view, tc.timeouts.len()), (1, 5, 1));
    assert!(tc.validate_winning_proposal(&committee()).is_ok());
    assert!(tc.get_winning_proposals().get(&keys()[0].0).unwrap().height == 20);
}

#[test]
fn bare_keys_sign_what_signers_sign() {
    let (author, secret) = keys().remove(2);
    let header = Header::new_from_key(author, 1, 4, &secret, &committee());
    assert!(header.signature == Signature::new(&header.id, &secret));
    assert!(header.verify(&committee()).is_ok());
    let vote = Vote::new_from_key(header.duplicate(), Vec::new(), author, &secret);
    assert!(vote.signature == Signature::new(&vote.digest(), &secret));
    assert!(vote.signature == vote_by(2, &header).signature);
    // The signature is the secret's, whoever is named as the author.
    let (other, _) = keys().remove(0);
    let foreign = Vote::new_from_key(header, Vec::new(), other, &secret);
    assert!(foreign.signature == vote.signature);
    assert!(matches!(foreign.verify(&committee()), Err(DagError::InvalidSignature(_))));
}

#[test]
fn undecided_messages_are_active_instances() {
    let qc = QC { id: Digest([1u8; 32]), votes: Vec::new() };
    let commit = ConsensusMessage::Commit { slot: 9, view: 1, qc, proposals: proposals_at(1) };
    let mut messages = SortedMap::new();
    for message in [prepare(1, 1), confirm(2, 20), commit] {
        messages.insert(message.digest(), message);
    }
    let mut header = header_by(0, 1);
    let id = header.id;
    header.carry(messages);
    assert_eq!((header.consensus_messages.len(), header.num_active_instances), (3, 2));
    assert!(header.id == id && header.verify(&committee()).is_ok());
}

#[test]
fn the_genesis_header_is_the_default_one_by_another_author() {
    let genesis = Header::genesis(&committee());
    assert!(genesis == Header::default());
    assert!(genesis.author == committee().key_at(0));
}
