use rand::rngs::StdRng;
use rand::{RngCore, SeedableRng};
use sailfish::collections::SortedMap;
use sailfish::config::{
    Authority, Committee, ConsensusAddresses, IpAddress, PrimaryAddresses, SocketAddress,
    WorkerAddresses,
};
use sailfish::consensus::messages::{Ticket, QC};
use sailfish::crypto::{Digest, Hashable, PublicKey, SecretKey, Signer};
use sailfish::primary::messages::Certificate;
use sailfish::primary::proposer::{ConsensusInfo, Parent, Proposer};

fn keys() -> Vec<(PublicKey, SecretKey)> {
    let mut rng = StdRng::from_seed([0; 32]);
    (0..4)
        .map(|_| {
            let mut seed = [0u8; 32];
            rng.fill_bytes(&mut seed);
            SecretKey::from_seed(&seed)
        })
        .collect()
}

fn address(port: u16) -> SocketAddress {
    SocketAddress { ip: IpAddress::V4(127, 0, 0, 1), port }
}

fn committee() -> Committee {
    let mut authorities = SortedMap::new();
    for (i, (name, _)) in keys().into_iter().enumerate() {
        let i = i as u16;
        let mut workers = SortedMap::new();
        workers.insert(
            0,
            WorkerAddresses {
                primary_to_worker: address(300 + i),
                transactions: address(400 + i),
                worker_to_worker: address(500 + i),
            },
        );
        authorities.insert(
            name,
            Authority {
                stake: 1,
                consensus: ConsensusAddresses { consensus_to_consensus: address(i) },
                primary: PrimaryAddresses {
                    primary_to_primary: address(100 + i),
                    worker_to_primary: address(200 + i),
                },
                workers,
            },
        );
    }
    Committee::new(authorities).unwrap()
}

fn proposer(header_size: usize) -> (PublicKey, Proposer) {
    let (name, secret) = keys().pop().unwrap();
    (name, Proposer::new(name, committee(), Signer::new(&secret), header_size).unwrap())
}

fn certificate(author: PublicKey, height: u64) -> Certificate {
    Certificate { author, header_digest: Digest([height as u8; 32]), height, votes: Vec::new() }
}

fn ticket(view: u64, round: u64) -> Ticket {
    Ticket::new(Digest([7u8; 32]), view, round, QC::genesis(), None)
}

#[test]
fn propose_empty() {
    let (_, mut proposer) = proposer(1_000);
    // Nothing is due before the timer.
    assert!(proposer.tick(false).is_none());
    // Ensure the proposer makes a correct empty header.
    let header = proposer.tick(true).unwrap();
    assert_eq!(header.is_special, false);
    assert_eq!(header.height, 1);
    assert!(header.payload.is_empty());
    assert!(header.into_header().verify(&committee()).is_ok());
}

#[test]
fn propose_payload() {
    let (name, mut proposer) = proposer(32);
    // Send enough digests for the header payload.
    let digest = Digest(name.0);
    let worker_id = 0;
    proposer.receive_digest(digest, worker_id);

    // Ensure the proposer makes a correct header from the provided payload.
    let header = proposer.tick(false).unwrap();
    assert_eq!(header.is_special, false);
    assert_eq!(header.height, 1);
    assert_eq!(header.payload.get(&digest), Some(&worker_id));
    assert!(header.into_header().verify(&committee()).is_ok());
    // The batch and the parent are used up.
    assert!(proposer.tick(true).is_none());
}

#[test]
fn the_next_header_waits_for_the_certificate_of_the_last() {
    let (name, mut proposer) = proposer(32);
    let first = proposer.tick(true).unwrap();
    proposer.receive_digest(Digest([1u8; 32]), 0);
    assert!(proposer.tick(true).is_none());
    // The certificate of an earlier header does not help.
    proposer.receive_parent(Parent { certificate: certificate(name, 0), special_valids: vec![] });
    assert!(proposer.tick(true).is_none());
    let parent = certificate(name, 1);
    let digest = parent.digest();
    proposer.receive_parent(Parent { certificate: parent, special_valids: vec![false] });
    let second = proposer.tick(false).unwrap();
    assert_eq!(second.height, first.height + 1);
    assert_eq!(second.special_parent_round, first.height);
    assert!(second.parent_cert.digest() == digest);
    assert!(second.consensus_info.is_none());
}

#[test]
fn of_two_entries_for_one_batch_the_later_counts() {
    let (_, mut proposer) = proposer(64);
    proposer.receive_digest(Digest([1u8; 32]), 3);
    proposer.receive_digest(Digest([1u8; 32]), 4);
    let header = proposer.tick(false).unwrap();
    assert_eq!(header.payload.len(), 1);
    assert_eq!(header.payload.get(&Digest([1u8; 32])), Some(&4));
}

#[test]
fn a_ticket_and_enough_growth_make_a_proposal() {
    let (name, mut proposer) = proposer(1_000);
    proposer.tick(true).unwrap();
    let others: Vec<PublicKey> = committee().keys().into_iter().filter(|x| *x != name).collect();
    proposer.receive_ticket(ticket(0, 5));
    proposer.receive_certificate(certificate(others[0], 1));
    proposer.receive_parent(Parent { certificate: certificate(name, 1), special_valids: vec![false] });
    // Two chains grew, which is not enough.
    let header = proposer.tick(true).unwrap();
    assert!(!header.is_special);
    assert!(header.ticket.is_none());
    // A third makes a proposal with the ticket.
    proposer.receive_certificate(certificate(others[1], 1));
    proposer.receive_parent(Parent { certificate: certificate(name, 2), special_valids: vec![false] });
    let header = proposer.tick(true).unwrap();
    assert!(header.is_special);
    assert_eq!(header.view, 1);
    assert_eq!(header.prev_view_round, 5);
    assert_eq!(header.consensus_info, Some(ConsensusInfo { slot: 1, view: 1 }));
    assert!(header.consensus_parent == Some(ticket(0, 5).digest()));
    let proposal = header.consensus_proposal.unwrap();
    assert_eq!(proposal.proposals.len(), 3);
    assert_eq!(proposal.proposals.get(&name).unwrap().height, 2);
    // The ticket is used up.
    proposer.receive_parent(Parent { certificate: certificate(name, 3), special_valids: vec![false] });
    assert!(!proposer.tick(true).unwrap().is_special);
}

#[test]
fn growth_is_measured_since_the_last_proposal() {
    let (name, mut proposer) = proposer(1_000);
    proposer.tick(true).unwrap();
    let others: Vec<PublicKey> = committee().keys().into_iter().filter(|x| *x != name).collect();
    proposer.receive_ticket(ticket(0, 5));
    proposer.receive_certificate(certificate(others[0], 1));
    proposer.receive_certificate(certificate(others[1], 1));
    proposer.receive_parent(Parent { certificate: certificate(name, 1), special_valids: vec![false] });
    assert!(proposer.tick(true).unwrap().is_special);
    // An old certificate is no growth, nor is the same one again.
    proposer.receive_ticket(ticket(1, 6));
    proposer.receive_certificate(certificate(others[0], 0));
    proposer.receive_certificate(certificate(others[1], 1));
    proposer.receive_parent(Parent { certificate: certificate(name, 2), special_valids: vec![false] });
    assert!(!proposer.tick(true).unwrap().is_special);
    proposer.receive_certificate(certificate(others[0], 2));
    proposer.receive_certificate(certificate(others[1], 2));
    proposer.receive_parent(Parent { certificate: certificate(name, 3), special_valids: vec![false] });
    let header = proposer.tick(true).unwrap();
    assert!(header.is_special);
    assert_eq!(header.consensus_info, Some(ConsensusInfo { slot: 2, view: 1 }));
}

#[test]
fn a_parent_with_valid_votes_carries_the_last_instance() {
    let (name, mut proposer) = proposer(1_000);
    proposer.tick(true).unwrap();
    proposer.receive_parent(Parent {
        certificate: certificate(name, 1),
        special_valids: vec![true, true],
    });
    let header = proposer.tick(true).unwrap();
    assert_eq!(header.consensus_info, Some(ConsensusInfo { slot: 0, view: 0 }));
    assert!(!header.is_special);
}

#[test]
fn an_old_ticket_is_ignored() {
    let (name, mut proposer) = proposer(1_000);
    proposer.tick(true).unwrap();
    proposer.receive_ticket(ticket(4, 9));
    proposer.receive_ticket(ticket(3, 2));
    proposer.receive_parent(Parent { certificate: certificate(name, 1), special_valids: vec![false] });
    let header = proposer.tick(true).unwrap();
    assert_eq!(header.view, 5);
    assert_eq!(header.prev_view_round, 9);
}

#[test]
fn the_proposer_knows_the_leaders() {
    let (_, proposer) = proposer(32);
    let order = committee().keys();
    assert!(proposer.get_leader(6) == order[2]);
    let empty = Committee::new(SortedMap::new()).unwrap();
    let (name, secret) = keys().remove(0);
    assert!(Proposer::new(name, empty, Signer::new(&secret), 32).is_none());
}
