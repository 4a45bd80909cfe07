use rand::rngs::StdRng;
use rand::{RngCore, SeedableRng};
use sailfish::collections::SortedMap;
use sailfish::config::{
    Authority, Committee, ConsensusAddresses, IpAddress, PrimaryAddresses, SocketAddress,
    WorkerAddresses,
};
use sailfish::config::LeaderElector;
use sailfish::crypto::{PublicKey, SecretKey, Signature};
use sailfish::quorum::{check_voters, reaches, VoterFault};

fn keys() -> Vec<(PublicKey, SecretKey)> {
    let mut rng = StdRng::from_seed([0; 32]);
    (0..4)
        .map(|_| {
            let mut seed = [0u8; 32];
            rng.fill_bytes(&mut seed);
            SecretKey::from_seed(&seed)
        })
        .collect()
}

fn address(port: u16) -> SocketAddress {
    SocketAddress { ip: IpAddress::V4(127, 0, 0, 1), port }
}

fn committee() -> Committee {
    let mut authorities = SortedMap::new();
    for (i, (name, _)) in keys().into_iter().enumerate() {
        let i = i as u16;
        let mut workers = SortedMap::new();
        workers.insert(
            0,
            WorkerAddresses {
                primary_to_worker: address(300 + i),
                transactions: address(400 + i),
                worker_to_worker: address(500 + i),
            },
        );
        authorities.insert(
            name,
            Authority {
                stake: 1,
                consensus: ConsensusAddresses { consensus_to_consensus: address(i) },
                primary: PrimaryAddresses {
                    primary_to_primary: address(100 + i),
                    worker_to_primary: address(200 + i),
                },
                workers,
            },
        );
    }
    Committee::new(authorities).unwrap()
}

#[test]
fn thresholds_of_four_equal_authorities() {
    let committee = committee();
    assert_eq!(committee.size(), 4);
    // f = 1: a quorum is 2f + 1, validity is f + 1 rounded as the stake allows.
    assert_eq!(committee.quorum_threshold(), 3);
    assert_eq!(committee.validity_threshold(), 2);
    assert_eq!(committee.fast_threshold(), 4);
}

#[test]
fn a_stranger_has_no_stake_and_no_addresses() {
    let committee = committee();
    let stranger = PublicKey([9u8; 32]);
    assert_eq!(committee.stake(&stranger), 0);
    assert!(committee.primary(&stranger).is_none());
    assert!(committee.consensus(&stranger).is_none());
    assert!(committee.worker(&stranger, &0).is_none());
    let member = keys()[0].0;
    assert_eq!(committee.stake(&member), 1);
    assert_eq!(committee.primary(&member).unwrap().primary_to_primary.port, 100);
    assert_eq!(committee.worker(&member, &0).unwrap().transactions.port, 400);
    assert!(committee.worker(&member, &1).is_none());
}

#[test]
fn others_leaves_out_only_the_name() {
    let committee = committee();
    let me = keys()[2].0;
    let primaries = committee.others_primaries(&me);
    assert_eq!(primaries.len(), 3);
    assert!(primaries.iter().all(|(name, _)| *name != me));
    let mut ports: Vec<u16> =
        committee.others_consensus(&me).iter().map(|(_, a)| a.consensus_to_consensus.port).collect();
    ports.sort();
    assert_eq!(ports, vec![0, 1, 3]);
}

#[test]
fn a_committee_with_too_much_stake_is_refused() {
    let mut authorities = SortedMap::new();
    let blank = address(0);
    let authority = |stake: u32| Authority {
        stake,
        consensus: ConsensusAddresses { consensus_to_consensus: blank },
        primary: PrimaryAddresses { primary_to_primary: blank, worker_to_primary: blank },
        workers: SortedMap::new(),
    };
    authorities.insert(keys()[0].0, authority(0x4000_0000));
    authorities.insert(keys()[1].0, authority(0x3fff_ffff));
    assert!(Committee::new(authorities).is_some());
    let mut authorities = SortedMap::new();
    authorities.insert(keys()[0].0, authority(0x4000_0000));
    authorities.insert(keys()[1].0, authority(0x4000_0000));
    assert!(Committee::new(authorities).is_none());
}

#[test]
fn leaders_take_turns_in_key_order() {
    let committee = committee();
    let elector = LeaderElector::new(&committee).unwrap();
    let order = committee.keys();
    for view in 0..9u64 {
        assert!(elector.get_view_leader(view) == order[view as usize % 4]);
        assert!(elector.get_leader(2, view) == order[(view as usize + 2) % 4]);
    }
    assert!(elector.get_leader(u64::MAX, u64::MAX) == order[2]);
    assert!(LeaderElector::new(&Committee::new(SortedMap::new()).unwrap()).is_none());
}

#[test]
fn faults_of_voters_are_found_in_order() {
    let committee = committee();
    let names: Vec<PublicKey> = keys().iter().map(|(name, _)| *name).collect();
    let vote = |name: PublicKey| (name, Signature::default());
    let stranger = PublicKey([9u8; 32]);
    assert!(check_voters(&committee, &vec![vote(names[0]), vote(names[1]), vote(names[2])]).is_none());
    assert!(matches!(
        check_voters(&committee, &vec![vote(names[0]), vote(names[1])]),
        Some(VoterFault::TooWeak)
    ));
    assert!(matches!(
        check_voters(&committee, &vec![vote(names[0]), vote(names[0]), vote(stranger)]),
        Some(VoterFault::Reused(_))
    ));
    assert!(matches!(
        check_voters(&committee, &vec![vote(names[0]), vote(stranger), vote(names[0])]),
        Some(VoterFault::Unknown(_))
    ));
}

#[test]
fn any_two_quorums_share_a_voter() {
    let committee = committee();
    let names: Vec<PublicKey> = committee.keys();
    let vote = |i: usize| (names[i], Signature::default());
    let a = vec![vote(0), vote(1), vote(2)];
    let b = vec![vote(3), vote(2), vote(1)];
    assert!(check_voters(&committee, &a).is_none());
    assert!(check_voters(&committee, &b).is_none());
    assert!(a.iter().any(|x| b.iter().any(|y| x.0 == y.0)));
}

#[test]
fn stake_is_counted_up_to_the_threshold() {
    let committee = committee();
    let names: Vec<PublicKey> = committee.keys();
    let votes = vec![(names[0], Signature::default()), (names[1], Signature::default())];
    assert!(reaches(&committee, &votes, 2));
    assert!(!reaches(&committee, &votes, 3));
    assert!(reaches(&committee, &Vec::new(), 0));
}
