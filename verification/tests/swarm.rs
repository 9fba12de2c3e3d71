use std::collections::HashSet;

use aquatic::common::IpAddrBytes;
use aquatic::common::Ipv4AddrBytes;
use aquatic::common::PeerId;
use aquatic::common::PeerStatus;
use aquatic::common::Port;
use aquatic::swarm::Peer;
use aquatic::swarm::ProtocolResponsePeer;
use aquatic::swarm::TorrentData;
use aquatic::time::SecondsSinceServerStart;
use aquatic::time::ValidUntil;
use quickcheck::quickcheck;
use quickcheck::TestResult;
use rand::rngs::SmallRng;
use rand::SeedableRng;

fn gen_peer_id(i: u32) -> PeerId {
    let mut peer_id = PeerId([0; 20]);

    peer_id.0[0..4].copy_from_slice(&i.to_ne_bytes());

    peer_id
}

fn gen_peer(i: u32) -> Peer {
    Peer {
        ip_address: IpAddrBytes::V4(Ipv4AddrBytes(i.to_be_bytes())),
        port: Port(1),
        status: PeerStatus::Leeching,
        valid_until: ValidUntil(0),
        connection: None,
    }
}

fn peer_with(i: u32, status: PeerStatus, valid_until: u64) -> Peer {
    Peer {
        ip_address: IpAddrBytes::V4(Ipv4AddrBytes(i.to_be_bytes())),
        port: Port(i as u16),
        status,
        valid_until: ValidUntil(valid_until),
        connection: None,
    }
}

fn ids_of(swarm: &TorrentData) -> Vec<u32> {
    (0..swarm.num_peers())
        .map(|i| {
            let (id, _) = swarm.peer_at(i).unwrap();
            u32::from_ne_bytes([id.0[0], id.0[1], id.0[2], id.0[3]])
        })
        .collect()
}

fn selected_ids(selected: &[([u8; 20], Peer)]) -> Vec<u32> {
    selected
        .iter()
        .map(|(id, _)| u32::from_ne_bytes([id[0], id[1], id[2], id[3]]))
        .collect()
}

fn swarm_of(n: u32) -> TorrentData {
    let mut swarm = TorrentData::new();
    for i in 0..n {
        swarm.update_peer(gen_peer_id(i), gen_peer(i));
    }
    swarm
}

fn extract_response_peers_prop(data: (u16, u16)) -> TestResult {
    let gen_num_peers = data.0 as u32;
    let req_num_peers = data.1 as usize;

    let mut peer_map = TorrentData::new();

    let mut opt_sender_key = None;
    let mut opt_sender_peer = None;

    for i in 0..gen_num_peers {
        let key = gen_peer_id(i);
        let value = gen_peer((i << 16) + i);

        if i == 0 {
            opt_sender_key = Some(key);
            opt_sender_peer = Some(value.to_response_peer());
        }

        peer_map.update_peer(key, value);
    }

    let mut rng = SmallRng::from_entropy();

    let peers = peer_map.extract_response_peers(
        &mut rng,
        req_num_peers,
        opt_sender_key.unwrap_or_else(|| gen_peer_id(1)),
    );

    // Check that number of returned peers is correct

    let mut success = peers.len() <= req_num_peers;

    if req_num_peers >= gen_num_peers as usize {
        success &= peers.len() == gen_num_peers as usize
            || peers.len() + 1 == gen_num_peers as usize;
    }

    // Check that returned peers are unique (no overlap) and that sender
    // isn't returned

    let mut ip_addresses = HashSet::with_capacity(peers.len());

    for peer in peers {
        if peer == opt_sender_peer.clone().unwrap() || ip_addresses.contains(&peer.ip_address) {
            success = false;

            break;
        }

        ip_addresses.insert(peer.ip_address);
    }

    TestResult::from_bool(success)
}

#[test]
fn test_extract_response_peers() {
    quickcheck(extract_response_peers_prop as fn((u16, u16)) -> TestResult);
}

#[test]
fn new_swarm_is_empty() {
    let swarm = TorrentData::new();
    assert_eq!(swarm.num_peers(), 0);
    assert_eq!(swarm.num_seeders(), 0);
    assert_eq!(swarm.num_leechers(), 0);
    assert!(swarm.is_empty());
    assert!(swarm.peer_at(0).is_none());
}

#[test]
fn counts_follow_the_peers() {
    let mut swarm = TorrentData::new();
    assert!(swarm
        .update_peer(gen_peer_id(1), peer_with(1, PeerStatus::Seeding, 10))
        .is_none());
    assert!(swarm
        .update_peer(gen_peer_id(2), peer_with(2, PeerStatus::Leeching, 10))
        .is_none());
    assert!(swarm
        .update_peer(gen_peer_id(3), peer_with(3, PeerStatus::Leeching, 10))
        .is_none());
    assert_eq!(swarm.num_peers(), 3);
    assert_eq!(swarm.num_seeders(), 1);
    assert_eq!(swarm.num_leechers(), 2);

    // a leecher that completes becomes a seeder, in its place
    let previous = swarm
        .update_peer(gen_peer_id(2), peer_with(2, PeerStatus::Seeding, 20))
        .unwrap();
    assert_eq!(previous.status, PeerStatus::Leeching);
    assert_eq!(swarm.num_peers(), 3);
    assert_eq!(swarm.num_seeders(), 2);
    assert_eq!(swarm.num_leechers(), 1);
    assert_eq!(ids_of(&swarm), vec![1, 2, 3]);
    assert_eq!(swarm.peer(&gen_peer_id(2)).unwrap().valid_until, ValidUntil(20));
    assert!(swarm.peer(&gen_peer_id(9)).is_none());
}

#[test]
fn repeated_announce_changes_no_count() {
    let mut swarm = swarm_of(3);
    swarm.update_peer(gen_peer_id(7), peer_with(7, PeerStatus::Leeching, 10));
    let (peers, seeders, leechers) = (swarm.num_peers(), swarm.num_seeders(), swarm.num_leechers());
    let previous = swarm.update_peer(gen_peer_id(7), peer_with(7, PeerStatus::Leeching, 10));
    assert!(previous.is_some());
    assert_eq!(
        (swarm.num_peers(), swarm.num_seeders(), swarm.num_leechers()),
        (peers, seeders, leechers)
    );
    assert_eq!(ids_of(&swarm), vec![0, 1, 2, 7]);
}

#[test]
fn stopped_peer_leaves_and_the_order_stays() {
    let mut swarm = TorrentData::new();
    for i in 0..5 {
        let status = if i % 2 == 0 {
            PeerStatus::Seeding
        } else {
            PeerStatus::Leeching
        };
        swarm.update_peer(gen_peer_id(i), peer_with(i, status, 10));
    }
    assert_eq!((swarm.num_seeders(), swarm.num_leechers()), (3, 2));

    let previous = swarm.update_peer(gen_peer_id(1), peer_with(1, PeerStatus::Stopped, 10));
    assert_eq!(previous.unwrap().status, PeerStatus::Leeching);
    assert_eq!(ids_of(&swarm), vec![0, 2, 3, 4]);
    assert_eq!((swarm.num_seeders(), swarm.num_leechers()), (3, 1));

    // a second stop changes nothing
    assert!(swarm
        .update_peer(gen_peer_id(1), peer_with(1, PeerStatus::Stopped, 10))
        .is_none());
    assert_eq!(ids_of(&swarm), vec![0, 2, 3, 4]);
    assert_eq!((swarm.num_seeders(), swarm.num_leechers()), (3, 1));

    // nor does the stop of a peer that never joined
    assert!(swarm
        .update_peer(gen_peer_id(77), peer_with(77, PeerStatus::Stopped, 10))
        .is_none());
    assert_eq!(swarm.num_peers(), 4);
}

#[test]
fn cleaning_keeps_what_is_live() {
    let mut swarm = TorrentData::new();
    swarm.update_peer(gen_peer_id(0), peer_with(0, PeerStatus::Seeding, 5));
    swarm.update_peer(gen_peer_id(1), peer_with(1, PeerStatus::Leeching, 10));
    swarm.update_peer(gen_peer_id(2), peer_with(2, PeerStatus::Seeding, 9));
    swarm.update_peer(gen_peer_id(3), peer_with(3, PeerStatus::Leeching, 11));

    // a peer is live up to and including its limit
    assert!(swarm.clean(SecondsSinceServerStart(5)));
    assert_eq!(ids_of(&swarm), vec![0, 1, 2, 3]);

    assert!(swarm.clean(SecondsSinceServerStart(10)));
    assert_eq!(ids_of(&swarm), vec![1, 3]);
    assert_eq!((swarm.num_seeders(), swarm.num_leechers()), (0, 2));

    assert!(!swarm.clean(SecondsSinceServerStart(12)));
    assert!(swarm.is_empty());
    assert_eq!((swarm.num_seeders(), swarm.num_leechers()), (0, 0));
}

#[test]
fn small_swarm_gives_all_but_the_sender_in_order() {
    let swarm = swarm_of(4);
    // four peers, three wanted: all but the sender
    let selected = swarm.select_peers_at(3, gen_peer_id(2), 0);
    assert_eq!(selected_ids(&selected), vec![0, 1, 3]);
    // more wanted than there are
    let selected = swarm.select_peers_at(10, gen_peer_id(0), 3);
    assert_eq!(selected_ids(&selected), vec![1, 2, 3]);
    // a sender that is no peer of the swarm
    let selected = swarm.select_peers_at(10, gen_peer_id(9), 0);
    assert_eq!(selected_ids(&selected), vec![0, 1, 2, 3]);
}

#[test]
fn large_swarm_gives_a_window_that_wraps() {
    let swarm = swarm_of(10);
    let selected = swarm.select_peers_at(3, gen_peer_id(0), 4);
    assert_eq!(selected_ids(&selected), vec![4, 5, 6]);
    // around the end
    let selected = swarm.select_peers_at(4, gen_peer_id(5), 8);
    assert_eq!(selected_ids(&selected), vec![8, 9, 0, 1]);
    // the sender in the window is left out: one peer less
    let selected = swarm.select_peers_at(4, gen_peer_id(9), 8);
    assert_eq!(selected_ids(&selected), vec![8, 0, 1]);
    // nothing wanted
    let selected = swarm.select_peers_at(0, gen_peer_id(9), 8);
    assert!(selected.is_empty());
}

#[test]
fn response_peers_carry_address_and_port() {
    let mut swarm = TorrentData::new();
    swarm.update_peer(gen_peer_id(0), peer_with(0x0a000002, PeerStatus::Seeding, 5));
    swarm.update_peer(gen_peer_id(1), peer_with(0x0a000003, PeerStatus::Leeching, 5));
    let peers = swarm.extract_response_peers_at(5, gen_peer_id(1), 0);
    assert_eq!(
        peers,
        vec![ProtocolResponsePeer {
            ip_address: IpAddrBytes::V4(Ipv4AddrBytes([10, 0, 0, 2])),
            port: Port(2),
        }]
    );
}

#[test]
fn random_window_has_the_right_size() {
    let swarm = swarm_of(50);
    let mut rng = SmallRng::seed_from_u64(7);
    for _ in 0..200 {
        let selected = swarm.select_peers(&mut rng, 10, gen_peer_id(3));
        assert!(selected.len() == 10 || selected.len() == 9);
        let ids = selected_ids(&selected);
        assert!(!ids.contains(&3));
        let distinct: HashSet<u32> = ids.iter().copied().collect();
        assert_eq!(distinct.len(), ids.len());
        // the window is a run of places, with or without the sender
        let first = ids[0];
        let mut expected = Vec::new();
        let mut place = first;
        while expected.len() < ids.len() {
            if place != 3 {
                expected.push(place);
            }
            place = (place + 1) % 50;
        }
        assert_eq!(ids, expected);
    }
}
