use aquatic::access_list::AccessList;
use aquatic::access_list::AccessListMode;
use aquatic::common::AnnounceEvent;
use aquatic::common::AnnounceInterval;
use aquatic::common::ConnectionId;
use aquatic::common::InfoHash;
use aquatic::common::IpAddrBytes;
use aquatic::common::Ipv4AddrBytes;
use aquatic::common::Ipv6AddrBytes;
use aquatic::common::NumberOfBytes;
use aquatic::common::NumberOfDownloads;
use aquatic::common::NumberOfPeers;
use aquatic::common::PeerId;
use aquatic::common::PeerKey;
use aquatic::common::PeerStatus;
use aquatic::common::Port;
use aquatic::common::ResponsePeerIpv4;
use aquatic::common::ResponsePeerIpv6;
use aquatic::common::SocketAddrBytes;
use aquatic::common::TransactionId;
use aquatic::config::Config;
use aquatic::handlers::calc_max_num_peers_to_take;
use aquatic::handlers::handle_announce_request;
use aquatic::handlers::handle_request;
use aquatic::handlers::handle_scrape_request;
use aquatic::handlers::AnnounceError;
use aquatic::messages::calculate_request_consumer_index;
use aquatic::messages::ConnectedRequest;
use aquatic::messages::ConnectedResponse;
use aquatic::messages::PendingScrapeRequest;
use aquatic::messages::RequestWorkerIndex;
use aquatic::request::AnnounceRequest;
use aquatic::response::TorrentScrapeStatistics;
use aquatic::swarm::Peer;
use aquatic::time::SecondsSinceServerStart;
use aquatic::time::ServerStartInstant;
use aquatic::time::ValidUntil;
use aquatic::torrent_maps::count_to_i32;
use aquatic::torrent_maps::create_torrent_scrape_statistics;
use aquatic::torrent_maps::TorrentMap;
use aquatic::torrent_maps::TorrentMaps;
use rand::rngs::SmallRng;
use rand::SeedableRng;

fn v4(last: u8) -> IpAddrBytes {
    IpAddrBytes::V4(Ipv4AddrBytes([10, 0, 0, last]))
}

fn v6(last: u8) -> IpAddrBytes {
    IpAddrBytes::V6(Ipv6AddrBytes([
        0x20, 1, 0, 0, 0, 0, 0, 0, 0, 0, 0, 0, 0, 0, 0, last,
    ]))
}

fn announce(info_hash: [u8; 20], peer: u8, event: AnnounceEvent, left: i64) -> AnnounceRequest {
    AnnounceRequest {
        connection_id: ConnectionId(0),
        transaction_id: TransactionId(0x11223344),
        info_hash: InfoHash(info_hash),
        peer_id: PeerId([peer; 20]),
        bytes_downloaded: NumberOfBytes(0),
        bytes_left: NumberOfBytes(left),
        bytes_uploaded: NumberOfBytes(0),
        event,
        ip_address: Ipv4AddrBytes([0; 4]),
        key: PeerKey(0),
        peers_wanted: NumberOfPeers(10),
        port: Port(6881),
    }
}

fn peer(ip: IpAddrBytes, status: PeerStatus, valid_until: u64) -> Peer {
    Peer {
        ip_address: ip,
        port: Port(6881),
        status,
        valid_until: ValidUntil(valid_until),
        connection: None,
    }
}

#[test]
fn first_announce_makes_a_swarm_of_one_leecher() {
    let config = Config::default();
    let mut rng = SmallRng::seed_from_u64(1);
    let mut torrents = TorrentMaps::new();
    let access_list = AccessList::new();
    let request = announce([0xaa; 20], 0xbb, AnnounceEvent::Started, 10);

    let response = handle_announce_request(
        &config,
        &mut rng,
        &mut torrents,
        &access_list,
        request,
        v4(2),
        ValidUntil(100),
    )
    .unwrap();

    match response {
        ConnectedResponse::AnnounceIpv4(r) => {
            assert_eq!(r.transaction_id, TransactionId(0x11223344));
            assert_eq!(
                r.announce_interval,
                AnnounceInterval(config.protocol.peer_announce_interval)
            );
            assert_eq!(r.seeders, NumberOfPeers(0));
            assert_eq!(r.leechers, NumberOfPeers(1));
            assert!(r.peers.is_empty());
        }
        other => panic!("unexpected response {:?}", other),
    }
    assert_eq!(torrents.ipv4.len(), 1);
    assert_eq!(torrents.ipv6.len(), 0);
    assert_eq!(torrents.ipv4.counts(&InfoHash([0xaa; 20])), Some((0, 1)));
    let kept = torrents
        .ipv4
        .find_peer(&InfoHash([0xaa; 20]), &PeerId([0xbb; 20]))
        .unwrap();
    assert_eq!(kept.status, PeerStatus::Leeching);
    assert_eq!(kept.ip_address, v4(2));
    assert_eq!(kept.port, Port(6881));
    assert_eq!(kept.valid_until, ValidUntil(100));
}

#[test]
fn full_swarm_sample() {
    let config = Config::default();
    let mut rng = SmallRng::seed_from_u64(1);
    let mut torrents = TorrentMaps::new();
    let access_list = AccessList::new();
    for p in 1..=3u8 {
        handle_announce_request(
            &config,
            &mut rng,
            &mut torrents,
            &access_list,
            announce([0xcc; 20], p, AnnounceEvent::Completed, 0),
            v4(p),
            ValidUntil(100),
        )
        .unwrap();
    }
    let mut request = announce([0xcc; 20], 4, AnnounceEvent::Started, 7);
    request.peers_wanted = NumberOfPeers(10);
    let response = handle_announce_request(
        &config,
        &mut rng,
        &mut torrents,
        &access_list,
        request,
        v4(4),
        ValidUntil(100),
    )
    .unwrap();
    match response {
        ConnectedResponse::AnnounceIpv4(r) => {
            assert_eq!(r.seeders, NumberOfPeers(3));
            assert_eq!(r.leechers, NumberOfPeers(1));
            assert_eq!(
                r.peers,
                vec![
                    ResponsePeerIpv4 {
                        ip_address: Ipv4AddrBytes([10, 0, 0, 1]),
                        port: Port(6881)
                    },
                    ResponsePeerIpv4 {
                        ip_address: Ipv4AddrBytes([10, 0, 0, 2]),
                        port: Port(6881)
                    },
                    ResponsePeerIpv4 {
                        ip_address: Ipv4AddrBytes([10, 0, 0, 3]),
                        port: Port(6881)
                    },
                ]
            );
        }
        other => panic!("unexpected response {:?}", other),
    }
}

#[test]
fn stopped_peer_removes_and_decrements() {
    let config = Config::default();
    let mut rng = SmallRng::seed_from_u64(1);
    let mut torrents = TorrentMaps::new();
    let access_list = AccessList::new();
    let h = [0xdd; 20];
    for p in 1..=2u8 {
        handle_announce_request(
            &config,
            &mut rng,
            &mut torrents,
            &access_list,
            announce(h, p, AnnounceEvent::Started, 5),
            v4(p),
            ValidUntil(100),
        )
        .unwrap();
    }
    assert_eq!(torrents.ipv4.counts(&InfoHash(h)), Some((0, 2)));

    let response = handle_announce_request(
        &config,
        &mut rng,
        &mut torrents,
        &access_list,
        announce(h, 1, AnnounceEvent::Stopped, 5),
        v4(1),
        ValidUntil(100),
    )
    .unwrap();
    match response {
        ConnectedResponse::AnnounceIpv4(r) => {
            assert_eq!(r.leechers, NumberOfPeers(1));
            assert_eq!(r.seeders, NumberOfPeers(0));
        }
        other => panic!("unexpected response {:?}", other),
    }
    assert!(torrents.ipv4.find_peer(&InfoHash(h), &PeerId([1; 20])).is_none());
    assert_eq!(torrents.ipv4.counts(&InfoHash(h)), Some((0, 1)));

    // the swarm is dropped when its last peer stops
    handle_announce_request(
        &config,
        &mut rng,
        &mut torrents,
        &access_list,
        announce(h, 2, AnnounceEvent::Stopped, 5),
        v4(2),
        ValidUntil(100),
    )
    .unwrap();
    assert!(!torrents.ipv4.contains(&InfoHash(h)));
    assert_eq!(torrents.ipv4.len(), 0);

    // and a stop for a torrent without a swarm makes none
    handle_announce_request(
        &config,
        &mut rng,
        &mut torrents,
        &access_list,
        announce([0xde; 20], 2, AnnounceEvent::Stopped, 5),
        v4(2),
        ValidUntil(100),
    )
    .unwrap();
    assert_eq!(torrents.ipv4.len(), 0);
}

#[test]
fn families_are_kept_apart() {
    let mut config = Config::default();
    config.network.address = SocketAddrBytes {
        ip: v6(0),
        port: 3000,
    };
    let mut rng = SmallRng::seed_from_u64(1);
    let mut torrents = TorrentMaps::new();
    let access_list = AccessList::new();
    let h = [0xee; 20];
    handle_announce_request(
        &config,
        &mut rng,
        &mut torrents,
        &access_list,
        announce(h, 1, AnnounceEvent::Started, 0),
        v4(1),
        ValidUntil(100),
    )
    .unwrap();
    handle_announce_request(
        &config,
        &mut rng,
        &mut torrents,
        &access_list,
        announce(h, 2, AnnounceEvent::Started, 0),
        v6(2),
        ValidUntil(100),
    )
    .unwrap();
    let response = handle_announce_request(
        &config,
        &mut rng,
        &mut torrents,
        &access_list,
        announce(h, 3, AnnounceEvent::Started, 1),
        v6(3),
        ValidUntil(100),
    )
    .unwrap();
    match response {
        ConnectedResponse::AnnounceIpv6(r) => {
            assert_eq!(r.seeders, NumberOfPeers(1));
            assert_eq!(r.leechers, NumberOfPeers(1));
            assert_eq!(
                r.peers,
                vec![ResponsePeerIpv6 {
                    ip_address: Ipv6AddrBytes([0x20, 1, 0, 0, 0, 0, 0, 0, 0, 0, 0, 0, 0, 0, 0, 2]),
                    port: Port(6881)
                }]
            );
        }
        other => panic!("unexpected response {:?}", other),
    }
    assert_eq!(torrents.ipv4.counts(&InfoHash(h)), Some((1, 0)));
    assert_eq!(torrents.ipv6.counts(&InfoHash(h)), Some((1, 1)));
}

#[test]
fn announce_from_a_family_that_is_not_served_is_dropped() {
    let config = Config::default();
    let mut rng = SmallRng::seed_from_u64(1);
    let mut torrents = TorrentMaps::new();
    let access_list = AccessList::new();
    // bound to an IPv4 address
    let result = handle_announce_request(
        &config,
        &mut rng,
        &mut torrents,
        &access_list,
        announce([1; 20], 1, AnnounceEvent::Started, 0),
        v6(1),
        ValidUntil(100),
    );
    assert_eq!(result, Err(AnnounceError::AddressFamilyNotServed));
    assert_eq!(torrents.ipv6.len(), 0);

    let mut config = Config::default();
    config.network.address = SocketAddrBytes {
        ip: v6(0),
        port: 3000,
    };
    config.network.only_ipv6 = true;
    let result = handle_announce_request(
        &config,
        &mut rng,
        &mut torrents,
        &access_list,
        announce([1; 20], 1, AnnounceEvent::Started, 0),
        v4(1),
        ValidUntil(100),
    );
    assert_eq!(result, Err(AnnounceError::AddressFamilyNotServed));
    assert!(config.network.serves(false));
    assert!(!config.network.serves(true));
}

#[test]
fn announce_for_a_torrent_that_is_not_allowed_is_refused() {
    let mut config = Config::default();
    config.access_list.mode = AccessListMode::Deny;
    let mut rng = SmallRng::seed_from_u64(1);
    let mut torrents = TorrentMaps::new();
    let mut access_list = AccessList::new();
    access_list.insert(InfoHash([9; 20]));
    let result = handle_request(
        &config,
        &mut rng,
        &mut torrents,
        &access_list,
        ConnectedRequest::Announce(announce([9; 20], 1, AnnounceEvent::Started, 0)),
        v4(1),
        ValidUntil(100),
    )
    .unwrap();
    match result {
        ConnectedResponse::Error(e) => {
            assert_eq!(e.transaction_id, TransactionId(0x11223344));
            assert_eq!(e.message, "Info hash not allowed");
        }
        other => panic!("unexpected response {:?}", other),
    }
    assert_eq!(torrents.ipv4.len(), 0);
}

#[test]
fn access_list_modes() {
    let mut list = AccessList::new();
    assert!(list.is_empty());
    list.insert(InfoHash([1; 20]));
    list.insert(InfoHash([2; 20]));
    list.insert(InfoHash([1; 20]));
    assert!(!list.is_empty());
    assert!(list.contains(&[1; 20]));
    assert!(!list.contains(&[3; 20]));
    assert!(list.allows(AccessListMode::Allow, &[1; 20]));
    assert!(!list.allows(AccessListMode::Allow, &[3; 20]));
    assert!(!list.allows(AccessListMode::Deny, &[1; 20]));
    assert!(list.allows(AccessListMode::Deny, &[3; 20]));
    assert!(list.allows(AccessListMode::Off, &[1; 20]));
    assert!(list.allows(AccessListMode::Off, &[3; 20]));
}

#[test]
fn scrape_gives_counts_or_zeros() {
    let config = Config::default();
    let mut rng = SmallRng::seed_from_u64(1);
    let mut torrents = TorrentMaps::new();
    let access_list = AccessList::new();
    for (p, left) in [(1u8, 0i64), (2, 0), (3, 5)] {
        handle_announce_request(
            &config,
            &mut rng,
            &mut torrents,
            &access_list,
            announce([1; 20], p, AnnounceEvent::Started, left),
            v4(p),
            ValidUntil(100),
        )
        .unwrap();
    }
    let request = PendingScrapeRequest {
        transaction_id: TransactionId(5),
        info_hashes: vec![(0, InfoHash([2; 20])), (3, InfoHash([1; 20]))],
    };
    let response = handle_scrape_request(&torrents, v4(9), request.clone());
    assert_eq!(response.transaction_id, TransactionId(5));
    assert_eq!(
        response.torrent_stats,
        vec![
            (
                0,
                TorrentScrapeStatistics {
                    seeders: NumberOfPeers(0),
                    completed: NumberOfDownloads(0),
                    leechers: NumberOfPeers(0)
                }
            ),
            (
                3,
                TorrentScrapeStatistics {
                    seeders: NumberOfPeers(2),
                    completed: NumberOfDownloads(0),
                    leechers: NumberOfPeers(1)
                }
            ),
        ]
    );
    // the swarms of the other family are not counted
    let response = handle_scrape_request(&torrents, v6(9), request);
    assert_eq!(response.torrent_stats[1].1, create_torrent_scrape_statistics(0, 0));
    assert_eq!(
        torrents.ipv4.scrape(&InfoHash([1; 20])),
        create_torrent_scrape_statistics(2, 1)
    );
}

#[test]
fn counts_are_capped_for_responses() {
    assert_eq!(count_to_i32(0), 0);
    assert_eq!(count_to_i32(5), 5);
    assert_eq!(count_to_i32(i32::MAX as usize), i32::MAX);
    assert_eq!(count_to_i32(i32::MAX as usize + 1), i32::MAX);
    assert_eq!(count_to_i32(usize::MAX), i32::MAX);
}

#[test]
fn number_of_peers_to_take() {
    let mut config = Config::default();
    config.protocol.max_response_peers = 50;
    assert_eq!(calc_max_num_peers_to_take(&config, 0), 50);
    assert_eq!(calc_max_num_peers_to_take(&config, -1), 50);
    assert_eq!(calc_max_num_peers_to_take(&config, i32::MIN), 50);
    assert_eq!(calc_max_num_peers_to_take(&config, 1), 1);
    assert_eq!(calc_max_num_peers_to_take(&config, 49), 49);
    assert_eq!(calc_max_num_peers_to_take(&config, 50), 50);
    assert_eq!(calc_max_num_peers_to_take(&config, 51), 50);
    assert_eq!(calc_max_num_peers_to_take(&config, i32::MAX), 50);
}

#[test]
fn cleaning_drops_old_peers_empty_swarms_and_denied_torrents() {
    let mut config = Config::default();
    config.access_list.mode = AccessListMode::Deny;
    let mut rng = SmallRng::seed_from_u64(1);
    let mut torrents = TorrentMaps::new();
    let mut access_list = AccessList::new();
    // (info hash, peer, valid until)
    for (h, p, until) in [
        (1u8, 1u8, 10u64),
        (1, 2, 20),
        (2, 1, 10),
        (3, 1, 30),
        (4, 1, 30),
        (5, 1, 5),
        (5, 2, 30),
    ] {
        torrents.ipv4.announce(
            &mut rng,
            InfoHash([h; 20]),
            PeerId([p; 20]),
            peer(v4(p), PeerStatus::Seeding, until),
            10,
        );
    }
    torrents.ipv6.announce(
        &mut rng,
        InfoHash([1; 20]),
        PeerId([1; 20]),
        peer(v6(1), PeerStatus::Leeching, 15),
        10,
    );
    access_list.insert(InfoHash([3; 20]));
    assert_eq!(torrents.ipv4.len(), 5);

    torrents.clean_at(&config, &access_list, SecondsSinceServerStart(15));

    assert_eq!(torrents.ipv4.len(), 3);
    assert_eq!(torrents.ipv4.counts(&InfoHash([1; 20])), Some((1, 0)));
    assert!(!torrents.ipv4.contains(&InfoHash([2; 20])));
    assert!(!torrents.ipv4.contains(&InfoHash([3; 20])));
    assert_eq!(torrents.ipv4.counts(&InfoHash([4; 20])), Some((1, 0)));
    assert_eq!(torrents.ipv4.counts(&InfoHash([5; 20])), Some((1, 0)));
    assert!(torrents
        .ipv4
        .find_peer(&InfoHash([5; 20]), &PeerId([1; 20]))
        .is_none());
    assert_eq!(torrents.ipv6.counts(&InfoHash([1; 20])), Some((0, 1)));

    torrents.clean_at(&config, &access_list, SecondsSinceServerStart(16));
    assert_eq!(torrents.ipv6.len(), 0);

    // cleaning by the clock: nothing is older than a running server
    let start = ServerStartInstant::new();
    torrents.clean(&config, &access_list, &start);
    assert_eq!(torrents.ipv4.len(), 3);
}

#[test]
fn clean_torrent_and_peers_tells_whether_to_keep() {
    let mut map = TorrentMap::new();
    let mut rng = SmallRng::seed_from_u64(1);
    map.announce(
        &mut rng,
        InfoHash([1; 20]),
        PeerId([1; 20]),
        peer(v4(1), PeerStatus::Seeding, 5),
        0,
    );
    assert_eq!(map.len(), 1);
    let mut swarm = aquatic::swarm::TorrentData::new();
    swarm.update_peer(PeerId([1; 20]), peer(v4(1), PeerStatus::Seeding, 5));
    assert!(TorrentMaps::clean_torrent_and_peers(
        SecondsSinceServerStart(5),
        &mut swarm
    ));
    assert!(!TorrentMaps::clean_torrent_and_peers(
        SecondsSinceServerStart(6),
        &mut swarm
    ));
}

#[test]
fn shard_is_first_byte_modulo_workers() {
    let mut config = Config::default();
    config.request_workers = 4;
    for (first, shard) in [(0x00u8, 0usize), (0x05, 1), (0x40, 0), (0x80, 0), (0xff, 3)] {
        let mut h = [7u8; 20];
        h[0] = first;
        assert_eq!(
            RequestWorkerIndex::from_info_hash(&config, InfoHash(h)),
            RequestWorkerIndex(shard)
        );
        assert_eq!(calculate_request_consumer_index(&config, InfoHash(h)), shard);
    }
    config.request_workers = 1;
    assert_eq!(
        RequestWorkerIndex::from_info_hash(&config, InfoHash([0xff; 20])),
        RequestWorkerIndex(0)
    );
}
