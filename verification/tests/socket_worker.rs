use aquatic::access_list::AccessList;
use aquatic::access_list::AccessListMode;
use aquatic::common::AnnounceEvent;
use aquatic::common::AnnounceInterval;
use aquatic::common::ConnectionId;
use aquatic::common::InfoHash;
use aquatic::common::IpAddrBytes;
use aquatic::common::Ipv4AddrBytes;
use aquatic::common::Ipv6AddrBytes;
use aquatic::common::NumberOfBytes;
use aquatic::common::NumberOfDownloads;
use aquatic::common::NumberOfPeers;
use aquatic::common::PeerId;
use aquatic::common::PeerKey;
use aquatic::common::Port;
use aquatic::common::SocketAddrBytes;
use aquatic::common::TransactionId;
use aquatic::config::Config;
use aquatic::handlers::handle_request;
use aquatic::messages::ConnectedRequest;
use aquatic::messages::ConnectedResponse;
use aquatic::messages::RequestWorkerIndex;
use aquatic::request::AnnounceRequest;
use aquatic::request::ConnectRequest;
use aquatic::request::Request;
use aquatic::request::ScrapeRequest;
use aquatic::response::ConnectResponse;
use aquatic::response::ErrorResponse;
use aquatic::response::Response;
use aquatic::response::ScrapeResponse;
use aquatic::response::TorrentScrapeStatistics;
use aquatic::socket_worker::after_send;
use aquatic::socket_worker::prepare_datagram;
use aquatic::socket_worker::PeriodicOutcome;
use aquatic::socket_worker::RequestOutcome;
use aquatic::socket_worker::SendOutcome;
use aquatic::socket_worker::SendResult;
use aquatic::socket_worker::SocketWorkerState;
use aquatic::statistics::add_count;
use aquatic::statistics::packet_size;
use aquatic::statistics::ResponseKind;
use aquatic::statistics::Statistics;
use aquatic::time::SecondsSinceServerStart;
use aquatic::time::ServerStartInstant;
use aquatic::time::ValidUntil;
use aquatic::torrent_maps::TorrentMaps;
use aquatic::validator::ConnectionValidator;
use rand::rngs::SmallRng;
use rand::SeedableRng;

fn addr(last: u8, port: u16) -> SocketAddrBytes {
    SocketAddrBytes {
        ip: IpAddrBytes::V4(Ipv4AddrBytes([10, 0, 0, last])),
        port,
    }
}

fn state(config: Config, access_list: AccessList) -> SocketWorkerState {
    let validator = ConnectionValidator::with_key(
        [3u8; 32],
        ServerStartInstant::new(),
        config.cleaning.max_connection_age,
    );
    SocketWorkerState::new(config, validator, access_list)
}

fn bytes_of(request: Request) -> Vec<u8> {
    let mut bytes = Vec::new();
    request.write_bytes(&mut bytes);
    bytes
}

fn announce_request(connection_id: ConnectionId, info_hash: [u8; 20]) -> AnnounceRequest {
    AnnounceRequest {
        connection_id,
        transaction_id: TransactionId(0x55),
        info_hash: InfoHash(info_hash),
        peer_id: PeerId([0xbb; 20]),
        bytes_downloaded: NumberOfBytes(0),
        bytes_left: NumberOfBytes(10),
        bytes_uploaded: NumberOfBytes(0),
        event: AnnounceEvent::Started,
        ip_address: Ipv4AddrBytes([0; 4]),
        key: PeerKey(1),
        peers_wanted: NumberOfPeers(0),
        port: Port(6881),
    }
}

fn connect(state: &mut SocketWorkerState, from: SocketAddrBytes, now: u64) -> ConnectionId {
    let bytes = bytes_of(Request::Connect(ConnectRequest {
        transaction_id: TransactionId(0x11223344),
    }));
    let outcome = state
        .handle_datagram_at(&bytes, from, SecondsSinceServerStart(now), ValidUntil(now + 60))
        .unwrap();
    assert!(outcome.request_parsable);
    assert_eq!(outcome.src, from.ip);
    match outcome.action {
        RequestOutcome::Respond(Response::Connect(ConnectResponse {
            connection_id,
            transaction_id,
        })) => {
            assert_eq!(transaction_id, TransactionId(0x11223344));
            connection_id
        }
        _ => panic!("no connect response"),
    }
}

#[test]
fn connect_then_announce() {
    let config = Config::default();
    let mut state = state(config.clone(), AccessList::new());
    let client = addr(2, 5000);
    let connection_id = connect(&mut state, client, 100);

    let request = announce_request(connection_id, [0xaa; 20]);
    let outcome = state
        .handle_datagram_at(
            &bytes_of(Request::Announce(request)),
            client,
            SecondsSinceServerStart(101),
            ValidUntil(161),
        )
        .unwrap();
    assert!(outcome.request_parsable);
    let (worker, forwarded) = match outcome.action {
        RequestOutcome::ForwardAnnounce(worker, forwarded) => (worker, forwarded),
        _ => panic!("announce was not handed on"),
    };
    assert_eq!(worker, RequestWorkerIndex(0));
    assert_eq!(forwarded, request);

    let mut rng = SmallRng::seed_from_u64(3);
    let mut torrents = TorrentMaps::new();
    let response = handle_request(
        &config,
        &mut rng,
        &mut torrents,
        &AccessList::new(),
        ConnectedRequest::Announce(forwarded),
        outcome.src,
        ValidUntil(1301),
    )
    .unwrap();
    let response = state.handle_connected_response(response).unwrap();
    match &response {
        Response::AnnounceIpv4(r) => {
            assert_eq!(r.transaction_id, TransactionId(0x55));
            assert_eq!(r.announce_interval, AnnounceInterval(900));
            assert_eq!(r.seeders, NumberOfPeers(0));
            assert_eq!(r.leechers, NumberOfPeers(1));
            assert!(r.peers.is_empty());
        }
        other => panic!("unexpected response {:?}", other),
    }
    let (bytes, target) = prepare_datagram(&config, response, client).unwrap();
    assert_eq!(target, client);
    assert_eq!(
        bytes,
        vec![0, 0, 0, 1, 0, 0, 0, 0x55, 0, 0, 3, 0x84, 0, 0, 0, 1, 0, 0, 0, 0]
    );
    assert_eq!(torrents.ipv4.counts(&InfoHash([0xaa; 20])), Some((0, 1)));
}

#[test]
fn spoofed_source_is_dropped() {
    let mut state = state(Config::default(), AccessList::new());
    let connection_id = connect(&mut state, addr(2, 5000), 100);
    let outcome = state
        .handle_datagram_at(
            &bytes_of(Request::Announce(announce_request(connection_id, [0xaa; 20]))),
            addr(3, 5000),
            SecondsSinceServerStart(100),
            ValidUntil(160),
        )
        .unwrap();
    assert!(outcome.request_parsable);
    assert!(matches!(outcome.action, RequestOutcome::Drop));
}

#[test]
fn expired_connection_id_is_dropped() {
    let config = Config::default();
    let age = config.cleaning.max_connection_age;
    let mut state = state(config, AccessList::new());
    let client = addr(2, 5000);
    let connection_id = connect(&mut state, client, 100);
    let bytes = bytes_of(Request::Announce(announce_request(connection_id, [0xaa; 20])));
    let outcome = state
        .handle_datagram_at(
            &bytes,
            client,
            SecondsSinceServerStart(100 + age + 5),
            ValidUntil(1000),
        )
        .unwrap();
    assert!(matches!(outcome.action, RequestOutcome::Drop));
    let outcome = state
        .handle_datagram_at(
            &bytes,
            client,
            SecondsSinceServerStart(100 + age - 1),
            ValidUntil(1000),
        )
        .unwrap();
    assert!(matches!(outcome.action, RequestOutcome::ForwardAnnounce(_, _)));
}

#[test]
fn datagram_from_port_zero_is_ignored() {
    let mut state = state(Config::default(), AccessList::new());
    let bytes = bytes_of(Request::Connect(ConnectRequest {
        transaction_id: TransactionId(1),
    }));
    assert!(state
        .handle_datagram_at(&bytes, addr(2, 0), SecondsSinceServerStart(1), ValidUntil(60))
        .is_none());
}

#[test]
fn client_is_known_under_its_canonical_address() {
    let mut state = state(Config::default(), AccessList::new());
    let connection_id = connect(&mut state, addr(2, 5000), 100);
    let mapped = SocketAddrBytes {
        ip: IpAddrBytes::V6(Ipv6AddrBytes([
            0, 0, 0, 0, 0, 0, 0, 0, 0, 0, 255, 255, 10, 0, 0, 2,
        ])),
        port: 5000,
    };
    let outcome = state
        .handle_datagram_at(
            &bytes_of(Request::Announce(announce_request(connection_id, [0xaa; 20]))),
            mapped,
            SecondsSinceServerStart(100),
            ValidUntil(160),
        )
        .unwrap();
    assert_eq!(outcome.src, addr(2, 5000).ip);
    assert!(matches!(outcome.action, RequestOutcome::ForwardAnnounce(_, _)));
}

#[test]
fn announce_for_denied_torrent_gets_an_error() {
    let mut config = Config::default();
    config.access_list.mode = AccessListMode::Allow;
    let mut access_list = AccessList::new();
    access_list.insert(InfoHash([1; 20]));
    let mut state = state(config, access_list);
    let client = addr(2, 5000);
    let connection_id = connect(&mut state, client, 100);
    let outcome = state.handle_request_at(
        Request::Announce(announce_request(connection_id, [2; 20])),
        client.ip,
        SecondsSinceServerStart(100),
        ValidUntil(160),
    );
    match outcome {
        RequestOutcome::Respond(Response::Error(e)) => {
            assert_eq!(
                e,
                ErrorResponse {
                    transaction_id: TransactionId(0x55),
                    message: "Info hash not allowed".to_string(),
                }
            );
        }
        _ => panic!("no error response"),
    }
    let outcome = state.handle_request_at(
        Request::Announce(announce_request(connection_id, [1; 20])),
        client.ip,
        SecondsSinceServerStart(100),
        ValidUntil(160),
    );
    assert!(matches!(outcome, RequestOutcome::ForwardAnnounce(_, _)));
}

#[test]
fn sendable_parse_error_is_answered_only_with_a_valid_id() {
    let mut state = state(Config::default(), AccessList::new());
    let client = addr(2, 5000);
    let connection_id = connect(&mut state, client, 100);
    let mut bytes = bytes_of(Request::Announce(announce_request(connection_id, [1; 20])));
    bytes[83] = 9;
    let outcome = state
        .handle_datagram_at(&bytes, client, SecondsSinceServerStart(100), ValidUntil(160))
        .unwrap();
    assert!(!outcome.request_parsable);
    match outcome.action {
        RequestOutcome::Respond(Response::Error(e)) => {
            assert_eq!(e.transaction_id, TransactionId(0x55));
            assert_eq!(e.message, "Invalid announce event");
        }
        _ => panic!("no error response"),
    }
    let outcome = state
        .handle_datagram_at(&bytes, addr(3, 5000), SecondsSinceServerStart(100), ValidUntil(160))
        .unwrap();
    assert!(!outcome.request_parsable);
    assert!(matches!(outcome.action, RequestOutcome::Drop));
    let outcome = state
        .handle_datagram_at(&[1, 2, 3], client, SecondsSinceServerStart(100), ValidUntil(160))
        .unwrap();
    assert!(!outcome.request_parsable);
    assert!(matches!(outcome.action, RequestOutcome::Drop));
}

#[test]
fn split_scrape() {
    let mut config = Config::default();
    config.request_workers = 4;
    let mut state = state(config.clone(), AccessList::new());
    let client = addr(2, 5000);
    let connection_id = connect(&mut state, client, 100);

    let hash = |first: u8, rest: u8| {
        let mut h = [rest; 20];
        h[0] = first;
        InfoHash(h)
    };
    let info_hashes = vec![
        hash(0x00, 1),
        hash(0x05, 2),
        hash(0x40, 3),
        hash(0x80, 4),
        hash(0x00, 5),
    ];

    // each shard has its own swarms; only the first and third torrent
    // have peers
    let mut rng = SmallRng::seed_from_u64(3);
    let mut shards: Vec<TorrentMaps> = (0..4).map(|_| TorrentMaps::new()).collect();
    for (i, left) in [(0usize, 0i64), (2, 7)] {
        let mut request = announce_request(connection_id, info_hashes[i].0);
        request.bytes_left = NumberOfBytes(left);
        let shard = RequestWorkerIndex::from_info_hash(&config, info_hashes[i]).0;
        handle_request(
            &config,
            &mut rng,
            &mut shards[shard],
            &AccessList::new(),
            ConnectedRequest::Announce(request),
            client.ip,
            ValidUntil(1000),
        )
        .unwrap();
    }

    let request = Request::Scrape(ScrapeRequest {
        connection_id,
        transaction_id: TransactionId(77),
        info_hashes,
    });
    let outcome = state
        .handle_datagram_at(
            &bytes_of(request),
            client,
            SecondsSinceServerStart(100),
            ValidUntil(160),
        )
        .unwrap();
    let parts = match outcome.action {
        RequestOutcome::ForwardScrape(parts) => parts,
        _ => panic!("scrape was not split"),
    };
    assert_eq!(parts.len(), 2);

    let mut sent = Vec::new();
    // the answers come in the reverse of the order of the parts
    for (worker, part) in parts.into_iter().rev() {
        let response = handle_request(
            &config,
            &mut rng,
            &mut shards[worker.0],
            &AccessList::new(),
            ConnectedRequest::Scrape(part),
            client.ip,
            ValidUntil(1000),
        )
        .unwrap();
        assert!(matches!(response, ConnectedResponse::Scrape(_)));
        if let Some(response) = state.handle_connected_response(response) {
            sent.push(response);
        }
    }
    let zero = TorrentScrapeStatistics {
        seeders: NumberOfPeers(0),
        completed: NumberOfDownloads(0),
        leechers: NumberOfPeers(0),
    };
    assert_eq!(
        sent,
        vec![Response::Scrape(ScrapeResponse {
            transaction_id: TransactionId(77),
            torrent_stats: vec![
                TorrentScrapeStatistics {
                    seeders: NumberOfPeers(1),
                    completed: NumberOfDownloads(0),
                    leechers: NumberOfPeers(0),
                },
                zero,
                TorrentScrapeStatistics {
                    seeders: NumberOfPeers(0),
                    completed: NumberOfDownloads(0),
                    leechers: NumberOfPeers(1),
                },
                zero,
                zero,
            ],
        })]
    );
}

#[test]
fn scrape_with_invalid_id_is_dropped_and_not_noted() {
    let mut state = state(Config::default(), AccessList::new());
    let outcome = state.handle_request_at(
        Request::Scrape(ScrapeRequest {
            connection_id: ConnectionId(5),
            transaction_id: TransactionId(77),
            info_hashes: vec![InfoHash([1; 20])],
        }),
        addr(2, 1).ip,
        SecondsSinceServerStart(100),
        ValidUntil(160),
    );
    assert!(matches!(outcome, RequestOutcome::Drop));
}

#[test]
fn periodic_work_is_done_every_256th_round() {
    let mut config = Config::default();
    config.cleaning.max_pending_scrape_age = 60;
    config.cleaning.pending_scrape_cleaning_interval = 120;
    let mut state = state(config, AccessList::new());
    state
        .pending_scrape_responses
        .prepare(TransactionId(1), 1, ValidUntil(150));
    let none = PeriodicOutcome {
        pending_scrape_valid_until: None,
        cleaned: false,
    };
    assert_eq!(
        state.periodic_at(1, SecondsSinceServerStart(500), SecondsSinceServerStart(0)),
        none
    );
    assert_eq!(
        state.periodic_at(255, SecondsSinceServerStart(500), SecondsSinceServerStart(0)),
        none
    );
    assert_eq!(
        state.periodic_at(256, SecondsSinceServerStart(120), SecondsSinceServerStart(0)),
        PeriodicOutcome {
            pending_scrape_valid_until: Some(ValidUntil(180)),
            cleaned: false,
        }
    );
    assert_eq!(
        state.periodic_at(0, SecondsSinceServerStart(121), SecondsSinceServerStart(0)),
        PeriodicOutcome {
            pending_scrape_valid_until: Some(ValidUntil(181)),
            cleaned: true,
        }
    );
    // the pending request was still valid at 121
    state
        .pending_scrape_responses
        .prepare(TransactionId(2), 1, ValidUntil(100));
    assert!(
        state
            .periodic_at(512, SecondsSinceServerStart(400), SecondsSinceServerStart(121))
            .cleaned
    );
    let late = aquatic::messages::PendingScrapeResponse {
        transaction_id: TransactionId(1),
        torrent_stats: vec![],
    };
    assert!(state
        .handle_connected_response(ConnectedResponse::Scrape(late))
        .is_none());
}

#[test]
fn datagram_for_an_ipv4_client_through_an_ipv6_socket() {
    let mut config = Config::default();
    let response = || {
        Response::Error(ErrorResponse {
            transaction_id: TransactionId(1),
            message: "x".to_string(),
        })
    };
    let v6 = SocketAddrBytes {
        ip: IpAddrBytes::V6(Ipv6AddrBytes([9; 16])),
        port: 7,
    };
    // bound to IPv4: IPv6 clients cannot be reached
    assert!(prepare_datagram(&config, response(), v6).is_none());
    config.network.address = v6;
    let (bytes, target) = prepare_datagram(&config, response(), addr(2, 5000)).unwrap();
    assert_eq!(bytes, vec![0, 0, 0, 3, 0, 0, 0, 1, b'x']);
    assert_eq!(
        target,
        SocketAddrBytes {
            ip: IpAddrBytes::V6(Ipv6AddrBytes([
                0, 0, 0, 0, 0, 0, 0, 0, 0, 0, 255, 255, 10, 0, 0, 2
            ])),
            port: 5000,
        }
    );
    assert_eq!(prepare_datagram(&config, response(), v6).unwrap().1, v6);
    // too long for a datagram
    let long = Response::Error(ErrorResponse {
        transaction_id: TransactionId(1),
        message: "x".repeat(8192 - 7),
    });
    assert!(prepare_datagram(&config, long, v6).is_none());
    let fits = Response::Error(ErrorResponse {
        transaction_id: TransactionId(1),
        message: "x".repeat(8192 - 8),
    });
    assert_eq!(prepare_datagram(&config, fits, v6).unwrap().0.len(), 8192);
}

#[test]
fn sent_responses_are_counted_and_unsent_ones_queued() {
    let mut config = Config::default();
    config.statistics.interval = 5;
    config.network.resend_buffer_max_len = 2;
    let mut ipv4 = Statistics::new();
    let mut ipv6 = Statistics::new();
    let mut resend = Vec::new();
    let response = || {
        Response::Connect(ConnectResponse {
            connection_id: ConnectionId(1),
            transaction_id: TransactionId(1),
        })
    };
    let outcome = after_send(
        &config,
        &mut ipv4,
        &mut ipv6,
        &mut resend,
        true,
        response(),
        addr(2, 1),
        SendResult::Sent { bytes: 16 },
    );
    assert_eq!(outcome, SendOutcome::Sent);
    assert_eq!(ipv4.responses_sent_connect, 1);
    assert_eq!(ipv4.bytes_sent, 16 + 54);
    assert_eq!(ipv4.responses_sent(), 1);
    assert_eq!(ipv6, Statistics::new());

    for (result, may_queue, expected, waiting) in [
        (SendResult::WouldBlock, true, SendOutcome::Queued, 1),
        (SendResult::Failed, true, SendOutcome::Dropped, 1),
        (SendResult::NoBufferSpace, false, SendOutcome::Dropped, 1),
        (SendResult::NoBufferSpace, true, SendOutcome::Queued, 2),
        (SendResult::WouldBlock, true, SendOutcome::Dropped, 2),
    ] {
        let outcome = after_send(
            &config,
            &mut ipv4,
            &mut ipv6,
            &mut resend,
            may_queue,
            response(),
            addr(2, 1),
            result,
        );
        assert_eq!(outcome, expected);
        assert_eq!(resend.len(), waiting);
    }
    assert_eq!(ipv4.responses_sent(), 1);

    // without statistics nothing is counted
    config.statistics.interval = 0;
    after_send(
        &config,
        &mut ipv4,
        &mut ipv6,
        &mut resend,
        true,
        response(),
        addr(2, 1),
        SendResult::Sent { bytes: 16 },
    );
    assert_eq!(ipv4.responses_sent(), 1);
}

#[test]
fn statistics_count_by_kind_and_family() {
    let mut statistics = Statistics::default();
    statistics.received(true, true, 98);
    statistics.received(true, false, 3);
    assert_eq!(statistics.requests_received, 1);
    assert_eq!(statistics.bytes_received, 98 + 54 + 3 + 54);
    statistics.sent(false, ResponseKind::Announce, 20);
    statistics.sent(false, ResponseKind::Scrape, 20);
    statistics.sent(false, ResponseKind::Error, 20);
    assert_eq!(statistics.responses_sent_announce, 1);
    assert_eq!(statistics.responses_sent_scrape, 1);
    assert_eq!(statistics.responses_sent_error, 1);
    assert_eq!(statistics.bytes_sent, 3 * (20 + 74));
    assert_eq!(packet_size(true, 0), 54);
    assert_eq!(packet_size(false, 0), 74);
    assert_eq!(add_count(usize::MAX, 1), usize::MAX);
    assert_eq!(add_count(usize::MAX - 1, 1), usize::MAX);
    assert_eq!(add_count(2, 3), 5);
    assert_eq!(
        ResponseKind::of(&Response::Error(ErrorResponse {
            transaction_id: TransactionId(1),
            message: String::new(),
        })),
        ResponseKind::Error
    );
}

#[test]
fn default_config() {
    let config = Config::default();
    assert!(config.valid());
    assert_eq!(config.socket_workers, 1);
    assert_eq!(config.request_workers, 1);
    assert_eq!(config.protocol.max_scrape_torrents, 255);
    assert_eq!(config.protocol.max_response_peers, 255);
    assert_eq!(config.protocol.peer_announce_interval, 900);
    assert_eq!(config.handlers.max_requests_per_iter, 10000);
    assert_eq!(config.cleaning.max_peer_age, 1200);
    assert_eq!(config.cleaning.max_connection_age, 300);
    assert_eq!(config.network.address.port, 3000);
    assert!(!config.statistics.active());
    let mut broken = config.clone();
    broken.request_workers = 0;
    assert!(!broken.valid());
}
