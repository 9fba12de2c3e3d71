use aquatic::common::AnnounceEvent;
use aquatic::common::ConnectionMeta;
use aquatic::common::InfoHash;
use aquatic::common::IpAddrBytes;
use aquatic::common::Ipv4AddrBytes;
use aquatic::common::NumberOfBytes;
use aquatic::common::PeerId;
use aquatic::common::SocketAddrBytes;
use aquatic::config::Config;
use aquatic::connection::Connection;
use aquatic::connection::ConnectionError;
use aquatic::connection::ConnectionPhase;
use aquatic::connection::Interest;
use aquatic::connection::ReadEvent;
use aquatic::connection::ReadOutcome;
use aquatic::connection::WriteResult;
use aquatic::connection::WsHandshake;
use aquatic::connection::MAX_PENDING_MESSAGES;
use aquatic::http::after_read;
use aquatic::http::closes_after;
use aquatic::http::ParseStatus;
use aquatic::http::ReadStep;
use aquatic::http::RequestAction;
use aquatic::messages::RequestWorkerIndex;
use aquatic::time::SecondsSinceServerStart;
use aquatic::time::ValidUntil;
use aquatic::torrent_maps::TorrentMaps;
use aquatic::ws::handle_announce_request;
use aquatic::ws::handle_announce_requests;
use aquatic::ws::handle_scrape_requests;
use aquatic::ws::AnnounceRequest;
use aquatic::ws::AnnounceRequestOffer;
use aquatic::ws::AnnounceResponse;
use aquatic::ws::InMessage;
use aquatic::ws::MiddlemanAnswerToPeer;
use aquatic::ws::MiddlemanOfferToPeer;
use aquatic::ws::OfferId;
use aquatic::ws::OutMessage;
use aquatic::ws::ScrapeRequest;
use aquatic::ws::ScrapeResponse;
use aquatic::ws::ScrapeStatistics;
use rand::rngs::SmallRng;
use rand::SeedableRng;

fn meta(n: u8) -> ConnectionMeta {
    ConnectionMeta {
        socket_worker_index: 0,
        connection_id: n as usize,
        peer_addr: SocketAddrBytes {
            ip: IpAddrBytes::V4(Ipv4AddrBytes([10, 0, 0, n])),
            port: 4000 + n as u16,
        },
    }
}

fn plain_announce(peer: u8, left: i64) -> AnnounceRequest {
    AnnounceRequest {
        info_hash: InfoHash([1; 20]),
        peer_id: PeerId([peer; 20]),
        bytes_left: NumberOfBytes(left),
        event: AnnounceEvent::Started,
        offers: None,
        answer: None,
        to_peer_id: None,
        offer_id: None,
    }
}

fn offer(n: u8) -> AnnounceRequestOffer {
    AnnounceRequestOffer {
        offer: format!("offer {}", n),
        offer_id: OfferId([n; 20]),
    }
}

fn response(n: u8, complete: usize, incomplete: usize) -> (ConnectionMeta, OutMessage) {
    (
        meta(n),
        OutMessage::AnnounceResponse(AnnounceResponse {
            info_hash: InfoHash([1; 20]),
            complete,
            incomplete,
            announce_interval: 900,
        }),
    )
}

#[test]
fn offers_go_to_peers_and_answers_go_back() {
    let config = Config::default();
    let mut rng = SmallRng::seed_from_u64(1);
    let mut torrents = TorrentMaps::new();
    let mut out = Vec::new();
    let requests = vec![
        (meta(1), plain_announce(1, 0)),
        (meta(2), plain_announce(2, 5)),
    ];
    handle_announce_requests(
        &config,
        &mut rng,
        &mut torrents,
        &mut out,
        &requests,
        ValidUntil(100),
    );
    assert_eq!(out, vec![response(1, 1, 0), response(2, 1, 1)]);

    // the third peer offers three times; there are two other peers
    let mut request = plain_announce(3, 5);
    request.offers = Some(vec![offer(1), offer(2), offer(3)]);
    let mut out = Vec::new();
    handle_announce_request(
        &config,
        &mut rng,
        &mut torrents,
        &mut out,
        meta(3),
        &request,
        ValidUntil(100),
    );
    let offer_to = |to: u8, n: u8| {
        (
            meta(to),
            OutMessage::Offer(MiddlemanOfferToPeer {
                info_hash: InfoHash([1; 20]),
                peer_id: PeerId([3; 20]),
                offer: format!("offer {}", n),
                offer_id: OfferId([n; 20]),
            }),
        )
    };
    assert_eq!(out, vec![offer_to(1, 1), offer_to(2, 2), response(3, 1, 2)]);

    // the first peer answers the offer of the third
    let mut request = plain_announce(1, 0);
    request.answer = Some("answer".to_string());
    request.to_peer_id = Some(PeerId([3; 20]));
    request.offer_id = Some(OfferId([1; 20]));
    let mut out = Vec::new();
    handle_announce_request(
        &config,
        &mut rng,
        &mut torrents,
        &mut out,
        meta(1),
        &request,
        ValidUntil(100),
    );
    assert_eq!(
        out,
        vec![
            (
                meta(3),
                OutMessage::Answer(MiddlemanAnswerToPeer {
                    peer_id: PeerId([1; 20]),
                    info_hash: InfoHash([1; 20]),
                    answer: "answer".to_string(),
                    offer_id: OfferId([1; 20]),
                })
            ),
            response(1, 1, 2)
        ]
    );

    // an answer for a peer that is not in the swarm is lost
    let mut request = plain_announce(1, 0);
    request.answer = Some("answer".to_string());
    request.to_peer_id = Some(PeerId([9; 20]));
    request.offer_id = Some(OfferId([1; 20]));
    let mut out = Vec::new();
    handle_announce_request(
        &config,
        &mut rng,
        &mut torrents,
        &mut out,
        meta(1),
        &request,
        ValidUntil(100),
    );
    assert_eq!(out, vec![response(1, 1, 2)]);
}

#[test]
fn no_more_offers_are_handed_on_than_configured() {
    let mut config = Config::default();
    config.protocol.max_offers = 2;
    let mut rng = SmallRng::seed_from_u64(1);
    let mut torrents = TorrentMaps::new();
    let mut out = Vec::new();
    let requests: Vec<_> = (1..=6u8).map(|p| (meta(p), plain_announce(p, 1))).collect();
    handle_announce_requests(
        &config,
        &mut rng,
        &mut torrents,
        &mut out,
        &requests,
        ValidUntil(100),
    );
    let mut request = plain_announce(7, 5);
    request.offers = Some(vec![offer(1), offer(2), offer(3)]);
    let mut out = Vec::new();
    handle_announce_request(
        &config,
        &mut rng,
        &mut torrents,
        &mut out,
        meta(7),
        &request,
        ValidUntil(100),
    );
    assert_eq!(out.len(), 3);
    let mut receivers = Vec::new();
    for (n, (to, message)) in out.iter().take(2).enumerate() {
        match message {
            OutMessage::Offer(o) => {
                assert_eq!(o.offer, format!("offer {}", n + 1));
                assert_eq!(o.peer_id, PeerId([7; 20]));
            }
            other => panic!("unexpected message {:?}", other),
        }
        assert_ne!(*to, meta(7));
        receivers.push(to.connection_id);
    }
    // two peers that follow on each other in the swarm
    assert!(receivers[1] == receivers[0] + 1 || (receivers[0] == 7 && receivers[1] == 1)
        || (receivers[0] == 6 && receivers[1] == 1));
    assert_eq!(out[2], response(7, 0, 7));
}

#[test]
fn scrape_lists_the_torrents_that_have_a_swarm() {
    let config = Config::default();
    let mut rng = SmallRng::seed_from_u64(1);
    let mut torrents = TorrentMaps::new();
    let mut out = Vec::new();
    let mut second = plain_announce(2, 0);
    second.info_hash = InfoHash([2; 20]);
    let requests = vec![
        (meta(1), plain_announce(1, 0)),
        (meta(2), second),
        (meta(3), plain_announce(3, 1)),
    ];
    handle_announce_requests(
        &config,
        &mut rng,
        &mut torrents,
        &mut out,
        &requests,
        ValidUntil(100),
    );
    let mut out = vec![response(9, 0, 0)];
    let requests = vec![
        (
            meta(1),
            ScrapeRequest {
                info_hashes: vec![InfoHash([2; 20]), InfoHash([3; 20]), InfoHash([1; 20])],
            },
        ),
        (meta(2), ScrapeRequest { info_hashes: vec![] }),
    ];
    handle_scrape_requests(&torrents, &mut out, &requests);
    assert_eq!(
        out,
        vec![
            response(9, 0, 0),
            (
                meta(1),
                OutMessage::ScrapeResponse(ScrapeResponse {
                    files: vec![
                        (
                            InfoHash([2; 20]),
                            ScrapeStatistics {
                                complete: 1,
                                downloaded: 0,
                                incomplete: 0
                            }
                        ),
                        (
                            InfoHash([1; 20]),
                            ScrapeStatistics {
                                complete: 1,
                                downloaded: 0,
                                incomplete: 1
                            }
                        ),
                    ],
                })
            ),
            (
                meta(2),
                OutMessage::ScrapeResponse(ScrapeResponse { files: vec![] })
            ),
        ]
    );
}

fn active_connection() -> Connection<aquatic::connection::NotRegistered> {
    let connection = Connection::new(ValidUntil(100), meta(1));
    match connection.read(ReadEvent::TlsDone(WsHandshake::Done)) {
        ReadOutcome::Continue(connection) => connection,
        _ => panic!("handshake was not done"),
    }
}

#[test]
fn connection_goes_through_its_phases() {
    let connection = Connection::new(ValidUntil(100), meta(1));
    assert_eq!(connection.phase(), ConnectionPhase::TlsHandshaking);
    assert_eq!(connection.interest(), Interest::Readable);
    assert_eq!(connection.get_meta(), meta(1));
    assert!(!connection.expired(SecondsSinceServerStart(100)));
    assert!(connection.expired(SecondsSinceServerStart(101)));

    let connection = match connection.read(ReadEvent::TlsContinues) {
        ReadOutcome::Stop(connection, None) => connection,
        _ => panic!("unexpected outcome"),
    };
    assert_eq!(connection.phase(), ConnectionPhase::TlsHandshaking);
    let connection = match connection.read(ReadEvent::TlsDone(WsHandshake::Interrupted)) {
        ReadOutcome::Stop(connection, None) => connection,
        _ => panic!("unexpected outcome"),
    };
    assert_eq!(connection.phase(), ConnectionPhase::WsHandshaking);
    let connection = match connection.read(ReadEvent::WsStep(WsHandshake::Interrupted)) {
        ReadOutcome::Stop(connection, None) => connection,
        _ => panic!("unexpected outcome"),
    };
    let connection = match connection.read(ReadEvent::WsStep(WsHandshake::Done)) {
        ReadOutcome::Continue(connection) => connection,
        _ => panic!("unexpected outcome"),
    };
    assert_eq!(connection.phase(), ConnectionPhase::Active);

    let message = InMessage::ScrapeRequest(ScrapeRequest { info_hashes: vec![] });
    let connection = match connection.read(ReadEvent::Message(message.clone())) {
        ReadOutcome::Stop(connection, Some(read)) => {
            assert_eq!(read, message);
            connection
        }
        _ => panic!("unexpected outcome"),
    };
    let connection = match connection.read(ReadEvent::WouldBlock) {
        ReadOutcome::Stop(connection, None) => connection,
        _ => panic!("unexpected outcome"),
    };
    let registered = connection.register();
    assert_eq!(registered.phase(), ConnectionPhase::Active);
    let connection = registered.deregister().close();
    assert_eq!(connection.phase(), ConnectionPhase::Closing);
    assert!(matches!(
        connection.read(ReadEvent::WouldBlock),
        ReadOutcome::Dropped
    ));
}

#[test]
fn connection_is_dropped_on_failures_and_strange_events() {
    let fresh = || Connection::new(ValidUntil(100), meta(1));
    assert!(matches!(fresh().read(ReadEvent::Failed), ReadOutcome::Dropped));
    assert!(matches!(
        fresh().read(ReadEvent::TlsDone(WsHandshake::Failed)),
        ReadOutcome::Dropped
    ));
    assert!(matches!(
        fresh().read(ReadEvent::WsStep(WsHandshake::Done)),
        ReadOutcome::Dropped
    ));
    let message = InMessage::ScrapeRequest(ScrapeRequest { info_hashes: vec![] });
    assert!(matches!(
        fresh().read(ReadEvent::Message(message)),
        ReadOutcome::Dropped
    ));
    assert!(matches!(
        active_connection().read(ReadEvent::TlsContinues),
        ReadOutcome::Dropped
    ));
    assert!(matches!(
        active_connection().read(ReadEvent::Failed),
        ReadOutcome::Dropped
    ));
}

#[test]
fn messages_wait_when_the_stream_would_block() {
    let message = |n: usize| {
        OutMessage::AnnounceResponse(AnnounceResponse {
            info_hash: InfoHash([1; 20]),
            complete: n,
            incomplete: 0,
            announce_interval: 1,
        })
    };
    let mut connection = active_connection().register();
    assert_eq!(
        connection.write_or_queue_message(message(0), WriteResult::Written),
        Ok(false)
    );
    assert_eq!(connection.num_queued(), 0);
    assert_eq!(
        connection.write_or_queue_message(message(0), WriteResult::Failed),
        Err(ConnectionError::Io)
    );
    assert_eq!(
        connection.write_or_queue_message(message(1), WriteResult::WouldBlock),
        Ok(true)
    );
    assert_eq!(connection.interest(), Interest::Writable);
    for n in 2..=MAX_PENDING_MESSAGES {
        assert_eq!(
            connection.write_or_queue_message(message(n), WriteResult::WouldBlock),
            Ok(false)
        );
    }
    assert_eq!(connection.num_queued(), MAX_PENDING_MESSAGES);
    // one more is lost
    assert_eq!(
        connection.write_or_queue_message(message(99), WriteResult::WouldBlock),
        Ok(false)
    );
    assert_eq!(connection.num_queued(), MAX_PENDING_MESSAGES);

    // the first two go out, the third cannot and waits again
    let first = connection.next_queued().unwrap().unwrap();
    assert_eq!(first, message(1));
    assert_eq!(connection.queued_written(first, WriteResult::Written), Ok(true));
    let second = connection.next_queued().unwrap().unwrap();
    assert_eq!(connection.queued_written(second, WriteResult::Written), Ok(true));
    let third = connection.next_queued().unwrap().unwrap();
    assert_eq!(third, message(3));
    assert_eq!(
        connection.queued_written(third, WriteResult::WouldBlock),
        Ok(false)
    );
    connection.finish_write();
    assert_eq!(connection.interest(), Interest::Writable);
    assert_eq!(connection.num_queued(), MAX_PENDING_MESSAGES - 2);
    assert_eq!(connection.next_queued().unwrap().unwrap(), message(3));

    while let Some(next) = connection.next_queued().unwrap() {
        assert_eq!(connection.queued_written(next, WriteResult::Written), Ok(true));
    }
    connection.finish_write();
    assert_eq!(connection.interest(), Interest::Readable);
    connection.set_valid_until(ValidUntil(500));
    assert!(!connection.expired(SecondsSinceServerStart(500)));
}

#[test]
fn nothing_is_written_before_the_handshakes_are_done() {
    let mut connection = Connection::new(ValidUntil(100), meta(1)).register();
    assert_eq!(
        connection.next_queued(),
        Err(ConnectionError::NotConnected)
    );
}

#[test]
fn http_requests_are_refused_forwarded_or_split() {
    let mut config = Config::default();
    config.request_workers = 3;
    config.access_list.mode = aquatic::access_list::AccessListMode::Deny;
    let mut access_list = aquatic::access_list::AccessList::new();
    access_list.insert(InfoHash([8; 20]));
    let announce = |h: u8| aquatic::http::AnnounceRequest {
        info_hash: InfoHash([h; 20]),
        peer_id: PeerId([1; 20]),
        port: aquatic::common::Port(1),
        bytes_left: NumberOfBytes(1),
        event: AnnounceEvent::Started,
        numwant: None,
    };
    match aquatic::http::handle_request(
        &config,
        &access_list,
        aquatic::http::Request::Announce(announce(8)),
    ) {
        RequestAction::Fail(f) => assert_eq!(f.failure_reason, "Info hash not allowed"),
        _ => panic!("request was not refused"),
    }
    match aquatic::http::handle_request(
        &config,
        &access_list,
        aquatic::http::Request::Announce(announce(7)),
    ) {
        RequestAction::ForwardAnnounce(worker, request) => {
            assert_eq!(worker, RequestWorkerIndex(1));
            assert_eq!(request, announce(7));
        }
        _ => panic!("request was not handed on"),
    }
    let scrape = aquatic::http::Request::Scrape(aquatic::http::ScrapeRequest {
        info_hashes: vec![InfoHash([3; 20]), InfoHash([4; 20]), InfoHash([6; 20])],
    });
    match aquatic::http::handle_request(&config, &access_list, scrape) {
        RequestAction::ForwardScrape(parts) => {
            assert_eq!(parts.len(), 2);
            assert_eq!(parts[0].0, RequestWorkerIndex(0));
            assert_eq!(
                parts[0].1.info_hashes,
                vec![(0, InfoHash([3; 20])), (2, InfoHash([6; 20]))]
            );
            assert_eq!(parts[1].0, RequestWorkerIndex(1));
            assert_eq!(parts[1].1.info_hashes, vec![(1, InfoHash([4; 20]))]);
        }
        _ => panic!("request was not split"),
    }
}

#[test]
fn http_reading_and_closing() {
    assert_eq!(after_read(0, 0, ParseStatus::NeedMoreData), ReadStep::Close);
    assert_eq!(after_read(10, 0, ParseStatus::Complete), ReadStep::Close);
    assert_eq!(after_read(0, 10, ParseStatus::Complete), ReadStep::Handle);
    assert_eq!(after_read(0, 10, ParseStatus::Invalid), ReadStep::Reject);
    assert_eq!(
        after_read(5, 10, ParseStatus::NeedMoreData),
        ReadStep::ReadMore(15)
    );
    assert_eq!(
        after_read(2000, 48, ParseStatus::NeedMoreData),
        ReadStep::Close
    );
    assert_eq!(after_read(2000, 48, ParseStatus::Complete), ReadStep::Handle);

    let mut config = Config::default();
    assert!(!closes_after(&config, false));
    assert!(closes_after(&config, true));
    config.network.keep_alive = false;
    assert!(closes_after(&config, false));
}

#[test]
fn http_scrape_answers_are_collected() {
    let files = |h: u8| aquatic::http::ScrapeResponse {
        files: vec![(
            InfoHash([h; 20]),
            ScrapeStatistics {
                complete: h as usize,
                downloaded: 0,
                incomplete: 0,
            },
        )],
    };
    let mut pending = aquatic::http::PendingScrapeResponse::new(2);
    assert_eq!(pending.add(files(1)), None);
    let whole = pending.add(files(2)).unwrap();
    assert_eq!(
        whole.files.iter().map(|f| f.0).collect::<Vec<_>>(),
        vec![InfoHash([1; 20]), InfoHash([2; 20])]
    );
    assert_eq!(pending.pending_worker_responses, 0);
}

#[test]
fn http_response_is_framed_with_its_length() {
    assert_eq!(aquatic::http::format_decimal(0), b"0".to_vec());
    assert_eq!(aquatic::http::format_decimal(7), b"7".to_vec());
    assert_eq!(aquatic::http::format_decimal(10), b"10".to_vec());
    assert_eq!(aquatic::http::format_decimal(4096), b"4096".to_vec());
    assert_eq!(
        aquatic::http::format_decimal(usize::MAX),
        usize::MAX.to_string().into_bytes()
    );
    assert_eq!(
        aquatic::http::write_response(b"d8:intervali120ee").unwrap(),
        b"HTTP/1.1 200 OK\r\nContent-Length: 19      \r\n\r\nd8:intervali120ee\r\n".to_vec()
    );
    assert_eq!(
        aquatic::http::write_response(b"").unwrap(),
        b"HTTP/1.1 200 OK\r\nContent-Length: 2       \r\n\r\n\r\n".to_vec()
    );
    let longest = vec![b'x'; 4096 - 47];
    assert_eq!(aquatic::http::write_response(&longest).unwrap().len(), 4096);
    let too_long = vec![b'x'; 4096 - 46];
    assert!(aquatic::http::write_response(&too_long).is_none());
}

#[test]
fn message_for_another_client_is_not_for_the_connection() {
    let connection = Connection::new(ValidUntil(100), meta(1));
    assert!(connection.is_for(&meta(1)));
    assert!(!connection.is_for(&meta(2)));
    let mut other_port = meta(1);
    other_port.peer_addr.port = 1;
    assert!(!connection.is_for(&other_port));
    let mut other_family = meta(1);
    other_family.peer_addr.ip = IpAddrBytes::V6(aquatic::common::Ipv6AddrBytes([0; 16]));
    assert!(!connection.is_for(&other_family));
    // the worker and the number of the connection are not compared
    let mut other_number = meta(1);
    other_number.connection_id = 99;
    assert!(connection.is_for(&other_number));
}
