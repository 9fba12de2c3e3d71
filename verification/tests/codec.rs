use aquatic::common::AnnounceEvent;
use aquatic::common::AnnounceInterval;
use aquatic::common::ConnectionId;
use aquatic::common::InfoHash;
use aquatic::common::Ipv4AddrBytes;
use aquatic::common::Ipv6AddrBytes;
use aquatic::common::NumberOfBytes;
use aquatic::common::NumberOfDownloads;
use aquatic::common::NumberOfPeers;
use aquatic::common::PeerId;
use aquatic::common::PeerKey;
use aquatic::common::Port;
use aquatic::common::ResponsePeerIpv4;
use aquatic::common::ResponsePeerIpv6;
use aquatic::common::TransactionId;
use aquatic::messages::MAX_PACKET_SIZE;
use aquatic::request::AnnounceRequest;
use aquatic::request::ConnectRequest;
use aquatic::request::Request;
use aquatic::request::RequestParseError;
use aquatic::request::ScrapeRequest;
use aquatic::response::AnnounceResponseIpv4;
use aquatic::response::AnnounceResponseIpv6;
use aquatic::response::ConnectResponse;
use aquatic::response::ErrorResponse;
use aquatic::response::Response;
use aquatic::response::ResponseParseError;
use aquatic::response::ScrapeResponse;
use aquatic::response::TorrentScrapeStatistics;

fn same_response_after_conversion(response: Response) {
    let mut buf = Vec::new();
    response.clone().write(&mut buf);
    let r2 = Response::from_bytes(&buf[..]).unwrap();
    assert_eq!(response, r2);
}

fn same_request_after_conversion(request: Request) {
    let mut buf = Vec::new();
    request.clone().write_bytes(&mut buf);
    let r2 = Request::parse_bytes(&buf[..], u8::MAX).unwrap();
    assert_eq!(request, r2);
}

fn sample_announce_request() -> AnnounceRequest {
    AnnounceRequest {
        connection_id: ConnectionId(-0x0102030405060708),
        transaction_id: TransactionId(0x11223344),
        info_hash: InfoHash([0xaa; 20]),
        peer_id: PeerId([0xbb; 20]),
        bytes_downloaded: NumberOfBytes(1),
        bytes_left: NumberOfBytes(10),
        bytes_uploaded: NumberOfBytes(i64::MAX),
        event: AnnounceEvent::Started,
        ip_address: Ipv4AddrBytes([0, 0, 0, 0]),
        key: PeerKey(-5),
        peers_wanted: NumberOfPeers(-1),
        port: Port(6881),
    }
}

// Assumes that announce response with maximum amount of ipv6 peers will
// be the longest
#[test]
fn test_max_package_size() {
    let config = aquatic::config::Config::default();

    let peers = ::std::iter::repeat(ResponsePeerIpv6 {
        ip_address: Ipv6AddrBytes([0, 1, 0, 1, 0, 1, 0, 1, 0, 1, 0, 1, 0, 1, 0, 1]),
        port: Port(1),
    })
    .take(config.protocol.max_response_peers)
    .collect();

    let response = Response::AnnounceIpv6(AnnounceResponseIpv6 {
        transaction_id: TransactionId(1),
        announce_interval: AnnounceInterval(1),
        seeders: NumberOfPeers(1),
        leechers: NumberOfPeers(1),
        peers,
    });

    let mut buf = Vec::new();

    response.write(&mut buf);

    println!("Buffer len: {}", buf.len());

    assert!(buf.len() <= MAX_PACKET_SIZE);
}

#[test]
fn connect_response_bytes_are_exact() {
    let response = Response::Connect(ConnectResponse {
        connection_id: ConnectionId(0x0102030405060708),
        transaction_id: TransactionId(0x11223344),
    });
    let mut buf = Vec::new();
    response.write(&mut buf);
    assert_eq!(
        buf,
        vec![0, 0, 0, 0, 0x11, 0x22, 0x33, 0x44, 1, 2, 3, 4, 5, 6, 7, 8]
    );
}

#[test]
fn negative_numbers_are_twos_complement() {
    let response = Response::Connect(ConnectResponse {
        connection_id: ConnectionId(-2),
        transaction_id: TransactionId(-1),
    });
    let mut buf = Vec::new();
    response.write(&mut buf);
    assert_eq!(
        buf,
        vec![0, 0, 0, 0, 0xff, 0xff, 0xff, 0xff, 0xff, 0xff, 0xff, 0xff, 0xff, 0xff, 0xff, 0xfe]
    );
    same_response_after_conversion(Response::Connect(ConnectResponse {
        connection_id: ConnectionId(i64::MIN),
        transaction_id: TransactionId(i32::MIN),
    }));
}

#[test]
fn announce_response_ipv4_bytes_are_exact() {
    let response = Response::AnnounceIpv4(AnnounceResponseIpv4 {
        transaction_id: TransactionId(1),
        announce_interval: AnnounceInterval(900),
        leechers: NumberOfPeers(2),
        seeders: NumberOfPeers(3),
        peers: vec![ResponsePeerIpv4 {
            ip_address: Ipv4AddrBytes([10, 0, 0, 2]),
            port: Port(6881),
        }],
    });
    let mut buf = Vec::new();
    response.clone().write(&mut buf);
    assert_eq!(
        buf,
        vec![
            0, 0, 0, 1, 0, 0, 0, 1, 0, 0, 0x03, 0x84, 0, 0, 0, 2, 0, 0, 0, 3, 10, 0, 0, 2, 0x1a,
            0xe1
        ]
    );
    same_response_after_conversion(response);
}

#[test]
fn announce_response_ipv6_uses_action_four() {
    let response = Response::AnnounceIpv6(AnnounceResponseIpv6 {
        transaction_id: TransactionId(7),
        announce_interval: AnnounceInterval(1),
        leechers: NumberOfPeers(0),
        seeders: NumberOfPeers(1),
        peers: vec![
            ResponsePeerIpv6 {
                ip_address: Ipv6AddrBytes([1, 2, 3, 4, 5, 6, 7, 8, 9, 10, 11, 12, 13, 14, 15, 16]),
                port: Port(1),
            },
            ResponsePeerIpv6 {
                ip_address: Ipv6AddrBytes([0; 16]),
                port: Port(65535),
            },
        ],
    });
    let mut buf = Vec::new();
    response.clone().write(&mut buf);
    assert_eq!(&buf[..4], &[0, 0, 0, 4]);
    assert_eq!(buf.len(), 20 + 2 * 18);
    same_response_after_conversion(response);
}

#[test]
fn scrape_response_round_trip() {
    let response = Response::Scrape(ScrapeResponse {
        transaction_id: TransactionId(-7),
        torrent_stats: vec![
            TorrentScrapeStatistics {
                seeders: NumberOfPeers(1),
                completed: NumberOfDownloads(2),
                leechers: NumberOfPeers(3),
            },
            TorrentScrapeStatistics {
                seeders: NumberOfPeers(i32::MAX),
                completed: NumberOfDownloads(0),
                leechers: NumberOfPeers(i32::MIN),
            },
        ],
    });
    let mut buf = Vec::new();
    response.clone().write(&mut buf);
    assert_eq!(buf.len(), 8 + 24);
    assert_eq!(&buf[..4], &[0, 0, 0, 2]);
    assert_eq!(&buf[8..20], &[0, 0, 0, 1, 0, 0, 0, 2, 0, 0, 0, 3]);
    same_response_after_conversion(response);
    same_response_after_conversion(Response::Scrape(ScrapeResponse {
        transaction_id: TransactionId(0),
        torrent_stats: vec![],
    }));
}

#[test]
fn error_response_round_trip() {
    let response = Response::Error(ErrorResponse {
        transaction_id: TransactionId(5),
        message: "Info hash not allowed \u{00e9}\u{4e2d}".to_string(),
    });
    let mut buf = Vec::new();
    response.clone().write(&mut buf);
    assert_eq!(&buf[..8], &[0, 0, 0, 3, 0, 0, 0, 5]);
    same_response_after_conversion(response);
}

#[test]
fn error_response_with_invalid_utf8_is_read_lossily() {
    let bytes = [0, 0, 0, 3, 0, 0, 0, 5, b'a', 0xff, b'b'];
    let response = Response::from_bytes(&bytes).unwrap();
    assert_eq!(
        response,
        Response::Error(ErrorResponse {
            transaction_id: TransactionId(5),
            message: "a\u{fffd}b".to_string(),
        })
    );
}

#[test]
fn response_with_unknown_action_reads_as_error() {
    let bytes = [0, 0, 0, 9, 0, 0, 0, 5, 1, 2, 3];
    assert_eq!(
        Response::from_bytes(&bytes).unwrap(),
        Response::Error(ErrorResponse {
            transaction_id: TransactionId(5),
            message: "Invalid action".to_string(),
        })
    );
}

#[test]
fn truncated_responses_are_refused() {
    assert_eq!(
        Response::from_bytes(&[0, 0, 0, 0, 0, 0, 0]),
        Err(ResponseParseError::UnexpectedEof)
    );
    assert_eq!(
        Response::from_bytes(&[0, 0, 0, 0, 0, 0, 0, 1, 2, 3]),
        Err(ResponseParseError::UnexpectedEof)
    );
    assert_eq!(
        Response::from_bytes(&[0, 0, 0, 1, 0, 0, 0, 1, 0, 0, 0, 1, 0, 0, 0, 1, 0, 0, 0]),
        Err(ResponseParseError::UnexpectedEof)
    );
    assert_eq!(
        Response::from_bytes(&[0, 0, 0, 4, 0, 0, 0, 1]),
        Err(ResponseParseError::UnexpectedEof)
    );
}

#[test]
fn trailing_bytes_behind_the_last_peer_are_ignored() {
    let mut bytes = vec![
        0, 0, 0, 1, 0, 0, 0, 1, 0, 0, 0, 1, 0, 0, 0, 1, 0, 0, 0, 1, 10, 0, 0, 2, 0, 80,
    ];
    bytes.extend_from_slice(&[1, 2, 3]);
    match Response::from_bytes(&bytes).unwrap() {
        Response::AnnounceIpv4(r) => {
            assert_eq!(
                r.peers,
                vec![ResponsePeerIpv4 {
                    ip_address: Ipv4AddrBytes([10, 0, 0, 2]),
                    port: Port(80)
                }]
            );
        }
        other => panic!("unexpected response {:?}", other),
    }
}

#[test]
fn connect_request_bytes_are_exact() {
    let request = Request::Connect(ConnectRequest {
        transaction_id: TransactionId(0x11223344),
    });
    let mut buf = Vec::new();
    request.clone().write_bytes(&mut buf);
    assert_eq!(
        buf,
        vec![0, 0, 0x04, 0x17, 0x27, 0x10, 0x19, 0x80, 0, 0, 0, 0, 0x11, 0x22, 0x33, 0x44]
    );
    same_request_after_conversion(request);
}

#[test]
fn announce_request_has_98_bytes_and_round_trips() {
    let request = sample_announce_request();
    let mut buf = Vec::new();
    request.write_bytes(&mut buf);
    assert_eq!(buf.len(), 98);
    assert_eq!(&buf[8..12], &[0, 0, 0, 1]);
    assert_eq!(&buf[16..36], &[0xaa; 20]);
    assert_eq!(&buf[36..56], &[0xbb; 20]);
    assert_eq!(&buf[80..84], &[0, 0, 0, 2]);
    assert_eq!(&buf[96..98], &[0x1a, 0xe1]);
    same_request_after_conversion(Request::Announce(request));
    for event in [
        AnnounceEvent::NoEvent,
        AnnounceEvent::Completed,
        AnnounceEvent::Started,
        AnnounceEvent::Stopped,
    ] {
        let mut request = sample_announce_request();
        request.event = event;
        same_request_after_conversion(Request::Announce(request));
    }
}

#[test]
fn scrape_request_round_trip() {
    let request = Request::Scrape(ScrapeRequest {
        connection_id: ConnectionId(77),
        transaction_id: TransactionId(-3),
        info_hashes: vec![InfoHash([1; 20]), InfoHash([2; 20]), InfoHash([0xff; 20])],
    });
    let mut buf = Vec::new();
    request.clone().write_bytes(&mut buf);
    assert_eq!(buf.len(), 16 + 60);
    assert_eq!(&buf[8..12], &[0, 0, 0, 2]);
    same_request_after_conversion(request);
}

#[test]
fn scrape_request_is_cut_off_at_the_maximum() {
    let request = Request::Scrape(ScrapeRequest {
        connection_id: ConnectionId(77),
        transaction_id: TransactionId(-3),
        info_hashes: vec![InfoHash([1; 20]), InfoHash([2; 20]), InfoHash([3; 20])],
    });
    let mut buf = Vec::new();
    request.write_bytes(&mut buf);
    match Request::parse_bytes(&buf, 2).unwrap() {
        Request::Scrape(r) => {
            assert_eq!(r.info_hashes, vec![InfoHash([1; 20]), InfoHash([2; 20])]);
        }
        other => panic!("unexpected request {:?}", other),
    }
}

#[test]
fn request_without_action_is_unsendable() {
    assert_eq!(
        Request::parse_bytes(&[0; 11], 255),
        Err(RequestParseError::Unsendable {
            err: "Couldn't parse action"
        })
    );
}

#[test]
fn truncated_connect_request_is_unsendable() {
    assert_eq!(
        Request::parse_bytes(&[0; 15], 255),
        Err(RequestParseError::Unsendable {
            err: "failed to fill whole buffer"
        })
    );
}

#[test]
fn connect_request_without_magic_is_unsendable() {
    assert_eq!(
        Request::parse_bytes(&[0; 16], 255),
        Err(RequestParseError::Unsendable {
            err: "Protocol identifier missing"
        })
    );
}

#[test]
fn truncated_announce_request_is_unsendable() {
    let mut buf = Vec::new();
    sample_announce_request().write_bytes(&mut buf);
    assert_eq!(
        Request::parse_bytes(&buf[..97], 255),
        Err(RequestParseError::Unsendable {
            err: "invalid data"
        })
    );
}

#[test]
fn announce_request_with_unknown_event_is_sendable() {
    let mut buf = Vec::new();
    sample_announce_request().write_bytes(&mut buf);
    buf[83] = 4;
    assert_eq!(
        Request::parse_bytes(&buf, 255),
        Err(RequestParseError::Sendable {
            connection_id: ConnectionId(-0x0102030405060708),
            transaction_id: TransactionId(0x11223344),
            err: "Invalid announce event",
        })
    );
}

#[test]
fn full_scrape_is_sendable_error() {
    let request = ScrapeRequest {
        connection_id: ConnectionId(77),
        transaction_id: TransactionId(9),
        info_hashes: vec![],
    };
    let mut buf = Vec::new();
    request.write_bytes(&mut buf);
    assert_eq!(buf.len(), 16);
    let expected = Err(RequestParseError::Sendable {
        connection_id: ConnectionId(77),
        transaction_id: TransactionId(9),
        err: "Invalid info hash list. Note that full scrapes are not allowed",
    });
    assert_eq!(Request::parse_bytes(&buf, 255), expected);
    buf.extend_from_slice(&[1; 19]);
    assert_eq!(Request::parse_bytes(&buf, 255), expected);
}

#[test]
fn request_with_unknown_action_is_unsendable() {
    let mut buf = vec![0; 16];
    buf[11] = 3;
    assert_eq!(
        Request::parse_bytes(&buf, 255),
        Err(RequestParseError::Unsendable {
            err: "Invalid action"
        })
    );
}
