use aquatic::common::ConnectionId;
use aquatic::common::InfoHash;
use aquatic::common::NumberOfDownloads;
use aquatic::common::NumberOfPeers;
use aquatic::common::TransactionId;
use aquatic::config::Config;
use aquatic::messages::PendingScrapeRequest;
use aquatic::messages::PendingScrapeResponse;
use aquatic::messages::RequestWorkerIndex;
use aquatic::pending_scrape::split_scrape_request;
use aquatic::pending_scrape::PendingScrapeResponses;
use aquatic::request::ScrapeRequest;
use aquatic::response::ScrapeResponse;
use aquatic::response::TorrentScrapeStatistics;
use aquatic::time::SecondsSinceServerStart;
use aquatic::time::ValidUntil;

fn hash(first: u8, rest: u8) -> InfoHash {
    let mut h = [rest; 20];
    h[0] = first;
    InfoHash(h)
}

fn stats(n: i32) -> TorrentScrapeStatistics {
    TorrentScrapeStatistics {
        seeders: NumberOfPeers(n),
        completed: NumberOfDownloads(0),
        leechers: NumberOfPeers(n + 100),
    }
}

fn five_hash_request() -> ScrapeRequest {
    ScrapeRequest {
        connection_id: ConnectionId(1),
        transaction_id: TransactionId(42),
        info_hashes: vec![
            hash(0x00, 1),
            hash(0x05, 2),
            hash(0x40, 3),
            hash(0x80, 4),
            hash(0x00, 5),
        ],
    }
}

fn four_workers() -> Config {
    let mut config = Config::default();
    config.request_workers = 4;
    config
}

fn answer(part: &PendingScrapeRequest) -> PendingScrapeResponse {
    PendingScrapeResponse {
        transaction_id: part.transaction_id,
        torrent_stats: part
            .info_hashes
            .iter()
            .map(|(i, _)| (*i, stats(*i as i32)))
            .collect(),
    }
}

#[test]
fn scrape_request_is_split_by_shard() {
    let parts = split_scrape_request(&four_workers(), &five_hash_request());
    assert_eq!(
        parts,
        vec![
            (
                RequestWorkerIndex(0),
                PendingScrapeRequest {
                    transaction_id: TransactionId(42),
                    info_hashes: vec![
                        (0, hash(0x00, 1)),
                        (2, hash(0x40, 3)),
                        (3, hash(0x80, 4)),
                        (4, hash(0x00, 5))
                    ],
                }
            ),
            (
                RequestWorkerIndex(1),
                PendingScrapeRequest {
                    transaction_id: TransactionId(42),
                    info_hashes: vec![(1, hash(0x05, 2))],
                }
            ),
        ]
    );
    let none = split_scrape_request(
        &four_workers(),
        &ScrapeRequest {
            connection_id: ConnectionId(1),
            transaction_id: TransactionId(42),
            info_hashes: vec![],
        },
    );
    assert!(none.is_empty());
}

#[test]
fn split_scrape_is_answered_in_request_order() {
    let request = ScrapeRequest {
        connection_id: ConnectionId(1),
        transaction_id: TransactionId(42),
        info_hashes: vec![
            hash(0x03, 1),
            hash(0x05, 2),
            hash(0x02, 3),
            hash(0x00, 4),
            hash(0x01, 5),
            hash(0x06, 6),
        ],
    };
    let expected = ScrapeResponse {
        transaction_id: TransactionId(42),
        torrent_stats: (0..6).map(stats).collect(),
    };
    // every order in which the four answers can come
    let orders = [
        [0, 1, 2, 3],
        [3, 2, 1, 0],
        [1, 3, 0, 2],
        [2, 0, 3, 1],
        [1, 0, 3, 2],
        [3, 0, 1, 2],
    ];
    for order in orders {
        let mut pending = PendingScrapeResponses::new();
        let parts =
            pending.prepare_split_requests(&four_workers(), request.clone(), ValidUntil(100));
        assert_eq!(parts.len(), 4);
        for (n, p) in order.iter().enumerate() {
            let finished = pending.add_and_get_finished(answer(&parts[*p].1));
            if n < 3 {
                assert_eq!(finished, None);
            } else {
                assert_eq!(finished, Some(expected.clone()));
            }
        }
        // the request is forgotten: a late answer leads to nothing
        assert_eq!(pending.add_and_get_finished(answer(&parts[0].1)), None);
    }
}

#[test]
fn answer_to_unknown_request_leads_to_nothing() {
    let mut pending = PendingScrapeResponses::new();
    let response = PendingScrapeResponse {
        transaction_id: TransactionId(1),
        torrent_stats: vec![(0, stats(0))],
    };
    assert_eq!(pending.add_and_get_finished(response), None);
}

#[test]
fn later_request_with_the_same_id_wins() {
    let mut pending = PendingScrapeResponses::new();
    pending.prepare(TransactionId(1), 2, ValidUntil(100));
    let first = PendingScrapeResponse {
        transaction_id: TransactionId(1),
        torrent_stats: vec![(0, stats(7))],
    };
    assert_eq!(pending.add_and_get_finished(first), None);
    pending.prepare(TransactionId(1), 1, ValidUntil(100));
    let second = PendingScrapeResponse {
        transaction_id: TransactionId(1),
        torrent_stats: vec![(1, stats(1))],
    };
    assert_eq!(
        pending.add_and_get_finished(second),
        Some(ScrapeResponse {
            transaction_id: TransactionId(1),
            torrent_stats: vec![stats(1)],
        })
    );
}

#[test]
fn later_counts_for_a_place_replace_earlier_ones() {
    let mut pending = PendingScrapeResponses::new();
    pending.prepare(TransactionId(1), 3, ValidUntil(100));
    for (pairs, done) in [
        (vec![(2, stats(2)), (0, stats(9))], false),
        (vec![(1, stats(1))], false),
        (vec![(0, stats(0))], true),
    ] {
        let finished = pending.add_and_get_finished(PendingScrapeResponse {
            transaction_id: TransactionId(1),
            torrent_stats: pairs,
        });
        if done {
            assert_eq!(
                finished.unwrap().torrent_stats,
                vec![stats(0), stats(1), stats(2)]
            );
        } else {
            assert!(finished.is_none());
        }
    }
}

#[test]
fn pending_requests_are_forgotten_when_too_old() {
    let mut pending = PendingScrapeResponses::new();
    pending.prepare(TransactionId(1), 1, ValidUntil(10));
    pending.prepare(TransactionId(2), 1, ValidUntil(20));
    pending.prepare(TransactionId(3), 1, ValidUntil(5));
    pending.clean(SecondsSinceServerStart(10));
    let response = |id: i32| PendingScrapeResponse {
        transaction_id: TransactionId(id),
        torrent_stats: vec![(0, stats(id))],
    };
    assert!(pending.add_and_get_finished(response(3)).is_none());
    assert!(pending.add_and_get_finished(response(1)).is_some());
    pending.clean(SecondsSinceServerStart(21));
    assert!(pending.add_and_get_finished(response(2)).is_none());
}
