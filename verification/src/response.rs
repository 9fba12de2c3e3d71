//! Responses of the UDP tracker protocol and their wire format.

use crate::common::AnnounceInterval;
use crate::common::ConnectionId;
use crate::common::Ipv4AddrBytes;
use crate::common::Ipv6AddrBytes;
use crate::common::NumberOfDownloads;
use crate::common::NumberOfPeers;
use crate::common::Port;
use crate::common::ResponsePeerIpv4;
use crate::common::ResponsePeerIpv6;
use crate::common::ResponsePeerView;
use crate::common::TransactionId;
use crate::wire::get_array;
use crate::wire::get_i32;
use crate::wire::get_i64;
use crate::wire::get_u16;
use crate::wire::lemma_i32_round_trip;
use crate::wire::lemma_i64_round_trip;
use crate::wire::lemma_u16_round_trip;
use crate::wire::put_i32;
use crate::wire::put_i64;
use crate::wire::put_u16;
use crate::wire::spec_i32_from_be;
use crate::wire::spec_i32_to_be;
use crate::wire::spec_i64_from_be;
use crate::wire::spec_i64_to_be;
use crate::wire::spec_u16_from_be;
use crate::wire::spec_u16_to_be;
use vstd::slice::slice_subrange;
use vstd::prelude::*;
use vstd::utf8::decode_utf8;
use vstd::utf8::encode_utf8;
use vstd::utf8::valid_utf8;

verus! {

/// Counts of one torrent in a scrape response.
#[derive(PartialEq, Eq, Debug, Copy, Clone, Structural)]
pub struct TorrentScrapeStatistics {
    pub seeders: NumberOfPeers,
    pub completed: NumberOfDownloads,
    pub leechers: NumberOfPeers,
}

#[derive(PartialEq, Eq, Clone, Copy, Debug, Structural)]
pub struct ConnectResponse {
    pub connection_id: ConnectionId,
    pub transaction_id: TransactionId,
}

#[derive(PartialEq, Eq, Clone, Debug)]
pub struct AnnounceResponseIpv4 {
    pub transaction_id: TransactionId,
    pub announce_interval: AnnounceInterval,
    pub leechers: NumberOfPeers,
    pub seeders: NumberOfPeers,
    pub peers: Vec<ResponsePeerIpv4>,
}

#[derive(PartialEq, Eq, Clone, Debug)]
pub struct AnnounceResponseIpv6 {
    pub transaction_id: TransactionId,
    pub announce_interval: AnnounceInterval,
    pub leechers: NumberOfPeers,
    pub seeders: NumberOfPeers,
    pub peers: Vec<ResponsePeerIpv6>,
}

#[derive(PartialEq, Eq, Clone, Debug)]
pub struct ScrapeResponse {
    pub transaction_id: TransactionId,
    pub torrent_stats: Vec<TorrentScrapeStatistics>,
}

#[derive(PartialEq, Eq, Clone, Debug)]
pub struct ErrorResponse {
    pub transaction_id: TransactionId,
    pub message: String,
}

#[derive(PartialEq, Eq, Clone, Debug)]
pub enum Response {
    Connect(ConnectResponse),
    AnnounceIpv4(AnnounceResponseIpv4),
    AnnounceIpv6(AnnounceResponseIpv6),
    Scrape(ScrapeResponse),
    Error(ErrorResponse),
}

/// Why bytes are no response: they end before the fields of the header do.
#[derive(PartialEq, Eq, Clone, Copy, Debug, Structural)]
pub enum ResponseParseError {
    UnexpectedEof,
}

/// An announce response of either family as plain values.
pub struct AnnounceResponseView {
    pub transaction_id: TransactionId,
    pub announce_interval: AnnounceInterval,
    pub leechers: NumberOfPeers,
    pub seeders: NumberOfPeers,
    pub peers: Seq<ResponsePeerView>,
}

pub struct ScrapeResponseView {
    pub transaction_id: TransactionId,
    pub torrent_stats: Seq<TorrentScrapeStatistics>,
}

pub struct ErrorResponseView {
    pub transaction_id: TransactionId,
    pub message: Seq<char>,
}

pub enum ResponseView {
    Connect(ConnectResponse),
    AnnounceIpv4(AnnounceResponseView),
    AnnounceIpv6(AnnounceResponseView),
    Scrape(ScrapeResponseView),
    Error(ErrorResponseView),
}

/// The listed IPv4 peers as plain values.
pub open spec fn peers_view_ipv4(peers: Seq<ResponsePeerIpv4>) -> Seq<ResponsePeerView> {
    peers.map_values(|p: ResponsePeerIpv4| p@)
}

/// The listed IPv6 peers as plain values.
pub open spec fn peers_view_ipv6(peers: Seq<ResponsePeerIpv6>) -> Seq<ResponsePeerView> {
    peers.map_values(|p: ResponsePeerIpv6| p@)
}

impl View for AnnounceResponseIpv4 {
    type V = AnnounceResponseView;

    open spec fn view(&self) -> AnnounceResponseView {
        AnnounceResponseView {
            transaction_id: self.transaction_id,
            announce_interval: self.announce_interval,
            leechers: self.leechers,
            seeders: self.seeders,
            peers: peers_view_ipv4(self.peers@),
        }
    }
}

impl View for AnnounceResponseIpv6 {
    type V = AnnounceResponseView;

    open spec fn view(&self) -> AnnounceResponseView {
        AnnounceResponseView {
            transaction_id: self.transaction_id,
            announce_interval: self.announce_interval,
            leechers: self.leechers,
            seeders: self.seeders,
            peers: peers_view_ipv6(self.peers@),
        }
    }
}

impl View for ScrapeResponse {
    type V = ScrapeResponseView;

    open spec fn view(&self) -> ScrapeResponseView {
        ScrapeResponseView {
            transaction_id: self.transaction_id,
            torrent_stats: self.torrent_stats@,
        }
    }
}

impl View for ErrorResponse {
    type V = ErrorResponseView;

    open spec fn view(&self) -> ErrorResponseView {
        ErrorResponseView { transaction_id: self.transaction_id, message: self.message@ }
    }
}

impl View for Response {
    type V = ResponseView;

    open spec fn view(&self) -> ResponseView {
        match *self {
            Response::Connect(r) => ResponseView::Connect(r),
            Response::AnnounceIpv4(r) => ResponseView::AnnounceIpv4(r@),
            Response::AnnounceIpv6(r) => ResponseView::AnnounceIpv6(r@),
            Response::Scrape(r) => ResponseView::Scrape(r@),
            Response::Error(r) => ResponseView::Error(r@),
        }
    }
}

/// Action number of a connect response.
pub const ACTION_CONNECT: i32 = 0;

/// Action number of an announce response that lists IPv4 peers.
pub const ACTION_ANNOUNCE: i32 = 1;

/// Action number of a scrape response.
pub const ACTION_SCRAPE: i32 = 2;

/// Action number of an error response.
pub const ACTION_ERROR: i32 = 3;

/// Action number of an announce response that lists IPv6 peers. The
/// protocol's definition has no such action; trackers use it by convention.
pub const ACTION_ANNOUNCE_IPV6: i32 = 4;

/// Bytes of one listed peer: its address, then its port.
pub open spec fn encode_peer(peer: ResponsePeerView) -> Seq<u8> {
    peer.ip + spec_u16_to_be(peer.port)
}

/// Bytes of a list of peers: those of each peer, in order.
pub open spec fn encode_peers(peers: Seq<ResponsePeerView>) -> Seq<u8>
    decreases peers.len(),
{
    if peers.len() == 0 {
        Seq::empty()
    } else {
        encode_peers(peers.drop_last()) + encode_peer(peers.last())
    }
}

/// Bytes of the counts of one torrent: seeders, completed, leechers.
pub open spec fn encode_stat(stat: TorrentScrapeStatistics) -> Seq<u8> {
    spec_i32_to_be(stat.seeders.0) + spec_i32_to_be(stat.completed.0) + spec_i32_to_be(
        stat.leechers.0,
    )
}

/// Bytes of the counts of a list of torrents, in order.
pub open spec fn encode_stats(stats: Seq<TorrentScrapeStatistics>) -> Seq<u8>
    decreases stats.len(),
{
    if stats.len() == 0 {
        Seq::empty()
    } else {
        encode_stats(stats.drop_last()) + encode_stat(stats.last())
    }
}

/// Bytes of an announce response under the given action number.
pub open spec fn encode_announce(action: i32, r: AnnounceResponseView) -> Seq<u8> {
    spec_i32_to_be(action) + spec_i32_to_be(r.transaction_id.0) + spec_i32_to_be(
        r.announce_interval.0,
    ) + spec_i32_to_be(r.leechers.0) + spec_i32_to_be(r.seeders.0) + encode_peers(r.peers)
}

/// The wire format of a response.
pub open spec fn encode_response(r: ResponseView) -> Seq<u8> {
    match r {
        ResponseView::Connect(r) => spec_i32_to_be(ACTION_CONNECT) + spec_i32_to_be(
            r.transaction_id.0,
        ) + spec_i64_to_be(r.connection_id.0),
        ResponseView::AnnounceIpv4(r) => encode_announce(ACTION_ANNOUNCE, r),
        ResponseView::AnnounceIpv6(r) => encode_announce(ACTION_ANNOUNCE_IPV6, r),
        ResponseView::Scrape(r) => spec_i32_to_be(ACTION_SCRAPE) + spec_i32_to_be(
            r.transaction_id.0,
        ) + encode_stats(r.torrent_stats),
        ResponseView::Error(r) => spec_i32_to_be(ACTION_ERROR) + spec_i32_to_be(
            r.transaction_id.0,
        ) + encode_utf8(r.message),
    }
}

/// The peer that the `i`-th group of `ip_len + 2` bytes holds.
pub open spec fn parse_peer_at(bytes: Seq<u8>, ip_len: int, i: int) -> ResponsePeerView {
    ResponsePeerView {
        ip: bytes.subrange(i * (ip_len + 2), i * (ip_len + 2) + ip_len),
        port: spec_u16_from_be(
            bytes.subrange(i * (ip_len + 2) + ip_len, i * (ip_len + 2) + ip_len + 2),
        ),
    }
}

/// The peers that the whole groups of `ip_len + 2` bytes hold; bytes
/// behind the last whole group are ignored.
pub open spec fn parse_peers(bytes: Seq<u8>, ip_len: int) -> Seq<ResponsePeerView> {
    Seq::new((bytes.len() / (ip_len + 2) as nat) as nat, |i: int| parse_peer_at(bytes, ip_len, i))
}

/// The counts that the `i`-th group of twelve bytes holds.
pub open spec fn parse_stat_at(bytes: Seq<u8>, i: int) -> TorrentScrapeStatistics {
    TorrentScrapeStatistics {
        seeders: NumberOfPeers(spec_i32_from_be(bytes.subrange(i * 12, i * 12 + 4))),
        completed: NumberOfDownloads(spec_i32_from_be(bytes.subrange(i * 12 + 4, i * 12 + 8))),
        leechers: NumberOfPeers(spec_i32_from_be(bytes.subrange(i * 12 + 8, i * 12 + 12))),
    }
}

/// The counts that the whole groups of twelve bytes hold; bytes behind
/// the last whole group are ignored.
pub open spec fn parse_stats(bytes: Seq<u8>) -> Seq<TorrentScrapeStatistics> {
    Seq::new((bytes.len() / 12) as nat, |i: int| parse_stat_at(bytes, i))
}

/// What reading bytes that are not valid UTF-8 as text gives: each
/// invalid part is replaced by U+FFFD (`String::from_utf8_lossy`).
pub uninterp spec fn utf8_lossy(bytes: Seq<u8>) -> Seq<char>;

/// The text of an error message: the bytes decoded as UTF-8 where they
/// are valid, and with the invalid parts replaced where they are not.
pub open spec fn parse_message(bytes: Seq<u8>) -> Seq<char> {
    if valid_utf8(bytes) {
        decode_utf8(bytes)
    } else {
        utf8_lossy(bytes)
    }
}

/// The text that stands for a response with an unknown action number.
pub open spec fn invalid_action_message() -> Seq<char> {
    "Invalid action"@
}

/// The announce response that bytes behind the action number hold.
pub open spec fn parse_announce(bytes: Seq<u8>, ip_len: int) -> AnnounceResponseView
    recommends
        bytes.len() >= 20,
{
    AnnounceResponseView {
        transaction_id: TransactionId(spec_i32_from_be(bytes.subrange(4, 8))),
        announce_interval: AnnounceInterval(spec_i32_from_be(bytes.subrange(8, 12))),
        leechers: NumberOfPeers(spec_i32_from_be(bytes.subrange(12, 16))),
        seeders: NumberOfPeers(spec_i32_from_be(bytes.subrange(16, 20))),
        peers: parse_peers(bytes.subrange(20, bytes.len() as int), ip_len),
    }
}

/// The response that bytes hold. Bytes too short for the fixed fields of
/// their action are no response; an unknown action number reads as an
/// error response.
pub open spec fn parse_response(bytes: Seq<u8>) -> Result<ResponseView, ResponseParseError> {
    if bytes.len() < 8 {
        Err(ResponseParseError::UnexpectedEof)
    } else {
        let action = spec_i32_from_be(bytes.subrange(0, 4));
        let transaction_id = TransactionId(spec_i32_from_be(bytes.subrange(4, 8)));
        let rest = bytes.subrange(8, bytes.len() as int);
        if action == ACTION_CONNECT {
            if bytes.len() < 16 {
                Err(ResponseParseError::UnexpectedEof)
            } else {
                Ok(
                    ResponseView::Connect(
                        ConnectResponse {
                            connection_id: ConnectionId(
                                spec_i64_from_be(bytes.subrange(8, 16)),
                            ),
                            transaction_id,
                        },
                    ),
                )
            }
        } else if action == ACTION_ANNOUNCE {
            if bytes.len() < 20 {
                Err(ResponseParseError::UnexpectedEof)
            } else {
                Ok(ResponseView::AnnounceIpv4(parse_announce(bytes, 4)))
            }
        } else if action == ACTION_SCRAPE {
            Ok(
                ResponseView::Scrape(
                    ScrapeResponseView { transaction_id, torrent_stats: parse_stats(rest) },
                ),
            )
        } else if action == ACTION_ERROR {
            Ok(
                ResponseView::Error(
                    ErrorResponseView { transaction_id, message: parse_message(rest) },
                ),
            )
        } else if action == ACTION_ANNOUNCE_IPV6 {
            if bytes.len() < 20 {
                Err(ResponseParseError::UnexpectedEof)
            } else {
                Ok(ResponseView::AnnounceIpv6(parse_announce(bytes, 16)))
            }
        } else {
            Ok(
                ResponseView::Error(
                    ErrorResponseView { transaction_id, message: invalid_action_message() },
                ),
            )
        }
    }
}

/// `String::from_utf8_lossy` of std, made into an owned `String`: valid
/// UTF-8 is decoded as it stands; in other bytes each invalid part is
/// replaced by U+FFFD.
#[verifier::external_body]
fn utf8_lossy_string(bytes: &[u8]) -> (text: String)
    ensures
        valid_utf8(bytes@) ==> text@ == decode_utf8(bytes@),
        !valid_utf8(bytes@) ==> text@ == utf8_lossy(bytes@),
{
    String::from_utf8_lossy(bytes).into_owned()
}

/// The encoding of a list grows by the encoding of what is appended.
pub proof fn lemma_encode_peers_push(peers: Seq<ResponsePeerView>, peer: ResponsePeerView)
    ensures
        encode_peers(peers.push(peer)) == encode_peers(peers) + encode_peer(peer),
{
    assert(peers.push(peer).drop_last() =~= peers);
}

/// The encoding of a list grows by the encoding of what is appended.
pub proof fn lemma_encode_stats_push(
    stats: Seq<TorrentScrapeStatistics>,
    stat: TorrentScrapeStatistics,
)
    ensures
        encode_stats(stats.push(stat)) == encode_stats(stats) + encode_stat(stat),
{
    assert(stats.push(stat).drop_last() =~= stats);
}

fn write_peers_ipv4(peers: &Vec<ResponsePeerIpv4>, bytes: &mut Vec<u8>)
    ensures
        final(bytes)@ == old(bytes)@ + encode_peers(peers_view_ipv4(peers@)),
{
    let ghost start = bytes@;
    let ghost all = peers_view_ipv4(peers@);
    let mut i: usize = 0;
    while i < peers.len()
        invariant
            i <= peers.len(),
            all == peers_view_ipv4(peers@),
            bytes@ == start + encode_peers(all.take(i as int)),
        decreases peers.len() - i,
    {
        let peer = &peers[i];
        proof {
            lemma_encode_peers_push(all.take(i as int), all[i as int]);
            assert(all.take(i as int).push(all[i as int]) =~= all.take(i + 1));
        }
        bytes.extend_from_slice(peer.ip_address.0.as_slice());
        put_u16(bytes, peer.port.0);
        assert(bytes@ =~= start + encode_peers(all.take(i + 1)));
        i = i + 1;
    }
    assert(all.take(peers.len() as int) =~= all);
}

fn write_peers_ipv6(peers: &Vec<ResponsePeerIpv6>, bytes: &mut Vec<u8>)
    ensures
        final(bytes)@ == old(bytes)@ + encode_peers(peers_view_ipv6(peers@)),
{
    let ghost start = bytes@;
    let ghost all = peers_view_ipv6(peers@);
    let mut i: usize = 0;
    while i < peers.len()
        invariant
            i <= peers.len(),
            all == peers_view_ipv6(peers@),
            bytes@ == start + encode_peers(all.take(i as int)),
        decreases peers.len() - i,
    {
        let peer = &peers[i];
        proof {
            lemma_encode_peers_push(all.take(i as int), all[i as int]);
            assert(all.take(i as int).push(all[i as int]) =~= all.take(i + 1));
        }
        bytes.extend_from_slice(peer.ip_address.0.as_slice());
        put_u16(bytes, peer.port.0);
        assert(bytes@ =~= start + encode_peers(all.take(i + 1)));
        i = i + 1;
    }
    assert(all.take(peers.len() as int) =~= all);
}

fn write_stats(stats: &Vec<TorrentScrapeStatistics>, bytes: &mut Vec<u8>)
    ensures
        final(bytes)@ == old(bytes)@ + encode_stats(stats@),
{
    let ghost start = bytes@;
    let mut i: usize = 0;
    while i < stats.len()
        invariant
            i <= stats.len(),
            bytes@ == start + encode_stats(stats@.take(i as int)),
        decreases stats.len() - i,
    {
        let stat = &stats[i];
        proof {
            lemma_encode_stats_push(stats@.take(i as int), stats@[i as int]);
            assert(stats@.take(i as int).push(stats@[i as int]) =~= stats@.take(i + 1));
        }
        put_i32(bytes, stat.seeders.0);
        put_i32(bytes, stat.completed.0);
        put_i32(bytes, stat.leechers.0);
        assert(bytes@ =~= start + encode_stats(stats@.take(i + 1)));
        i = i + 1;
    }
    assert(stats@.take(stats.len() as int) =~= stats@);
}

fn read_peers_ipv4(bytes: &[u8], start: usize) -> (peers: Vec<ResponsePeerIpv4>)
    requires
        start <= bytes@.len(),
    ensures
        peers_view_ipv4(peers@) == parse_peers(bytes@.subrange(start as int, bytes@.len() as int), 4),
{
    let len = bytes.len();
    let count = (len - start) / 6;
    let ghost rest = bytes@.subrange(start as int, len as int);
    let mut peers: Vec<ResponsePeerIpv4> = Vec::new();
    let mut i: usize = 0;
    while i < count
        invariant
            i <= count,
            len == bytes@.len(),
            start <= len,
            count == (len - start) / 6,
            rest == bytes@.subrange(start as int, len as int),
            peers@.len() == i,
            forall|j: int| 0 <= j < i ==> (#[trigger] peers@[j])@ == parse_peer_at(rest, 4, j),
        decreases count - i,
    {
        let at = start + i * 6;
        let ip: [u8; 4] = get_array(bytes, at);
        let port = get_u16(bytes, at + 4);
        proof {
            assert(bytes@.subrange(at as int, at + 4) =~= rest.subrange(i * 6, i * 6 + 4));
            assert(bytes@.subrange(at + 4, at + 6) =~= rest.subrange(i * 6 + 4, i * 6 + 6));
        }
        peers.push(ResponsePeerIpv4 { ip_address: Ipv4AddrBytes(ip), port: Port(port) });
        i = i + 1;
    }
    assert(peers_view_ipv4(peers@) =~= parse_peers(rest, 4));
    peers
}

fn read_peers_ipv6(bytes: &[u8], start: usize) -> (peers: Vec<ResponsePeerIpv6>)
    requires
        start <= bytes@.len(),
    ensures
        peers_view_ipv6(peers@) == parse_peers(bytes@.subrange(start as int, bytes@.len() as int), 16),
{
    let len = bytes.len();
    let count = (len - start) / 18;
    let ghost rest = bytes@.subrange(start as int, len as int);
    let mut peers: Vec<ResponsePeerIpv6> = Vec::new();
    let mut i: usize = 0;
    while i < count
        invariant
            i <= count,
            len == bytes@.len(),
            start <= len,
            count == (len - start) / 18,
            rest == bytes@.subrange(start as int, len as int),
            peers@.len() == i,
            forall|j: int| 0 <= j < i ==> (#[trigger] peers@[j])@ == parse_peer_at(rest, 16, j),
        decreases count - i,
    {
        let at = start + i * 18;
        let ip: [u8; 16] = get_array(bytes, at);
        let port = get_u16(bytes, at + 16);
        proof {
            assert(bytes@.subrange(at as int, at + 16) =~= rest.subrange(i * 18, i * 18 + 16));
            assert(bytes@.subrange(at + 16, at + 18) =~= rest.subrange(i * 18 + 16, i * 18 + 18));
        }
        peers.push(ResponsePeerIpv6 { ip_address: Ipv6AddrBytes(ip), port: Port(port) });
        i = i + 1;
    }
    assert(peers_view_ipv6(peers@) =~= parse_peers(rest, 16));
    peers
}

fn read_stats(bytes: &[u8], start: usize) -> (stats: Vec<TorrentScrapeStatistics>)
    requires
        start <= bytes@.len(),
    ensures
        stats@ == parse_stats(bytes@.subrange(start as int, bytes@.len() as int)),
{
    let len = bytes.len();
    let count = (len - start) / 12;
    let ghost rest = bytes@.subrange(start as int, len as int);
    let mut stats: Vec<TorrentScrapeStatistics> = Vec::new();
    let mut i: usize = 0;
    while i < count
        invariant
            i <= count,
            len == bytes@.len(),
            start <= len,
            count == (len - start) / 12,
            rest == bytes@.subrange(start as int, len as int),
            stats@.len() == i,
            forall|j: int| 0 <= j < i ==> #[trigger] stats@[j] == parse_stat_at(rest, j),
        decreases count - i,
    {
        let at = start + i * 12;
        let seeders = get_i32(bytes, at);
        let completed = get_i32(bytes, at + 4);
        let leechers = get_i32(bytes, at + 8);
        proof {
            assert(bytes@.subrange(at as int, at + 4) =~= rest.subrange(i * 12, i * 12 + 4));
            assert(bytes@.subrange(at + 4, at + 8) =~= rest.subrange(i * 12 + 4, i * 12 + 8));
            assert(bytes@.subrange(at + 8, at + 12) =~= rest.subrange(i * 12 + 8, i * 12 + 12));
        }
        stats.push(
            TorrentScrapeStatistics {
                seeders: NumberOfPeers(seeders),
                completed: NumberOfDownloads(completed),
                leechers: NumberOfPeers(leechers),
            },
        );
        i = i + 1;
    }
    assert(stats@ =~= parse_stats(rest));
    stats
}

impl Response {
    /// Appends the wire format of the response to `bytes`.
    ///
    /// Peers of an IPv6 announce response go out under action number 4,
    /// with sixteen address bytes each.
    pub fn write(self, bytes: &mut Vec<u8>)
        ensures
            final(bytes)@ == old(bytes)@ + encode_response(self@),
    {
        let ghost start = bytes@;
        match self {
            Response::Connect(r) => {
                put_i32(bytes, ACTION_CONNECT);
                put_i32(bytes, r.transaction_id.0);
                put_i64(bytes, r.connection_id.0);
                assert(bytes@ =~= start + encode_response(self@));
            },
            Response::AnnounceIpv4(r) => {
                put_i32(bytes, ACTION_ANNOUNCE);
                put_i32(bytes, r.transaction_id.0);
                put_i32(bytes, r.announce_interval.0);
                put_i32(bytes, r.leechers.0);
                put_i32(bytes, r.seeders.0);
                write_peers_ipv4(&r.peers, bytes);
                assert(bytes@ =~= start + encode_response(self@));
            },
            Response::Scrape(r) => {
                put_i32(bytes, ACTION_SCRAPE);
                put_i32(bytes, r.transaction_id.0);
                write_stats(&r.torrent_stats, bytes);
                assert(bytes@ =~= start + encode_response(self@));
            },
            Response::Error(r) => {
                put_i32(bytes, ACTION_ERROR);
                put_i32(bytes, r.transaction_id.0);
                bytes.extend_from_slice(r.message.as_str().as_bytes());
                assert(bytes@ =~= start + encode_response(self@));
            },
            Response::AnnounceIpv6(r) => {
                put_i32(bytes, ACTION_ANNOUNCE_IPV6);
                put_i32(bytes, r.transaction_id.0);
                put_i32(bytes, r.announce_interval.0);
                put_i32(bytes, r.leechers.0);
                put_i32(bytes, r.seeders.0);
                write_peers_ipv6(&r.peers, bytes);
                assert(bytes@ =~= start + encode_response(self@));
            },
        }
    }

    /// Reads a response from its wire format.
    ///
    /// Fails only on bytes that end before the fixed fields of their
    /// action do. Bytes behind the last whole peer or group of counts are
    /// ignored, and an unknown action number gives an error response
    /// with the text "Invalid action".
    pub fn from_bytes(bytes: &[u8]) -> (r: Result<Response, ResponseParseError>)
        ensures
            match r {
                Ok(response) => parse_response(bytes@) == Ok::<ResponseView, ResponseParseError>(
                    response@,
                ),
                Err(e) => parse_response(bytes@) == Err::<ResponseView, ResponseParseError>(e),
            },
    {
        let len = bytes.len();
        if len < 8 {
            return Err(ResponseParseError::UnexpectedEof);
        }
        let action = get_i32(bytes, 0);
        let transaction_id = TransactionId(get_i32(bytes, 4));
        if action == ACTION_CONNECT {
            if len < 16 {
                return Err(ResponseParseError::UnexpectedEof);
            }
            let connection_id = ConnectionId(get_i64(bytes, 8));
            Ok(Response::Connect(ConnectResponse { connection_id, transaction_id }))
        } else if action == ACTION_ANNOUNCE {
            if len < 20 {
                return Err(ResponseParseError::UnexpectedEof);
            }
            let announce_interval = AnnounceInterval(get_i32(bytes, 8));
            let leechers = NumberOfPeers(get_i32(bytes, 12));
            let seeders = NumberOfPeers(get_i32(bytes, 16));
            let peers = read_peers_ipv4(bytes, 20);
            Ok(
                Response::AnnounceIpv4(
                    AnnounceResponseIpv4 {
                        transaction_id,
                        announce_interval,
                        leechers,
                        seeders,
                        peers,
                    },
                ),
            )
        } else if action == ACTION_SCRAPE {
            let torrent_stats = read_stats(bytes, 8);
            Ok(Response::Scrape(ScrapeResponse { transaction_id, torrent_stats }))
        } else if action == ACTION_ERROR {
            let message = utf8_lossy_string(slice_subrange(bytes, 8, len));
            Ok(Response::Error(ErrorResponse { transaction_id, message }))
        } else if action == ACTION_ANNOUNCE_IPV6 {
            if len < 20 {
                return Err(ResponseParseError::UnexpectedEof);
            }
            let announce_interval = AnnounceInterval(get_i32(bytes, 8));
            let leechers = NumberOfPeers(get_i32(bytes, 12));
            let seeders = NumberOfPeers(get_i32(bytes, 16));
            let peers = read_peers_ipv6(bytes, 20);
            Ok(
                Response::AnnounceIpv6(
                    AnnounceResponseIpv6 {
                        transaction_id,
                        announce_interval,
                        leechers,
                        seeders,
                        peers,
                    },
                ),
            )
        } else {
            let message = "Invalid action".to_owned();
            Ok(Response::Error(ErrorResponse { transaction_id, message }))
        }
    }
}

/// Whether every listed address has `ip_len` octets.
pub open spec fn peers_have_width(peers: Seq<ResponsePeerView>, ip_len: int) -> bool {
    forall|i: int| 0 <= i < peers.len() ==> (#[trigger] peers[i]).ip.len() == ip_len
}

/// Where the bytes of each peer stand in the encoding of a list of peers
/// whose addresses have `ip_len` octets each.
pub proof fn lemma_encode_peers_layout(peers: Seq<ResponsePeerView>, ip_len: int)
    requires
        ip_len >= 0,
        peers_have_width(peers, ip_len),
    ensures
        encode_peers(peers).len() == peers.len() * (ip_len + 2),
        forall|i: int|
            0 <= i < peers.len() ==> #[trigger] encode_peers(peers).subrange(
                i * (ip_len + 2),
                i * (ip_len + 2) + ip_len + 2,
            ) == encode_peer(peers[i]),
    decreases peers.len(),
{
    let w = ip_len + 2;
    if peers.len() == 0 {
        assert(0 * w == 0);
    } else {
        let front = peers.drop_last();
        let last = peers.last();
        let n = front.len() as int;
        lemma_encode_peers_layout(front, ip_len);
        lemma_u16_round_trip(last.port);
        assert((n + 1) * w == n * w + w) by (nonlinear_arith);
        assert(encode_peer(last).len() == w);
        let all = encode_peers(peers);
        assert(all == encode_peers(front) + encode_peer(last));
        assert forall|i: int| 0 <= i < peers.len() implies #[trigger] all.subrange(
            i * w,
            i * w + ip_len + 2,
        ) == encode_peer(peers[i]) by {
            if i < n {
                assert(0 <= i * w && i * w + w <= n * w) by (nonlinear_arith)
                    requires
                        0 <= i < n,
                        w > 0,
                ;
                assert(all.subrange(i * w, i * w + w) =~= encode_peers(front).subrange(
                    i * w,
                    i * w + w,
                ));
                assert(front[i] == peers[i]);
            } else {
                assert(all.subrange(n * w, n * w + w) =~= encode_peer(last));
            }
        }
    }
}

/// Reading the encoding of a list of peers gives the list back.
pub proof fn lemma_peers_round_trip(peers: Seq<ResponsePeerView>, ip_len: int)
    requires
        ip_len >= 0,
        peers_have_width(peers, ip_len),
    ensures
        parse_peers(encode_peers(peers), ip_len) == peers,
{
    let w = ip_len + 2;
    let bytes = encode_peers(peers);
    lemma_encode_peers_layout(peers, ip_len);
    vstd::arithmetic::div_mod::lemma_div_multiples_vanish(peers.len() as int, w);
    assert(peers.len() * w == w * peers.len()) by (nonlinear_arith);
    assert(bytes.len() / (w as nat) == peers.len());
    let parsed = parse_peers(bytes, ip_len);
    assert(parsed.len() == peers.len());
    assert forall|i: int| 0 <= i < peers.len() implies parsed[i] == peers[i] by {
        let group = bytes.subrange(i * w, i * w + ip_len + 2);
        assert(group == encode_peer(peers[i]));
        lemma_u16_round_trip(peers[i].port);
        assert(0 <= i * w && i * w + w <= peers.len() * w) by (nonlinear_arith)
            requires
                0 <= i < peers.len(),
                w > 0,
        ;
        assert(bytes.subrange(i * w, i * w + ip_len) =~= group.subrange(0, ip_len));
        assert(bytes.subrange(i * w + ip_len, i * w + ip_len + 2) =~= group.subrange(
            ip_len,
            ip_len + 2,
        ));
        assert(group.subrange(0, ip_len) =~= peers[i].ip);
        assert(group.subrange(ip_len, ip_len + 2) =~= spec_u16_to_be(peers[i].port));
        assert(parsed[i].ip == peers[i].ip);
        assert(parsed[i].port == peers[i].port);
    }
    assert(parsed =~= peers);
}

/// Where the bytes of each torrent stand in the encoding of a list of counts.
pub proof fn lemma_encode_stats_layout(stats: Seq<TorrentScrapeStatistics>)
    ensures
        encode_stats(stats).len() == stats.len() * 12,
        forall|i: int|
            0 <= i < stats.len() ==> #[trigger] encode_stats(stats).subrange(i * 12, i * 12 + 12)
                == encode_stat(stats[i]),
    decreases stats.len(),
{
    if stats.len() > 0 {
        let front = stats.drop_last();
        let last = stats.last();
        let n = front.len() as int;
        lemma_encode_stats_layout(front);
        lemma_i32_round_trip(last.seeders.0);
        lemma_i32_round_trip(last.completed.0);
        lemma_i32_round_trip(last.leechers.0);
        let all = encode_stats(stats);
        assert forall|i: int| 0 <= i < stats.len() implies #[trigger] all.subrange(
            i * 12,
            i * 12 + 12,
        ) == encode_stat(stats[i]) by {
            if i < n {
                assert(all.subrange(i * 12, i * 12 + 12) =~= encode_stats(front).subrange(
                    i * 12,
                    i * 12 + 12,
                ));
                assert(front[i] == stats[i]);
            } else {
                assert(all.subrange(n * 12, n * 12 + 12) =~= encode_stat(last));
            }
        }
    }
}

/// Reading the encoding of a list of counts gives the list back.
pub proof fn lemma_stats_round_trip(stats: Seq<TorrentScrapeStatistics>)
    ensures
        parse_stats(encode_stats(stats)) == stats,
{
    let bytes = encode_stats(stats);
    lemma_encode_stats_layout(stats);
    let parsed = parse_stats(bytes);
    assert(parsed.len() == stats.len());
    assert forall|i: int| 0 <= i < stats.len() implies parsed[i] == stats[i] by {
        let group = bytes.subrange(i * 12, i * 12 + 12);
        let stat = stats[i];
        assert(group == encode_stat(stat));
        lemma_i32_round_trip(stat.seeders.0);
        lemma_i32_round_trip(stat.completed.0);
        lemma_i32_round_trip(stat.leechers.0);
        assert(bytes.subrange(i * 12, i * 12 + 4) =~= group.subrange(0, 4));
        assert(bytes.subrange(i * 12 + 4, i * 12 + 8) =~= group.subrange(4, 8));
        assert(bytes.subrange(i * 12 + 8, i * 12 + 12) =~= group.subrange(8, 12));
        assert(group.subrange(0, 4) =~= spec_i32_to_be(stat.seeders.0));
        assert(group.subrange(4, 8) =~= spec_i32_to_be(stat.completed.0));
        assert(group.subrange(8, 12) =~= spec_i32_to_be(stat.leechers.0));
    }
    assert(parsed =~= stats);
}

proof fn lemma_announce_round_trip(action: i32, r: AnnounceResponseView, ip_len: int)
    requires
        ip_len >= 0,
        peers_have_width(r.peers, ip_len),
    ensures
        encode_announce(action, r).len() >= 20,
        spec_i32_from_be(encode_announce(action, r).subrange(0, 4)) == action,
        parse_announce(encode_announce(action, r), ip_len) == r,
{
    let bytes = encode_announce(action, r);
    lemma_i32_round_trip(action);
    lemma_i32_round_trip(r.transaction_id.0);
    lemma_i32_round_trip(r.announce_interval.0);
    lemma_i32_round_trip(r.leechers.0);
    lemma_i32_round_trip(r.seeders.0);
    lemma_peers_round_trip(r.peers, ip_len);
    assert(bytes.subrange(0, 4) =~= spec_i32_to_be(action));
    assert(bytes.subrange(4, 8) =~= spec_i32_to_be(r.transaction_id.0));
    assert(bytes.subrange(8, 12) =~= spec_i32_to_be(r.announce_interval.0));
    assert(bytes.subrange(12, 16) =~= spec_i32_to_be(r.leechers.0));
    assert(bytes.subrange(16, 20) =~= spec_i32_to_be(r.seeders.0));
    assert(bytes.subrange(20, bytes.len() as int) =~= encode_peers(r.peers));
}

/// A response that is written and read again is the same response, for
/// each of the five kinds of response.
pub proof fn lemma_response_round_trip(response: Response)
    ensures
        parse_response(encode_response(response@)) == Ok::<ResponseView, ResponseParseError>(
            response@,
        ),
{
    let bytes = encode_response(response@);
    match response@ {
        ResponseView::Connect(r) => {
            lemma_i32_round_trip(ACTION_CONNECT);
            lemma_i32_round_trip(r.transaction_id.0);
            lemma_i64_round_trip(r.connection_id.0);
            assert(bytes.subrange(0, 4) =~= spec_i32_to_be(ACTION_CONNECT));
            assert(bytes.subrange(4, 8) =~= spec_i32_to_be(r.transaction_id.0));
            assert(bytes.subrange(8, 16) =~= spec_i64_to_be(r.connection_id.0));
        },
        ResponseView::AnnounceIpv4(r) => {
            assert(peers_have_width(r.peers, 4));
            lemma_announce_round_trip(ACTION_ANNOUNCE, r, 4);
        },
        ResponseView::AnnounceIpv6(r) => {
            assert(peers_have_width(r.peers, 16));
            lemma_announce_round_trip(ACTION_ANNOUNCE_IPV6, r, 16);
        },
        ResponseView::Scrape(r) => {
            lemma_i32_round_trip(ACTION_SCRAPE);
            lemma_i32_round_trip(r.transaction_id.0);
            lemma_stats_round_trip(r.torrent_stats);
            assert(bytes.subrange(0, 4) =~= spec_i32_to_be(ACTION_SCRAPE));
            assert(bytes.subrange(4, 8) =~= spec_i32_to_be(r.transaction_id.0));
            assert(bytes.subrange(8, bytes.len() as int) =~= encode_stats(r.torrent_stats));
        },
        ResponseView::Error(r) => {
            lemma_i32_round_trip(ACTION_ERROR);
            lemma_i32_round_trip(r.transaction_id.0);
            vstd::utf8::encode_utf8_valid_utf8(r.message);
            vstd::utf8::encode_utf8_decode_utf8(r.message);
            assert(bytes.subrange(0, 4) =~= spec_i32_to_be(ACTION_ERROR));
            assert(bytes.subrange(4, 8) =~= spec_i32_to_be(r.transaction_id.0));
            assert(bytes.subrange(8, bytes.len() as int) =~= encode_utf8(r.message));
        },
    }
}

} // verus!
