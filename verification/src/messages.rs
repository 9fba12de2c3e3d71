//! What socket workers and request workers hand to each other.

use crate::common::AnnounceInterval;
use crate::common::InfoHash;
use crate::common::Ipv4AddrBytes;
use crate::common::Ipv6AddrBytes;
use crate::common::NumberOfPeers;
use crate::common::ResponsePeerIpv4;
use crate::common::ResponsePeerIpv6;
use crate::common::ResponsePeerView;
use crate::common::TransactionId;
use crate::config::Config;
use crate::request::AnnounceRequest;
use crate::response::peers_view_ipv4;
use crate::response::peers_view_ipv6;
use crate::response::AnnounceResponseIpv4;
use crate::response::AnnounceResponseIpv6;
use crate::response::ErrorResponse;
use crate::response::TorrentScrapeStatistics;
use crate::swarm::ProtocolResponsePeer;
use vstd::prelude::*;

verus! {

/// Largest number of bytes of a request or a response.
pub const MAX_PACKET_SIZE: usize = 8192;

/// The part of a scrape request that goes to one request worker: the
/// info hashes of its torrents, each with its place in the request of the
/// client, in the order of those places.
#[derive(Clone, Debug, PartialEq, Eq)]
pub struct PendingScrapeRequest {
    pub transaction_id: TransactionId,
    pub info_hashes: Vec<(usize, InfoHash)>,
}

/// The answer of one request worker to its part of a scrape request:
/// the counts of each torrent with the place that its info hash had in
/// the request of the client.
#[derive(Clone, Debug, PartialEq, Eq)]
pub struct PendingScrapeResponse {
    pub transaction_id: TransactionId,
    pub torrent_stats: Vec<(usize, TorrentScrapeStatistics)>,
}

/// A request that a socket worker has checked and hands to a request
/// worker.
#[derive(Clone, Debug, PartialEq, Eq)]
pub enum ConnectedRequest {
    Announce(AnnounceRequest),
    Scrape(PendingScrapeRequest),
}

/// What a request worker hands back to the socket worker.
#[derive(Clone, Debug, PartialEq, Eq)]
pub enum ConnectedResponse {
    AnnounceIpv4(AnnounceResponseIpv4),
    AnnounceIpv6(AnnounceResponseIpv6),
    Scrape(PendingScrapeResponse),
    Error(ErrorResponse),
}

/// An announce response whose peers have addresses of type `I`.
pub struct ProtocolAnnounceResponse<I> {
    pub transaction_id: TransactionId,
    pub announce_interval: AnnounceInterval,
    pub leechers: NumberOfPeers,
    pub seeders: NumberOfPeers,
    pub peers: Vec<ProtocolResponsePeer<I>>,
}

/// The listed IPv4 peers as plain values.
pub open spec fn protocol_peers_view_ipv4(
    peers: Seq<ProtocolResponsePeer<Ipv4AddrBytes>>,
) -> Seq<ResponsePeerView> {
    peers.map_values(
        |p: ProtocolResponsePeer<Ipv4AddrBytes>|
            ResponsePeerView { ip: p.ip_address@, port: p.port.0 },
    )
}

/// The listed IPv6 peers as plain values.
pub open spec fn protocol_peers_view_ipv6(
    peers: Seq<ProtocolResponsePeer<Ipv6AddrBytes>>,
) -> Seq<ResponsePeerView> {
    peers.map_values(
        |p: ProtocolResponsePeer<Ipv6AddrBytes>|
            ResponsePeerView { ip: p.ip_address@, port: p.port.0 },
    )
}

impl ProtocolAnnounceResponse<Ipv4AddrBytes> {
    /// The response as it goes to the socket worker: the same values,
    /// the same peers in the same order.
    pub fn into_connected_response(self) -> (response: ConnectedResponse)
        ensures
            response matches ConnectedResponse::AnnounceIpv4(r) && r.transaction_id
                == self.transaction_id && r.announce_interval == self.announce_interval
                && r.leechers == self.leechers && r.seeders == self.seeders && peers_view_ipv4(
                r.peers@,
            ) == protocol_peers_view_ipv4(self.peers@),
    {
        let mut peers: Vec<ResponsePeerIpv4> = Vec::new();
        let mut i: usize = 0;
        while i < self.peers.len()
            invariant
                i <= self.peers.len(),
                peers@.len() == i,
                forall|j: int|
                    0 <= j < i ==> (#[trigger] peers@[j])@ == protocol_peers_view_ipv4(
                        self.peers@,
                    )[j],
            decreases self.peers.len() - i,
        {
            let peer = &self.peers[i];
            peers.push(ResponsePeerIpv4 { ip_address: peer.ip_address, port: peer.port });
            i = i + 1;
        }
        assert(peers_view_ipv4(peers@) =~= protocol_peers_view_ipv4(self.peers@));
        ConnectedResponse::AnnounceIpv4(
            AnnounceResponseIpv4 {
                transaction_id: self.transaction_id,
                announce_interval: self.announce_interval,
                leechers: self.leechers,
                seeders: self.seeders,
                peers,
            },
        )
    }
}

impl ProtocolAnnounceResponse<Ipv6AddrBytes> {
    /// The response as it goes to the socket worker: the same values,
    /// the same peers in the same order.
    pub fn into_connected_response(self) -> (response: ConnectedResponse)
        ensures
            response matches ConnectedResponse::AnnounceIpv6(r) && r.transaction_id
                == self.transaction_id && r.announce_interval == self.announce_interval
                && r.leechers == self.leechers && r.seeders == self.seeders && peers_view_ipv6(
                r.peers@,
            ) == protocol_peers_view_ipv6(self.peers@),
    {
        let mut peers: Vec<ResponsePeerIpv6> = Vec::new();
        let mut i: usize = 0;
        while i < self.peers.len()
            invariant
                i <= self.peers.len(),
                peers@.len() == i,
                forall|j: int|
                    0 <= j < i ==> (#[trigger] peers@[j])@ == protocol_peers_view_ipv6(
                        self.peers@,
                    )[j],
            decreases self.peers.len() - i,
        {
            let peer = &self.peers[i];
            peers.push(ResponsePeerIpv6 { ip_address: peer.ip_address, port: peer.port });
            i = i + 1;
        }
        assert(peers_view_ipv6(peers@) =~= protocol_peers_view_ipv6(self.peers@));
        ConnectedResponse::AnnounceIpv6(
            AnnounceResponseIpv6 {
                transaction_id: self.transaction_id,
                announce_interval: self.announce_interval,
                leechers: self.leechers,
                seeders: self.seeders,
                peers,
            },
        )
    }
}

/// Place of a socket worker among the socket workers.
#[derive(Clone, Copy, Debug, PartialEq, Eq, Structural)]
pub struct SocketWorkerIndex(pub usize);

/// Place of a request worker among the request workers: the shard of
/// the swarms that it owns.
#[derive(Clone, Copy, PartialEq, Eq, Hash, Debug, Structural)]
pub struct RequestWorkerIndex(pub usize);

impl RequestWorkerIndex {
    /// The worker that owns the swarm of a torrent: the first byte of
    /// the info hash, modulo the number of request workers.
    pub open spec fn spec_from_info_hash(config: &Config, info_hash: InfoHash) -> Self {
        RequestWorkerIndex((info_hash.0@[0] as int % config.request_workers as int) as usize)
    }

    #[verifier::when_used_as_spec(spec_from_info_hash)]
    pub fn from_info_hash(config: &Config, info_hash: InfoHash) -> (index: Self)
        requires
            config.request_workers > 0,
        ensures
            index == Self::spec_from_info_hash(config, info_hash),
            index.0 < config.request_workers,
    {
        RequestWorkerIndex(info_hash.0[0] as usize % config.request_workers)
    }
}

/// The worker that owns the swarm of a torrent.
pub fn calculate_request_consumer_index(config: &Config, info_hash: InfoHash) -> (index: usize)
    requires
        config.request_workers > 0,
    ensures
        index == RequestWorkerIndex::spec_from_info_hash(config, info_hash).0,
        index < config.request_workers,
{
    RequestWorkerIndex::from_info_hash(config, info_hash).0
}

} // verus!
