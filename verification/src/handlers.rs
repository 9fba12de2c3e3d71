//! What a request worker does with a request for the swarms it owns.

use crate::access_list::allowed;
use crate::access_list::AccessList;
use crate::common::AnnounceInterval;
use crate::common::IpAddrBytes;
use crate::common::Ipv4AddrBytes;
use crate::common::Ipv6AddrBytes;
use crate::common::NumberOfPeers;
use crate::common::PeerStatus;
use crate::common::ResponsePeerView;
use crate::config::Config;
use crate::messages::protocol_peers_view_ipv4;
use crate::messages::protocol_peers_view_ipv6;
use crate::messages::ConnectedRequest;
use crate::messages::ConnectedResponse;
use crate::messages::PendingScrapeRequest;
use crate::messages::PendingScrapeResponse;
use crate::messages::ProtocolAnnounceResponse;
use crate::request::AnnounceRequest;
use crate::response::peers_view_ipv4;
use crate::response::peers_view_ipv6;
use crate::response::ErrorResponse;
use crate::response::TorrentScrapeStatistics;
use crate::swarm::apply_announce;
use crate::swarm::count_status;
use crate::swarm::lemma_without_key_members;
use crate::swarm::selected_peers;
use crate::swarm::window;
use crate::swarm::Peer;
use crate::swarm::ProtocolResponsePeer;
use crate::time::ValidUntil;
use crate::torrent_maps::count_to_i32;
use crate::torrent_maps::lemma_family_after_announce;
use crate::torrent_maps::peers_of;
use crate::torrent_maps::scrape_statistics;
use crate::torrent_maps::spec_count_to_i32;
use crate::torrent_maps::swarms_after_announce;
use crate::torrent_maps::TorrentMap;
use crate::torrent_maps::TorrentMaps;
use rand::rngs::SmallRng;
use vstd::prelude::*;

verus! {

/// Why an announce request is dropped without an answer.
#[derive(Clone, Copy, Debug, PartialEq, Eq, Structural)]
pub enum AnnounceError {
    /// The socket does not serve the address family of the client.
    AddressFamilyNotServed,
}

/// Number of peers to answer an announce request with: as many as the
/// client wants where it says so, but never more than the configured
/// maximum.
pub open spec fn spec_calc_max_num_peers_to_take(config: &Config, peers_wanted: i32) -> usize {
    if peers_wanted <= 0 {
        config.protocol.max_response_peers
    } else if config.protocol.max_response_peers <= peers_wanted {
        config.protocol.max_response_peers
    } else {
        peers_wanted as usize
    }
}

#[verifier::when_used_as_spec(spec_calc_max_num_peers_to_take)]
pub fn calc_max_num_peers_to_take(config: &Config, peers_wanted: i32) -> (n: usize)
    ensures
        n == spec_calc_max_num_peers_to_take(config, peers_wanted),
        n <= config.protocol.max_response_peers,
{
    if peers_wanted <= 0 {
        config.protocol.max_response_peers
    } else {
        let wanted = peers_wanted as usize;
        if config.protocol.max_response_peers <= wanted {
            config.protocol.max_response_peers
        } else {
            wanted
        }
    }
}

/// What a swarm keeps of the sender of an announce request that came
/// from the address `src`.
pub open spec fn announcing_peer(
    request: AnnounceRequest,
    src: IpAddrBytes,
    peer_valid_until: ValidUntil,
) -> Peer {
    Peer {
        ip_address: src,
        port: request.port,
        status: PeerStatus::spec_from_event_and_bytes_left(request.event, request.bytes_left),
        valid_until: peer_valid_until,
        connection: None,
    }
}

/// The peers as a response lists them, as plain values.
pub open spec fn listed_peers(peers: Seq<([u8; 20], Peer)>) -> Seq<ResponsePeerView> {
    peers.map_values(
        |entry: ([u8; 20], Peer)|
            ResponsePeerView { ip: entry.1.ip_address@, port: entry.1.port.0 },
    )
}

/// The text of the answer to a request for a torrent that the access
/// list does not let be served.
pub open spec fn not_allowed_message() -> Seq<char> {
    "Info hash not allowed"@
}

/// Whether `response` answers the announce request of a peer whose
/// swarm holds `after` once the announce is taken in: it carries the
/// transaction id of the request, the configured interval, the counts of
/// the swarm, and the peers that the swarm gives from some place on.
pub open spec fn answers_announce(
    response: ConnectedResponse,
    config: &Config,
    request: AnnounceRequest,
    ipv4: bool,
    after: Seq<([u8; 20], Peer)>,
) -> bool {
    let max = spec_calc_max_num_peers_to_take(config, request.peers_wanted.0);
    match response {
        ConnectedResponse::AnnounceIpv4(r) => ipv4 && r.transaction_id == request.transaction_id
            && r.announce_interval == AnnounceInterval(config.protocol.peer_announce_interval)
            && r.leechers == NumberOfPeers(
            spec_count_to_i32(count_status(after, PeerStatus::Leeching)),
        ) && r.seeders == NumberOfPeers(
            spec_count_to_i32(count_status(after, PeerStatus::Seeding)),
        ) && exists|offset: int|
            (after.len() <= max + 1 || 0 <= offset < after.len()) && peers_view_ipv4(r.peers@)
                == listed_peers(
                #[trigger] selected_peers(after, max as int, request.peer_id.0, offset),
            ),
        ConnectedResponse::AnnounceIpv6(r) => !ipv4 && r.transaction_id == request.transaction_id
            && r.announce_interval == AnnounceInterval(config.protocol.peer_announce_interval)
            && r.leechers == NumberOfPeers(
            spec_count_to_i32(count_status(after, PeerStatus::Leeching)),
        ) && r.seeders == NumberOfPeers(
            spec_count_to_i32(count_status(after, PeerStatus::Seeding)),
        ) && exists|offset: int|
            (after.len() <= max + 1 || 0 <= offset < after.len()) && peers_view_ipv6(r.peers@)
                == listed_peers(
                #[trigger] selected_peers(after, max as int, request.peer_id.0, offset),
            ),
        _ => false,
    }
}

/// Whether `result` and the swarms `after` are what an announce
/// request from the address `src` leads to, from the swarms `before`.
///
/// A request from an address family that the socket does not serve is
/// dropped, and one for a torrent that the access list does not let be
/// served is answered with an error; neither changes a swarm. Any other
/// is taken into the swarm of its torrent among the swarms of the
/// address family of `src`, and is answered with the counts of that
/// swarm and with peers of it.
pub open spec fn announce_handled(
    config: &Config,
    before: TorrentMaps,
    after: TorrentMaps,
    list: Set<[u8; 20]>,
    request: AnnounceRequest,
    src: IpAddrBytes,
    peer_valid_until: ValidUntil,
    result: Result<ConnectedResponse, AnnounceError>,
) -> bool {
    if !config.network.spec_serves(src.spec_is_ipv4()) {
        result == Err::<ConnectedResponse, AnnounceError>(AnnounceError::AddressFamilyNotServed)
            && after == before
    } else if !allowed(list, config.access_list.mode, request.info_hash.0) {
        after == before && (result matches Ok(ConnectedResponse::Error(e)) && e.transaction_id
            == request.transaction_id && e.message@ == not_allowed_message())
    } else {
        let served = if src.spec_is_ipv4() {
            before.ipv4@
        } else {
            before.ipv6@
        };
        let peer = announcing_peer(request, src, peer_valid_until);
        let swarm = apply_announce(peers_of(served, request.info_hash.0), request.peer_id.0, peer);
        let swarms = swarms_after_announce(served, request.info_hash.0, request.peer_id.0, peer);
        &&& result matches Ok(response) && answers_announce(
            response,
            config,
            request,
            src.spec_is_ipv4(),
            swarm,
        )
        &&& src.spec_is_ipv4() ==> after.ipv4@ == swarms && after.ipv6 == before.ipv6
        &&& !src.spec_is_ipv4() ==> after.ipv6@ == swarms && after.ipv4 == before.ipv4
    }
}

/// Whether `response` answers the part of a scrape request that came
/// from the address `src`: for each info hash, with the place that it had
/// in the request of the client, it gives the counts of its swarm among
/// the swarms of the address family of `src`, or zeros where it has no
/// swarm there.
pub open spec fn answers_scrape(
    response: PendingScrapeResponse,
    torrents: TorrentMaps,
    src: IpAddrBytes,
    request: PendingScrapeRequest,
) -> bool {
    &&& response.transaction_id == request.transaction_id
    &&& response.torrent_stats@.len() == request.info_hashes@.len()
    &&& forall|i: int|
        0 <= i < request.info_hashes@.len() ==> #[trigger] response.torrent_stats@[i] == (
            request.info_hashes@[i].0,
            scrape_statistics(
                peers_of(
                    if src.spec_is_ipv4() {
                        torrents.ipv4@
                    } else {
                        torrents.ipv6@
                    },
                    request.info_hashes@[i].1.0,
                ),
            ),
        )
}

/// Each peer that answers an announce is a peer of the swarm.
proof fn lemma_selected_are_members(
    peers: Seq<([u8; 20], Peer)>,
    count: int,
    sender: [u8; 20],
    offset: int,
)
    requires
        0 <= count,
        peers.len() <= count + 1 || 0 <= offset < peers.len(),
    ensures
        forall|i: int|
            0 <= i < selected_peers(peers, count, sender, offset).len() ==> peers.contains(
                #[trigger] selected_peers(peers, count, sender, offset)[i],
            ),
{
    let selected = selected_peers(peers, count, sender, offset);
    if peers.len() <= count + 1 {
        lemma_without_key_members(peers, sender);
    } else {
        let w = window(peers, offset, count);
        lemma_without_key_members(w, sender);
        assert forall|i: int| 0 <= i < selected.len() implies peers.contains(
            #[trigger] selected[i],
        ) by {
            let j = choose|j: int| 0 <= j < w.len() && w[j] == selected[i];
            let place = crate::swarm::wrap_index(peers.len() as int, offset, j);
            assert(w[j] == peers[place]);
        }
    }
}

fn narrow_to_ipv4(selected: Vec<([u8; 20], Peer)>) -> (narrow: Vec<
    ProtocolResponsePeer<Ipv4AddrBytes>,
>)
    requires
        forall|i: int|
            0 <= i < selected@.len() ==> (#[trigger] selected@[i]).1.ip_address.spec_is_ipv4(),
    ensures
        protocol_peers_view_ipv4(narrow@) == listed_peers(selected@),
{
    let mut narrow: Vec<ProtocolResponsePeer<Ipv4AddrBytes>> = Vec::new();
    let mut i: usize = 0;
    while i < selected.len()
        invariant
            i <= selected.len(),
            narrow@.len() == i,
            forall|j: int|
                0 <= j < selected@.len() ==> (#[trigger] selected@[j]).1.ip_address.spec_is_ipv4(),
            forall|j: int|
                0 <= j < i ==> (#[trigger] narrow@[j]).ip_address@ == selected@[j].1.ip_address@
                    && narrow@[j].port == selected@[j].1.port,
        decreases selected.len() - i,
    {
        let peer = &selected[i].1;
        assert(selected@[i as int].1.ip_address.spec_is_ipv4());
        match peer.ip_address {
            IpAddrBytes::V4(ip) => {
                narrow.push(ProtocolResponsePeer { ip_address: ip, port: peer.port });
            },
            IpAddrBytes::V6(_) => {
                assert(false);
            },
        }
        i = i + 1;
    }
    assert(protocol_peers_view_ipv4(narrow@) =~= listed_peers(selected@));
    narrow
}

fn narrow_to_ipv6(selected: Vec<([u8; 20], Peer)>) -> (narrow: Vec<
    ProtocolResponsePeer<Ipv6AddrBytes>,
>)
    requires
        forall|i: int|
            0 <= i < selected@.len() ==> !(#[trigger] selected@[i]).1.ip_address.spec_is_ipv4(),
    ensures
        protocol_peers_view_ipv6(narrow@) == listed_peers(selected@),
{
    let mut narrow: Vec<ProtocolResponsePeer<Ipv6AddrBytes>> = Vec::new();
    let mut i: usize = 0;
    while i < selected.len()
        invariant
            i <= selected.len(),
            narrow@.len() == i,
            forall|j: int|
                0 <= j < selected@.len() ==> !(
                #[trigger] selected@[j]).1.ip_address.spec_is_ipv4(),
            forall|j: int|
                0 <= j < i ==> (#[trigger] narrow@[j]).ip_address@ == selected@[j].1.ip_address@
                    && narrow@[j].port == selected@[j].1.port,
        decreases selected.len() - i,
    {
        let peer = &selected[i].1;
        assert(!selected@[i as int].1.ip_address.spec_is_ipv4());
        match peer.ip_address {
            IpAddrBytes::V6(ip) => {
                narrow.push(ProtocolResponsePeer { ip_address: ip, port: peer.port });
            },
            IpAddrBytes::V4(_) => {
                assert(false);
            },
        }
        i = i + 1;
    }
    assert(protocol_peers_view_ipv6(narrow@) =~= listed_peers(selected@));
    narrow
}

/// Takes the announce into the swarm of its torrent in `torrents`,
/// which holds the swarms of the address family of `src`.
fn handle_announce_request_inner(
    config: &Config,
    rng: &mut SmallRng,
    torrents: &mut TorrentMap,
    request: AnnounceRequest,
    src: IpAddrBytes,
    peer_valid_until: ValidUntil,
) -> (response: ConnectedResponse)
    requires
        old(torrents).wf(),
        crate::torrent_maps::family_is(old(torrents)@, src.spec_is_ipv4()),
    ensures
        final(torrents).wf(),
        crate::torrent_maps::family_is(final(torrents)@, src.spec_is_ipv4()),
        final(torrents)@ == swarms_after_announce(
            old(torrents)@,
            request.info_hash.0,
            request.peer_id.0,
            announcing_peer(request, src, peer_valid_until),
        ),
        answers_announce(
            response,
            config,
            request,
            src.spec_is_ipv4(),
            apply_announce(
                peers_of(old(torrents)@, request.info_hash.0),
                request.peer_id.0,
                announcing_peer(request, src, peer_valid_until),
            ),
        ),
{
    let peer_status = PeerStatus::from_event_and_bytes_left(request.event, request.bytes_left);
    let peer = Peer {
        ip_address: src,
        port: request.port,
        status: peer_status,
        valid_until: peer_valid_until,
        connection: None,
    };
    let max_num_peers_to_take = calc_max_num_peers_to_take(config, request.peers_wanted.0);
    let ghost before = peers_of(torrents@, request.info_hash.0);
    let ghost after = apply_announce(before, request.peer_id.0, peer);
    proof {
        lemma_family_after_announce(
            torrents@,
            src.spec_is_ipv4(),
            request.info_hash.0,
            request.peer_id.0,
            peer,
        );
    }
    let outcome = torrents.announce(
        rng,
        request.info_hash,
        request.peer_id,
        peer,
        max_num_peers_to_take,
    );
    let ghost offset = choose|offset: int|
        (after.len() <= max_num_peers_to_take + 1 || 0 <= offset < after.len())
            && outcome.selected@ == #[trigger] selected_peers(
            after,
            max_num_peers_to_take as int,
            request.peer_id.0,
            offset,
        );
    let ghost selected = selected_peers(
        after,
        max_num_peers_to_take as int,
        request.peer_id.0,
        offset,
    );
    proof {
        lemma_selected_are_members(after, max_num_peers_to_take as int, request.peer_id.0, offset);
        assert forall|i: int| 0 <= i < selected.len() implies (
        #[trigger] selected[i]).1.ip_address.spec_is_ipv4() == src.spec_is_ipv4() by {
            assert(after.contains(selected[i]));
        }
    }
    let leechers = NumberOfPeers(count_to_i32(outcome.num_leechers));
    let seeders = NumberOfPeers(count_to_i32(outcome.num_seeders));
    let announce_interval = AnnounceInterval(config.protocol.peer_announce_interval);
    if src.is_ipv4() {
        let peers = narrow_to_ipv4(outcome.selected);
        let response = ProtocolAnnounceResponse {
            transaction_id: request.transaction_id,
            announce_interval,
            leechers,
            seeders,
            peers,
        };
        response.into_connected_response()
    } else {
        let peers = narrow_to_ipv6(outcome.selected);
        let response = ProtocolAnnounceResponse {
            transaction_id: request.transaction_id,
            announce_interval,
            leechers,
            seeders,
            peers,
        };
        response.into_connected_response()
    }
}

/// Answers an announce request that came from the address `src`; see
/// [`announce_handled`].
pub fn handle_announce_request(
    config: &Config,
    rng: &mut SmallRng,
    torrents: &mut TorrentMaps,
    access_list: &AccessList,
    request: AnnounceRequest,
    src: IpAddrBytes,
    peer_valid_until: ValidUntil,
) -> (result: Result<ConnectedResponse, AnnounceError>)
    requires
        old(torrents).wf(),
    ensures
        final(torrents).wf(),
        announce_handled(
            config,
            *old(torrents),
            *final(torrents),
            access_list@,
            request,
            src,
            peer_valid_until,
            result,
        ),
{
    if !config.network.serves(src.is_ipv4()) {
        return Err(AnnounceError::AddressFamilyNotServed);
    }
    if !access_list.allows(config.access_list.mode, &request.info_hash.0) {
        let response = ErrorResponse {
            transaction_id: request.transaction_id,
            message: "Info hash not allowed".to_owned(),
        };
        return Ok(ConnectedResponse::Error(response));
    }
    if src.is_ipv4() {
        Ok(
            handle_announce_request_inner(
                config,
                rng,
                &mut torrents.ipv4,
                request,
                src,
                peer_valid_until,
            ),
        )
    } else {
        Ok(
            handle_announce_request_inner(
                config,
                rng,
                &mut torrents.ipv6,
                request,
                src,
                peer_valid_until,
            ),
        )
    }
}

/// Answers the part of a scrape request that came from the address
/// `src`; see [`answers_scrape`].
pub fn handle_scrape_request(
    torrents: &TorrentMaps,
    src: IpAddrBytes,
    request: PendingScrapeRequest,
) -> (response: PendingScrapeResponse)
    requires
        torrents.wf(),
    ensures
        answers_scrape(response, *torrents, src, request),
{
    let ipv4 = src.is_ipv4();
    let mut torrent_stats: Vec<(usize, TorrentScrapeStatistics)> = Vec::new();
    let mut i: usize = 0;
    while i < request.info_hashes.len()
        invariant
            i <= request.info_hashes.len(),
            torrents.wf(),
            ipv4 == src.spec_is_ipv4(),
            torrent_stats@.len() == i,
            forall|j: int|
                0 <= j < i ==> #[trigger] torrent_stats@[j] == (
                    request.info_hashes@[j].0,
                    scrape_statistics(
                        peers_of(
                            if ipv4 {
                                torrents.ipv4@
                            } else {
                                torrents.ipv6@
                            },
                            request.info_hashes@[j].1.0,
                        ),
                    ),
                ),
        decreases request.info_hashes.len() - i,
    {
        let index = request.info_hashes[i].0;
        let info_hash = &request.info_hashes[i].1;
        let stats = if ipv4 {
            torrents.ipv4.scrape(info_hash)
        } else {
            torrents.ipv6.scrape(info_hash)
        };
        torrent_stats.push((index, stats));
        i = i + 1;
    }
    PendingScrapeResponse { transaction_id: request.transaction_id, torrent_stats }
}

/// Answers a request that a socket worker has handed on; see
/// [`handle_announce_request`] and [`handle_scrape_request`].
pub fn handle_request(
    config: &Config,
    rng: &mut SmallRng,
    torrents: &mut TorrentMaps,
    access_list: &AccessList,
    request: ConnectedRequest,
    src: IpAddrBytes,
    peer_valid_until: ValidUntil,
) -> (result: Result<ConnectedResponse, AnnounceError>)
    requires
        old(torrents).wf(),
    ensures
        final(torrents).wf(),
        match request {
            ConnectedRequest::Announce(announce) => announce_handled(
                config,
                *old(torrents),
                *final(torrents),
                access_list@,
                announce,
                src,
                peer_valid_until,
                result,
            ),
            ConnectedRequest::Scrape(scrape) => *final(torrents) == *old(torrents) && (
            result matches Ok(ConnectedResponse::Scrape(response)) && answers_scrape(
                response,
                *old(torrents),
                src,
                scrape,
            )),
        },
{
    match request {
        ConnectedRequest::Announce(request) => handle_announce_request(
            config,
            rng,
            torrents,
            access_list,
            request,
            src,
            peer_valid_until,
        ),
        ConnectedRequest::Scrape(request) => Ok(
            ConnectedResponse::Scrape(handle_scrape_request(torrents, src, request)),
        ),
    }
}

} // verus!
