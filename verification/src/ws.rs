//! The WebTorrent tracker: announces that carry offers and answers to
//! be handed on to other peers of the swarm, and scrapes.

use crate::common::AnnounceEvent;
use crate::common::ConnectionMeta;
use crate::common::InfoHash;
use crate::common::NumberOfBytes;
use crate::common::PeerId;
use crate::common::PeerStatus;
use crate::common::Port;
use crate::config::Config;
use crate::ordered::value_of;
use crate::swarm::apply_announce;
use crate::swarm::count_status;
use crate::swarm::selected_peers;
use crate::swarm::Peer;
use crate::time::ValidUntil;
use crate::torrent_maps::lemma_family_after_announce;
use crate::torrent_maps::peers_of;
use crate::torrent_maps::swarms_after_announce;
use crate::torrent_maps::TorrentMap;
use crate::torrent_maps::TorrentMaps;
use rand::rngs::SmallRng;
use vstd::prelude::*;

verus! {

/// The id that a client gives to an offer.
#[derive(Clone, Copy, Debug, PartialEq, Eq, Hash)]
pub struct OfferId(pub [u8; 20]);

/// An offer of a client to connect to some peer of the swarm.
#[derive(Clone, Debug, PartialEq, Eq)]
pub struct AnnounceRequestOffer {
    /// The session description of the offering client, which the
    /// tracker hands on unread.
    pub offer: String,
    pub offer_id: OfferId,
}

#[derive(Clone, Debug, PartialEq, Eq)]
pub struct AnnounceRequest {
    pub info_hash: InfoHash,
    pub peer_id: PeerId,
    pub bytes_left: NumberOfBytes,
    pub event: AnnounceEvent,
    /// Offers to hand on to peers of the swarm, one to a peer.
    pub offers: Option<Vec<AnnounceRequestOffer>>,
    /// An answer to the offer `offer_id` of the peer `to_peer_id`; the
    /// three are given together.
    pub answer: Option<String>,
    pub to_peer_id: Option<PeerId>,
    pub offer_id: Option<OfferId>,
}

#[derive(Clone, Debug, PartialEq, Eq)]
pub struct ScrapeRequest {
    pub info_hashes: Vec<InfoHash>,
}

/// An offer on its way to the peer that the tracker chose for it.
#[derive(Clone, Debug, PartialEq, Eq)]
pub struct MiddlemanOfferToPeer {
    pub info_hash: InfoHash,
    /// The peer that offers.
    pub peer_id: PeerId,
    pub offer: String,
    pub offer_id: OfferId,
}

/// An answer on its way to the peer that made the offer.
#[derive(Clone, Debug, PartialEq, Eq)]
pub struct MiddlemanAnswerToPeer {
    /// The peer that answers.
    pub peer_id: PeerId,
    pub info_hash: InfoHash,
    pub answer: String,
    pub offer_id: OfferId,
}

#[derive(Clone, Copy, Debug, PartialEq, Eq)]
pub struct AnnounceResponse {
    pub info_hash: InfoHash,
    pub complete: usize,
    pub incomplete: usize,
    pub announce_interval: i32,
}

#[derive(Clone, Copy, Debug, PartialEq, Eq, Structural)]
pub struct ScrapeStatistics {
    pub complete: usize,
    pub downloaded: usize,
    pub incomplete: usize,
}

/// The counts of the torrents of a scrape request that have a swarm,
/// in the order of the request.
#[derive(Clone, Debug, PartialEq, Eq)]
pub struct ScrapeResponse {
    pub files: Vec<(InfoHash, ScrapeStatistics)>,
}

#[derive(Clone, Debug, PartialEq, Eq)]
pub enum InMessage {
    AnnounceRequest(AnnounceRequest),
    ScrapeRequest(ScrapeRequest),
}

#[derive(Clone, Debug, PartialEq, Eq)]
pub enum OutMessage {
    Offer(MiddlemanOfferToPeer),
    Answer(MiddlemanAnswerToPeer),
    AnnounceResponse(AnnounceResponse),
    ScrapeResponse(ScrapeResponse),
}

/// What a swarm keeps of the sender of an announce request that came
/// over the connection `meta`.
pub open spec fn announcing_peer(
    meta: ConnectionMeta,
    request: AnnounceRequest,
    valid_until: ValidUntil,
) -> Peer {
    Peer {
        ip_address: meta.peer_addr.ip,
        port: Port(meta.peer_addr.port),
        status: PeerStatus::spec_from_event_and_bytes_left(request.event, request.bytes_left),
        valid_until,
        connection: Some(meta),
    }
}

/// Number of peers that the offers of an announce request go to at
/// most: as many as there are offers, but no more than the configured
/// maximum, and none where the request carries no offers.
pub open spec fn spec_num_offers_to_send(config: &Config, request: AnnounceRequest) -> usize {
    match request.offers {
        Some(offers) => if offers@.len() <= config.protocol.max_offers {
            offers@.len() as usize
        } else {
            config.protocol.max_offers
        },
        None => 0,
    }
}

/// The message that hands the offer on to a peer.
pub open spec fn offer_message(request: AnnounceRequest, offer: AnnounceRequestOffer) -> OutMessage {
    OutMessage::Offer(
        MiddlemanOfferToPeer {
            info_hash: request.info_hash,
            peer_id: request.peer_id,
            offer: offer.offer,
            offer_id: offer.offer_id,
        },
    )
}

/// The messages that hand the first `count` offers on, the first offer
/// to the first of the chosen peers and so on; an offer for a peer that
/// is reached over no connection is lost.
pub open spec fn offer_messages(
    request: AnnounceRequest,
    offers: Seq<AnnounceRequestOffer>,
    selected: Seq<([u8; 20], Peer)>,
    count: nat,
) -> Seq<(ConnectionMeta, OutMessage)>
    decreases count,
{
    if count == 0 {
        Seq::empty()
    } else {
        let rest = offer_messages(request, offers, selected, (count - 1) as nat);
        match selected[count - 1].1.connection {
            Some(meta) => rest.push((meta, offer_message(request, offers[count - 1]))),
            None => rest,
        }
    }
}

/// The smaller of two lengths.
pub open spec fn shorter(a: nat, b: nat) -> nat {
    if a <= b {
        a
    } else {
        b
    }
}

/// The messages that hand the offers of an announce request on to the
/// chosen peers: none where the request carries no offers.
pub open spec fn all_offer_messages(
    request: AnnounceRequest,
    selected: Seq<([u8; 20], Peer)>,
) -> Seq<(ConnectionMeta, OutMessage)> {
    match request.offers {
        Some(offers) => offer_messages(
            request,
            offers@,
            selected,
            shorter(offers@.len(), selected.len()),
        ),
        None => Seq::empty(),
    }
}

/// The message that hands the answer of an announce request on to the
/// peer that made the offer, where the request carries an answer with the
/// id of that peer and of its offer, and the swarm holds the peer and
/// reaches it over a connection.
pub open spec fn answer_messages(request: AnnounceRequest, swarm: Seq<([u8; 20], Peer)>) -> Seq<
    (ConnectionMeta, OutMessage),
> {
    match (request.answer, request.to_peer_id, request.offer_id) {
        (Some(answer), Some(to_peer_id), Some(offer_id)) => match value_of(swarm, to_peer_id.0) {
            Some(Peer { connection: Some(meta), .. }) => seq![
                (
                    meta,
                    OutMessage::Answer(
                        MiddlemanAnswerToPeer {
                            peer_id: request.peer_id,
                            info_hash: request.info_hash,
                            answer,
                            offer_id,
                        },
                    ),
                ),
            ],
            _ => Seq::empty(),
        },
        _ => Seq::empty(),
    }
}

/// The response to the sender of an announce request.
pub open spec fn response_message(
    config: &Config,
    meta: ConnectionMeta,
    request: AnnounceRequest,
    swarm: Seq<([u8; 20], Peer)>,
) -> (ConnectionMeta, OutMessage) {
    (
        meta,
        OutMessage::AnnounceResponse(
            AnnounceResponse {
                info_hash: request.info_hash,
                complete: count_status(swarm, PeerStatus::Seeding) as usize,
                incomplete: count_status(swarm, PeerStatus::Leeching) as usize,
                announce_interval: config.protocol.peer_announce_interval,
            },
        ),
    )
}

/// The messages that an announce request leads to, where its swarm
/// holds `swarm` once the announce is taken in and a swarm that cannot
/// give all its peers gives those from the place `offset` on: first those
/// that hand its offers on, then the one that hands its answer on, then
/// the response to its sender.
pub open spec fn announce_messages(
    config: &Config,
    meta: ConnectionMeta,
    request: AnnounceRequest,
    swarm: Seq<([u8; 20], Peer)>,
    offset: int,
) -> Seq<(ConnectionMeta, OutMessage)> {
    all_offer_messages(
        request,
        selected_peers(
            swarm,
            spec_num_offers_to_send(config, request) as int,
            request.peer_id.0,
            offset,
        ),
    ) + answer_messages(request, swarm) + seq![response_message(config, meta, request, swarm)]
}

/// Whether the messages are those that an announce request leads to,
/// for some place from which the swarm gives peers.
pub open spec fn are_announce_messages(
    messages: Seq<(ConnectionMeta, OutMessage)>,
    config: &Config,
    meta: ConnectionMeta,
    request: AnnounceRequest,
    swarm: Seq<([u8; 20], Peer)>,
) -> bool {
    exists|offset: int|
        (swarm.len() <= spec_num_offers_to_send(config, request) + 1 || 0 <= offset < swarm.len())
            && messages == #[trigger] announce_messages(config, meta, request, swarm, offset)
}

/// Whether the swarms `after` and the messages `messages` are what an
/// announce request that came over the connection `meta` leads to, from
/// the swarms `before`.
///
/// The request is taken into the swarm of its torrent among the swarms
/// of the address family of the client. Its offers go to peers of that
/// swarm, chosen as the peers that answer an announce are; its answer
/// goes to the peer that made the offer; and the sender gets the counts
/// of the swarm.
pub open spec fn announce_handled(
    config: &Config,
    before: TorrentMaps,
    after: TorrentMaps,
    messages: Seq<(ConnectionMeta, OutMessage)>,
    meta: ConnectionMeta,
    request: AnnounceRequest,
    valid_until: ValidUntil,
) -> bool {
    let ipv4 = meta.peer_addr.ip.spec_is_ipv4();
    let served = if ipv4 {
        before.ipv4@
    } else {
        before.ipv6@
    };
    let peer = announcing_peer(meta, request, valid_until);
    let swarm = apply_announce(peers_of(served, request.info_hash.0), request.peer_id.0, peer);
    let swarms = swarms_after_announce(served, request.info_hash.0, request.peer_id.0, peer);
    &&& ipv4 ==> after.ipv4@ == swarms && after.ipv6 == before.ipv6
    &&& !ipv4 ==> after.ipv6@ == swarms && after.ipv4 == before.ipv4
    &&& are_announce_messages(messages, config, meta, request, swarm)
}

fn handle_announce_request_inner(
    config: &Config,
    rng: &mut SmallRng,
    torrents: &mut TorrentMap,
    messages_out: &mut Vec<(ConnectionMeta, OutMessage)>,
    meta: ConnectionMeta,
    request: &AnnounceRequest,
    valid_until: ValidUntil,
)
    requires
        old(torrents).wf(),
    ensures
        final(torrents).wf(),
        final(torrents)@ == swarms_after_announce(
            old(torrents)@,
            request.info_hash.0,
            request.peer_id.0,
            announcing_peer(meta, *request, valid_until),
        ),
        exists|messages: Seq<(ConnectionMeta, OutMessage)>|
            final(messages_out)@ == old(messages_out)@ + messages && #[trigger] are_announce_messages(
                messages,
                config,
                meta,
                *request,
                apply_announce(
                    peers_of(old(torrents)@, request.info_hash.0),
                    request.peer_id.0,
                    announcing_peer(meta, *request, valid_until),
                ),
            ),
{
    let ghost start = messages_out@;
    let peer_status = PeerStatus::from_event_and_bytes_left(request.event, request.bytes_left);
    let peer = Peer {
        ip_address: meta.peer_addr.ip,
        port: Port(meta.peer_addr.port),
        status: peer_status,
        valid_until,
        connection: Some(meta),
    };
    let max_num_peers_to_take = match &request.offers {
        Some(offers) => if offers.len() <= config.protocol.max_offers {
            offers.len()
        } else {
            config.protocol.max_offers
        },
        None => 0,
    };
    let ghost swarm = apply_announce(
        peers_of(torrents@, request.info_hash.0),
        request.peer_id.0,
        peer,
    );
    let outcome = torrents.announce(
        rng,
        request.info_hash,
        request.peer_id,
        peer,
        max_num_peers_to_take,
    );
    let ghost offset = choose|offset: int|
        (swarm.len() <= max_num_peers_to_take + 1 || 0 <= offset < swarm.len())
            && outcome.selected@ == #[trigger] selected_peers(
            swarm,
            max_num_peers_to_take as int,
            request.peer_id.0,
            offset,
        );
    // If peer sent offers, send them on to random peers
    match &request.offers {
        Some(offers) => {
            let count = if offers.len() <= outcome.selected.len() {
                offers.len()
            } else {
                outcome.selected.len()
            };
            let mut i: usize = 0;
            while i < count
                invariant
                    i <= count,
                    count <= offers@.len(),
                    count <= outcome.selected@.len(),
                    messages_out@ == start + offer_messages(
                        *request,
                        offers@,
                        outcome.selected@,
                        i as nat,
                    ),
                decreases count - i,
            {
                match outcome.selected[i].1.connection {
                    Some(to) => {
                        let message = OutMessage::Offer(
                            MiddlemanOfferToPeer {
                                info_hash: request.info_hash,
                                peer_id: request.peer_id,
                                offer: offers[i].offer.clone(),
                                offer_id: offers[i].offer_id,
                            },
                        );
                        messages_out.push((to, message));
                    },
                    None => {},
                }
                assert(messages_out@ =~= start + offer_messages(
                    *request,
                    offers@,
                    outcome.selected@,
                    (i + 1) as nat,
                ));
                i = i + 1;
            }
        },
        None => {},
    }
    let ghost with_offers = messages_out@;
    assert(with_offers =~= start + all_offer_messages(*request, outcome.selected@));
    // If peer sent answer, send it on to relevant peer
    match (&request.answer, request.to_peer_id, request.offer_id) {
        (Some(answer), Some(to_peer_id), Some(offer_id)) => {
            match torrents.find_peer(&request.info_hash, &to_peer_id) {
                Some(to_peer) => {
                    match to_peer.connection {
                        Some(to) => {
                            let message = OutMessage::Answer(
                                MiddlemanAnswerToPeer {
                                    peer_id: request.peer_id,
                                    info_hash: request.info_hash,
                                    answer: answer.clone(),
                                    offer_id,
                                },
                            );
                            messages_out.push((to, message));
                        },
                        None => {},
                    }
                },
                None => {},
            }
        },
        _ => {},
    }
    assert(messages_out@ =~= with_offers + answer_messages(*request, swarm));
    let response = OutMessage::AnnounceResponse(
        AnnounceResponse {
            info_hash: request.info_hash,
            complete: outcome.num_seeders,
            incomplete: outcome.num_leechers,
            announce_interval: config.protocol.peer_announce_interval,
        },
    );
    messages_out.push((meta, response));
    proof {
        let messages = announce_messages(config, meta, *request, swarm, offset);
        assert(messages_out@ =~= start + messages);
        assert(are_announce_messages(messages, config, meta, *request, swarm));
    }
}

/// Takes in an announce request that came over the connection `meta`
/// and puts the messages that it leads to behind those in
/// `messages_out`; see [`announce_handled`].
pub fn handle_announce_request(
    config: &Config,
    rng: &mut SmallRng,
    torrents: &mut TorrentMaps,
    messages_out: &mut Vec<(ConnectionMeta, OutMessage)>,
    meta: ConnectionMeta,
    request: &AnnounceRequest,
    valid_until: ValidUntil,
)
    requires
        old(torrents).wf(),
    ensures
        final(torrents).wf(),
        exists|messages: Seq<(ConnectionMeta, OutMessage)>|
            final(messages_out)@ == old(messages_out)@ + messages && #[trigger] announce_handled(
                config,
                *old(torrents),
                *final(torrents),
                messages,
                meta,
                *request,
                valid_until,
            ),
{
    let ghost start = messages_out@;
    let ghost ipv4 = meta.peer_addr.ip.spec_is_ipv4();
    proof {
        let served = if ipv4 {
            torrents.ipv4@
        } else {
            torrents.ipv6@
        };
        lemma_family_after_announce(
            served,
            ipv4,
            request.info_hash.0,
            request.peer_id.0,
            announcing_peer(meta, *request, valid_until),
        );
    }
    if meta.peer_addr.ip.is_ipv4() {
        handle_announce_request_inner(
            config,
            rng,
            &mut torrents.ipv4,
            messages_out,
            meta,
            request,
            valid_until,
        );
    } else {
        handle_announce_request_inner(
            config,
            rng,
            &mut torrents.ipv6,
            messages_out,
            meta,
            request,
            valid_until,
        );
    }
    proof {
        let served = if ipv4 {
            old(torrents).ipv4@
        } else {
            old(torrents).ipv6@
        };
        let peer = announcing_peer(meta, *request, valid_until);
        let swarm = apply_announce(peers_of(served, request.info_hash.0), request.peer_id.0, peer);
        let messages = choose|messages: Seq<(ConnectionMeta, OutMessage)>|
            messages_out@ == start + messages && #[trigger] are_announce_messages(
                messages,
                config,
                meta,
                *request,
                swarm,
            );
        assert(announce_handled(
            config,
            *old(torrents),
            *torrents,
            messages,
            meta,
            *request,
            valid_until,
        ));
    }
}

/// The counts of a swarm as the WebTorrent tracker gives them.
/// Completed downloads are not counted: their number is zero.
pub open spec fn ws_scrape_statistics(peers: Seq<([u8; 20], Peer)>) -> ScrapeStatistics {
    ScrapeStatistics {
        complete: count_status(peers, PeerStatus::Seeding) as usize,
        downloaded: 0,
        incomplete: count_status(peers, PeerStatus::Leeching) as usize,
    }
}

/// The counts of those of the torrents that have a swarm, in the order
/// of the torrents.
pub open spec fn scrape_files(
    swarms: Map<[u8; 20], Seq<([u8; 20], Peer)>>,
    info_hashes: Seq<InfoHash>,
) -> Seq<(InfoHash, ScrapeStatistics)>
    decreases info_hashes.len(),
{
    if info_hashes.len() == 0 {
        Seq::empty()
    } else {
        let rest = scrape_files(swarms, info_hashes.drop_last());
        let info_hash = info_hashes.last();
        if swarms.contains_key(info_hash.0) {
            rest.push((info_hash, ws_scrape_statistics(swarms[info_hash.0])))
        } else {
            rest
        }
    }
}

/// Answers a scrape request that came over the connection `meta`: with
/// the counts of those of its torrents that have a swarm among the swarms
/// of the address family of the client.
///
/// A request without info hashes is not answered with the counts of all
/// torrents: that would be too expensive.
pub fn handle_scrape_request(torrents: &TorrentMaps, meta: ConnectionMeta, request: &ScrapeRequest) -> (message:
    (ConnectionMeta, OutMessage))
    requires
        torrents.wf(),
    ensures
        message.0 == meta,
        message.1 matches OutMessage::ScrapeResponse(response) && response.files@ == scrape_files(
            if meta.peer_addr.ip.spec_is_ipv4() {
                torrents.ipv4@
            } else {
                torrents.ipv6@
            },
            request.info_hashes@,
        ),
{
    let ipv4 = meta.peer_addr.ip.is_ipv4();
    let ghost swarms = if ipv4 {
        torrents.ipv4@
    } else {
        torrents.ipv6@
    };
    let mut files: Vec<(InfoHash, ScrapeStatistics)> = Vec::new();
    let mut i: usize = 0;
    while i < request.info_hashes.len()
        invariant
            i <= request.info_hashes.len(),
            torrents.wf(),
            ipv4 == meta.peer_addr.ip.spec_is_ipv4(),
            swarms == if ipv4 {
                torrents.ipv4@
            } else {
                torrents.ipv6@
            },
            files@ == scrape_files(swarms, request.info_hashes@.take(i as int)),
        decreases request.info_hashes.len() - i,
    {
        let info_hash = request.info_hashes[i];
        proof {
            assert(request.info_hashes@.take(i + 1).drop_last() =~= request.info_hashes@.take(
                i as int,
            ));
        }
        let map = if ipv4 {
            &torrents.ipv4
        } else {
            &torrents.ipv6
        };
        match map.counts(&info_hash) {
            Some((complete, incomplete)) => {
                files.push((info_hash, ScrapeStatistics { complete, downloaded: 0, incomplete }));
            },
            None => {},
        }
        i = i + 1;
    }
    assert(request.info_hashes@.take(request.info_hashes.len() as int) =~= request.info_hashes@);
    (meta, OutMessage::ScrapeResponse(ScrapeResponse { files }))
}

/// The messages of all the lists, one list after the other.
pub open spec fn concat_all(lists: Seq<Seq<(ConnectionMeta, OutMessage)>>) -> Seq<
    (ConnectionMeta, OutMessage),
>
    decreases lists.len(),
{
    if lists.len() == 0 {
        Seq::empty()
    } else {
        concat_all(lists.drop_last()) + lists.last()
    }
}

/// Whether `states` and `lists` tell how the announce requests were
/// taken in one after the other: `states` holds the swarms before the
/// first request and after each request, and `lists` the messages that
/// each request led to; see [`announce_handled`].
pub open spec fn announces_handled_through(
    config: &Config,
    states: Seq<TorrentMaps>,
    lists: Seq<Seq<(ConnectionMeta, OutMessage)>>,
    requests: Seq<(ConnectionMeta, AnnounceRequest)>,
    valid_until: ValidUntil,
) -> bool {
    &&& states.len() == requests.len() + 1
    &&& lists.len() == requests.len()
    &&& forall|i: int|
        0 <= i < requests.len() ==> announce_handled(
            config,
            states[i],
            states[i + 1],
            #[trigger] lists[i],
            requests[i].0,
            requests[i].1,
            valid_until,
        )
}

/// Whether the swarms `after` and the messages `messages` are what the
/// announce requests lead to, taken in one after the other, from the
/// swarms `before`.
pub open spec fn announces_handled(
    config: &Config,
    before: TorrentMaps,
    after: TorrentMaps,
    messages: Seq<(ConnectionMeta, OutMessage)>,
    requests: Seq<(ConnectionMeta, AnnounceRequest)>,
    valid_until: ValidUntil,
) -> bool {
    exists|states: Seq<TorrentMaps>, lists: Seq<Seq<(ConnectionMeta, OutMessage)>>|
        #[trigger] announces_handled_through(config, states, lists, requests, valid_until)
            && states.first() == before && states.last() == after && messages == concat_all(lists)
}

/// Takes in the announce requests one after the other and puts the
/// messages that they lead to behind those in `messages_out`.
pub fn handle_announce_requests(
    config: &Config,
    rng: &mut SmallRng,
    torrents: &mut TorrentMaps,
    messages_out: &mut Vec<(ConnectionMeta, OutMessage)>,
    requests: &Vec<(ConnectionMeta, AnnounceRequest)>,
    valid_until: ValidUntil,
)
    requires
        old(torrents).wf(),
    ensures
        final(torrents).wf(),
        exists|messages: Seq<(ConnectionMeta, OutMessage)>|
            final(messages_out)@ == old(messages_out)@ + messages && #[trigger] announces_handled(
                config,
                *old(torrents),
                *final(torrents),
                messages,
                requests@,
                valid_until,
            ),
{
    let ghost start = messages_out@;
    let ghost states: Seq<TorrentMaps> = seq![*torrents];
    let ghost lists: Seq<Seq<(ConnectionMeta, OutMessage)>> = Seq::empty();
    let mut i: usize = 0;
    assert(messages_out@ =~= start + concat_all(lists));
    while i < requests.len()
        invariant
            i <= requests.len(),
            torrents.wf(),
            messages_out@ == start + concat_all(lists),
            states.len() == i + 1,
            states[0] == *old(torrents),
            states[i as int] == *torrents,
            announces_handled_through(config, states, lists, requests@.take(i as int), valid_until),
        decreases requests.len() - i,
    {
        let ghost mid = *torrents;
        let ghost mid_messages = messages_out@;
        handle_announce_request(
            config,
            rng,
            torrents,
            messages_out,
            requests[i].0,
            &requests[i].1,
            valid_until,
        );
        proof {
            let last = choose|messages: Seq<(ConnectionMeta, OutMessage)>|
                messages_out@ == mid_messages + messages && #[trigger] announce_handled(
                    config,
                    mid,
                    *torrents,
                    messages,
                    requests@[i as int].0,
                    requests@[i as int].1,
                    valid_until,
                );
            let old_states = states;
            let old_lists = lists;
            states = states.push(*torrents);
            lists = lists.push(last);
            assert(lists.drop_last() =~= old_lists);
            assert(messages_out@ =~= start + concat_all(lists));
            let upto = requests@.take(i + 1);
            assert forall|j: int| 0 <= j < upto.len() implies announce_handled(
                config,
                states[j],
                states[j + 1],
                #[trigger] lists[j],
                upto[j].0,
                upto[j].1,
                valid_until,
            ) by {
                if j < i {
                    assert(lists[j] == old_lists[j]);
                    assert(states[j] == old_states[j]);
                    assert(states[j + 1] == old_states[j + 1]);
                    assert(upto[j] == requests@.take(i as int)[j]);
                }
            }
        }
        i = i + 1;
    }
    proof {
        assert(requests@.take(requests.len() as int) =~= requests@);
        assert(announces_handled_through(config, states, lists, requests@, valid_until));
        assert(states.first() == *old(torrents));
        assert(states.last() == *torrents);
        assert(announces_handled(
            config,
            *old(torrents),
            *torrents,
            concat_all(lists),
            requests@,
            valid_until,
        ));
    }
}

/// Answers the scrape requests one after the other and puts the
/// responses behind the messages in `messages_out`.
pub fn handle_scrape_requests(
    torrents: &TorrentMaps,
    messages_out: &mut Vec<(ConnectionMeta, OutMessage)>,
    requests: &Vec<(ConnectionMeta, ScrapeRequest)>,
)
    requires
        torrents.wf(),
    ensures
        final(messages_out)@.len() == old(messages_out)@.len() + requests@.len(),
        forall|i: int|
            0 <= i < old(messages_out)@.len() ==> final(messages_out)@[i] == old(messages_out)@[i],
        forall|i: int|
            0 <= i < requests@.len() ==> {
                let message = #[trigger] final(messages_out)@[old(messages_out)@.len() + i];
                message.0 == requests@[i].0 && (message.1 matches OutMessage::ScrapeResponse(
                    response,
                ) && response.files@ == scrape_files(
                    if requests@[i].0.peer_addr.ip.spec_is_ipv4() {
                        torrents.ipv4@
                    } else {
                        torrents.ipv6@
                    },
                    requests@[i].1.info_hashes@,
                ))
            },
{
    let ghost start = messages_out@;
    let mut i: usize = 0;
    while i < requests.len()
        invariant
            i <= requests.len(),
            torrents.wf(),
            messages_out@.len() == start.len() + i,
            forall|j: int| 0 <= j < start.len() ==> messages_out@[j] == start[j],
            forall|j: int|
                0 <= j < i ==> {
                    let message = #[trigger] messages_out@[start.len() + j];
                    message.0 == requests@[j].0 && (message.1 matches OutMessage::ScrapeResponse(
                        response,
                    ) && response.files@ == scrape_files(
                        if requests@[j].0.peer_addr.ip.spec_is_ipv4() {
                            torrents.ipv4@
                        } else {
                            torrents.ipv6@
                        },
                        requests@[j].1.info_hashes@,
                    ))
                },
        decreases requests.len() - i,
    {
        let message = handle_scrape_request(torrents, requests[i].0, &requests[i].1);
        messages_out.push(message);
        i = i + 1;
    }
}

} // verus!
