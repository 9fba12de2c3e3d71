//! Requests of the UDP tracker protocol and their wire format.

use crate::common::AnnounceEvent;
use crate::common::ConnectionId;
use crate::common::InfoHash;
use crate::common::Ipv4AddrBytes;
use crate::common::NumberOfBytes;
use crate::common::NumberOfPeers;
use crate::common::PeerId;
use crate::common::PeerKey;
use crate::common::Port;
use crate::common::TransactionId;
use crate::wire::get_array;
use crate::wire::get_i32;
use crate::wire::get_i64;
use crate::wire::get_u16;
use crate::wire::lemma_i32_round_trip;
use crate::wire::lemma_i64_round_trip;
use crate::wire::lemma_u16_round_trip;
use crate::wire::put_i32;
use crate::wire::put_i64;
use crate::wire::put_u16;
use crate::wire::spec_i32_from_be;
use crate::wire::spec_i32_to_be;
use crate::wire::spec_i64_from_be;
use crate::wire::spec_i64_to_be;
use crate::wire::spec_u16_from_be;
use crate::wire::spec_u16_to_be;
use vstd::prelude::*;

verus! {

/// The number that opens every connect request.
pub const PROTOCOL_IDENTIFIER: i64 = 4_497_486_125_440;

/// Action number of a connect request.
pub const REQUEST_ACTION_CONNECT: i32 = 0;

/// Action number of an announce request.
pub const REQUEST_ACTION_ANNOUNCE: i32 = 1;

/// Action number of a scrape request.
pub const REQUEST_ACTION_SCRAPE: i32 = 2;

/// Number of bytes of an announce request.
pub const ANNOUNCE_REQUEST_LEN: usize = 98;

#[derive(PartialEq, Eq, Clone, Copy, Debug, Structural)]
pub struct ConnectRequest {
    pub transaction_id: TransactionId,
}

#[derive(PartialEq, Eq, Clone, Copy, Debug)]
pub struct AnnounceRequest {
    pub connection_id: ConnectionId,
    pub transaction_id: TransactionId,
    pub info_hash: InfoHash,
    pub peer_id: PeerId,
    pub bytes_downloaded: NumberOfBytes,
    pub bytes_left: NumberOfBytes,
    pub bytes_uploaded: NumberOfBytes,
    pub event: AnnounceEvent,
    /// The address that the client asks to be listed under; all zero
    /// where the source address of the request is to be used.
    pub ip_address: Ipv4AddrBytes,
    pub key: PeerKey,
    /// Number of peers that the client asks for; zero or less where the
    /// tracker is to decide.
    pub peers_wanted: NumberOfPeers,
    pub port: Port,
}

#[derive(PartialEq, Eq, Clone, Debug)]
pub struct ScrapeRequest {
    pub connection_id: ConnectionId,
    pub transaction_id: TransactionId,
    pub info_hashes: Vec<InfoHash>,
}

#[derive(PartialEq, Eq, Clone, Debug)]
pub enum Request {
    Connect(ConnectRequest),
    Announce(AnnounceRequest),
    Scrape(ScrapeRequest),
}

/// Why bytes are no request.
#[derive(PartialEq, Eq, Clone, Copy, Debug)]
pub enum RequestParseError {
    /// The ids of the request could be read, so an error response can be
    /// sent to the client.
    Sendable { connection_id: ConnectionId, transaction_id: TransactionId, err: &'static str },
    /// Not even the ids could be read: the bytes are to be dropped.
    Unsendable { err: &'static str },
}

/// An announce request as plain values.
pub struct AnnounceRequestView {
    pub connection_id: ConnectionId,
    pub transaction_id: TransactionId,
    pub info_hash: Seq<u8>,
    pub peer_id: Seq<u8>,
    pub bytes_downloaded: NumberOfBytes,
    pub bytes_left: NumberOfBytes,
    pub bytes_uploaded: NumberOfBytes,
    pub event: AnnounceEvent,
    pub ip_address: Seq<u8>,
    pub key: PeerKey,
    pub peers_wanted: NumberOfPeers,
    pub port: Port,
}

pub struct ScrapeRequestView {
    pub connection_id: ConnectionId,
    pub transaction_id: TransactionId,
    pub info_hashes: Seq<Seq<u8>>,
}

pub enum RequestView {
    Connect(ConnectRequest),
    Announce(AnnounceRequestView),
    Scrape(ScrapeRequestView),
}

pub enum RequestParseErrorView {
    Sendable { connection_id: ConnectionId, transaction_id: TransactionId, err: Seq<char> },
    Unsendable { err: Seq<char> },
}

/// The info hashes as byte sequences.
pub open spec fn info_hashes_view(hashes: Seq<InfoHash>) -> Seq<Seq<u8>> {
    hashes.map_values(|h: InfoHash| h@)
}

impl View for AnnounceRequest {
    type V = AnnounceRequestView;

    open spec fn view(&self) -> AnnounceRequestView {
        AnnounceRequestView {
            connection_id: self.connection_id,
            transaction_id: self.transaction_id,
            info_hash: self.info_hash@,
            peer_id: self.peer_id@,
            bytes_downloaded: self.bytes_downloaded,
            bytes_left: self.bytes_left,
            bytes_uploaded: self.bytes_uploaded,
            event: self.event,
            ip_address: self.ip_address@,
            key: self.key,
            peers_wanted: self.peers_wanted,
            port: self.port,
        }
    }
}

impl View for ScrapeRequest {
    type V = ScrapeRequestView;

    open spec fn view(&self) -> ScrapeRequestView {
        ScrapeRequestView {
            connection_id: self.connection_id,
            transaction_id: self.transaction_id,
            info_hashes: info_hashes_view(self.info_hashes@),
        }
    }
}

impl View for Request {
    type V = RequestView;

    open spec fn view(&self) -> RequestView {
        match *self {
            Request::Connect(r) => RequestView::Connect(r),
            Request::Announce(r) => RequestView::Announce(r@),
            Request::Scrape(r) => RequestView::Scrape(r@),
        }
    }
}

impl View for RequestParseError {
    type V = RequestParseErrorView;

    open spec fn view(&self) -> RequestParseErrorView {
        match *self {
            RequestParseError::Sendable { connection_id, transaction_id, err } => {
                RequestParseErrorView::Sendable { connection_id, transaction_id, err: err@ }
            },
            RequestParseError::Unsendable { err } => RequestParseErrorView::Unsendable {
                err: err@,
            },
        }
    }
}

impl RequestParseError {
    /// An error that can be reported to the client that sent the request.
    pub fn sendable_text(
        text: &'static str,
        connection_id: ConnectionId,
        transaction_id: TransactionId,
    ) -> (e: Self)
        ensures
            e@ == (RequestParseErrorView::Sendable { connection_id, transaction_id, err: text@ }),
    {
        RequestParseError::Sendable { connection_id, transaction_id, err: text }
    }

    /// An error on bytes that are to be dropped without an answer.
    pub fn unsendable_text(text: &'static str) -> (e: Self)
        ensures
            e@ == (RequestParseErrorView::Unsendable { err: text@ }),
    {
        RequestParseError::Unsendable { err: text }
    }
}

/// Bytes of a list of info hashes: those of each hash, in order.
pub open spec fn encode_info_hashes(hashes: Seq<Seq<u8>>) -> Seq<u8>
    decreases hashes.len(),
{
    if hashes.len() == 0 {
        Seq::empty()
    } else {
        encode_info_hashes(hashes.drop_last()) + hashes.last()
    }
}

/// The wire format of a connect request.
pub open spec fn encode_connect_request(r: ConnectRequest) -> Seq<u8> {
    spec_i64_to_be(PROTOCOL_IDENTIFIER) + spec_i32_to_be(REQUEST_ACTION_CONNECT) + spec_i32_to_be(
        r.transaction_id.0,
    )
}

/// The wire format of an announce request: 98 bytes.
pub open spec fn encode_announce_request(r: AnnounceRequestView) -> Seq<u8> {
    spec_i64_to_be(r.connection_id.0) + spec_i32_to_be(REQUEST_ACTION_ANNOUNCE) + spec_i32_to_be(
        r.transaction_id.0,
    ) + r.info_hash + r.peer_id + spec_i64_to_be(r.bytes_downloaded.0) + spec_i64_to_be(
        r.bytes_left.0,
    ) + spec_i64_to_be(r.bytes_uploaded.0) + spec_i32_to_be(r.event.spec_to_i32())
        + r.ip_address + spec_i32_to_be(r.key.0) + spec_i32_to_be(r.peers_wanted.0)
        + spec_u16_to_be(r.port.0)
}

/// The wire format of a scrape request.
pub open spec fn encode_scrape_request(r: ScrapeRequestView) -> Seq<u8> {
    spec_i64_to_be(r.connection_id.0) + spec_i32_to_be(REQUEST_ACTION_SCRAPE) + spec_i32_to_be(
        r.transaction_id.0,
    ) + encode_info_hashes(r.info_hashes)
}

/// The wire format of a request.
pub open spec fn encode_request(r: RequestView) -> Seq<u8> {
    match r {
        RequestView::Connect(r) => encode_connect_request(r),
        RequestView::Announce(r) => encode_announce_request(r),
        RequestView::Scrape(r) => encode_scrape_request(r),
    }
}

/// The info hashes that the whole groups of twenty bytes hold.
pub open spec fn parse_info_hashes(bytes: Seq<u8>) -> Seq<Seq<u8>> {
    Seq::new((bytes.len() / 20) as nat, |i: int| bytes.subrange(i * 20, i * 20 + 20))
}

pub open spec fn unsendable(text: Seq<char>) -> Result<RequestView, RequestParseErrorView> {
    Err(RequestParseErrorView::Unsendable { err: text })
}

/// The announce request that 98 bytes or more hold, where their event
/// number is that of `event`.
pub open spec fn parse_announce_fields(bytes: Seq<u8>, event: AnnounceEvent) -> AnnounceRequestView
    recommends
        bytes.len() >= 98,
{
    AnnounceRequestView {
        connection_id: ConnectionId(spec_i64_from_be(bytes.subrange(0, 8))),
        transaction_id: TransactionId(spec_i32_from_be(bytes.subrange(12, 16))),
        info_hash: bytes.subrange(16, 36),
        peer_id: bytes.subrange(36, 56),
        bytes_downloaded: NumberOfBytes(spec_i64_from_be(bytes.subrange(56, 64))),
        bytes_left: NumberOfBytes(spec_i64_from_be(bytes.subrange(64, 72))),
        bytes_uploaded: NumberOfBytes(spec_i64_from_be(bytes.subrange(72, 80))),
        event,
        ip_address: bytes.subrange(84, 88),
        key: PeerKey(spec_i32_from_be(bytes.subrange(88, 92))),
        peers_wanted: NumberOfPeers(spec_i32_from_be(bytes.subrange(92, 96))),
        port: Port(spec_u16_from_be(bytes.subrange(96, 98))),
    }
}

/// The request that bytes hold, or why they hold none.
///
/// The action number stands in bytes 8 to 12. Bytes that end before the
/// fixed fields of their action, a connect request without the protocol
/// identifier and an unknown action number are dropped (unsendable). An
/// announce request with an unknown event number, and a scrape request
/// whose list of info hashes is empty or ends inside a hash, can be
/// answered with an error (sendable). More info hashes than
/// `max_scrape_torrents` are cut off behind that many.
pub open spec fn parse_request(bytes: Seq<u8>, max_scrape_torrents: u8) -> Result<
    RequestView,
    RequestParseErrorView,
> {
    if bytes.len() < 12 {
        unsendable("Couldn't parse action"@)
    } else {
        let action = spec_i32_from_be(bytes.subrange(8, 12));
        if action == REQUEST_ACTION_CONNECT {
            if bytes.len() < 16 {
                unsendable("failed to fill whole buffer"@)
            } else if spec_i64_from_be(bytes.subrange(0, 8)) != PROTOCOL_IDENTIFIER {
                unsendable("Protocol identifier missing"@)
            } else {
                Ok(
                    RequestView::Connect(
                        ConnectRequest {
                            transaction_id: TransactionId(
                                spec_i32_from_be(bytes.subrange(12, 16)),
                            ),
                        },
                    ),
                )
            }
        } else if action == REQUEST_ACTION_ANNOUNCE {
            if bytes.len() < 98 {
                unsendable("invalid data"@)
            } else {
                match AnnounceEvent::spec_from_i32(spec_i32_from_be(bytes.subrange(80, 84))) {
                    Some(event) => Ok(RequestView::Announce(parse_announce_fields(bytes, event))),
                    None => Err(
                        RequestParseErrorView::Sendable {
                            connection_id: ConnectionId(spec_i64_from_be(bytes.subrange(0, 8))),
                            transaction_id: TransactionId(
                                spec_i32_from_be(bytes.subrange(12, 16)),
                            ),
                            err: "Invalid announce event"@,
                        },
                    ),
                }
            }
        } else if action == REQUEST_ACTION_SCRAPE {
            if bytes.len() < 16 {
                unsendable("failed to fill whole buffer"@)
            } else {
                let connection_id = ConnectionId(spec_i64_from_be(bytes.subrange(0, 8)));
                let transaction_id = TransactionId(spec_i32_from_be(bytes.subrange(12, 16)));
                let rest = bytes.subrange(16, bytes.len() as int);
                if rest.len() == 0 || rest.len() % 20 != 0 {
                    Err(
                        RequestParseErrorView::Sendable {
                            connection_id,
                            transaction_id,
                            err: "Invalid info hash list. Note that full scrapes are not allowed"@,
                        },
                    )
                } else {
                    let all = parse_info_hashes(rest);
                    let count = if all.len() <= max_scrape_torrents {
                        all.len() as int
                    } else {
                        max_scrape_torrents as int
                    };
                    Ok(
                        RequestView::Scrape(
                            ScrapeRequestView {
                                connection_id,
                                transaction_id,
                                info_hashes: all.take(count),
                            },
                        ),
                    )
                }
            }
        } else {
            unsendable("Invalid action"@)
        }
    }
}

/// The encoding of a list grows by the hash that is appended.
pub proof fn lemma_encode_info_hashes_push(hashes: Seq<Seq<u8>>, hash: Seq<u8>)
    ensures
        encode_info_hashes(hashes.push(hash)) == encode_info_hashes(hashes) + hash,
{
    assert(hashes.push(hash).drop_last() =~= hashes);
}

impl ConnectRequest {
    /// Appends the wire format of the request to `bytes`.
    pub fn write_bytes(&self, bytes: &mut Vec<u8>)
        ensures
            final(bytes)@ == old(bytes)@ + encode_connect_request(*self),
    {
        let ghost start = bytes@;
        put_i64(bytes, PROTOCOL_IDENTIFIER);
        put_i32(bytes, REQUEST_ACTION_CONNECT);
        put_i32(bytes, self.transaction_id.0);
        assert(bytes@ =~= start + encode_connect_request(*self));
    }
}

impl AnnounceRequest {
    /// Appends the wire format of the request, 98 bytes, to `bytes`.
    pub fn write_bytes(&self, bytes: &mut Vec<u8>)
        ensures
            final(bytes)@ == old(bytes)@ + encode_announce_request(self@),
    {
        let ghost start = bytes@;
        put_i64(bytes, self.connection_id.0);
        put_i32(bytes, REQUEST_ACTION_ANNOUNCE);
        put_i32(bytes, self.transaction_id.0);
        bytes.extend_from_slice(self.info_hash.0.as_slice());
        bytes.extend_from_slice(self.peer_id.0.as_slice());
        put_i64(bytes, self.bytes_downloaded.0);
        put_i64(bytes, self.bytes_left.0);
        put_i64(bytes, self.bytes_uploaded.0);
        put_i32(bytes, self.event.to_i32());
        bytes.extend_from_slice(self.ip_address.0.as_slice());
        put_i32(bytes, self.key.0);
        put_i32(bytes, self.peers_wanted.0);
        put_u16(bytes, self.port.0);
        assert(bytes@ =~= start + encode_announce_request(self@));
    }
}

impl ScrapeRequest {
    /// Appends the wire format of the request to `bytes`.
    pub fn write_bytes(&self, bytes: &mut Vec<u8>)
        ensures
            final(bytes)@ == old(bytes)@ + encode_scrape_request(self@),
    {
        let ghost start = bytes@;
        let ghost all = info_hashes_view(self.info_hashes@);
        put_i64(bytes, self.connection_id.0);
        put_i32(bytes, REQUEST_ACTION_SCRAPE);
        put_i32(bytes, self.transaction_id.0);
        let ghost head = bytes@;
        let mut i: usize = 0;
        while i < self.info_hashes.len()
            invariant
                i <= self.info_hashes.len(),
                all == info_hashes_view(self.info_hashes@),
                bytes@ == head + encode_info_hashes(all.take(i as int)),
            decreases self.info_hashes.len() - i,
        {
            proof {
                lemma_encode_info_hashes_push(all.take(i as int), all[i as int]);
                assert(all.take(i as int).push(all[i as int]) =~= all.take(i + 1));
            }
            bytes.extend_from_slice(self.info_hashes[i].0.as_slice());
            assert(bytes@ =~= head + encode_info_hashes(all.take(i + 1)));
            i = i + 1;
        }
        assert(all.take(self.info_hashes.len() as int) =~= all);
        assert(bytes@ =~= start + encode_scrape_request(self@));
    }
}

impl Request {
    /// Appends the wire format of the request to `bytes`.
    pub fn write_bytes(self, bytes: &mut Vec<u8>)
        ensures
            final(bytes)@ == old(bytes)@ + encode_request(self@),
    {
        match self {
            Request::Connect(r) => r.write_bytes(bytes),
            Request::Announce(r) => r.write_bytes(bytes),
            Request::Scrape(r) => r.write_bytes(bytes),
        }
    }

    /// Reads a request from its wire format; see [`parse_request`] for
    /// what is read from which bytes and for each way to fail.
    pub fn parse_bytes(bytes: &[u8], max_scrape_torrents: u8) -> (r: Result<
        Request,
        RequestParseError,
    >)
        ensures
            match r {
                Ok(request) => parse_request(bytes@, max_scrape_torrents) == Ok::<
                    RequestView,
                    RequestParseErrorView,
                >(request@),
                Err(e) => parse_request(bytes@, max_scrape_torrents) == Err::<
                    RequestView,
                    RequestParseErrorView,
                >(e@),
            },
    {
        let len = bytes.len();
        if len < 12 {
            return Err(RequestParseError::unsendable_text("Couldn't parse action"));
        }
        let action = get_i32(bytes, 8);
        if action == REQUEST_ACTION_CONNECT {
            if len < 16 {
                return Err(RequestParseError::unsendable_text("failed to fill whole buffer"));
            }
            let protocol_identifier = get_i64(bytes, 0);
            let transaction_id = TransactionId(get_i32(bytes, 12));
            if protocol_identifier == PROTOCOL_IDENTIFIER {
                Ok(Request::Connect(ConnectRequest { transaction_id }))
            } else {
                Err(RequestParseError::unsendable_text("Protocol identifier missing"))
            }
        } else if action == REQUEST_ACTION_ANNOUNCE {
            if len < ANNOUNCE_REQUEST_LEN {
                return Err(RequestParseError::unsendable_text("invalid data"));
            }
            let connection_id = ConnectionId(get_i64(bytes, 0));
            let transaction_id = TransactionId(get_i32(bytes, 12));
            // An unknown event number never becomes an event.
            match AnnounceEvent::from_i32(get_i32(bytes, 80)) {
                Some(event) => {
                    let info_hash: [u8; 20] = get_array(bytes, 16);
                    let peer_id: [u8; 20] = get_array(bytes, 36);
                    let ip_address: [u8; 4] = get_array(bytes, 84);
                    let request = AnnounceRequest {
                        connection_id,
                        transaction_id,
                        info_hash: InfoHash(info_hash),
                        peer_id: PeerId(peer_id),
                        bytes_downloaded: NumberOfBytes(get_i64(bytes, 56)),
                        bytes_left: NumberOfBytes(get_i64(bytes, 64)),
                        bytes_uploaded: NumberOfBytes(get_i64(bytes, 72)),
                        event,
                        ip_address: Ipv4AddrBytes(ip_address),
                        key: PeerKey(get_i32(bytes, 88)),
                        peers_wanted: NumberOfPeers(get_i32(bytes, 92)),
                        port: Port(get_u16(bytes, 96)),
                    };
                    Ok(Request::Announce(request))
                },
                None => Err(
                    RequestParseError::sendable_text(
                        "Invalid announce event",
                        connection_id,
                        transaction_id,
                    ),
                ),
            }
        } else if action == REQUEST_ACTION_SCRAPE {
            if len < 16 {
                return Err(RequestParseError::unsendable_text("failed to fill whole buffer"));
            }
            let connection_id = ConnectionId(get_i64(bytes, 0));
            let transaction_id = TransactionId(get_i32(bytes, 12));
            let rest_len = len - 16;
            if rest_len == 0 || rest_len % 20 != 0 {
                return Err(
                    RequestParseError::sendable_text(
                        "Invalid info hash list. Note that full scrapes are not allowed",
                        connection_id,
                        transaction_id,
                    ),
                );
            }
            let available = rest_len / 20;
            let count = if available <= max_scrape_torrents as usize {
                available
            } else {
                max_scrape_torrents as usize
            };
            let ghost rest = bytes@.subrange(16, len as int);
            let ghost all = parse_info_hashes(rest);
            let mut info_hashes: Vec<InfoHash> = Vec::new();
            let mut i: usize = 0;
            while i < count
                invariant
                    i <= count,
                    count <= available,
                    len == bytes@.len(),
                    len >= 16,
                    available == (len - 16) / 20,
                    rest == bytes@.subrange(16, len as int),
                    all == parse_info_hashes(rest),
                    info_hashes@.len() == i,
                    forall|j: int| 0 <= j < i ==> (#[trigger] info_hashes@[j])@ == all[j],
                decreases count - i,
            {
                let at = 16 + i * 20;
                let hash: [u8; 20] = get_array(bytes, at);
                proof {
                    assert(bytes@.subrange(at as int, at + 20) =~= rest.subrange(
                        i * 20,
                        i * 20 + 20,
                    ));
                }
                info_hashes.push(InfoHash(hash));
                i = i + 1;
            }
            assert(info_hashes_view(info_hashes@) =~= all.take(count as int));
            Ok(Request::Scrape(ScrapeRequest { connection_id, transaction_id, info_hashes }))
        } else {
            Err(RequestParseError::unsendable_text("Invalid action"))
        }
    }
}

/// Whether every info hash of the list has twenty bytes.
pub open spec fn info_hashes_have_width(hashes: Seq<Seq<u8>>) -> bool {
    forall|i: int| 0 <= i < hashes.len() ==> (#[trigger] hashes[i]).len() == 20
}

/// Where each info hash stands in the encoding of a list of them.
pub proof fn lemma_encode_info_hashes_layout(hashes: Seq<Seq<u8>>)
    requires
        info_hashes_have_width(hashes),
    ensures
        encode_info_hashes(hashes).len() == hashes.len() * 20,
        forall|i: int|
            0 <= i < hashes.len() ==> #[trigger] encode_info_hashes(hashes).subrange(
                i * 20,
                i * 20 + 20,
            ) == hashes[i],
    decreases hashes.len(),
{
    if hashes.len() > 0 {
        let front = hashes.drop_last();
        let last = hashes.last();
        let n = front.len() as int;
        lemma_encode_info_hashes_layout(front);
        let all = encode_info_hashes(hashes);
        assert forall|i: int| 0 <= i < hashes.len() implies #[trigger] all.subrange(
            i * 20,
            i * 20 + 20,
        ) == hashes[i] by {
            if i < n {
                assert(all.subrange(i * 20, i * 20 + 20) =~= encode_info_hashes(front).subrange(
                    i * 20,
                    i * 20 + 20,
                ));
                assert(front[i] == hashes[i]);
            } else {
                assert(all.subrange(n * 20, n * 20 + 20) =~= last);
            }
        }
    }
}

/// Reading the encoding of a list of info hashes gives the list back.
pub proof fn lemma_info_hashes_round_trip(hashes: Seq<Seq<u8>>)
    requires
        info_hashes_have_width(hashes),
    ensures
        parse_info_hashes(encode_info_hashes(hashes)) == hashes,
{
    lemma_encode_info_hashes_layout(hashes);
    assert(parse_info_hashes(encode_info_hashes(hashes)) =~= hashes);
}

proof fn lemma_connect_request_round_trip(r: ConnectRequest, max_scrape_torrents: u8)
    ensures
        parse_request(encode_connect_request(r), max_scrape_torrents) == Ok::<
            RequestView,
            RequestParseErrorView,
        >(RequestView::Connect(r)),
{
    let bytes = encode_connect_request(r);
    lemma_i64_round_trip(PROTOCOL_IDENTIFIER);
    lemma_i32_round_trip(REQUEST_ACTION_CONNECT);
    lemma_i32_round_trip(r.transaction_id.0);
    assert(bytes.subrange(0, 8) =~= spec_i64_to_be(PROTOCOL_IDENTIFIER));
    assert(bytes.subrange(8, 12) =~= spec_i32_to_be(REQUEST_ACTION_CONNECT));
    assert(bytes.subrange(12, 16) =~= spec_i32_to_be(r.transaction_id.0));
}

proof fn lemma_announce_request_round_trip(r: AnnounceRequestView, max_scrape_torrents: u8)
    requires
        r.info_hash.len() == 20,
        r.peer_id.len() == 20,
        r.ip_address.len() == 4,
    ensures
        parse_request(encode_announce_request(r), max_scrape_torrents) == Ok::<
            RequestView,
            RequestParseErrorView,
        >(RequestView::Announce(r)),
{
    let bytes = encode_announce_request(r);
    lemma_i64_round_trip(r.connection_id.0);
    lemma_i32_round_trip(REQUEST_ACTION_ANNOUNCE);
    lemma_i32_round_trip(r.transaction_id.0);
    lemma_i64_round_trip(r.bytes_downloaded.0);
    lemma_i64_round_trip(r.bytes_left.0);
    lemma_i64_round_trip(r.bytes_uploaded.0);
    lemma_i32_round_trip(r.event.spec_to_i32());
    lemma_i32_round_trip(r.key.0);
    lemma_i32_round_trip(r.peers_wanted.0);
    lemma_u16_round_trip(r.port.0);
    r.event.lemma_number_round_trip();
    assert(bytes.len() == 98);
    assert(bytes.subrange(0, 8) =~= spec_i64_to_be(r.connection_id.0));
    assert(bytes.subrange(8, 12) =~= spec_i32_to_be(REQUEST_ACTION_ANNOUNCE));
    assert(bytes.subrange(12, 16) =~= spec_i32_to_be(r.transaction_id.0));
    assert(bytes.subrange(16, 36) =~= r.info_hash);
    assert(bytes.subrange(36, 56) =~= r.peer_id);
    assert(bytes.subrange(56, 64) =~= spec_i64_to_be(r.bytes_downloaded.0));
    assert(bytes.subrange(64, 72) =~= spec_i64_to_be(r.bytes_left.0));
    assert(bytes.subrange(72, 80) =~= spec_i64_to_be(r.bytes_uploaded.0));
    assert(bytes.subrange(80, 84) =~= spec_i32_to_be(r.event.spec_to_i32()));
    assert(bytes.subrange(84, 88) =~= r.ip_address);
    assert(bytes.subrange(88, 92) =~= spec_i32_to_be(r.key.0));
    assert(bytes.subrange(92, 96) =~= spec_i32_to_be(r.peers_wanted.0));
    assert(bytes.subrange(96, 98) =~= spec_u16_to_be(r.port.0));
    assert(parse_announce_fields(bytes, r.event) == r);
}

proof fn lemma_scrape_request_round_trip(r: ScrapeRequestView, max_scrape_torrents: u8)
    requires
        info_hashes_have_width(r.info_hashes),
        1 <= r.info_hashes.len() <= max_scrape_torrents,
    ensures
        parse_request(encode_scrape_request(r), max_scrape_torrents) == Ok::<
            RequestView,
            RequestParseErrorView,
        >(RequestView::Scrape(r)),
{
    let bytes = encode_scrape_request(r);
    lemma_i64_round_trip(r.connection_id.0);
    lemma_i32_round_trip(REQUEST_ACTION_SCRAPE);
    lemma_i32_round_trip(r.transaction_id.0);
    lemma_encode_info_hashes_layout(r.info_hashes);
    lemma_info_hashes_round_trip(r.info_hashes);
    assert(bytes.subrange(0, 8) =~= spec_i64_to_be(r.connection_id.0));
    assert(bytes.subrange(8, 12) =~= spec_i32_to_be(REQUEST_ACTION_SCRAPE));
    assert(bytes.subrange(12, 16) =~= spec_i32_to_be(r.transaction_id.0));
    let rest = bytes.subrange(16, bytes.len() as int);
    assert(rest =~= encode_info_hashes(r.info_hashes));
    assert(r.info_hashes.take(r.info_hashes.len() as int) =~= r.info_hashes);
}

/// Whether a request is one that a tracker reading at most
/// `max_scrape_torrents` info hashes of a scrape request takes whole:
/// every connect and announce request is, and a scrape request that names
/// at least one info hash and no more than that number.
pub open spec fn request_well_formed(request: Request, max_scrape_torrents: u8) -> bool {
    match request {
        Request::Scrape(r) => 1 <= r.info_hashes@.len() <= max_scrape_torrents,
        _ => true,
    }
}

/// A well-formed request that is written and read again is the same
/// request.
pub proof fn lemma_request_round_trip(request: Request, max_scrape_torrents: u8)
    requires
        request_well_formed(request, max_scrape_torrents),
    ensures
        parse_request(encode_request(request@), max_scrape_torrents) == Ok::<
            RequestView,
            RequestParseErrorView,
        >(request@),
{
    match request {
        Request::Connect(r) => {
            lemma_connect_request_round_trip(r, max_scrape_torrents);
        },
        Request::Announce(r) => {
            lemma_announce_request_round_trip(r@, max_scrape_torrents);
        },
        Request::Scrape(r) => {
            assert(info_hashes_have_width(r@.info_hashes));
            lemma_scrape_request_round_trip(r@, max_scrape_torrents);
        },
    }
}

} // verus!
