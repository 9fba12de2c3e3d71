//! What a socket worker decides: what to do with a datagram that has
//! come in, with an answer of a request worker, and with a response that
//! could or could not be sent.

use crate::access_list::allowed;
use crate::access_list::AccessList;
use crate::common::IpAddrBytes;
use crate::common::SocketAddrBytes;
use crate::config::Config;
use crate::handlers::not_allowed_message;
use crate::messages::ConnectedResponse;
use crate::messages::PendingScrapeRequest;
use crate::messages::RequestWorkerIndex;
use crate::messages::MAX_PACKET_SIZE;
use crate::pending_scrape::answer_taken;
use crate::pending_scrape::is_split;
use crate::pending_scrape::valid_pending;
use crate::pending_scrape::PendingScrapeResponses;
use crate::pending_scrape::PendingScrapeView;
use crate::request::parse_request;
use crate::request::AnnounceRequest;
use crate::request::Request;
use crate::request::RequestParseError;
use crate::request::RequestParseErrorView;
use crate::response::encode_response;
use crate::response::ConnectResponse;
use crate::response::ErrorResponse;
use crate::response::Response;
use crate::response::TorrentScrapeStatistics;
use crate::statistics::ResponseKind;
use crate::statistics::Statistics;
use crate::time::SecondsSinceServerStart;
use crate::time::ValidUntil;
use crate::validator::elapsed_of;
use crate::validator::spec_connection_id;
use crate::validator::spec_connection_id_valid;
use crate::validator::ConnectionValidator;
use vstd::prelude::*;

verus! {

/// Number of rounds of a socket worker between two looks at the clock.
pub const ROUNDS_BETWEEN_UPDATES: usize = 256;

/// What a socket worker keeps between datagrams.
pub struct SocketWorkerState {
    pub config: Config,
    pub validator: ConnectionValidator,
    /// The snapshot of the access list that the worker reads.
    pub access_list: AccessList,
    pub pending_scrape_responses: PendingScrapeResponses,
}

/// What is to be done with a request.
pub enum RequestOutcome {
    /// Nothing: the request is dropped without an answer.
    Drop,
    /// The response is to be sent to the client.
    Respond(Response),
    /// The announce request is to be handed to the request worker.
    ForwardAnnounce(RequestWorkerIndex, AnnounceRequest),
    /// Each part of the scrape request is to be handed to its request
    /// worker.
    ForwardScrape(Vec<(RequestWorkerIndex, PendingScrapeRequest)>),
}

/// What is to be done with a datagram from a client.
pub struct DatagramOutcome {
    /// The address under which the client is known.
    pub src: IpAddrBytes,
    /// Whether the datagram held a request.
    pub request_parsable: bool,
    pub action: RequestOutcome,
}

/// How an attempt to send a response ended.
#[derive(Clone, Copy, Debug, PartialEq, Eq, Structural)]
pub enum SendResult {
    /// A datagram of this many bytes went out.
    Sent { bytes: usize },
    /// The socket would have had to wait.
    WouldBlock,
    /// The system had no room for the datagram.
    NoBufferSpace,
    /// Any other failure.
    Failed,
}

/// What was done with a response after the attempt to send it.
#[derive(Clone, Copy, Debug, PartialEq, Eq, Structural)]
pub enum SendOutcome {
    /// It went out.
    Sent,
    /// It waits to be sent again.
    Queued,
    /// It is lost.
    Dropped,
}

/// What the look at the clock every few rounds led to.
#[derive(Clone, Copy, Debug, PartialEq, Eq, Structural)]
pub struct PeriodicOutcome {
    /// The limit for scrape requests that are split from now on, where
    /// it was set anew.
    pub pending_scrape_valid_until: Option<ValidUntil>,
    /// Whether the pending scrape requests were cleaned.
    pub cleaned: bool,
}

/// Whether `outcome` and the pending scrape requests `after` are what
/// a request that came from the address `src` at the second `now` leads
/// to.
///
/// A connect request is answered with a connection id for the address.
/// Any other request is dropped unless it carries a valid connection id.
/// An announce request for a torrent that the access list does not let be
/// served is answered with an error; any other goes to the request worker
/// that owns the swarm of its torrent. A scrape request is split over the
/// request workers that own the swarms of its torrents, and is noted as
/// pending.
pub open spec fn request_handled(
    state: SocketWorkerState,
    after: Map<crate::common::TransactionId, PendingScrapeView>,
    request: Request,
    src: IpAddrBytes,
    now: SecondsSinceServerStart,
    pending_scrape_valid_until: ValidUntil,
    outcome: RequestOutcome,
) -> bool {
    let before = state.pending_scrape_responses@;
    let key = state.validator.spec_key();
    let max_age = state.validator.spec_max_connection_age();
    match request {
        Request::Connect(r) => after == before && (outcome matches RequestOutcome::Respond(
            Response::Connect(c),
        ) && c == (ConnectResponse {
            connection_id: spec_connection_id(key, elapsed_of(now), src@),
            transaction_id: r.transaction_id,
        })),
        Request::Announce(r) => after == before && if !spec_connection_id_valid(
            key,
            max_age,
            src@,
            r.connection_id,
            now,
        ) {
            outcome is Drop
        } else if !allowed(state.access_list@, state.config.access_list.mode, r.info_hash.0) {
            outcome matches RequestOutcome::Respond(Response::Error(e)) && e.transaction_id
                == r.transaction_id && e.message@ == not_allowed_message()
        } else {
            outcome == RequestOutcome::ForwardAnnounce(
                RequestWorkerIndex::spec_from_info_hash(&state.config, r.info_hash),
                r,
            )
        },
        Request::Scrape(r) => if !spec_connection_id_valid(
            key,
            max_age,
            src@,
            r.connection_id,
            now,
        ) {
            after == before && outcome is Drop
        } else {
            outcome matches RequestOutcome::ForwardScrape(parts) && is_split(
                parts@,
                &state.config,
                r,
                r.info_hashes@.len() as int,
            ) && after == before.insert(
                r.transaction_id,
                (PendingScrapeView {
                    num_pending: parts@.len() as usize,
                    valid_until: pending_scrape_valid_until,
                    torrent_stats: Seq::<(usize, TorrentScrapeStatistics)>::empty(),
                }),
            )
        },
    }
}

/// Whether `outcome` and the pending scrape requests `after` are what
/// a datagram with the given bytes leads to, which came from a client
/// under the address `src` at the second `now`.
///
/// Bytes that hold a request lead to what the request leads to. Bytes
/// that hold none are dropped, unless the ids of the request could be
/// read and the connection id is valid: then the client is told why.
pub open spec fn datagram_handled(
    state: SocketWorkerState,
    after: Map<crate::common::TransactionId, PendingScrapeView>,
    bytes: Seq<u8>,
    src: IpAddrBytes,
    now: SecondsSinceServerStart,
    pending_scrape_valid_until: ValidUntil,
    outcome: DatagramOutcome,
) -> bool {
    &&& outcome.src == src
    &&& match parse_request(bytes, state.config.protocol.max_scrape_torrents) {
        Ok(view) => outcome.request_parsable && exists|request: Request|
            #[trigger] request@ == view && request_handled(
                state,
                after,
                request,
                src,
                now,
                pending_scrape_valid_until,
                outcome.action,
            ),
        Err(RequestParseErrorView::Sendable { connection_id, transaction_id, err }) => {
            &&& !outcome.request_parsable
            &&& after == state.pending_scrape_responses@
            &&& if spec_connection_id_valid(
                state.validator.spec_key(),
                state.validator.spec_max_connection_age(),
                src@,
                connection_id,
                now,
            ) {
                outcome.action matches RequestOutcome::Respond(Response::Error(e))
                    && e.transaction_id == transaction_id && e.message@ == err
            } else {
                outcome.action is Drop
            }
        },
        Err(RequestParseErrorView::Unsendable { err }) => !outcome.request_parsable && after
            == state.pending_scrape_responses@ && outcome.action is Drop,
    }
}

impl SocketWorkerState {
    /// What holds of the state at rest: the pending scrape requests are
    /// at rest, and there is a request worker.
    pub open spec fn wf(&self) -> bool {
        self.pending_scrape_responses.wf() && self.config.request_workers > 0
    }

    /// Whether nothing but the pending scrape requests differs from `other`.
    pub open spec fn same_but_pending(&self, other: &SocketWorkerState) -> bool {
        &&& self.config == other.config
        &&& self.validator == other.validator
        &&& self.access_list == other.access_list
    }

    /// The state of a worker that starts with no scrape request pending.
    pub fn new(config: Config, validator: ConnectionValidator, access_list: AccessList) -> (state:
        Self)
        requires
            config.request_workers > 0,
        ensures
            state.wf(),
            state.config == config,
            state.validator == validator,
            state.access_list == access_list,
            state.pending_scrape_responses@ == Map::<
                crate::common::TransactionId,
                PendingScrapeView,
            >::empty(),
    {
        SocketWorkerState {
            config,
            validator,
            access_list,
            pending_scrape_responses: PendingScrapeResponses::new(),
        }
    }

    /// Decides what to do with a request that came from the address
    /// `src` at the second `now`; see [`request_handled`].
    pub fn handle_request_at(
        &mut self,
        request: Request,
        src: IpAddrBytes,
        now: SecondsSinceServerStart,
        pending_scrape_valid_until: ValidUntil,
    ) -> (outcome: RequestOutcome)
        requires
            old(self).wf(),
        ensures
            final(self).wf(),
            final(self).same_but_pending(old(self)),
            request_handled(
                *old(self),
                final(self).pending_scrape_responses@,
                request,
                src,
                now,
                pending_scrape_valid_until,
                outcome,
            ),
    {
        match request {
            Request::Connect(request) => {
                let connection_id = self.validator.create_connection_id_at(src, now);
                RequestOutcome::Respond(
                    Response::Connect(
                        ConnectResponse { connection_id, transaction_id: request.transaction_id },
                    ),
                )
            },
            Request::Announce(request) => {
                if !self.validator.connection_id_valid_at(src, request.connection_id, now) {
                    RequestOutcome::Drop
                } else if !self.access_list.allows(
                    self.config.access_list.mode,
                    &request.info_hash.0,
                ) {
                    RequestOutcome::Respond(
                        Response::Error(
                            ErrorResponse {
                                transaction_id: request.transaction_id,
                                message: "Info hash not allowed".to_owned(),
                            },
                        ),
                    )
                } else {
                    let worker_index = RequestWorkerIndex::from_info_hash(
                        &self.config,
                        request.info_hash,
                    );
                    RequestOutcome::ForwardAnnounce(worker_index, request)
                }
            },
            Request::Scrape(request) => {
                if !self.validator.connection_id_valid_at(src, request.connection_id, now) {
                    RequestOutcome::Drop
                } else {
                    let parts = self.pending_scrape_responses.prepare_split_requests(
                        &self.config,
                        request,
                        pending_scrape_valid_until,
                    );
                    RequestOutcome::ForwardScrape(parts)
                }
            },
        }
    }

    /// Decides what to do with a datagram that came from the socket
    /// address `src` at the second `now`. A datagram from the port zero
    /// is ignored. For any other see [`datagram_handled`], with the
    /// address under which the client is known.
    pub fn handle_datagram_at(
        &mut self,
        bytes: &[u8],
        src: SocketAddrBytes,
        now: SecondsSinceServerStart,
        pending_scrape_valid_until: ValidUntil,
    ) -> (outcome: Option<DatagramOutcome>)
        requires
            old(self).wf(),
        ensures
            final(self).wf(),
            final(self).same_but_pending(old(self)),
            src.port == 0 ==> outcome.is_none() && final(self).pending_scrape_responses@ == old(self).pending_scrape_responses@,
            src.port != 0 ==> (outcome matches Some(o) && datagram_handled(
                *old(self),
                final(self).pending_scrape_responses@,
                bytes@,
                src.ip.spec_canonical(),
                now,
                pending_scrape_valid_until,
                o,
            )),
    {
        if src.port == 0 {
            return None;
        }
        let src = src.ip.canonical();
        match Request::parse_bytes(bytes, self.config.protocol.max_scrape_torrents) {
            Ok(request) => {
                let action = self.handle_request_at(request, src, now, pending_scrape_valid_until);
                assert(request@ == parse_request(
                    bytes@,
                    self.config.protocol.max_scrape_torrents,
                )->Ok_0);
                Some(DatagramOutcome { src, request_parsable: true, action })
            },
            Err(RequestParseError::Sendable { connection_id, transaction_id, err }) => {
                let action = if self.validator.connection_id_valid_at(src, connection_id, now) {
                    RequestOutcome::Respond(
                        Response::Error(ErrorResponse { transaction_id, message: err.to_owned() }),
                    )
                } else {
                    RequestOutcome::Drop
                };
                Some(DatagramOutcome { src, request_parsable: false, action })
            },
            Err(RequestParseError::Unsendable { err: _ }) => Some(
                DatagramOutcome { src, request_parsable: false, action: RequestOutcome::Drop },
            ),
        }
    }

    /// Takes in what a request worker hands back. An announce or error
    /// response goes to the client as it is. The answer to a part of a
    /// scrape request is put with the other answers to that request, and
    /// with the last of them the response to the whole request goes to
    /// the client.
    pub fn handle_connected_response(&mut self, response: ConnectedResponse) -> (to_send: Option<
        Response,
    >)
        requires
            old(self).wf(),
        ensures
            final(self).wf(),
            final(self).same_but_pending(old(self)),
            match response {
                ConnectedResponse::AnnounceIpv4(r) => to_send == Some(Response::AnnounceIpv4(r))
                    && final(self).pending_scrape_responses@ == old(self).pending_scrape_responses@,
                ConnectedResponse::AnnounceIpv6(r) => to_send == Some(Response::AnnounceIpv6(r))
                    && final(self).pending_scrape_responses@ == old(self).pending_scrape_responses@,
                ConnectedResponse::Error(r) => to_send == Some(Response::Error(r)) && final(self).pending_scrape_responses@ == old(self).pending_scrape_responses@,
                ConnectedResponse::Scrape(r) => exists|finished: Option<
                    crate::response::ScrapeResponse,
                >|
                    #[trigger] answer_taken(
                        old(self).pending_scrape_responses@,
                        final(self).pending_scrape_responses@,
                        r,
                        finished,
                    ) && to_send == (match finished {
                        Some(scrape) => Some(Response::Scrape(scrape)),
                        None => None,
                    }),
            },
    {
        match response {
            ConnectedResponse::AnnounceIpv4(r) => Some(Response::AnnounceIpv4(r)),
            ConnectedResponse::AnnounceIpv6(r) => Some(Response::AnnounceIpv6(r)),
            ConnectedResponse::Error(r) => Some(Response::Error(r)),
            ConnectedResponse::Scrape(r) => {
                let finished = self.pending_scrape_responses.add_and_get_finished(r);
                assert(answer_taken(
                    old(self).pending_scrape_responses@,
                    self.pending_scrape_responses@,
                    r,
                    finished,
                ));
                match finished {
                    Some(scrape) => Some(Response::Scrape(scrape)),
                    None => None,
                }
            },
        }
    }

    /// Looks at the clock in every 256th round: sets the limit for
    /// scrape requests that are split from now on, and cleans the pending
    /// scrape requests where more than the cleaning interval has passed
    /// since `last_cleaning`.
    pub fn periodic_at(
        &mut self,
        iter_counter: usize,
        now: SecondsSinceServerStart,
        last_cleaning: SecondsSinceServerStart,
    ) -> (outcome: PeriodicOutcome)
        requires
            old(self).wf(),
        ensures
            final(self).wf(),
            final(self).same_but_pending(old(self)),
            iter_counter % ROUNDS_BETWEEN_UPDATES != 0 ==> outcome == (PeriodicOutcome {
                pending_scrape_valid_until: None,
                cleaned: false,
            }) && final(self).pending_scrape_responses@ == old(self).pending_scrape_responses@,
            iter_counter % ROUNDS_BETWEEN_UPDATES == 0 ==> {
                &&& outcome.pending_scrape_valid_until == Some(
                    ValidUntil::spec_new_with_now(
                        now,
                        old(self).config.cleaning.max_pending_scrape_age,
                    ),
                )
                &&& outcome.cleaned == (now.0 > last_cleaning.0 + old(self).config.cleaning.pending_scrape_cleaning_interval)
                &&& final(self).pending_scrape_responses@ == if outcome.cleaned {
                    valid_pending(old(self).pending_scrape_responses@, now)
                } else {
                    old(self).pending_scrape_responses@
                }
            },
    {
        if iter_counter % ROUNDS_BETWEEN_UPDATES != 0 {
            return PeriodicOutcome { pending_scrape_valid_until: None, cleaned: false };
        }
        let valid_until = ValidUntil::new_with_now(now, self.config.cleaning.max_pending_scrape_age);
        let interval = self.config.cleaning.pending_scrape_cleaning_interval;
        let due = if last_cleaning.0 > u64::MAX - interval {
            false
        } else {
            now.0 > last_cleaning.0 + interval
        };
        if due {
            self.pending_scrape_responses.clean(now);
        }
        PeriodicOutcome { pending_scrape_valid_until: Some(valid_until), cleaned: due }
    }
}

/// The bytes of a response for a client, and the address to send them
/// to through the socket of the worker. There are none where the bytes
/// are more than a datagram may hold, or where the client has an IPv6
/// address and the socket is bound to an IPv4 address. Through a socket
/// that is bound to an IPv6 address, a client with an IPv4 address is
/// reached under that address written as an IPv6 address.
pub fn prepare_datagram(config: &Config, response: Response, addr: SocketAddrBytes) -> (datagram:
    Option<(Vec<u8>, SocketAddrBytes)>)
    ensures
        datagram.is_some() == (encode_response(response@).len() <= MAX_PACKET_SIZE && (
        addr.ip.spec_is_ipv4() || !config.network.address.ip.spec_is_ipv4())),
        datagram matches Some((bytes, target)) ==> (bytes@ == encode_response(response@)
            && target.port == addr.port && target.ip == (if config.network.address.ip.spec_is_ipv4() {
            addr.ip
        } else {
            IpAddrBytes::V6(addr.ip.spec_to_ipv6_mapped())
        })),
{
    let mut bytes: Vec<u8> = Vec::new();
    response.write(&mut bytes);
    assert(bytes@ =~= encode_response(response@));
    if bytes.len() > MAX_PACKET_SIZE {
        return None;
    }
    if config.network.address.ip.is_ipv4() {
        if addr.ip.is_ipv4() {
            Some((bytes, addr))
        } else {
            None
        }
    } else {
        Some((bytes, SocketAddrBytes { ip: IpAddrBytes::V6(addr.ip.to_ipv6_mapped()), port: addr.port }))
    }
}

/// Whether a response that could not be sent is kept to be sent again:
/// it is where that is allowed, the failure was want of room or of time,
/// and fewer responses wait than may.
pub open spec fn queues_for_resend(
    config: &Config,
    waiting: nat,
    may_queue: bool,
    result: SendResult,
) -> bool {
    may_queue && (result is WouldBlock || result is NoBufferSpace) && waiting
        < config.network.resend_buffer_max_len
}

/// Takes note of how the attempt to send a response to the client at
/// `addr` ended. A response that went out is counted, for the address
/// family of the client, where statistics are gathered. One that did not
/// is kept to be sent again where [`queues_for_resend`] says so, and is
/// lost otherwise.
pub fn after_send(
    config: &Config,
    statistics_ipv4: &mut Statistics,
    statistics_ipv6: &mut Statistics,
    resend_buffer: &mut Vec<(Response, SocketAddrBytes)>,
    may_queue: bool,
    response: Response,
    addr: SocketAddrBytes,
    result: SendResult,
) -> (outcome: SendOutcome)
    ensures
        result matches SendResult::Sent { bytes } ==> {
            &&& outcome == SendOutcome::Sent
            &&& final(resend_buffer)@ == old(resend_buffer)@
            &&& *final(statistics_ipv4) == if config.statistics.spec_active()
                && addr.ip.spec_is_ipv4() {
                old(statistics_ipv4).spec_sent(true, ResponseKind::spec_of(&response), bytes)
            } else {
                *old(statistics_ipv4)
            }
            &&& *final(statistics_ipv6) == if config.statistics.spec_active()
                && !addr.ip.spec_is_ipv4() {
                old(statistics_ipv6).spec_sent(false, ResponseKind::spec_of(&response), bytes)
            } else {
                *old(statistics_ipv6)
            }
        },
        !(result is Sent) ==> {
            &&& *final(statistics_ipv4) == *old(statistics_ipv4)
            &&& *final(statistics_ipv6) == *old(statistics_ipv6)
            &&& if queues_for_resend(config, old(resend_buffer)@.len(), may_queue, result) {
                outcome == SendOutcome::Queued && final(resend_buffer)@ == old(resend_buffer)@.push((response, addr))
            } else {
                outcome == SendOutcome::Dropped && final(resend_buffer)@ == old(resend_buffer)@
            }
        },
{
    match result {
        SendResult::Sent { bytes } => {
            if config.statistics.active() {
                let kind = ResponseKind::of(&response);
                if addr.ip.is_ipv4() {
                    statistics_ipv4.sent(true, kind, bytes);
                } else {
                    statistics_ipv6.sent(false, kind, bytes);
                }
            }
            SendOutcome::Sent
        },
        SendResult::WouldBlock | SendResult::NoBufferSpace => {
            if may_queue && resend_buffer.len() < config.network.resend_buffer_max_len {
                resend_buffer.push((response, addr));
                SendOutcome::Queued
            } else {
                SendOutcome::Dropped
            }
        },
        SendResult::Failed => SendOutcome::Dropped,
    }
}

} // verus!
