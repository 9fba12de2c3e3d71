//! The HTTP tracker: what is done with a request once it is read, how
//! a scrape is answered by several request workers, and when a
//! connection is closed.

use crate::access_list::allowed;
use crate::access_list::AccessList;
use crate::common::AnnounceEvent;
use crate::common::ConnectionId;
use crate::common::InfoHash;
use crate::common::NumberOfBytes;
use crate::common::PeerId;
use crate::common::Port;
use crate::common::TransactionId;
use crate::config::Config;
use crate::handlers::not_allowed_message;
use crate::messages::PendingScrapeRequest;
use crate::messages::RequestWorkerIndex;
use crate::pending_scrape::is_split;
use crate::pending_scrape::split_scrape_request;
use crate::ws::ScrapeStatistics;
use vstd::prelude::*;

verus! {

/// Number of bytes that a request may have.
pub const REQUEST_BUFFER_SIZE: usize = 2048;

#[derive(Clone, Copy, Debug, PartialEq, Eq)]
pub struct AnnounceRequest {
    pub info_hash: InfoHash,
    pub peer_id: PeerId,
    pub port: Port,
    pub bytes_left: NumberOfBytes,
    pub event: AnnounceEvent,
    /// Number of peers that the client asks for, where it says so.
    pub numwant: Option<usize>,
}

#[derive(Clone, Debug, PartialEq, Eq)]
pub struct ScrapeRequest {
    pub info_hashes: Vec<InfoHash>,
}

#[derive(Clone, Debug, PartialEq, Eq)]
pub enum Request {
    Announce(AnnounceRequest),
    Scrape(ScrapeRequest),
}

/// The answer to a request that is not served.
#[derive(Clone, Debug, PartialEq, Eq)]
pub struct FailureResponse {
    pub failure_reason: String,
}

/// The counts of the torrents of a scrape request.
#[derive(Clone, Debug, PartialEq, Eq)]
pub struct ScrapeResponse {
    pub files: Vec<(InfoHash, ScrapeStatistics)>,
}

/// What is to be done with a request.
pub enum RequestAction {
    /// The client is told that the request is not served.
    Fail(FailureResponse),
    /// The announce request goes to the request worker.
    ForwardAnnounce(RequestWorkerIndex, AnnounceRequest),
    /// Each part of the scrape request goes to its request worker.
    ForwardScrape(Vec<(RequestWorkerIndex, PendingScrapeRequest)>),
}

/// What trying to read a request from the bytes that have come so
/// far came to.
#[derive(Clone, Copy, Debug, PartialEq, Eq, Structural)]
pub enum ParseStatus {
    /// The bytes hold a request.
    Complete,
    /// The bytes are no request and cannot become one.
    Invalid,
    /// The bytes may become a request when more have come.
    NeedMoreData,
}

/// What is to be done after bytes of a request have come.
#[derive(Clone, Copy, Debug, PartialEq, Eq, Structural)]
pub enum ReadStep {
    /// More bytes are to be read, behind the given number of bytes.
    ReadMore(usize),
    /// The request is to be handled.
    Handle,
    /// The client is to be told that its request is invalid.
    Reject,
    /// The connection is to be closed: the client has closed it, or
    /// the request is longer than a request may be.
    Close,
}

/// The scrape request as one that can be split: with ids that no part
/// of the HTTP tracker reads.
pub open spec fn as_udp_scrape_request(request: ScrapeRequest) -> crate::request::ScrapeRequest {
    crate::request::ScrapeRequest {
        connection_id: ConnectionId(0),
        transaction_id: TransactionId(0),
        info_hashes: request.info_hashes,
    }
}

/// Decides what to do with a request. An announce request for a
/// torrent that the access list does not let be served is refused; any
/// other goes to the request worker that owns the swarm of its torrent. A
/// scrape request is split over the request workers that own the swarms
/// of its torrents.
pub fn handle_request(config: &Config, access_list: &AccessList, request: Request) -> (action:
    RequestAction)
    requires
        config.request_workers > 0,
    ensures
        match request {
            Request::Announce(r) => if allowed(
                access_list@,
                config.access_list.mode,
                r.info_hash.0,
            ) {
                action == RequestAction::ForwardAnnounce(
                    RequestWorkerIndex::spec_from_info_hash(config, r.info_hash),
                    r,
                )
            } else {
                action matches RequestAction::Fail(f) && f.failure_reason@ == not_allowed_message()
            },
            Request::Scrape(r) => action matches RequestAction::ForwardScrape(parts) && is_split(
                parts@,
                config,
                as_udp_scrape_request(r),
                r.info_hashes@.len() as int,
            ),
        },
{
    match request {
        Request::Announce(request) => {
            if access_list.allows(config.access_list.mode, &request.info_hash.0) {
                let consumer_index = RequestWorkerIndex::from_info_hash(config, request.info_hash);
                RequestAction::ForwardAnnounce(consumer_index, request)
            } else {
                RequestAction::Fail(
                    FailureResponse { failure_reason: "Info hash not allowed".to_owned() },
                )
            }
        },
        Request::Scrape(request) => {
            let request = crate::request::ScrapeRequest {
                connection_id: ConnectionId(0),
                transaction_id: TransactionId(0),
                info_hashes: request.info_hashes,
            };
            RequestAction::ForwardScrape(split_scrape_request(config, &request))
        },
    }
}

/// Decides what to do after a read into the request buffer, which
/// held `position` bytes before and got `bytes_read` more. A read of no
/// bytes means that the client has closed the connection. A request that
/// is not complete when the buffer is full is too long.
pub fn after_read(position: usize, bytes_read: usize, status: ParseStatus) -> (step: ReadStep)
    requires
        position + bytes_read <= REQUEST_BUFFER_SIZE,
    ensures
        step == if bytes_read == 0 {
            ReadStep::Close
        } else {
            match status {
                ParseStatus::Complete => ReadStep::Handle,
                ParseStatus::Invalid => ReadStep::Reject,
                ParseStatus::NeedMoreData => if position + bytes_read == REQUEST_BUFFER_SIZE {
                    ReadStep::Close
                } else {
                    ReadStep::ReadMore((position + bytes_read) as usize)
                },
            }
        },
{
    if bytes_read == 0 {
        return ReadStep::Close;
    }
    match status {
        ParseStatus::Complete => ReadStep::Handle,
        ParseStatus::Invalid => ReadStep::Reject,
        ParseStatus::NeedMoreData => {
            let filled = position + bytes_read;
            if filled == REQUEST_BUFFER_SIZE {
                ReadStep::Close
            } else {
                ReadStep::ReadMore(filled)
            }
        },
    }
}

/// Whether the connection is closed after a response: after a refusal,
/// and after every response where connections are not kept alive.
pub fn closes_after(config: &Config, response_is_failure: bool) -> (close: bool)
    ensures
        close == (response_is_failure || !config.network.keep_alive),
{
    response_is_failure || !config.network.keep_alive
}

/// A scrape request whose parts are with the request workers.
pub struct PendingScrapeResponse {
    /// Number of request workers that have not answered yet.
    pub pending_worker_responses: usize,
    /// The counts that have come in, in the order in which they came.
    pub stats: Vec<(InfoHash, ScrapeStatistics)>,
}

impl PendingScrapeResponse {
    /// A scrape request that answers of `pending_worker_responses`
    /// request workers are waited for.
    pub fn new(pending_worker_responses: usize) -> (pending: Self)
        ensures
            pending.pending_worker_responses == pending_worker_responses,
            pending.stats@ == Seq::<(InfoHash, ScrapeStatistics)>::empty(),
    {
        PendingScrapeResponse { pending_worker_responses, stats: Vec::new() }
    }

    /// Takes in the answer of a request worker: its counts are put
    /// behind those that have come before. With the last answer that was
    /// waited for, the response to the whole request is returned.
    pub fn add(&mut self, response: ScrapeResponse) -> (finished: Option<ScrapeResponse>)
        ensures
            final(self).stats@ == old(self).stats@ + response.files@,
            final(self).pending_worker_responses == if old(self).pending_worker_responses == 0 {
                0
            } else {
                (old(self).pending_worker_responses - 1) as usize
            },
            finished.is_some() == (old(self).pending_worker_responses <= 1),
            finished matches Some(whole) ==> whole.files@ == final(self).stats@,
    {
        let mut i: usize = 0;
        let ghost start = self.stats@;
        while i < response.files.len()
            invariant
                i <= response.files.len(),
                self.pending_worker_responses == old(self).pending_worker_responses,
                self.stats@ == start + response.files@.take(i as int),
            decreases response.files.len() - i,
        {
            self.stats.push(response.files[i]);
            assert(self.stats@ =~= start + response.files@.take(i + 1));
            i = i + 1;
        }
        assert(response.files@.take(response.files.len() as int) =~= response.files@);
        if self.pending_worker_responses > 0 {
            self.pending_worker_responses = self.pending_worker_responses - 1;
        }
        if self.pending_worker_responses == 0 {
            let mut files: Vec<(InfoHash, ScrapeStatistics)> = Vec::new();
            let mut j: usize = 0;
            while j < self.stats.len()
                invariant
                    j <= self.stats.len(),
                    files@ == self.stats@.take(j as int),
                decreases self.stats.len() - j,
            {
                files.push(self.stats[j]);
                assert(files@ =~= self.stats@.take(j + 1));
                j = j + 1;
            }
            assert(self.stats@.take(self.stats.len() as int) =~= self.stats@);
            Some(ScrapeResponse { files })
        } else {
            None
        }
    }
}

/// Number of bytes that a response may have with all that goes before
/// and behind its body.
pub const RESPONSE_BUFFER_SIZE: usize = 4096;

/// Number of bytes that are kept for the length of the body in the
/// header of a response.
pub const CONTENT_LENGTH_FIELD_SIZE: usize = 8;

/// The digits of a number in base ten, as characters.
pub open spec fn decimal_digits(n: nat) -> Seq<u8>
    decreases n,
{
    if n < 10 {
        seq![(48 + n) as u8]
    } else {
        decimal_digits(n / 10).push((48 + n % 10) as u8)
    }
}

/// `count` spaces.
pub open spec fn spaces(count: int) -> Seq<u8> {
    Seq::new(count as nat, |i: int| 32u8)
}

/// The bytes that open every response: the status line and the name
/// of the header that gives the length of what follows the headers.
pub open spec fn response_header_start() -> Seq<u8> {
    seq![
        72u8, 84, 84, 80, 47, 49, 46, 49, 32, 50, 48, 48, 32, 79, 75, 13, 10, 67, 111, 110, 116,
        101, 110, 116, 45, 76, 101, 110, 103, 116, 104, 58, 32,
    ]
}

/// A response with the given body as it goes over the connection: the
/// status line, the length of the body and of the line end behind it,
/// filled up with spaces to eight bytes, an empty line, the body, and a
/// line end.
pub open spec fn framed_response(body: Seq<u8>) -> Seq<u8> {
    let digits = decimal_digits(body.len() + 2);
    response_header_start() + digits + spaces(CONTENT_LENGTH_FIELD_SIZE - digits.len()) + seq![
        13u8,
        10,
        13,
        10,
    ] + body + seq![13u8, 10]
}

/// A number below a hundred million has at most eight digits.
pub proof fn lemma_decimal_digits_len(n: nat)
    ensures
        1 <= decimal_digits(n).len(),
        n < 10 ==> decimal_digits(n).len() == 1,
        n < 100 ==> decimal_digits(n).len() <= 2,
        n < 1000 ==> decimal_digits(n).len() <= 3,
        n < 10000 ==> decimal_digits(n).len() <= 4,
    decreases n,
{
    if n >= 10 {
        lemma_decimal_digits_len(n / 10);
    }
}

/// The digits of a number in base ten.
pub fn format_decimal(n: usize) -> (digits: Vec<u8>)
    ensures
        digits@ == decimal_digits(n as nat),
{
    let mut reversed: Vec<u8> = Vec::new();
    let mut rest = n;
    let ghost mut tail: Seq<u8> = Seq::empty();
    loop
        invariant_except_break
            reversed@.len() == tail.len(),
            forall|i: int| 0 <= i < tail.len() ==> reversed@[i] == tail[tail.len() - 1 - i],
            decimal_digits(n as nat) == decimal_digits(rest as nat) + tail,
        ensures
            reversed@.len() == tail.len(),
            forall|i: int| 0 <= i < tail.len() ==> reversed@[i] == tail[tail.len() - 1 - i],
            decimal_digits(n as nat) == tail,
        decreases rest,
    {
        if rest < 10 {
            reversed.push(48 + rest as u8);
            proof {
                let new_tail = seq![(48 + rest) as u8] + tail;
                assert(decimal_digits(rest as nat) + tail =~= new_tail);
                tail = new_tail;
            }
            break ;
        }
        reversed.push(48 + (rest % 10) as u8);
        proof {
            let digit = (48 + rest % 10) as u8;
            let new_tail = seq![digit] + tail;
            assert(decimal_digits(rest as nat) + tail =~= decimal_digits((rest / 10) as nat)
                + new_tail);
            tail = new_tail;
        }
        rest = rest / 10;
    }
    let mut digits: Vec<u8> = Vec::new();
    let mut i: usize = reversed.len();
    while i > 0
        invariant
            i <= reversed@.len(),
            reversed@.len() == tail.len(),
            forall|j: int| 0 <= j < tail.len() ==> reversed@[j] == tail[tail.len() - 1 - j],
            digits@ == tail.take(tail.len() - i),
        decreases i,
    {
        i = i - 1;
        digits.push(reversed[i]);
        assert(digits@ =~= tail.take(tail.len() - i));
    }
    assert(tail.take(tail.len() as int) =~= tail);
    digits
}

/// Puts a body between what goes before and behind it in a response;
/// see [`framed_response`]. There is no response for a body that makes
/// it longer than a response may be.
pub fn write_response(body: &[u8]) -> (response: Option<Vec<u8>>)
    ensures
        response.is_some() == (framed_response(body@).len() <= RESPONSE_BUFFER_SIZE),
        response matches Some(bytes) ==> bytes@ == framed_response(body@),
{
    let header_len: usize = 33 + CONTENT_LENGTH_FIELD_SIZE + 4;
    proof {
        lemma_decimal_digits_len(body@.len() + 2);
        let digits = decimal_digits(body@.len() + 2);
        if body@.len() + 2 < 10000 {
            assert(framed_response(body@).len() == 33 + 8 + 4 + body@.len() + 2);
        } else {
            assert(framed_response(body@).len() >= 33 + 4 + body@.len() + 2);
        }
    }
    if body.len() > RESPONSE_BUFFER_SIZE - header_len - 2 {
        return None;
    }
    let content_len = body.len() + 2;
    let digits = format_decimal(content_len);
    let mut bytes: Vec<u8> = Vec::new();
    let header_start: [u8; 33] = [
        72, 84, 84, 80, 47, 49, 46, 49, 32, 50, 48, 48, 32, 79, 75, 13, 10, 67, 111, 110, 116,
        101, 110, 116, 45, 76, 101, 110, 103, 116, 104, 58, 32,
    ];
    bytes.extend_from_slice(header_start.as_slice());
    assert(bytes@ =~= response_header_start());
    bytes.extend_from_slice(digits.as_slice());
    let mut filled: usize = digits.len();
    let ghost before_spaces = bytes@;
    while filled < CONTENT_LENGTH_FIELD_SIZE
        invariant
            digits@.len() <= filled <= CONTENT_LENGTH_FIELD_SIZE,
            bytes@ == before_spaces + spaces(filled - digits@.len()),
        decreases CONTENT_LENGTH_FIELD_SIZE - filled,
    {
        bytes.push(32);
        filled = filled + 1;
        assert(bytes@ =~= before_spaces + spaces(filled - digits@.len()));
    }
    let line_end: [u8; 2] = [13, 10];
    bytes.extend_from_slice(line_end.as_slice());
    bytes.extend_from_slice(line_end.as_slice());
    bytes.extend_from_slice(body);
    bytes.extend_from_slice(line_end.as_slice());
    assert(bytes@ =~= framed_response(body@));
    Some(bytes)
}

} // verus!
