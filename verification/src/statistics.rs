//! Counts of what a socket worker has received and sent.

use crate::response::Response;
use vstd::prelude::*;

verus! {

/// Bytes that an IPv4 UDP packet takes on the wire in addition to its
/// payload: Ethernet preamble and frame, IPv4 header and UDP header.
pub const EXTRA_PACKET_SIZE_IPV4: usize = 8 + 18 + 20 + 8;

/// Bytes that an IPv6 UDP packet takes on the wire in addition to its
/// payload: Ethernet preamble and frame, IPv6 header and UDP header.
pub const EXTRA_PACKET_SIZE_IPV6: usize = 8 + 18 + 40 + 8;

/// The sum of two counts, or the largest count where the sum is larger.
pub open spec fn spec_add_count(a: usize, b: usize) -> usize {
    if a + b > usize::MAX {
        usize::MAX
    } else {
        (a + b) as usize
    }
}

#[verifier::when_used_as_spec(spec_add_count)]
pub fn add_count(a: usize, b: usize) -> (sum: usize)
    ensures
        sum == spec_add_count(a, b),
{
    if a > usize::MAX - b {
        usize::MAX
    } else {
        a + b
    }
}

/// Bytes that a packet with a payload of `payload` bytes takes on the
/// wire.
pub open spec fn spec_packet_size(ipv4: bool, payload: usize) -> usize {
    spec_add_count(
        payload,
        if ipv4 {
            EXTRA_PACKET_SIZE_IPV4
        } else {
            EXTRA_PACKET_SIZE_IPV6
        },
    )
}

#[verifier::when_used_as_spec(spec_packet_size)]
pub fn packet_size(ipv4: bool, payload: usize) -> (size: usize)
    ensures
        size == spec_packet_size(ipv4, payload),
{
    if ipv4 {
        add_count(payload, EXTRA_PACKET_SIZE_IPV4)
    } else {
        add_count(payload, EXTRA_PACKET_SIZE_IPV6)
    }
}

/// What a socket worker has received and sent for one address family
/// since the counts were last taken.
#[derive(Clone, Copy, Debug, PartialEq, Eq, Structural)]
pub struct Statistics {
    pub requests_received: usize,
    pub responses_sent_connect: usize,
    pub responses_sent_announce: usize,
    pub responses_sent_scrape: usize,
    pub responses_sent_error: usize,
    pub bytes_received: usize,
    pub bytes_sent: usize,
}

/// The kind of a response, as the statistics tell responses apart.
#[derive(Clone, Copy, Debug, PartialEq, Eq, Structural)]
pub enum ResponseKind {
    Connect,
    Announce,
    Scrape,
    Error,
}

impl ResponseKind {
    pub open spec fn spec_of(response: &Response) -> ResponseKind {
        match response {
            Response::Connect(_) => ResponseKind::Connect,
            Response::AnnounceIpv4(_) => ResponseKind::Announce,
            Response::AnnounceIpv6(_) => ResponseKind::Announce,
            Response::Scrape(_) => ResponseKind::Scrape,
            Response::Error(_) => ResponseKind::Error,
        }
    }

    #[verifier::when_used_as_spec(spec_of)]
    pub fn of(response: &Response) -> (kind: ResponseKind)
        ensures
            kind == Self::spec_of(response),
    {
        match response {
            Response::Connect(_) => ResponseKind::Connect,
            Response::AnnounceIpv4(_) => ResponseKind::Announce,
            Response::AnnounceIpv6(_) => ResponseKind::Announce,
            Response::Scrape(_) => ResponseKind::Scrape,
            Response::Error(_) => ResponseKind::Error,
        }
    }
}

impl Statistics {
    /// The counts after a datagram of `bytes_read` bytes has come in,
    /// which held a request or did not.
    pub open spec fn spec_received(self, ipv4: bool, request_parsable: bool, bytes_read: usize)
        -> Statistics {
        Statistics {
            requests_received: if request_parsable {
                spec_add_count(self.requests_received, 1)
            } else {
                self.requests_received
            },
            bytes_received: spec_add_count(self.bytes_received, spec_packet_size(ipv4, bytes_read)),
            ..self
        }
    }

    /// The counts after a response of the kind has gone out in a
    /// datagram of `bytes_sent` bytes.
    pub open spec fn spec_sent(self, ipv4: bool, kind: ResponseKind, bytes_sent: usize)
        -> Statistics {
        let counted = Statistics {
            bytes_sent: spec_add_count(self.bytes_sent, spec_packet_size(ipv4, bytes_sent)),
            ..self
        };
        match kind {
            ResponseKind::Connect => Statistics {
                responses_sent_connect: spec_add_count(self.responses_sent_connect, 1),
                ..counted
            },
            ResponseKind::Announce => Statistics {
                responses_sent_announce: spec_add_count(self.responses_sent_announce, 1),
                ..counted
            },
            ResponseKind::Scrape => Statistics {
                responses_sent_scrape: spec_add_count(self.responses_sent_scrape, 1),
                ..counted
            },
            ResponseKind::Error => Statistics {
                responses_sent_error: spec_add_count(self.responses_sent_error, 1),
                ..counted
            },
        }
    }

    /// All counts zero.
    pub fn new() -> (statistics: Self)
        ensures
            statistics == (Statistics {
                requests_received: 0,
                responses_sent_connect: 0,
                responses_sent_announce: 0,
                responses_sent_scrape: 0,
                responses_sent_error: 0,
                bytes_received: 0,
                bytes_sent: 0,
            }),
    {
        Statistics {
            requests_received: 0,
            responses_sent_connect: 0,
            responses_sent_announce: 0,
            responses_sent_scrape: 0,
            responses_sent_error: 0,
            bytes_received: 0,
            bytes_sent: 0,
        }
    }

    /// Counts a datagram that has come in.
    pub fn received(&mut self, ipv4: bool, request_parsable: bool, bytes_read: usize)
        ensures
            *final(self) == old(self).spec_received(ipv4, request_parsable, bytes_read),
    {
        if request_parsable {
            self.requests_received = add_count(self.requests_received, 1);
        }
        self.bytes_received = add_count(self.bytes_received, packet_size(ipv4, bytes_read));
    }

    /// Counts a response that has gone out.
    pub fn sent(&mut self, ipv4: bool, kind: ResponseKind, bytes_sent: usize)
        ensures
            *final(self) == old(self).spec_sent(ipv4, kind, bytes_sent),
    {
        self.bytes_sent = add_count(self.bytes_sent, packet_size(ipv4, bytes_sent));
        match kind {
            ResponseKind::Connect => {
                self.responses_sent_connect = add_count(self.responses_sent_connect, 1);
            },
            ResponseKind::Announce => {
                self.responses_sent_announce = add_count(self.responses_sent_announce, 1);
            },
            ResponseKind::Scrape => {
                self.responses_sent_scrape = add_count(self.responses_sent_scrape, 1);
            },
            ResponseKind::Error => {
                self.responses_sent_error = add_count(self.responses_sent_error, 1);
            },
        }
    }

    /// Number of responses of all kinds that have gone out.
    pub fn responses_sent(&self) -> (n: usize)
        ensures
            n == spec_add_count(
                spec_add_count(
                    spec_add_count(self.responses_sent_connect, self.responses_sent_announce),
                    self.responses_sent_scrape,
                ),
                self.responses_sent_error,
            ),
    {
        add_count(
            add_count(
                add_count(self.responses_sent_connect, self.responses_sent_announce),
                self.responses_sent_scrape,
            ),
            self.responses_sent_error,
        )
    }
}

impl Default for Statistics {
    fn default() -> (statistics: Self)
        ensures
            statistics == (Statistics {
                requests_received: 0,
                responses_sent_connect: 0,
                responses_sent_announce: 0,
                responses_sent_scrape: 0,
                responses_sent_error: 0,
                bytes_received: 0,
                bytes_sent: 0,
            }),
    {
        Statistics::new()
    }
}

} // verus!
