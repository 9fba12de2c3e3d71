//! Value types shared by requests, responses and the swarm store.

use vstd::prelude::*;

verus! {

/// Number of bytes in an info hash and in a peer id.
pub const HASH_LEN: usize = 20;

/// Seconds between two announces that the tracker asks of a peer.
#[derive(Clone, Copy, Debug, PartialEq, Eq, Structural)]
pub struct AnnounceInterval(pub i32);

/// Server-issued token that binds a UDP client to its source address.
#[derive(Clone, Copy, Debug, PartialEq, Eq, Structural)]
pub struct ConnectionId(pub i64);

/// Client-chosen token that pairs a response with its request.
#[derive(Clone, Copy, Debug, PartialEq, Eq, Hash, Structural)]
pub struct TransactionId(pub i32);

#[derive(Clone, Copy, Debug, PartialEq, Eq, Structural)]
pub struct NumberOfBytes(pub i64);

#[derive(Clone, Copy, Debug, PartialEq, Eq, Structural)]
pub struct NumberOfPeers(pub i32);

#[derive(Clone, Copy, Debug, PartialEq, Eq, Structural)]
pub struct NumberOfDownloads(pub i32);

#[derive(Clone, Copy, Debug, PartialEq, Eq, Structural)]
pub struct Port(pub u16);

/// Opaque client token of an announce request, echoed but never read.
#[derive(Clone, Copy, Debug, PartialEq, Eq, Structural)]
pub struct PeerKey(pub i32);

/// Identifier of a torrent: equality is over the raw bytes.
#[derive(Clone, Copy, Debug, PartialEq, Eq, Hash)]
pub struct InfoHash(pub [u8; 20]);

/// Identifier that a client gives itself: the key of a peer in a swarm.
#[derive(Clone, Copy, Debug, PartialEq, Eq, Hash)]
pub struct PeerId(pub [u8; 20]);

/// Octets of an IPv4 address, first octet first.
#[derive(Clone, Copy, Debug, PartialEq, Eq, Hash)]
pub struct Ipv4AddrBytes(pub [u8; 4]);

/// Octets of an IPv6 address, first octet first.
#[derive(Clone, Copy, Debug, PartialEq, Eq, Hash)]
pub struct Ipv6AddrBytes(pub [u8; 16]);

/// Address of a client, of either family, as plain octets.
#[derive(Clone, Copy, Debug, PartialEq, Eq, Hash)]
pub enum IpAddrBytes {
    V4(Ipv4AddrBytes),
    V6(Ipv6AddrBytes),
}

/// Address and port of a socket, as plain values.
#[derive(Clone, Copy, Debug, PartialEq, Eq, Hash)]
pub struct SocketAddrBytes {
    pub ip: IpAddrBytes,
    pub port: u16,
}

/// Where a client that is served over a connection is reached: the
/// socket worker that holds the connection, the number of the connection
/// with that worker, and the address of the client.
#[derive(Clone, Copy, Debug, PartialEq, Eq, Hash)]
pub struct ConnectionMeta {
    pub socket_worker_index: usize,
    pub connection_id: usize,
    pub peer_addr: SocketAddrBytes,
}

impl View for InfoHash {
    type V = Seq<u8>;

    open spec fn view(&self) -> Seq<u8> {
        self.0@
    }
}

impl View for PeerId {
    type V = Seq<u8>;

    open spec fn view(&self) -> Seq<u8> {
        self.0@
    }
}

impl View for Ipv4AddrBytes {
    type V = Seq<u8>;

    open spec fn view(&self) -> Seq<u8> {
        self.0@
    }
}

impl View for Ipv6AddrBytes {
    type V = Seq<u8>;

    open spec fn view(&self) -> Seq<u8> {
        self.0@
    }
}

impl View for IpAddrBytes {
    type V = Seq<u8>;

    /// The octets: four of them for IPv4, sixteen for IPv6.
    open spec fn view(&self) -> Seq<u8> {
        match *self {
            IpAddrBytes::V4(ip) => ip@,
            IpAddrBytes::V6(ip) => ip@,
        }
    }
}

/// Whether sixteen octets are those of an IPv4 address written as an
/// IPv6 address: ten zero octets, two octets of 255, then the address.
pub open spec fn is_ipv4_mapped(octets: Seq<u8>) -> bool {
    &&& octets.len() == 16
    &&& forall|i: int| 0 <= i < 10 ==> octets[i] == 0
    &&& octets[10] == 255
    &&& octets[11] == 255
}

impl IpAddrBytes {
    pub open spec fn spec_is_ipv4(&self) -> bool {
        *self is V4
    }

    /// The address in the form under which a client is known: an IPv4
    /// address that is written as an IPv6 address becomes the IPv4
    /// address, and any other address stays as it is.
    pub open spec fn spec_canonical(self) -> IpAddrBytes {
        match self {
            IpAddrBytes::V4(_) => self,
            IpAddrBytes::V6(ip) => if is_ipv4_mapped(ip@) {
                IpAddrBytes::V4(Ipv4AddrBytes([ip.0[12], ip.0[13], ip.0[14], ip.0[15]]))
            } else {
                self
            },
        }
    }

    #[verifier::when_used_as_spec(spec_canonical)]
    pub fn canonical(self) -> (r: IpAddrBytes)
        ensures
            r == self.spec_canonical(),
    {
        match self {
            IpAddrBytes::V4(_) => self,
            IpAddrBytes::V6(ip) => {
                let mut i: usize = 0;
                while i < 10
                    invariant
                        i <= 10,
                        self == IpAddrBytes::V6(ip),
                        forall|j: int| 0 <= j < i ==> ip.0@[j] == 0,
                    decreases 10 - i,
                {
                    if ip.0[i] != 0 {
                        assert(ip@[i as int] != 0);
                        return self;
                    }
                    i = i + 1;
                }
                if ip.0[10] == 255 && ip.0[11] == 255 {
                    IpAddrBytes::V4(Ipv4AddrBytes([ip.0[12], ip.0[13], ip.0[14], ip.0[15]]))
                } else {
                    self
                }
            },
        }
    }

    #[verifier::when_used_as_spec(spec_is_ipv4)]
    pub fn is_ipv4(&self) -> (r: bool)
        ensures
            r == (*self is V4),
    {
        match self {
            IpAddrBytes::V4(_) => true,
            IpAddrBytes::V6(_) => false,
        }
    }

    /// The address as an IPv6 address: an IPv4 address is written as
    /// ten zero octets, two octets of 255 and its own four octets.
    pub open spec fn spec_to_ipv6_mapped(self) -> Ipv6AddrBytes {
        match self {
            IpAddrBytes::V4(ip) => Ipv6AddrBytes(
                [
                    0,
                    0,
                    0,
                    0,
                    0,
                    0,
                    0,
                    0,
                    0,
                    0,
                    255,
                    255,
                    ip.0[0],
                    ip.0[1],
                    ip.0[2],
                    ip.0[3],
                ],
            ),
            IpAddrBytes::V6(ip) => ip,
        }
    }

    #[verifier::when_used_as_spec(spec_to_ipv6_mapped)]
    pub fn to_ipv6_mapped(self) -> (r: Ipv6AddrBytes)
        ensures
            r == self.spec_to_ipv6_mapped(),
    {
        match self {
            IpAddrBytes::V4(ip) => Ipv6AddrBytes(
                [
                    0,
                    0,
                    0,
                    0,
                    0,
                    0,
                    0,
                    0,
                    0,
                    0,
                    255,
                    255,
                    ip.0[0],
                    ip.0[1],
                    ip.0[2],
                    ip.0[3],
                ],
            ),
            IpAddrBytes::V6(ip) => ip,
        }
    }

    /// The octets of the address in a fresh vector.
    pub fn octets(&self) -> (r: Vec<u8>)
        ensures
            r@ == self@,
    {
        let mut r: Vec<u8> = Vec::new();
        match self {
            IpAddrBytes::V4(ip) => {
                r.extend_from_slice(ip.0.as_slice());
            },
            IpAddrBytes::V6(ip) => {
                r.extend_from_slice(ip.0.as_slice());
            },
        }
        r
    }
}

/// Whether two info hashes or peer ids hold the same bytes.
pub fn bytes_equal(a: &[u8; 20], b: &[u8; 20]) -> (r: bool)
    ensures
        r == (a@ == b@),
{
    let mut i: usize = 0;
    while i < 20
        invariant
            i <= 20,
            forall|j: int| 0 <= j < i ==> a@[j] == b@[j],
        decreases 20 - i,
    {
        if a[i] != b[i] {
            return false;
        }
        i = i + 1;
    }
    assert(a@ =~= b@);
    true
}

/// What a peer reports about its download in an announce request.
#[derive(Clone, Copy, Debug, PartialEq, Eq, Hash, Structural)]
pub enum AnnounceEvent {
    /// A regular announce that reports no change.
    NoEvent,
    Completed,
    Started,
    Stopped,
}

impl AnnounceEvent {
    /// The number that stands for the event on the wire.
    pub open spec fn spec_to_i32(self) -> i32 {
        match self {
            AnnounceEvent::NoEvent => 0,
            AnnounceEvent::Completed => 1,
            AnnounceEvent::Started => 2,
            AnnounceEvent::Stopped => 3,
        }
    }

    /// The event that a number on the wire stands for, if any.
    pub open spec fn spec_from_i32(value: i32) -> Option<AnnounceEvent> {
        if value == 0 {
            Some(AnnounceEvent::NoEvent)
        } else if value == 1 {
            Some(AnnounceEvent::Completed)
        } else if value == 2 {
            Some(AnnounceEvent::Started)
        } else if value == 3 {
            Some(AnnounceEvent::Stopped)
        } else {
            None
        }
    }

    #[verifier::when_used_as_spec(spec_to_i32)]
    pub fn to_i32(self) -> (r: i32)
        ensures
            r == self.spec_to_i32(),
    {
        match self {
            AnnounceEvent::NoEvent => 0,
            AnnounceEvent::Completed => 1,
            AnnounceEvent::Started => 2,
            AnnounceEvent::Stopped => 3,
        }
    }

    /// Reads an event number; the numbers 0 to 3 are events, no other is.
    pub fn from_i32(value: i32) -> (r: Option<AnnounceEvent>)
        ensures
            r == Self::spec_from_i32(value),
    {
        if value == 0 {
            Some(AnnounceEvent::NoEvent)
        } else if value == 1 {
            Some(AnnounceEvent::Completed)
        } else if value == 2 {
            Some(AnnounceEvent::Started)
        } else if value == 3 {
            Some(AnnounceEvent::Stopped)
        } else {
            None
        }
    }

    /// Every event is the reading of its own number.
    pub proof fn lemma_number_round_trip(self)
        ensures
            Self::spec_from_i32(self.spec_to_i32()) == Some(self),
    {
    }
}

/// A peer as an IPv4 announce response lists it.
#[derive(Clone, Copy, Debug, PartialEq, Eq)]
pub struct ResponsePeerIpv4 {
    pub ip_address: Ipv4AddrBytes,
    pub port: Port,
}

/// A peer as an IPv6 announce response lists it.
#[derive(Clone, Copy, Debug, PartialEq, Eq)]
pub struct ResponsePeerIpv6 {
    pub ip_address: Ipv6AddrBytes,
    pub port: Port,
}

/// A listed peer as plain values: the octets of its address and its port.
pub struct ResponsePeerView {
    pub ip: Seq<u8>,
    pub port: u16,
}

impl View for ResponsePeerIpv4 {
    type V = ResponsePeerView;

    open spec fn view(&self) -> ResponsePeerView {
        ResponsePeerView { ip: self.ip_address@, port: self.port.0 }
    }
}

impl View for ResponsePeerIpv6 {
    type V = ResponsePeerView;

    open spec fn view(&self) -> ResponsePeerView {
        ResponsePeerView { ip: self.ip_address@, port: self.port.0 }
    }
}

/// Role of a peer in a swarm, as derived from its last announce.
#[derive(Clone, Copy, Debug, PartialEq, Eq, Hash, Structural)]
pub enum PeerStatus {
    Seeding,
    Leeching,
    Stopped,
}

impl PeerStatus {
    /// Status that an announce with this event and this many bytes left
    /// gives its sender: stopped wins, then zero bytes left means seeding.
    pub open spec fn spec_from_event_and_bytes_left(
        event: AnnounceEvent,
        bytes_left: NumberOfBytes,
    ) -> PeerStatus {
        if event == AnnounceEvent::Stopped {
            PeerStatus::Stopped
        } else if bytes_left.0 == 0 {
            PeerStatus::Seeding
        } else {
            PeerStatus::Leeching
        }
    }

    /// Determine peer status from announce event and number of bytes left.
    ///
    /// Likely, the last branch will be taken most of the time.
    #[verifier::when_used_as_spec(spec_from_event_and_bytes_left)]
    pub fn from_event_and_bytes_left(event: AnnounceEvent, bytes_left: NumberOfBytes) -> (status:
        Self)
        ensures
            status == Self::spec_from_event_and_bytes_left(event, bytes_left),
    {
        if event == AnnounceEvent::Stopped {
            PeerStatus::Stopped
        } else if bytes_left.0 == 0 {
            PeerStatus::Seeding
        } else {
            PeerStatus::Leeching
        }
    }
}

} // verus!
