//! What an operator can set.

use crate::access_list::AccessListConfig;
use crate::access_list::AccessListMode;
use crate::common::IpAddrBytes;
use crate::common::Ipv4AddrBytes;
use crate::common::SocketAddrBytes;
use vstd::prelude::*;

verus! {

#[derive(Clone, Debug)]
pub struct Config {
    /// Socket workers receive requests from the socket, parse them and send
    /// them on to the request workers. They then receive responses from the
    /// request workers, encode them and send them back over the socket.
    pub socket_workers: usize,
    /// Request workers receive a number of requests from socket workers,
    /// generate responses and send them back to the socket workers.
    pub request_workers: usize,
    pub network: NetworkConfig,
    pub protocol: ProtocolConfig,
    pub handlers: HandlerConfig,
    pub statistics: StatisticsConfig,
    pub cleaning: CleaningConfig,
    pub access_list: AccessListConfig,
}

#[derive(Clone, Debug)]
pub struct NetworkConfig {
    /// Bind to this address
    pub address: SocketAddrBytes,
    /// Only allow access over IPv6
    pub only_ipv6: bool,
    /// Size of socket recv buffer. Use 0 for OS default.
    pub socket_recv_buffer_size: usize,
    pub tcp_backlog: i32,
    pub poll_event_capacity: usize,
    pub poll_timeout_ms: u64,
    /// Number of responses that may wait to be sent again after the
    /// socket refused them for want of room. Use 0 to drop them at once.
    pub resend_buffer_max_len: usize,
    /// Keep connections of the HTTP tracker open between requests
    pub keep_alive: bool,
    pub response_buffer_max_pending_time_ms: u64,
}

#[derive(Clone, Debug)]
pub struct ProtocolConfig {
    /// Maximum number of torrents to accept in scrape request
    pub max_scrape_torrents: u8,
    /// Maximum number of peers to return in announce response
    pub max_response_peers: usize,
    /// Ask peers to announce this often (seconds)
    pub peer_announce_interval: i32,
    /// Maximum number of offers to accept in announce request
    pub max_offers: usize,
}

#[derive(Clone, Debug)]
pub struct HandlerConfig {
    /// Maximum number of requests to receive from channel before
    /// starting work
    pub max_requests_per_iter: usize,
    pub channel_recv_timeout_microseconds: u64,
}

#[derive(Clone, Debug)]
pub struct StatisticsConfig {
    /// Print statistics this often (seconds). Don't print when set to zero.
    pub interval: u64,
}

#[derive(Clone, Debug)]
pub struct CleaningConfig {
    /// Clean connections this often (seconds)
    pub connection_cleaning_interval: u64,
    /// Clean torrents this often (seconds)
    pub torrent_cleaning_interval: u64,
    /// Clean pending scrape responses this often (seconds)
    pub pending_scrape_cleaning_interval: u64,
    /// Remove connections that are older than this (seconds)
    pub max_connection_age: u64,
    /// Close connections that have been idle for this long (seconds)
    pub max_connection_idle: u64,
    /// Remove peers that haven't announced for this long (seconds)
    pub max_peer_age: u64,
    /// Remove pending scrape responses that have not been completed
    /// for this long (seconds)
    pub max_pending_scrape_age: u64,
}

impl Config {
    /// Whether there is at least one worker of each kind.
    pub open spec fn spec_valid(&self) -> bool {
        self.socket_workers >= 1 && self.request_workers >= 1
    }

    #[verifier::when_used_as_spec(spec_valid)]
    pub fn valid(&self) -> (r: bool)
        ensures
            r == self.spec_valid(),
    {
        self.socket_workers >= 1 && self.request_workers >= 1
    }
}

impl NetworkConfig {
    /// Whether a client with an address of the given family can reach
    /// the socket and be answered through it. A socket bound to an IPv4
    /// address serves IPv4 clients only. One bound to an IPv6 address
    /// serves IPv6 clients, and IPv4 clients too unless it is set to
    /// IPv6 only.
    pub open spec fn spec_serves(&self, client_is_ipv4: bool) -> bool {
        if self.address.ip.spec_is_ipv4() {
            client_is_ipv4
        } else {
            !client_is_ipv4 || !self.only_ipv6
        }
    }

    #[verifier::when_used_as_spec(spec_serves)]
    pub fn serves(&self, client_is_ipv4: bool) -> (r: bool)
        ensures
            r == self.spec_serves(client_is_ipv4),
    {
        if self.address.ip.is_ipv4() {
            client_is_ipv4
        } else {
            !client_is_ipv4 || !self.only_ipv6
        }
    }
}

impl StatisticsConfig {
    pub open spec fn spec_active(&self) -> bool {
        self.interval != 0
    }

    /// Whether statistics are gathered at all.
    #[verifier::when_used_as_spec(spec_active)]
    pub fn active(&self) -> (r: bool)
        ensures
            r == self.spec_active(),
    {
        self.interval != 0
    }
}

impl Default for Config {
    fn default() -> (config: Self)
        ensures
            config.spec_valid(),
            config.socket_workers == 1,
            config.request_workers == 1,
            config.protocol.max_scrape_torrents == 255,
            config.protocol.max_response_peers == 255,
            config.protocol.peer_announce_interval == 900,
            config.cleaning.max_peer_age == 1200,
            config.cleaning.max_connection_age == 300,
            config.access_list.mode == AccessListMode::Off,
            config.statistics.interval == 0,
    {
        Config {
            socket_workers: 1,
            request_workers: 1,
            network: NetworkConfig::default(),
            protocol: ProtocolConfig::default(),
            handlers: HandlerConfig::default(),
            statistics: StatisticsConfig::default(),
            cleaning: CleaningConfig::default(),
            access_list: AccessListConfig::default(),
        }
    }
}

impl Default for NetworkConfig {
    fn default() -> (config: Self)
        ensures
            config.address.ip.spec_is_ipv4(),
            config.address.ip@ == seq![0u8, 0u8, 0u8, 0u8],
            config.address.port == 3000,
            !config.only_ipv6,
            config.socket_recv_buffer_size == 4096 * 128,
            config.tcp_backlog == 1024,
            config.poll_event_capacity == 4096,
            config.poll_timeout_ms == 50,
            config.resend_buffer_max_len == 0,
            config.keep_alive,
            config.response_buffer_max_pending_time_ms == 1,
    {
        let octets = [0u8; 4];
        assert(octets@ =~= seq![0u8, 0u8, 0u8, 0u8]);
        NetworkConfig {
            address: SocketAddrBytes { ip: IpAddrBytes::V4(Ipv4AddrBytes(octets)), port: 3000 },
            only_ipv6: false,
            socket_recv_buffer_size: 4096 * 128,
            tcp_backlog: 1024,
            poll_event_capacity: 4096,
            poll_timeout_ms: 50,
            resend_buffer_max_len: 0,
            keep_alive: true,
            response_buffer_max_pending_time_ms: 1,
        }
    }
}

impl Default for ProtocolConfig {
    fn default() -> (config: Self)
        ensures
            config.max_scrape_torrents == 255,
            config.max_response_peers == 255,
            config.peer_announce_interval == 60 * 15,
            config.max_offers == 10,
    {
        ProtocolConfig {
            max_scrape_torrents: 255,
            max_response_peers: 255,
            peer_announce_interval: 60 * 15,
            max_offers: 10,
        }
    }
}

impl Default for HandlerConfig {
    fn default() -> (config: Self)
        ensures
            config.max_requests_per_iter == 10000,
            config.channel_recv_timeout_microseconds == 200,
    {
        HandlerConfig { max_requests_per_iter: 10000, channel_recv_timeout_microseconds: 200 }
    }
}

impl Default for StatisticsConfig {
    fn default() -> (config: Self)
        ensures
            config.interval == 0,
            !config.spec_active(),
    {
        StatisticsConfig { interval: 0 }
    }
}

impl Default for CleaningConfig {
    fn default() -> (config: Self)
        ensures
            config.connection_cleaning_interval == 60,
            config.torrent_cleaning_interval == 60 * 2,
            config.pending_scrape_cleaning_interval == 60 * 2,
            config.max_connection_age == 60 * 5,
            config.max_connection_idle == 60 * 5,
            config.max_peer_age == 60 * 20,
            config.max_pending_scrape_age == 60,
    {
        CleaningConfig {
            connection_cleaning_interval: 60,
            torrent_cleaning_interval: 60 * 2,
            pending_scrape_cleaning_interval: 60 * 2,
            max_connection_age: 60 * 5,
            max_connection_idle: 60 * 5,
            max_peer_age: 60 * 20,
            max_pending_scrape_age: 60,
        }
    }
}

} // verus!
