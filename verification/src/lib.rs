//! Request-handling core of a BitTorrent tracker that speaks the UDP
//! tracker protocol, HTTP and WebTorrent.
//!
//! - [`request`] and [`response`] hold the wire format of the UDP tracker
//!   protocol, on top of [`wire`] and [`common`].
//! - [`validator`] makes and checks connection ids without keeping any.
//! - [`swarm`] is one swarm, [`torrent_maps`] the swarms of one request
//!   worker, and [`handlers`] what such a worker does with a request.
//! - [`pending_scrape`] splits scrape requests over the request workers
//!   and puts their answers together.
//! - [`socket_worker`] decides what a socket worker does with a datagram
//!   and with a response; [`statistics`] counts what it has done.
//! - [`ws`], [`connection`] and [`http`] hold what the WebTorrent and the
//!   HTTP tracker decide.
//! - [`access_list`], [`config`], [`messages`], [`time`] and [`ordered`]
//!   serve the others.

pub mod access_list;
pub mod common;
pub mod config;
pub mod connection;
pub mod handlers;
pub mod http;
pub mod messages;
pub mod ordered;
pub mod pending_scrape;
pub mod request;
pub mod response;
pub mod socket_worker;
pub mod statistics;
pub mod swarm;
pub mod time;
pub mod torrent_maps;
pub mod validator;
pub mod wire;
pub mod ws;
