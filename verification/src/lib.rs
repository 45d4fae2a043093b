//! Byte-accurate network accounting for an arbitrary child process.
//!
//! An ephemeral HTTP/HTTPS-`CONNECT` and SOCKS5 proxy runs on loopback. Any process configured to
//! use it (via the standard `HTTP_PROXY`/`HTTPS_PROXY`/`ALL_PROXY` environment variables) has
//! every byte it sends and receives counted per remote endpoint, without TLS interception:
//! `CONNECT` requests and SOCKS5 connections become raw TCP tunnels, so the byte totals are exact
//! wire counts rather than decoded payload sizes.
//!
//! The crate holds what such a proxy decides and computes, with contracts that say what comes of
//! every input: the counters ([`stats`]), the wire formats ([`socks`], [`proxy`]), what a
//! connection does to the counters ([`session`], [`io`], [`udp`]), names and addresses ([`dns`],
//! [`literal`]), and the report ([`report`], [`run`]). Sockets, processes and clocks belong to whoever uses it.
//!
//! The modules [`accounting`], [`conservation`], [`effects`], [`filters`], [`heads`], [`layout`],
//! [`naming`], [`notation`], [`numerals`], [`ranking`], [`requests`], [`transfers`] and [`wire`]
//! state the laws that hold across all of this.

pub mod accounting;
pub mod address;
pub mod conservation;
pub mod dns;
pub mod effects;
pub mod filters;
pub mod heads;
pub mod io;
pub mod layout;
pub mod literal;
pub mod naming;
pub mod notation;
pub mod numerals;
pub mod proxy;
pub mod ranking;
pub mod report;
pub mod requests;
pub mod rounding;
pub mod run;
pub mod session;
pub mod socks;
pub mod stats;
pub mod sums;
pub mod table;
pub mod text;
pub mod transfers;
pub mod udp;
pub mod wire;
