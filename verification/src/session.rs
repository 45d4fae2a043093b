//! One proxied connection, from its target to its last log line.

use vstd::prelude::*;

use crate::address;
use crate::address::IpAddress;
use crate::io;
use crate::io::{ConnLog, Counting, Side};
use crate::proxy;
use crate::proxy::{
    borrowed, split_authority, tunnel_established, tunnel_refused, uri_parts, TUNNEL_PORT,
};
use crate::socks;
use crate::socks::{reply, Request, REP_CONNECTION_REFUSED, REP_GENERAL_FAILURE, REP_SUCCESS};
use crate::stats;
use crate::stats::{EndpointId, EndpointStats, Registry};
use crate::text;
use crate::text::{push_decimal, same_text};

verus! {

/// A connection to a host, counted in a cell of a [`Registry`].
#[derive(Debug)]
pub struct Session {
    /// The host that is connected to.
    pub host: String,
    /// Its port.
    pub port: u16,
    /// The cell that traffic goes to.
    pub cell: EndpointId,
    /// The logger, in verbose mode.
    pub log: Option<ConnLog>,
}

/// A host and port as they are logged and asked for.
pub open spec fn target_text(host: Seq<char>, port: u16) -> Seq<char> {
    host + ":"@ + text::decimal(port as nat)
}

/// Writes a host and port as they are logged and asked for.
pub fn target(host: &str, port: u16) -> (r: String)
    ensures
        r@ == target_text(host@, port),
{
    let mut out: String = host.to_owned();
    out.append(":");
    push_decimal(&mut out, port as u128);
    out
}

/// Creates a verbose logger for a new connection, or `None` when not in verbose mode.
pub fn conn_log(registry: &mut Registry, verbose: bool, to: &str) -> (r: Option<ConnLog>)
    requires
        verbose ==> old(registry).conn_id() < u64::MAX,
    ensures
        stats::same_endpoints(*old(registry), *final(registry)),
        final(registry).in_flight() == old(registry).in_flight(),
        !verbose ==> r is None && final(registry).conn_id() == old(registry).conn_id(),
        verbose ==> {
            &&& final(registry).conn_id() == old(registry).conn_id() + 1
            &&& r matches Some(log) && log.id() == final(registry).conn_id() && log.target() == to@
        },
{
    if verbose {
        let id: u64 = registry.next_conn_id();
        Some(ConnLog::new(id, to))
    } else {
        None
    }
}

/// How a try to connect ended.
#[derive(Debug, Clone, Copy)]
pub enum Attempt {
    /// The connection is open, to the given address if it could be told.
    Open(Option<IpAddress>),
    /// The remote host refused the connection.
    Refused,
    /// There is no connection for another reason.
    Failed,
}

/// Counters after a connection was opened.
pub open spec fn with_connection(s: EndpointStats, peer: Option<IpAddress>) -> EndpointStats {
    EndpointStats {
        ip: if s.ip is Some {
            s.ip
        } else {
            peer
        },
        connections: s.connections.wrapping_add(1),
        ..s
    }
}

/// What a client on a `CONNECT` tunnel hears of the try to connect, and what is logged of it.
#[derive(Debug)]
pub struct TunnelAnswer {
    /// The bytes to send to the client, as ASCII.
    pub reply: &'static str,
    /// The line to log, if any.
    pub line: Option<String>,
    /// Whether the tunnel is open.
    pub open: bool,
}

/// What a SOCKS5 client hears of the try to connect, and what is logged of it.
#[derive(Debug)]
pub struct SocksAnswer {
    /// The bytes to send to the client.
    pub reply: Vec<u8>,
    /// The line to log, if any.
    pub line: Option<String>,
    /// Whether the tunnel is open.
    pub open: bool,
}

/// The SOCKS5 reply code for a try to connect.
pub open spec fn attempt_code(attempt: Attempt) -> u8 {
    match attempt {
        Attempt::Open(_) => REP_SUCCESS,
        Attempt::Refused => REP_CONNECTION_REFUSED,
        Attempt::Failed => REP_GENERAL_FAILURE,
    }
}

impl Session {
    /// What is logged when the connection to `peer` is open.
    pub open spec fn open_body(&self, peer: IpAddress) -> Seq<char> {
        "OPEN  -> "@ + target_text(self.host@, self.port) + " ("@ + address::ip_text(peer) + ")"@
    }

    /// Whether a session is what comes of asking for a host and port: the host is known from now
    /// on, and in verbose mode the connection has a number of its own.
    pub open spec fn begun(
        &self,
        before: Registry,
        after: Registry,
        verbose: bool,
        host: Seq<char>,
        port: u16,
    ) -> bool {
        &&& self.host@ == host
        &&& self.port == port
        &&& stats::looked_up(before, after, host, self.cell)
        &&& after.in_flight() == before.in_flight()
        &&& after.conn_id() == before.conn_id() + (if verbose {
            1int
        } else {
            0int
        })
        &&& self.log is Some <==> verbose
        &&& self.log matches Some(log) ==> log.id() == after.conn_id() && log.target()
            == target_text(host, port)
    }

    /// What a try to connect does to the counters and to the log: only an open connection is
    /// counted, and it is logged where its address is known.
    pub open spec fn attempted(
        &self,
        before: Registry,
        after: Registry,
        attempt: Attempt,
        line: Option<String>,
    ) -> bool {
        match attempt {
            Attempt::Open(peer) => {
                &&& io::cell_set(
                    before,
                    after,
                    self.cell,
                    with_connection(before.cells()[self.cell.index as int], peer),
                )
                &&& line is Some <==> self.log is Some && peer is Some
                &&& line matches Some(l) ==> self.log->0.logs(l@, self.open_body(peer->0))
            },
            _ => after == before && line is None,
        }
    }

    /// Begins a session with a host and port.
    pub fn begin(registry: &mut Registry, verbose: bool, host: String, port: u16) -> (r: Self)
        requires
            old(registry).wf(),
            verbose ==> old(registry).conn_id() < u64::MAX,
        ensures
            final(registry).wf(),
            r.begun(*old(registry), *final(registry), verbose, host@, port),
    {
        let cell: EndpointId = registry.endpoint(host.as_str());
        let ghost found = *registry;
        let to: String = target(host.as_str(), port);
        let log: Option<ConnLog> = conn_log(registry, verbose, to.as_str());
        assert(registry.held() =~= found.held());
        assert(registry@ =~= found@);
        Session { host, port, cell, log }
    }

    /// Begins a raw TCP tunnel to the target of a `CONNECT`.
    pub fn tunnel(registry: &mut Registry, verbose: bool, to: &str) -> (r: Self)
        requires
            old(registry).wf(),
            verbose ==> old(registry).conn_id() < u64::MAX,
        ensures
            final(registry).wf(),
            r.begun(
                *old(registry),
                *final(registry),
                verbose,
                proxy::authority_parts(to@, TUNNEL_PORT).0,
                proxy::authority_parts(to@, TUNNEL_PORT).1,
            ),
    {
        let (host, port) = split_authority(to, TUNNEL_PORT);
        Session::begin(registry, verbose, host, port)
    }

    /// Begins a tunnel to the destination of a SOCKS5 request.
    pub fn socks(registry: &mut Registry, verbose: bool, request: Request) -> (r: Self)
        requires
            old(registry).wf(),
            verbose ==> old(registry).conn_id() < u64::MAX,
        ensures
            final(registry).wf(),
            r.begun(*old(registry), *final(registry), verbose, request.host@, request.port),
    {
        Session::begin(registry, verbose, request.host, request.port)
    }

    /// Begins a connection for forwarded HTTP to an authority, on the port that the scheme stands
    /// for if it names none. Without an authority there is nowhere to connect to.
    pub fn upstream_parts(
        registry: &mut Registry,
        verbose: bool,
        scheme: Option<&str>,
        authority: Option<&str>,
    ) -> (r: Option<Self>)
        requires
            old(registry).wf(),
            verbose ==> old(registry).conn_id() < u64::MAX,
        ensures
            final(registry).wf(),
            upstream_begun(
                r,
                *old(registry),
                *final(registry),
                verbose,
                text::of_str(scheme),
                text::of_str(authority),
            ),
    {
        match authority {
            None => None,
            Some(a) => {
                let default_port: u16 = match scheme {
                    Some(s) => if same_text(s, "https") {
                        443
                    } else {
                        80
                    },
                    None => 80,
                };
                let (host, port) = split_authority(a, default_port);
                Some(Session::begin(registry, verbose, host, port))
            },
        }
    }

    /// Begins a connection for forwarded HTTP to the authority of a URI, on the port that its
    /// scheme stands for if it names none. Without an authority there is nowhere to connect to.
    pub fn upstream(registry: &mut Registry, verbose: bool, uri: &str) -> (r: Option<Self>)
        requires
            old(registry).wf(),
            verbose ==> old(registry).conn_id() < u64::MAX,
        ensures
            final(registry).wf(),
            upstream_begun(
                r,
                *old(registry),
                *final(registry),
                verbose,
                proxy::parts_of(proxy::parsed_uri(uri@)).0,
                proxy::parts_of(proxy::parsed_uri(uri@)).1,
            ),
    {
        let parts = uri_parts(uri);
        Session::upstream_parts(
            registry,
            verbose,
            borrowed(&parts.scheme),
            borrowed(&parts.authority),
        )
    }

    /// Takes note of how the try to connect ended; in verbose mode, returns the line to log.
    pub fn connected(&self, registry: &mut Registry, attempt: Attempt) -> (line: Option<String>)
        requires
            old(registry).wf(),
            old(registry).issued(self.cell),
        ensures
            final(registry).wf(),
            self.attempted(*old(registry), *final(registry), attempt, line),
    {
        let peer: Option<IpAddress> = match attempt {
            Attempt::Open(peer) => peer,
            _ => {
                return None;
            },
        };
        let cell: &mut EndpointStats = registry.stats_mut(self.cell);
        if let Some(ip) = peer {
            cell.observe_ip(ip);
        }
        cell.add_connection();
        match (&self.log, peer) {
            (Some(log), Some(ip)) => {
                let mut body: String = "OPEN  -> ".to_owned();
                body.append(target(self.host.as_str(), self.port).as_str());
                body.append(" (");
                body.append(ip.to_string().as_str());
                body.append(")");
                Some(log.event(body.as_str()))
            },
            _ => None,
        }
    }

    /// Answers a `CONNECT`: the tunnel is open, or the gateway is bad.
    pub fn answer_tunnel(&self, registry: &mut Registry, attempt: Attempt) -> (r: TunnelAnswer)
        requires
            old(registry).wf(),
            old(registry).issued(self.cell),
        ensures
            final(registry).wf(),
            self.attempted(*old(registry), *final(registry), attempt, r.line),
            r.open == (attempt is Open),
            r.reply@ == (if attempt is Open {
                "HTTP/1.1 200 Connection Established\r\n\r\n"@
            } else {
                "HTTP/1.1 502 Bad Gateway\r\nContent-Length: 0\r\n\r\n"@
            }),
    {
        let line: Option<String> = self.connected(registry, attempt);
        match attempt {
            Attempt::Open(_) => TunnelAnswer { reply: tunnel_established(), line, open: true },
            _ => TunnelAnswer { reply: tunnel_refused(), line, open: false },
        }
    }

    /// Answers a SOCKS5 `CONNECT`: with success, or with the reason as far as a code tells it.
    pub fn answer_socks(&self, registry: &mut Registry, attempt: Attempt) -> (r: SocksAnswer)
        requires
            old(registry).wf(),
            old(registry).issued(self.cell),
        ensures
            final(registry).wf(),
            self.attempted(*old(registry), *final(registry), attempt, r.line),
            r.open == (attempt is Open),
            r.reply@ == seq![
                socks::VERSION,
                attempt_code(attempt),
                0u8,
                socks::ATYP_IPV4,
                0u8,
                0u8,
                0u8,
                0u8,
                0u8,
                0u8,
            ],
    {
        let line: Option<String> = self.connected(registry, attempt);
        match attempt {
            Attempt::Open(_) => SocksAnswer { reply: reply(REP_SUCCESS), line, open: true },
            Attempt::Refused => SocksAnswer {
                reply: reply(REP_CONNECTION_REFUSED),
                line,
                open: false,
            },
            Attempt::Failed => SocksAnswer {
                reply: reply(REP_GENERAL_FAILURE),
                line,
                open: false,
            },
        }
    }

    /// Counts what crosses `stream`, which is one end of this connection.
    pub fn counting<S>(&self, stream: S, side: Side) -> (r: Counting<S>)
        ensures
            r.stream() == stream,
            r.cell() == self.cell,
            r.end() == side,
            r.logger() is Some <==> self.log is Some,
            self.log matches Some(log) ==> r.logger()->0.id() == log.id() && r.logger()->0.target()
                == log.target(),
    {
        let log: Option<ConnLog> = match &self.log {
            Some(log) => Some(log.clone()),
            None => None,
        };
        Counting::new(stream, self.cell, side, log)
    }

    /// In verbose mode, the line to log when the connection is closed, with what the host has
    /// sent and received by then.
    pub fn closed(&self, registry: &Registry) -> (line: Option<String>)
        requires
            registry.issued(self.cell),
        ensures
            line is Some <==> self.log is Some,
            line matches Some(l) ==> self.log->0.logs(
                l@,
                close_body(registry.cells()[self.cell.index as int]),
            ),
    {
        match &self.log {
            None => None,
            Some(log) => {
                let cell: &EndpointStats = registry.stats(self.cell);
                let mut body: String = "CLOSE -> Total Rx: ".to_owned();
                push_decimal(&mut body, cell.ingress() as u128);
                body.append(" bytes | Total Tx: ");
                push_decimal(&mut body, cell.egress() as u128);
                body.append(" bytes");
                Some(log.event(body.as_str()))
            },
        }
    }
}

/// What is logged when a connection is closed.
pub open spec fn close_body(s: EndpointStats) -> Seq<char> {
    "CLOSE -> Total Rx: "@ + text::decimal(s.ingress as nat) + " bytes | Total Tx: "@
        + text::decimal(s.egress as nat) + " bytes"@
}

/// The port of a URI that names none.
pub open spec fn scheme_port(scheme: Option<Seq<char>>) -> u16 {
    if scheme == Some("https"@) {
        443
    } else {
        80
    }
}

/// What comes of asking for an authority: a session with its host and port, or nothing.
pub open spec fn upstream_begun(
    r: Option<Session>,
    before: Registry,
    after: Registry,
    verbose: bool,
    scheme: Option<Seq<char>>,
    authority: Option<Seq<char>>,
) -> bool {
    match authority {
        None => r is None && after == before,
        Some(a) => {
            let (host, port) = proxy::authority_parts(a, scheme_port(scheme));
            r matches Some(session) && session.begun(before, after, verbose, host, port)
        },
    }
}

} // verus!
