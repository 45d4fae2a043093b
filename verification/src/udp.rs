//! SOCKS5 UDP relay ([RFC 1928 §7](https://www.rfc-editor.org/rfc/rfc1928#section-7)).
//!
//! A client that asks for `UDP ASSOCIATE` stops sending datagrams to the destination and starts
//! sending them here instead, wrapped in a small header naming the real destination. That makes
//! the relay the only place UDP bytes are visible to this tool — so it forwards them and counts
//! them, rather than refusing and risking breaking a client that would otherwise have worked.
//!
//! Two sockets are involved: one facing the client (whose address is advertised in the
//! handshake reply) and one facing the internet. Payload bytes are counted; the relay header is
//! proxy overhead and excluded, matching how the TCP paths treat their handshakes.
//!
//! Only what the client routes through here can be counted. A client that sends QUIC straight
//! to a destination never asks for a relay and stays invisible.
//!
//! [`Relay`] decides what to do with a datagram; whoever holds the sockets does it and says how
//! it went. Failures of single datagrams are logged (in verbose mode) and skipped rather than
//! ending the association: UDP is lossy by definition, and one undeliverable datagram says
//! nothing about the next.

use vstd::prelude::*;

use crate::address;
use crate::address::{IpAddress, SocketAddress};
use crate::io;
use crate::io::ConnLog;
use crate::session;
use crate::session::target;
use crate::socks;
use crate::socks::{encode_datagram, parse_datagram, Datagram};
use crate::stats;
use crate::stats::{EndpointId, EndpointStats, Registry};
use crate::table::{HostPort, Table};
use crate::text;
use crate::text::push_decimal;

verus! {

/// Maximum datagram this relay will handle, header included.
pub const MAX_DATAGRAM: usize = 65535;

/// A live UDP association for one SOCKS5 control connection.
#[derive(Debug)]
pub struct Relay {
    /// Cells per destination host, so that a destination counts as one connection.
    endpoints: Table<String, EndpointId>,
    /// Resolved destinations, so that names are resolved once per association.
    resolved: Table<HostPort, SocketAddress>,
    /// The host name that the client used for an address.
    names: Table<IpAddress, String>,
    /// Where the client sends from.
    client_addr: Option<SocketAddress>,
    log: Option<ConnLog>,
}

/// A datagram on its way to its destination.
#[derive(Debug)]
pub struct Sending<'a> {
    /// What the client sent.
    pub datagram: Datagram<'a>,
    /// The address of the destination.
    pub to: SocketAddress,
    /// The cell of the destination host.
    pub cell: EndpointId,
}

/// What to do with a datagram of the client.
#[derive(Debug)]
pub enum Outward<'a> {
    /// Nothing but log the line, if any.
    Dropped(Option<String>),
    /// Resolve the destination, and hand the answer to [`Relay::found`].
    Resolve(Datagram<'a>),
    /// Send the payload, and say how it went to [`Relay::sent`].
    Send(Sending<'a>),
}

/// What the resolver made of a destination.
#[derive(Debug)]
pub enum Resolution {
    /// An address.
    Address(SocketAddress),
    /// No address.
    Nothing,
    /// An error, as it describes itself.
    Failed(String),
}

/// A datagram on its way back to the client.
#[derive(Debug)]
pub struct Inward {
    /// The client.
    pub to: SocketAddress,
    /// The host that the datagram is from, as the client calls it.
    pub host: String,
    /// The cell of that host.
    pub cell: EndpointId,
}

/// Counters after one more connection.
pub open spec fn one_more(s: EndpointStats) -> EndpointStats {
    EndpointStats { connections: s.connections.wrapping_add(1), ..s }
}

/// How a registry changes when an association meets a new destination: the host is looked up,
/// and counts one more connection.
pub open spec fn entered(before: Registry, after: Registry, host: Seq<char>, id: EndpointId) -> bool {
    &&& stats::same_connections(before, after)
    &&& after.wf()
    &&& after.knows(host)
    &&& after.id_of(host) == id
    &&& after.issued(id)
    &&& before.knows(host) ==> {
        &&& id == before.id_of(host)
        &&& after.names() == before.names()
        &&& after.ids() == before.ids()
        &&& after.cells() == before.cells().update(
            id.index as int,
            one_more(before.cells()[id.index as int]),
        )
    }
    &&& !before.knows(host) ==> {
        &&& id.index == before.cells().len()
        &&& after.names() == before.names().push(host)
        &&& after.ids() == before.ids().push(id.index)
        &&& after.cells() == before.cells().push(one_more(stats::no_traffic()))
    }
}

/// What is logged of a datagram that cannot be read.
pub open spec fn dropped_body(err: socks::DatagramError) -> Seq<char> {
    "UDP   -- dropped datagram: "@ + socks::datagram_error_text(err)
}

/// What is logged of a destination that cannot be resolved.
pub open spec fn unresolved_body(host: Seq<char>, port: u16, err: Seq<char>) -> Seq<char> {
    "UDP   -- cannot resolve "@ + session::target_text(host, port) + ": "@ + err
}

/// What is logged of a datagram that was sent.
pub open spec fn sent_body(n: nat, host: Seq<char>, port: u16) -> Seq<char> {
    "UDP   -> "@ + text::decimal(n) + " bytes "@ + session::target_text(host, port)
}

/// What is logged of a datagram that could not be sent.
pub open spec fn unsent_body(to: SocketAddress, err: Seq<char>) -> Seq<char> {
    "UDP   -- send to "@ + address::socket_text(to) + " failed: "@ + err
}

/// What is logged of a datagram that was handed back to the client.
pub open spec fn returned_body(n: nat, host: Seq<char>) -> Seq<char> {
    "UDP   <- "@ + text::decimal(n) + " bytes "@ + host
}

/// What is logged of a datagram that could not be handed back to the client.
pub open spec fn unreturned_body(err: Seq<char>) -> Seq<char> {
    "UDP   -- reply to client failed: "@ + err
}

impl Relay {
    /// The cells of the destinations met so far.
    pub closed spec fn cells(&self) -> Map<Seq<char>, EndpointId> {
        self.endpoints@
    }

    /// The addresses of the destinations resolved so far.
    pub closed spec fn addresses(&self) -> Map<(Seq<char>, u16), SocketAddress> {
        self.resolved@
    }

    /// The host names of the addresses sent to so far.
    pub closed spec fn hosts(&self) -> Map<IpAddress, Seq<char>> {
        self.names@.map_values(|name: String| name@)
    }

    /// Where the client sends from.
    pub closed spec fn client(&self) -> Option<SocketAddress> {
        self.client_addr
    }

    /// The logger, in verbose mode.
    pub closed spec fn logger(&self) -> Option<ConnLog> {
        self.log
    }

    /// The tables are sound.
    pub closed spec fn wf(&self) -> bool {
        &&& self.endpoints.wf()
        &&& self.resolved.wf()
        &&& self.names.wf()
    }

    /// Every cell that the relay knows is one of the registry's.
    pub open spec fn belongs(&self, registry: Registry) -> bool {
        forall|host: Seq<char>|
            self.cells().contains_key(host) ==> registry.issued(#[trigger] self.cells()[host])
    }

    /// Whether `line` is what is logged of an event: a line in verbose mode, else nothing.
    pub open spec fn notes(&self, line: Option<String>, body: Seq<char>) -> bool {
        &&& line is Some <==> self.logger() is Some
        &&& self.logger() matches Some(log) ==> log.logs(line->0@, body)
    }

    /// The host that a datagram from `ip` is attributed to: the name that the client used, or
    /// else the address.
    pub open spec fn host_of(&self, ip: IpAddress) -> Seq<char> {
        if self.hosts().contains_key(ip) {
            self.hosts()[ip]
        } else {
            address::ip_text(ip)
        }
    }

    /// An association that has seen no datagram.
    pub fn new(log: Option<ConnLog>) -> (r: Self)
        ensures
            r.wf(),
            r.cells() == Map::<Seq<char>, EndpointId>::empty(),
            r.addresses() == Map::<(Seq<char>, u16), SocketAddress>::empty(),
            r.hosts() == Map::<IpAddress, Seq<char>>::empty(),
            r.client() is None,
            r.logger() == log,
    {
        let r = Relay {
            endpoints: Table::new(),
            resolved: Table::new(),
            names: Table::new(),
            client_addr: None,
            log,
        };
        assert(r.hosts() =~= Map::<IpAddress, Seq<char>>::empty());
        r
    }

    /// Logs a relay-level note, in verbose mode only.
    fn note(&self, message: &str) -> (line: Option<String>)
        ensures
            self.notes(line, message@),
    {
        match &self.log {
            Some(log) => Some(log.event(message)),
            None => None,
        }
    }

    /// Whether a datagram is on its way to an address: its host has a cell, which counts one
    /// connection more where the association had not met the host before.
    pub open spec fn sends(
        &self,
        before: Relay,
        reg_before: Registry,
        reg_after: Registry,
        sending: Sending<'_>,
        d: socks::Relayed,
        to: SocketAddress,
    ) -> bool {
        &&& sending.datagram@ == d
        &&& sending.to == to
        &&& self.meets(before, reg_before, reg_after, d.host, sending.cell)
    }

    /// How an association and its registry change when a host is met: a host that was met before
    /// changes nothing, another is entered in the registry.
    pub open spec fn meets(
        &self,
        before: Relay,
        reg_before: Registry,
        reg_after: Registry,
        host: Seq<char>,
        cell: EndpointId,
    ) -> bool {
        &&& reg_after.issued(cell)
        &&& self.cells() == before.cells().insert(host, cell)
        &&& before.cells().contains_key(host) ==> reg_after == reg_before && cell
            == before.cells()[host]
        &&& !before.cells().contains_key(host) ==> entered(reg_before, reg_after, host, cell)
    }

    /// Unwraps a client datagram and finds out where its payload is to be sent.
    ///
    /// The client is from now on where this datagram came from.
    pub fn from_client<'a>(
        &mut self,
        registry: &mut Registry,
        addr: SocketAddress,
        raw: &'a [u8],
    ) -> (r: Outward<'a>)
        requires
            old(self).wf(),
            old(registry).wf(),
            old(self).belongs(*old(registry)),
        ensures
            final(self).wf(),
            final(registry).wf(),
            final(self).belongs(*final(registry)),
            final(self).addresses() == old(self).addresses(),
            final(self).hosts() == old(self).hosts(),
            final(self).client() == Some(addr),
            final(self).logger() == old(self).logger(),
            match socks::relayed(raw@) {
                Err(err) => {
                    &&& r matches Outward::Dropped(line) && old(self).notes(line, dropped_body(err))
                    &&& final(self).cells() == old(self).cells()
                    &&& *final(registry) == *old(registry)
                },
                Ok(d) => if old(self).addresses().contains_key((d.host, d.port)) {
                    r matches Outward::Send(sending) && final(self).sends(
                        *old(self),
                        *old(registry),
                        *final(registry),
                        sending,
                        d,
                        old(self).addresses()[(d.host, d.port)],
                    )
                } else {
                    &&& r matches Outward::Resolve(datagram) && datagram@ == d
                    &&& final(self).cells() == old(self).cells()
                    &&& *final(registry) == *old(registry)
                },
            },
    {
        self.client_addr = Some(addr);
        assert(self.cells() == old(self).cells());
        match parse_datagram(raw) {
            Err(err) => {
                let mut message: String = "UDP   -- dropped datagram: ".to_owned();
                message.append(err.to_string().as_str());
                Outward::Dropped(self.note(message.as_str()))
            },
            Ok(datagram) => {
                let key = HostPort { host: datagram.host.clone(), port: datagram.port };
                let known: Option<SocketAddress> = match self.resolved.get(&key) {
                    Some(to) => Some(*to),
                    None => None,
                };
                match known {
                    Some(to) => {
                        let cell: EndpointId = self.endpoint(registry, datagram.host.as_str());
                        Outward::Send(Sending { datagram, to, cell })
                    },
                    None => Outward::Resolve(datagram),
                }
            },
        }
    }

    /// Takes what the resolver made of the destination of a datagram, and caches its address.
    /// Without an address the datagram is dropped.
    pub fn found<'a>(
        &mut self,
        registry: &mut Registry,
        datagram: Datagram<'a>,
        answer: Resolution,
    ) -> (r: Outward<'a>)
        requires
            old(self).wf(),
            old(registry).wf(),
            old(self).belongs(*old(registry)),
        ensures
            final(self).wf(),
            final(registry).wf(),
            final(self).belongs(*final(registry)),
            final(self).hosts() == old(self).hosts(),
            final(self).client() == old(self).client(),
            final(self).logger() == old(self).logger(),
            match answer {
                Resolution::Address(to) => {
                    &&& r matches Outward::Send(sending) && final(self).sends(
                        *old(self),
                        *old(registry),
                        *final(registry),
                        sending,
                        datagram@,
                        to,
                    )
                    &&& final(self).addresses() == old(self).addresses().insert(
                        (datagram.host@, datagram.port),
                        to,
                    )
                },
                Resolution::Nothing => {
                    &&& r == Outward::<'a>::Dropped(None)
                    &&& final(self).addresses() == old(self).addresses()
                    &&& final(self).cells() == old(self).cells()
                    &&& *final(registry) == *old(registry)
                },
                Resolution::Failed(err) => {
                    &&& r matches Outward::Dropped(line) && old(self).notes(
                        line,
                        unresolved_body(datagram.host@, datagram.port, err@),
                    )
                    &&& final(self).addresses() == old(self).addresses()
                    &&& final(self).cells() == old(self).cells()
                    &&& *final(registry) == *old(registry)
                },
            },
    {
        match answer {
            Resolution::Address(to) => {
                self.resolved.insert(
                    HostPort { host: datagram.host.clone(), port: datagram.port },
                    to,
                );
                assert(self.cells() == old(self).cells());
                let cell: EndpointId = self.endpoint(registry, datagram.host.as_str());
                Outward::Send(Sending { datagram, to, cell })
            },
            Resolution::Nothing => Outward::Dropped(None),
            Resolution::Failed(err) => {
                let mut message: String = "UDP   -- cannot resolve ".to_owned();
                message.append(target(datagram.host.as_str(), datagram.port).as_str());
                message.append(": ");
                message.append(err.as_str());
                Outward::Dropped(self.note(message.as_str()))
            },
        }
    }

    /// Returns the cell of `host`, counting a new destination as a new connection.
    ///
    /// There is one "connection" per destination host in an association: UDP has none of its
    /// own, and this keeps the CONNS column meaningful next to the TCP rows.
    fn endpoint(&mut self, registry: &mut Registry, host: &str) -> (id: EndpointId)
        requires
            old(self).wf(),
            old(registry).wf(),
            old(self).belongs(*old(registry)),
        ensures
            final(self).wf(),
            final(registry).wf(),
            final(self).belongs(*final(registry)),
            final(self).addresses() == old(self).addresses(),
            final(self).hosts() == old(self).hosts(),
            final(self).client() == old(self).client(),
            final(self).logger() == old(self).logger(),
            final(self).meets(*old(self), *old(registry), *final(registry), host@, id),
    {
        let key: String = host.to_owned();
        let known: Option<EndpointId> = match self.endpoints.get(&key) {
            Some(id) => Some(*id),
            None => None,
        };
        if let Some(id) = known {
            assert(self.cells() =~= old(self).cells().insert(host@, id));
            return id;
        }
        let id: EndpointId = registry.endpoint(host);
        registry.stats_mut(id).add_connection();
        self.endpoints.insert(key, id);
        proof {
            assert forall|other: Seq<char>|
                self.cells().contains_key(other) implies registry.issued(
                #[trigger] self.cells()[other],
            ) by {
                if other != host@ {
                    assert(old(self).cells().contains_key(other));
                    assert(old(registry).issued(old(self).cells()[other]));
                }
            }
            if !old(registry).knows(host@) {
                assert(registry.cells() =~= old(registry).cells().push(
                    one_more(stats::no_traffic()),
                ));
            }
        }
        id
    }

    /// Counts a datagram that was sent to its destination: its bytes go to the host, and replies
    /// from the address will be attributed to the name. Returns what to log.
    pub fn sent(
        &mut self,
        registry: &mut Registry,
        sending: &Sending<'_>,
        outcome: Result<usize, String>,
    ) -> (line: Option<String>)
        requires
            old(self).wf(),
            old(registry).wf(),
            old(registry).issued(sending.cell),
        ensures
            final(self).wf(),
            final(registry).wf(),
            final(self).cells() == old(self).cells(),
            final(self).addresses() == old(self).addresses(),
            final(self).client() == old(self).client(),
            final(self).logger() == old(self).logger(),
            match outcome {
                Ok(n) => {
                    &&& io::cell_set(
                        *old(registry),
                        *final(registry),
                        sending.cell,
                        bytes_sent(old(registry).cells()[sending.cell.index as int], n as u64, sending.to.ip),
                    )
                    &&& final(self).hosts() == old(self).hosts().insert(sending.to.ip, sending.datagram.host@)
                    &&& final(self).host_of(sending.to.ip) == sending.datagram.host@
                    &&& old(self).notes(line, sent_body(n as nat, sending.datagram.host@, sending.datagram.port))
                },
                Err(err) => {
                    &&& *final(registry) == *old(registry)
                    &&& final(self).hosts() == old(self).hosts()
                    &&& old(self).notes(line, unsent_body(sending.to, err@))
                },
            },
    {
        match outcome {
            Ok(n) => {
                let stats: &mut EndpointStats = registry.stats_mut(sending.cell);
                stats.add_egress(n as u64);
                stats.observe_ip(sending.to.ip);
                self.names.insert(sending.to.ip, sending.datagram.host.clone());
                assert(self.hosts() =~= old(self).hosts().insert(sending.to.ip, sending.datagram.host@));
                let mut message: String = "UDP   -> ".to_owned();
                push_decimal(&mut message, n as u128);
                message.append(" bytes ");
                message.append(target(sending.datagram.host.as_str(), sending.datagram.port).as_str());
                self.note(message.as_str())
            },
            Err(err) => {
                let mut message: String = "UDP   -- send to ".to_owned();
                message.append(sending.to.to_string().as_str());
                message.append(" failed: ");
                message.append(err.as_str());
                self.note(message.as_str())
            },
        }
    }

    /// Wraps a reply from the internet for the client, in `scratch`. Without a client there is
    /// nowhere to reply to.
    pub fn from_upstream(
        &mut self,
        registry: &mut Registry,
        from: SocketAddress,
        payload: &[u8],
        scratch: &mut Vec<u8>,
    ) -> (r: Option<Inward>)
        requires
            old(self).wf(),
            old(registry).wf(),
            old(self).belongs(*old(registry)),
        ensures
            final(self).wf(),
            final(registry).wf(),
            final(self).belongs(*final(registry)),
            final(self).addresses() == old(self).addresses(),
            final(self).hosts() == old(self).hosts(),
            final(self).client() == old(self).client(),
            final(self).logger() == old(self).logger(),
            match old(self).client() {
                None => {
                    &&& r is None
                    &&& *final(registry) == *old(registry)
                    &&& final(self).cells() == old(self).cells()
                    &&& final(scratch)@ == old(scratch)@
                },
                Some(client) => {
                    let host = old(self).host_of(from.ip);
                    &&& r matches Some(back) && {
                        &&& back.to == client
                        &&& back.host@ == host
                        &&& final(self).meets(
                            *old(self),
                            *old(registry),
                            *final(registry),
                            host,
                            back.cell,
                        )
                    }
                    &&& final(scratch)@ == socks::wrapped(from, payload@)
                },
            },
    {
        let to: SocketAddress = match self.client_addr {
            Some(to) => to,
            None => {
                return None;
            },
        };
        let host: String = match self.names.get(&from.ip) {
            Some(name) => name.clone(),
            None => from.ip.to_string(),
        };
        let cell: EndpointId = self.endpoint(registry, host.as_str());
        encode_datagram(from, payload, scratch);
        Some(Inward { to, host, cell })
    }

    /// Counts a datagram of `n` bytes that was handed back to the client. Returns what to log.
    pub fn returned(
        &self,
        registry: &mut Registry,
        back: &Inward,
        n: usize,
        outcome: Result<(), String>,
    ) -> (line: Option<String>)
        requires
            old(registry).wf(),
            old(registry).issued(back.cell),
        ensures
            final(registry).wf(),
            match outcome {
                Ok(_) => {
                    &&& io::cell_set(
                        *old(registry),
                        *final(registry),
                        back.cell,
                        io::with_bytes(
                            old(registry).cells()[back.cell.index as int],
                            true,
                            n as u64,
                        ),
                    )
                    &&& self.notes(line, returned_body(n as nat, back.host@))
                },
                Err(err) => {
                    &&& *final(registry) == *old(registry)
                    &&& self.notes(line, unreturned_body(err@))
                },
            },
    {
        match outcome {
            Ok(_) => {
                registry.stats_mut(back.cell).add_ingress(n as u64);
                let mut message: String = "UDP   <- ".to_owned();
                push_decimal(&mut message, n as u128);
                message.append(" bytes ");
                message.append(back.host.as_str());
                self.note(message.as_str())
            },
            Err(err) => {
                let mut message: String = "UDP   -- reply to client failed: ".to_owned();
                message.append(err.as_str());
                self.note(message.as_str())
            },
        }
    }
}

/// Counters after `n` bytes were sent to an address.
pub open spec fn bytes_sent(s: EndpointStats, n: u64, ip: IpAddress) -> EndpointStats {
    EndpointStats {
        egress: s.egress.wrapping_add(n),
        ip: if s.ip is Some {
            s.ip
        } else {
            Some(ip)
        },
        ..s
    }
}

} // verus!
