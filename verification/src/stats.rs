//! Per-endpoint byte counters.
//!
//! Counters live in cells of the [`Registry`], and a connection holds the [`EndpointId`] of its
//! cell for as long as it lasts. A host name leads to its cell until the name is given up; the
//! cell itself never moves.

use vstd::prelude::*;

use crate::address::IpAddress;
use crate::table::Table;
use crate::text;
use crate::text::{chars_of, leading_run, lower_chars, same_chars, same_text, text_less, trimmed_len};

verus! {

/// Live counters for a single remote endpoint (one host, all its connections).
#[derive(Debug)]
pub struct EndpointStats {
    /// Bytes received so far.
    pub ingress: u64,
    /// Bytes sent so far.
    pub egress: u64,
    /// Connections opened so far.
    pub connections: u64,
    /// First remote address observed for this host, if any.
    pub ip: Option<IpAddress>,
}

/// Counters that nothing was recorded in.
pub open spec fn no_traffic() -> EndpointStats {
    EndpointStats { ingress: 0, egress: 0, connections: 0, ip: None }
}

/// What is left of two endpoints when `gone` is folded into `kept`: the counters add up, and the
/// address of `kept` wins if it has one.
pub open spec fn folded(kept: EndpointStats, gone: EndpointStats) -> EndpointStats {
    EndpointStats {
        ingress: kept.ingress.wrapping_add(gone.ingress),
        egress: kept.egress.wrapping_add(gone.egress),
        connections: kept.connections.wrapping_add(gone.connections),
        ip: if kept.ip is Some {
            kept.ip
        } else {
            gone.ip
        },
    }
}

impl Default for EndpointStats {
    fn default() -> (r: Self)
        ensures
            r == no_traffic(),
    {
        EndpointStats { ingress: 0, egress: 0, connections: 0, ip: None }
    }
}

impl EndpointStats {
    /// Records `n` bytes received from the remote endpoint.
    pub fn add_ingress(&mut self, n: u64)
        ensures
            *final(self) == (EndpointStats {
                ingress: old(self).ingress.wrapping_add(n),
                ..*old(self)
            }),
    {
        self.ingress = self.ingress.wrapping_add(n);
    }

    /// Records `n` bytes sent to the remote endpoint.
    pub fn add_egress(&mut self, n: u64)
        ensures
            *final(self) == (EndpointStats {
                egress: old(self).egress.wrapping_add(n),
                ..*old(self)
            }),
    {
        self.egress = self.egress.wrapping_add(n);
    }

    /// Records that one more connection was opened to this endpoint.
    pub fn add_connection(&mut self)
        ensures
            *final(self) == (EndpointStats {
                connections: old(self).connections.wrapping_add(1),
                ..*old(self)
            }),
    {
        self.connections = self.connections.wrapping_add(1);
    }

    /// Remembers the resolved address of this endpoint; the first address observed wins.
    pub fn observe_ip(&mut self, addr: IpAddress)
        ensures
            *final(self) == (EndpointStats {
                ip: if old(self).ip is Some {
                    old(self).ip
                } else {
                    Some(addr)
                },
                ..*old(self)
            }),
    {
        if self.ip.is_none() {
            self.ip = Some(addr);
        }
    }

    /// Bytes received from this endpoint so far.
    pub fn ingress(&self) -> (n: u64)
        ensures
            n == self.ingress,
    {
        self.ingress
    }

    /// Bytes sent to this endpoint so far.
    pub fn egress(&self) -> (n: u64)
        ensures
            n == self.egress,
    {
        self.egress
    }

    /// Connections opened to this endpoint so far.
    pub fn connections(&self) -> (n: u64)
        ensures
            n == self.connections,
    {
        self.connections
    }

    /// Resolved address of this endpoint, if one was observed.
    pub fn ip(&self) -> (r: Option<IpAddress>)
        ensures
            r == self.ip,
    {
        self.ip
    }
}

/// Immutable point-in-time view of one endpoint's counters, as reported.
#[derive(Debug, Clone, PartialEq, Eq)]
pub struct Endpoint {
    /// Hostname from the `CONNECT` target or request URI, or a reverse-resolved name.
    pub domain: String,
    /// Remote address the connections actually went to.
    pub ip_address: Option<IpAddress>,
    /// Bytes received from this endpoint.
    pub ingress_bytes: u64,
    /// Bytes sent to this endpoint.
    pub egress_bytes: u64,
    /// Connections opened to this endpoint.
    pub connections: u64,
    /// Whether this endpoint satisfies the domain filter (always `true` when no filter was
    /// given).
    pub matches_filter: bool,
}

/// What an [`Endpoint`] reports.
pub struct Row {
    /// The host name.
    pub domain: Seq<char>,
    /// The remote address.
    pub ip_address: Option<IpAddress>,
    /// Bytes received.
    pub ingress_bytes: u64,
    /// Bytes sent.
    pub egress_bytes: u64,
    /// Connections opened.
    pub connections: u64,
    /// Whether the filter covers the host.
    pub matches_filter: bool,
}

impl View for Endpoint {
    type V = Row;

    open spec fn view(&self) -> Row {
        Row {
            domain: self.domain@,
            ip_address: self.ip_address,
            ingress_bytes: self.ingress_bytes,
            egress_bytes: self.egress_bytes,
            connections: self.connections,
            matches_filter: self.matches_filter,
        }
    }
}

/// What a list of endpoints reports.
pub open spec fn rows_of(endpoints: Seq<Endpoint>) -> Seq<Row> {
    Seq::new(endpoints.len(), |i: int| endpoints[i]@)
}

/// The order of the report: most bytes received first, then most bytes sent, then by name.
pub open spec fn ranks_before(a: Row, b: Row) -> bool {
    ||| a.ingress_bytes > b.ingress_bytes
    ||| a.ingress_bytes == b.ingress_bytes && a.egress_bytes > b.egress_bytes
    ||| a.ingress_bytes == b.ingress_bytes && a.egress_bytes == b.egress_bytes
        && text::lex_less(a.domain, b.domain)
}

/// Every row ranks before all the rows that follow it.
pub open spec fn ranked(rows: Seq<Row>) -> bool {
    forall|i: int, j: int| 0 <= i < j < rows.len() ==> ranks_before(rows[i], rows[j])
}

/// `text` without the run of `*.` at its start.
pub open spec fn without_wildcards(text: Seq<char>) -> Seq<char>
    decreases text.len(),
{
    if text.len() >= 2 && text[0] == '*' && text[1] == '.' {
        without_wildcards(text.skip(2))
    } else {
        text
    }
}

/// The name that a filter asks for: wildcards and outer dots removed, in lower case.
pub open spec fn filter_name(filter: Seq<char>) -> Seq<char> {
    text::lowered(
        text::trim_end(text::trim_start(without_wildcards(filter), '.'), '.'),
    )
}

/// The name that a domain is compared by: final dots removed, in lower case.
pub open spec fn domain_name(domain: Seq<char>) -> Seq<char> {
    text::lowered(text::trim_end(domain, '.'))
}

/// Whether `domain` is covered by `filter`: the same name, or a name below it, on a label
/// boundary. No filter, and a filter that asks for no name, cover everything.
pub open spec fn falls_under(domain: Seq<char>, filter: Option<Seq<char>>) -> bool {
    match filter {
        None => true,
        Some(f) => {
            let wanted = filter_name(f);
            let name = domain_name(domain);
            wanted.len() == 0 || name == wanted || text::ends_with(
                name,
                seq!['.'] + wanted,
            )
        },
    }
}

fn wildcard_prefix(chars: &[char]) -> (n: usize)
    ensures
        n <= chars@.len(),
        chars@.skip(n as int) == without_wildcards(chars@),
{
    let mut n: usize = 0;
    assert(chars@.skip(0) =~= chars@);
    while chars.len() - n >= 2 && chars[n] == '*' && chars[n + 1] == '.'
        invariant
            n <= chars@.len(),
            without_wildcards(chars@.skip(n as int)) == without_wildcards(chars@),
        decreases chars@.len() - n,
    {
        assert(chars@.skip(n as int).skip(2) =~= chars@.skip(n + 2));
        n += 2;
    }
    n
}

/// Returns whether `domain` falls under `filter`, treated as a domain suffix.
///
/// A `None` filter matches everything, which is what makes "no filter" and "filter that matches
/// all" behave identically in the report.
pub fn matches_domain(domain: &str, filter: Option<&str>) -> (r: bool)
    ensures
        r == falls_under(domain@, text::of_str(filter)),
{
    let filter: &str = match filter {
        Some(f) => f,
        None => {
            return true;
        },
    };
    let domain_chars = chars_of(domain);
    let domain_len: usize = trimmed_len(domain_chars.as_slice(), '.');
    let name = lower_chars(&domain_chars.as_slice()[0..domain_len]);
    assert(domain_chars@.subrange(0, domain_len as int) =~= domain_chars@.take(domain_len as int));

    let filter_chars = chars_of(filter);
    let stars: usize = wildcard_prefix(filter_chars.as_slice());
    let rest: &[char] = &filter_chars.as_slice()[stars..filter_chars.len()];
    assert(rest@ =~= filter_chars@.skip(stars as int));
    let dots: usize = leading_run(rest, '.');
    let rest: &[char] = &rest[dots..rest.len()];
    let kept: usize = trimmed_len(rest, '.');
    let wanted = lower_chars(&rest[0..kept]);
    proof {
        assert(rest@ =~= without_wildcards(filter_chars@).skip(dots as int));
        assert(rest@.subrange(0, kept as int) =~= rest@.take(kept as int));
        assert(wanted@ == filter_name(filter@));
        assert(name@ == domain_name(domain@));
    }
    if wanted.len() == 0 {
        return true;
    }
    if same_chars(name.as_slice(), wanted.as_slice()) {
        return true;
    }
    if name.len() <= wanted.len() {
        return false;
    }
    let cut: usize = name.len() - wanted.len();
    let tail: &[char] = &name.as_slice()[cut..name.len()];
    let boundary: bool = name[cut - 1] == '.';
    let same: bool = same_chars(tail, wanted.as_slice());
    proof {
        let suffix = seq!['.'] + wanted@;
        let end = name@.skip(name@.len() - suffix.len());
        assert(end[0] == name@[cut - 1]);
        assert(end.skip(1) =~= tail@);
        assert(suffix.skip(1) =~= wanted@);
        if boundary && same {
            assert(end =~= suffix);
        }
    }
    boundary && same
}

/// The number of a counter cell in a [`Registry`].
#[derive(Debug, Clone, Copy, PartialEq, Eq)]
pub struct EndpointId {
    /// Position of the cell.
    pub index: usize,
}

/// All endpoints seen during a run, keyed by hostname.
#[derive(Debug)]
pub struct Registry {
    hosts: Table<String, usize>,
    cells: Vec<EndpointStats>,
    open_connections: u64,
    last_conn_id: u64,
}

/// Proof that a connection is being counted as in flight.
#[derive(Debug)]
pub struct OpenGuard {
    token: (),
}

impl Registry {
    /// The host names, in the order in which they were first seen.
    pub closed spec fn names(&self) -> Seq<Seq<char>> {
        self.hosts.keys()
    }

    /// The cell of each host name.
    pub closed spec fn ids(&self) -> Seq<usize> {
        self.hosts.values()
    }

    /// The counter cells.
    pub closed spec fn cells(&self) -> Seq<EndpointStats> {
        self.cells@
    }

    /// How many connections are in flight.
    pub closed spec fn in_flight(&self) -> u64 {
        self.open_connections
    }

    /// The connection number that was handed out last.
    pub closed spec fn conn_id(&self) -> u64 {
        self.last_conn_id
    }

    /// No name occurs twice, and every name has a cell that no other name has.
    pub open spec fn wf(&self) -> bool {
        &&& self.names().no_duplicates()
        &&& self.names().len() == self.ids().len()
        &&& self.ids().no_duplicates()
        &&& forall|i: int| 0 <= i < self.ids().len() ==> #[trigger] self.ids()[i] < self.cells().len()
    }

    /// Whether a host was seen.
    pub open spec fn knows(&self, host: Seq<char>) -> bool {
        self.names().contains(host)
    }

    /// The cell of a known host.
    pub open spec fn id_of(&self, host: Seq<char>) -> EndpointId {
        EndpointId { index: self.ids()[self.names().index_of(host)] }
    }

    /// Whether `id` names a cell of this registry.
    pub open spec fn issued(&self, id: EndpointId) -> bool {
        id.index < self.cells().len()
    }

    /// The counters of each host, in the order of the names.
    pub open spec fn held(&self) -> Seq<EndpointStats> {
        Seq::new(self.names().len(), |i: int| self.cells()[self.ids()[i] as int])
    }

    /// The counters by host name.
    pub open spec fn view(&self) -> Map<Seq<char>, EndpointStats> {
        Map::new(
            |host: Seq<char>| self.knows(host),
            |host: Seq<char>| self.held()[self.names().index_of(host)],
        )
    }

    /// What the report says of the host at position `i`.
    pub open spec fn row(&self, i: int, filter: Option<Seq<char>>) -> Row {
        Row {
            domain: self.names()[i],
            ip_address: self.held()[i].ip,
            ingress_bytes: self.held()[i].ingress,
            egress_bytes: self.held()[i].egress,
            connections: self.held()[i].connections,
            matches_filter: falls_under(self.names()[i], filter),
        }
    }

    /// What the report says of every host.
    pub open spec fn rows(&self, filter: Option<Seq<char>>) -> Seq<Row> {
        Seq::new(self.names().len(), |i: int| self.row(i, filter))
    }
}

/// Whether two registries hold the same names and counters.
pub open spec fn same_endpoints(a: Registry, b: Registry) -> bool {
    &&& a.names() == b.names()
    &&& a.ids() == b.ids()
    &&& a.cells() == b.cells()
}

/// Whether two registries agree on connections in flight and on connection numbers.
pub open spec fn same_connections(a: Registry, b: Registry) -> bool {
    &&& a.in_flight() == b.in_flight()
    &&& a.conn_id() == b.conn_id()
}

/// How looking up `host` may change the endpoints of a registry: a new host gets a fresh cell, a
/// known one keeps its own, and `id` is the cell.
pub open spec fn looked_up(
    before: Registry,
    after: Registry,
    host: Seq<char>,
    id: EndpointId,
) -> bool {
    &&& after.wf()
    &&& after.knows(host)
    &&& after.id_of(host) == id
    &&& after.issued(id)
    &&& before.knows(host) ==> same_endpoints(before, after)
    &&& !before.knows(host) ==> {
        &&& id.index == before.cells().len()
        &&& after.names() == before.names().push(host)
        &&& after.ids() == before.ids().push(id.index)
        &&& after.cells() == before.cells().push(no_traffic())
        &&& after@ == before@.insert(host, no_traffic())
    }
}

/// How renaming `from` to `to` changes a registry. The name `from` is given up; a host that was
/// already called `to` takes its counters over, and otherwise the cell goes on under `to`.
pub open spec fn renamed(
    before: Registry,
    after: Registry,
    from: Seq<char>,
    to: Seq<char>,
) -> bool {
    let i = before.names().index_of(from);
    let gone = before.held()[i];
    &&& same_connections(before, after)
    &&& if from == to || !before.knows(from) {
        same_endpoints(before, after)
    } else if before.knows(to) {
        &&& after.names() == before.names().remove(i)
        &&& after.ids() == before.ids().remove(i)
        &&& after.cells() == before.cells().update(
            before.id_of(to).index as int,
            folded(before@[to], gone),
        )
        &&& after@ == before@.remove(from).insert(to, folded(before@[to], gone))
    } else {
        &&& after.names() == before.names().remove(i).push(to)
        &&& after.ids() == before.ids().remove(i).push(before.id_of(from).index)
        &&& after.cells() == before.cells()
        &&& after@ == before@.remove(from).insert(to, gone)
    }
}

impl Registry {
    /// Creates an empty registry.
    pub fn new() -> (r: Self)
        ensures
            r.wf(),
            r.names() == Seq::<Seq<char>>::empty(),
            r.ids() == Seq::<usize>::empty(),
            r.cells() == Seq::<EndpointStats>::empty(),
            r@ == Map::<Seq<char>, EndpointStats>::empty(),
            r.in_flight() == 0,
            r.conn_id() == 0,
    {
        let r = Registry {
            hosts: Table::new(),
            cells: Vec::new(),
            open_connections: 0,
            last_conn_id: 0,
        };
        assert(r@ =~= Map::<Seq<char>, EndpointStats>::empty());
        r
    }

    /// Returns the cell of `host`, creating it on first sight.
    ///
    /// The returned handle should be held for the lifetime of a connection so that the data path
    /// never looks the name up again.
    pub fn endpoint(&mut self, host: &str) -> (id: EndpointId)
        requires
            old(self).wf(),
        ensures
            looked_up(*old(self), *final(self), host@, id),
            same_connections(*old(self), *final(self)),
    {
        let key: String = host.to_owned();
        match self.hosts.find(&key) {
            Some(i) => EndpointId { index: *self.hosts.value_at(i) },
            None => {
                let index: usize = self.cells.len();
                self.cells.push(EndpointStats::default());
                self.hosts.insert(key, index);
                proof {
                    let n = old(self).names().len() as int;
                    assert(self.names()[n] == host@);
                    assert(self.names().index_of(host@) == n);
                    assert forall|other: Seq<char>| other != host@ implies {
                        &&& self.knows(other) == old(self).knows(other)
                        &&& old(self).knows(other) ==> self@[other] == old(self)@[other]
                    } by {
                        if old(self).knows(other) {
                            assert(self.names()[old(self).names().index_of(other)] == other);
                        }
                        if self.knows(other) {
                            assert(old(self).names()[self.names().index_of(other)] == other);
                        }
                    }
                    assert(self@ =~= old(self)@.insert(host@, no_traffic()));
                }
                EndpointId { index }
            },
        }
    }

    /// Whether `id` names a cell of this registry.
    pub fn has(&self, id: EndpointId) -> (r: bool)
        ensures
            r == self.issued(id),
    {
        id.index < self.cells.len()
    }

    /// The counters of a cell.
    pub fn stats(&self, id: EndpointId) -> (r: &EndpointStats)
        requires
            self.issued(id),
        ensures
            *r == self.cells()[id.index as int],
    {
        &self.cells[id.index]
    }

    /// The counters of a cell, to be added to.
    pub fn stats_mut(&mut self, id: EndpointId) -> (r: &mut EndpointStats)
        requires
            old(self).wf(),
            old(self).issued(id),
        ensures
            *r == old(self).cells()[id.index as int],
            final(self).cells() == old(self).cells().update(id.index as int, *final(r)),
            final(self).names() == old(self).names(),
            final(self).ids() == old(self).ids(),
            same_connections(*old(self), *final(self)),
            final(self).wf(),
    {
        &mut self.cells[id.index]
    }

    /// Whether another connection number can be handed out.
    pub fn can_number(&self) -> (r: bool)
        ensures
            r == (self.conn_id() < u64::MAX),
    {
        self.last_conn_id < u64::MAX
    }

    /// Allocates a monotonically increasing connection id for verbose logging.
    pub fn next_conn_id(&mut self) -> (id: u64)
        requires
            old(self).conn_id() < u64::MAX,
        ensures
            id == old(self).conn_id() + 1,
            final(self).conn_id() == id,
            final(self).in_flight() == old(self).in_flight(),
            same_endpoints(*old(self), *final(self)),
    {
        self.last_conn_id = self.last_conn_id + 1;
        self.last_conn_id
    }

    /// Marks a connection as in flight until its guard is handed to [`Registry::release`].
    pub fn track_open(&mut self) -> (guard: OpenGuard)
        ensures
            final(self).in_flight() == old(self).in_flight().wrapping_add(1),
            final(self).conn_id() == old(self).conn_id(),
            same_endpoints(*old(self), *final(self)),
    {
        self.open_connections = self.open_connections.wrapping_add(1);
        OpenGuard { token: () }
    }

    /// Ends the flight of a connection.
    pub fn release(&mut self, guard: OpenGuard)
        ensures
            final(self).in_flight() == old(self).in_flight().wrapping_sub(1),
            final(self).conn_id() == old(self).conn_id(),
            same_endpoints(*old(self), *final(self)),
    {
        self.open_connections = self.open_connections.wrapping_sub(1);
    }

    /// Number of connections currently in flight. Used to drain tunnels after the child exits.
    pub fn open_connections(&self) -> (n: u64)
        ensures
            n == self.in_flight(),
    {
        self.open_connections
    }

    /// Renames an endpoint recorded under a bare IP address to a reverse-resolved hostname,
    /// merging into an existing entry for that hostname if one exists.
    pub fn rename(&mut self, from: &str, to: &str)
        requires
            old(self).wf(),
        ensures
            final(self).wf(),
            renamed(*old(self), *final(self), from@, to@),
    {
        if same_text(from, to) {
            return;
        }
        let from_key: String = from.to_owned();
        let to_key: String = to.to_owned();
        let i: usize = match self.hosts.find(&from_key) {
            Some(i) => i,
            None => {
                return;
            },
        };
        let gone: usize = self.hosts.remove_at(i);
        let ghost mid = *self;
        proof {
            names_after_removal(old(self).names(), i as int);
        }
        match self.hosts.find(&to_key) {
            Some(j) => {
                let kept: usize = *self.hosts.value_at(j);
                let ingress: u64 = self.cells[gone].ingress();
                let egress: u64 = self.cells[gone].egress();
                let connections: u64 = self.cells[gone].connections();
                let ip: Option<IpAddress> = self.cells[gone].ip();
                let stats: &mut EndpointStats = &mut self.cells[kept];
                stats.add_ingress(ingress);
                stats.add_egress(egress);
                stats.connections = stats.connections.wrapping_add(connections);
                if let Some(addr) = ip {
                    stats.observe_ip(addr);
                }
            },
            None => {
                self.hosts.insert(to_key, gone);
            },
        }
        proof {
            rename_gives_map(*old(self), *self, from@, to@);
        }
    }
}

proof fn names_after_removal(names: Seq<Seq<char>>, i: int)
    requires
        names.no_duplicates(),
        0 <= i < names.len(),
    ensures
        !names.remove(i).contains(names[i]),
        forall|other: Seq<char>| other != names[i] ==> names.remove(i).contains(other)
            == names.contains(other),
        forall|other: Seq<char>|
            #![trigger names.remove(i).index_of(other)]
            other != names[i] && names.contains(other) ==> names.index_of(other) == (if names.remove(
                i,
            ).index_of(other) < i {
                names.remove(i).index_of(other)
            } else {
                names.remove(i).index_of(other) + 1
            }),
{
    let rest = names.remove(i);
    assert forall|other: Seq<char>| other != names[i] implies rest.contains(other)
        == names.contains(other) by {
        if names.contains(other) {
            let j = names.index_of(other);
            if j < i {
                assert(rest[j] == other);
            } else {
                assert(rest[j - 1] == other);
            }
        }
        if rest.contains(other) {
            let j = rest.index_of(other);
            if j < i {
                assert(names[j] == other);
            } else {
                assert(names[j + 1] == other);
            }
        }
    }
    assert forall|other: Seq<char>|
        #![trigger rest.index_of(other)]
        other != names[i] && names.contains(other) implies names.index_of(other) == (if rest.index_of(
        other,
    ) < i {
        rest.index_of(other)
    } else {
        rest.index_of(other) + 1
    }) by {
        let j = rest.index_of(other);
        assert(rest[j] == other);
        if j < i {
            assert(names[j] == other);
        } else {
            assert(names[j + 1] == other);
        }
    }
}

proof fn rename_gives_map(before: Registry, after: Registry, from: Seq<char>, to: Seq<char>)
    requires
        before.wf(),
        before.knows(from),
        from != to,
        ({
            let i = before.names().index_of(from);
            let gone = before.held()[i];
            if before.knows(to) {
                &&& after.names() == before.names().remove(i)
                &&& after.ids() == before.ids().remove(i)
                &&& after.cells() == before.cells().update(
                    before.id_of(to).index as int,
                    folded(before@[to], gone),
                )
            } else {
                &&& after.names() == before.names().remove(i).push(to)
                &&& after.ids() == before.ids().remove(i).push(before.id_of(from).index)
                &&& after.cells() == before.cells()
            }
        }),
    ensures
        after.wf(),
        before.knows(to) ==> after@ == before@.remove(from).insert(
            to,
            folded(before@[to], before@[from]),
        ),
        !before.knows(to) ==> after@ == before@.remove(from).insert(to, before@[from]),
{
    let names = before.names();
    let i = names.index_of(from);
    let rest = names.remove(i);
    names_after_removal(names, i);
    if before.knows(to) {
        let expected = before@.remove(from).insert(to, folded(before@[to], before@[from]));
        assert forall|other: Seq<char>| after.knows(other) implies after@[other]
            == expected[other] by {
            let j = rest.index_of(other);
            let home = names.index_of(other);
            assert(after.ids()[j] == before.ids()[home]);
            assert(before.ids()[home] == before.ids()[names.index_of(to)] ==> home
                == names.index_of(to));
        }
        assert(after@ =~= expected);
    } else {
        let expected = before@.remove(from).insert(to, before@[from]);
        let n = rest.len() as int;
        assert(after.names()[n] == to);
        assert(!rest.contains(to));
        assert(after.names().index_of(to) == n);
        assert forall|other: Seq<char>| other != to implies after.knows(other) == rest.contains(
            other,
        ) by {
            if rest.contains(other) {
                assert(after.names()[rest.index_of(other)] == other);
            }
            if after.knows(other) {
                assert(rest[after.names().index_of(other)] == other);
            }
        }
        assert forall|other: Seq<char>| after.knows(other) implies after@[other]
            == expected[other] by {
            if other != to {
                let j = after.names().index_of(other);
                assert(rest[j] == other);
                assert(rest.index_of(other) == j) by {
                    assert(rest[rest.index_of(other)] == other);
                    assert(after.names()[rest.index_of(other)] == other);
                }
                assert(after.ids()[j] == before.ids()[names.index_of(other)]);
            }
        }
        assert(after@ =~= expected);
    }
}

impl Default for Registry {
    fn default() -> (r: Self)
        ensures
            r.wf(),
            r.names() == Seq::<Seq<char>>::empty(),
            r.cells() == Seq::<EndpointStats>::empty(),
            r.in_flight() == 0,
            r.conn_id() == 0,
    {
        Registry::new()
    }
}

impl Registry {
    /// Hosts recorded so far, paired with their cells.
    pub fn hosts(&self) -> (r: Vec<(String, EndpointId)>)
        requires
            self.wf(),
        ensures
            r@.len() == self.names().len(),
            forall|i: int|
                0 <= i < r@.len() ==> (#[trigger] r@[i]).0@ == self.names()[i] && r@[i].1.index
                    == self.ids()[i],
    {
        let mut out: Vec<(String, EndpointId)> = Vec::new();
        let mut i: usize = 0;
        while i < self.hosts.len()
            invariant
                self.wf(),
                i <= self.names().len(),
                out@.len() == i,
                forall|j: int|
                    0 <= j < i ==> (#[trigger] out@[j]).0@ == self.names()[j] && out@[j].1.index
                        == self.ids()[j],
            decreases self.names().len() - i,
        {
            let name: String = self.hosts.key_at(i).clone();
            let index: usize = *self.hosts.value_at(i);
            out.push((name, EndpointId { index }));
            i += 1;
        }
        out
    }

    /// Snapshots every endpoint, marking filter matches and sorting by ingress (descending).
    ///
    /// `filter` is matched as a domain suffix: `amazonaws.com` matches both `amazonaws.com` and
    /// `s3.us-east-1.amazonaws.com`, but not `notamazonaws.com`.
    pub fn snapshot(&self, filter: Option<&str>) -> (r: Vec<Endpoint>)
        requires
            self.wf(),
        ensures
            ranked(rows_of(r@)),
            rows_of(r@).to_multiset() == self.rows(text::of_str(filter)).to_multiset(),
    {
        let ghost rows = self.rows(text::of_str(filter));
        let mut out: Vec<Endpoint> = Vec::new();
        let hosts = self.hosts();
        let mut i: usize = 0;
        proof {
            assert(rows_of(out@) =~= rows.take(0));
        }
        while i < hosts.len()
            invariant
                self.wf(),
                rows == self.rows(text::of_str(filter)),
                hosts@.len() == self.names().len(),
                forall|j: int|
                    0 <= j < hosts@.len() ==> (#[trigger] hosts@[j]).0@ == self.names()[j]
                        && hosts@[j].1.index == self.ids()[j],
                i <= hosts@.len(),
                ranked(rows_of(out@)),
                rows_of(out@).to_multiset() == rows.take(i as int).to_multiset(),
            decreases hosts@.len() - i,
        {
            let stats: &EndpointStats = self.stats(hosts[i].1);
            let endpoint = Endpoint {
                matches_filter: matches_domain(hosts[i].0.as_str(), filter),
                ip_address: stats.ip(),
                ingress_bytes: stats.ingress(),
                egress_bytes: stats.egress(),
                connections: stats.connections(),
                domain: hosts[i].0.clone(),
            };
            let ghost sorted = rows_of(out@);
            let ghost row = endpoint@;
            proof {
                assert(row == rows[i as int]);
                assert(rows.take(i + 1) =~= rows.take(i as int).push(row));
                vstd::seq_lib::to_multiset_build(rows.take(i as int), row);
                sorted_rows_are_new(*self, text::of_str(filter), i as int, sorted);
            }
            let pos: usize = rank_position(&out, &endpoint);
            proof {
                insert_keeps_rank(sorted, pos as int, row);
            }
            out.insert(pos, endpoint);
            assert(rows_of(out@) =~= sorted.insert(pos as int, row));
            i += 1;
        }
        assert(rows.take(i as int) =~= rows);
        out
    }
}

fn endpoint_before(a: &Endpoint, b: &Endpoint) -> (r: bool)
    ensures
        r == ranks_before(a@, b@),
{
    if a.ingress_bytes != b.ingress_bytes {
        a.ingress_bytes > b.ingress_bytes
    } else if a.egress_bytes != b.egress_bytes {
        a.egress_bytes > b.egress_bytes
    } else {
        text_less(a.domain.as_str(), b.domain.as_str())
    }
}

fn rank_position(sorted: &Vec<Endpoint>, endpoint: &Endpoint) -> (pos: usize)
    ensures
        pos <= sorted@.len(),
        forall|j: int| 0 <= j < pos ==> ranks_before(#[trigger] rows_of(sorted@)[j], endpoint@),
        pos < sorted@.len() ==> !ranks_before(rows_of(sorted@)[pos as int], endpoint@),
{
    let mut pos: usize = 0;
    while pos < sorted.len() && endpoint_before(&sorted[pos], endpoint)
        invariant
            pos <= sorted@.len(),
            forall|j: int| 0 <= j < pos ==> ranks_before(#[trigger] rows_of(sorted@)[j], endpoint@),
        decreases sorted@.len() - pos,
    {
        pos += 1;
    }
    pos
}

proof fn sorted_rows_are_new(reg: Registry, filter: Option<Seq<char>>, i: int, sorted: Seq<Row>)
    requires
        reg.wf(),
        0 <= i < reg.names().len(),
        sorted.to_multiset() == reg.rows(filter).take(i).to_multiset(),
    ensures
        forall|j: int| 0 <= j < sorted.len() ==> (#[trigger] sorted[j]).domain != reg.names()[i],
{
    broadcast use vstd::seq_lib::group_to_multiset_ensures;

    let earlier = reg.rows(filter).take(i);
    assert forall|j: int| 0 <= j < sorted.len() implies (#[trigger] sorted[j]).domain
        != reg.names()[i] by {
        assert(sorted.contains(sorted[j]));
        assert(sorted.to_multiset().count(sorted[j]) > 0);
        assert(earlier.contains(sorted[j]));
        let k = choose|k: int| 0 <= k < earlier.len() && earlier[k] == sorted[j];
        assert(earlier[k].domain == reg.names()[k]);
    }
}

/// Of two rows with different names exactly one ranks before the other; ranking is transitive
/// and never circular.
pub proof fn ranking_is_a_total_order(a: Row, b: Row, c: Row)
    ensures
        !ranks_before(a, a),
        !(ranks_before(a, b) && ranks_before(b, a)),
        a.domain != b.domain ==> ranks_before(a, b) || ranks_before(b, a),
        ranks_before(a, b) && ranks_before(b, c) ==> ranks_before(a, c),
{
    text::lex_less_is_total(a.domain, b.domain);
    if text::lex_less(a.domain, b.domain) && text::lex_less(b.domain, c.domain) {
        text::lex_less_is_transitive(a.domain, b.domain, c.domain);
    }
}

proof fn insert_keeps_rank(sorted: Seq<Row>, pos: int, row: Row)
    requires
        ranked(sorted),
        0 <= pos <= sorted.len(),
        forall|j: int| 0 <= j < pos ==> ranks_before(#[trigger] sorted[j], row),
        pos < sorted.len() ==> !ranks_before(sorted[pos], row),
        forall|j: int| 0 <= j < sorted.len() ==> (#[trigger] sorted[j]).domain != row.domain,
    ensures
        ranked(sorted.insert(pos, row)),
        sorted.insert(pos, row).to_multiset() == sorted.to_multiset().insert(row),
{
    let out = sorted.insert(pos, row);
    assert forall|i: int, j: int| 0 <= i < j < out.len() implies ranks_before(out[i], out[j]) by {
        if i == pos {
            ranking_is_a_total_order(row, sorted[pos], sorted[j - 1]);
        } else if j == pos {
            assert(out[i] == sorted[i]);
        } else {
            let a = if i < pos {
                i
            } else {
                i - 1
            };
            let b = if j < pos {
                j
            } else {
                j - 1
            };
            assert(out[i] == sorted[a]);
            assert(out[j] == sorted[b]);
        }
    }
    vstd::seq_lib::to_multiset_insert(sorted, pos, row);
}

/// The order of the report is settled by the rows alone: ranked rows that are the same up to
/// order are the same in order. So neither the order in which hosts were first seen nor the
/// order in which they are walked shows in a snapshot.
pub proof fn ranking_is_unique(a: Seq<Row>, b: Seq<Row>)
    requires
        ranked(a),
        ranked(b),
        a.to_multiset() == b.to_multiset(),
    ensures
        a == b,
    decreases a.len(),
{
    broadcast use vstd::seq_lib::group_to_multiset_ensures;

    assert(a.to_multiset().len() == a.len());
    assert(b.to_multiset().len() == b.len());
    if a.len() > 0 {
        assert(a.contains(a[0]));
        assert(b.contains(b[0]));
        assert(a.to_multiset().count(a[0]) > 0);
        assert(b.to_multiset().count(b[0]) > 0);
        assert(b.contains(a[0]));
        assert(a.contains(b[0]));
        let i = choose|i: int| 0 <= i < b.len() && b[i] == a[0];
        let j = choose|j: int| 0 <= j < a.len() && a[j] == b[0];
        if a[0] != b[0] {
            assert(ranks_before(a[0], a[j]));
            assert(ranks_before(b[0], b[i]));
            ranking_is_a_total_order(a[0], b[0], a[0]);
        }
        assert(a.remove(0).to_multiset() == b.remove(0).to_multiset());
        ranking_is_unique(a.remove(0), b.remove(0));
        assert(a =~= seq![a[0]] + a.remove(0));
        assert(b =~= seq![b[0]] + b.remove(0));
    } else {
        assert(a =~= b);
    }
}

} // verus!
