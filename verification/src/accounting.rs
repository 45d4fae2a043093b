//! Laws that span a connection: what reaches the totals, and what does not.

use vstd::prelude::*;

use crate::address::IpAddress;
use crate::conservation;
use crate::io;
use crate::io::Counting;
use crate::session;
use crate::session::{Attempt, Session};
use crate::stats;
use crate::stats::{EndpointId, EndpointStats, Registry};
use crate::sums;
use crate::transfers;
use crate::transfers::Transfer;
use crate::udp;
use crate::udp::{Relay, Sending};

verus! {

proof fn total_after_change(
    before: Registry,
    after: Registry,
    id: EndpointId,
    s: EndpointStats,
    j: int,
    counter: spec_fn(EndpointStats) -> u64,
)
    requires
        before.wf(),
        io::cell_set(before, after, id, s),
        0 <= j < before.ids().len(),
        before.ids()[j] == id.index,
    ensures
        conservation::total(after, counter) == conservation::total(before, counter) - counter(
            before.cells()[id.index as int],
        ) + counter(s),
{
    let all = conservation::counts(before, counter);
    assert forall|n: int| 0 <= n < all.len() && n != j implies before.ids()[n] != id.index by {}
    assert(conservation::counts(after, counter) =~= all.update(j, counter(s) as int));
    sums::sum_of_update(all, j, counter(s) as int);
}

proof fn total_after_lookup(
    before: Registry,
    after: Registry,
    host: Seq<char>,
    id: EndpointId,
    counter: spec_fn(EndpointStats) -> u64,
)
    requires
        before.wf(),
        stats::looked_up(before, after, host, id),
        counter(stats::no_traffic()) == 0,
    ensures
        conservation::total(after, counter) == conservation::total(before, counter),
{
    let all = conservation::counts(before, counter);
    if before.knows(host) {
        assert(conservation::counts(after, counter) =~= all);
    } else {
        assert(conservation::counts(after, counter) =~= all.push(0));
        sums::sum_of_push(all, 0);
    }
}

/// Asking for a host, and the answer to that, put no byte into the totals: the handshake between
/// the child and the proxy never reaches the remote host. A connection is counted if and only if
/// it is open.
pub proof fn handshakes_cost_no_bytes(
    session: Session,
    before: Registry,
    asked: Registry,
    after: Registry,
    verbose: bool,
    host: Seq<char>,
    port: u16,
    attempt: Attempt,
    line: Option<String>,
)
    requires
        before.wf(),
        session.begun(before, asked, verbose, host, port),
        session.attempted(asked, after, attempt, line),
    ensures
        conservation::total(after, conservation::ingress_counter()) == conservation::total(
            before,
            conservation::ingress_counter(),
        ),
        conservation::total(after, conservation::egress_counter()) == conservation::total(
            before,
            conservation::egress_counter(),
        ),
        conservation::kept(
            conservation::total(before, conservation::connection_counter()) + (if attempt is Open {
                1int
            } else {
                0int
            }),
            conservation::total(after, conservation::connection_counter()),
        ),
{
    let ingress = conservation::ingress_counter();
    let egress = conservation::egress_counter();
    let connections = conservation::connection_counter();
    total_after_lookup(before, asked, host, session.cell, ingress);
    total_after_lookup(before, asked, host, session.cell, egress);
    total_after_lookup(before, asked, host, session.cell, connections);
    if let Attempt::Open(peer) = attempt {
        let j = asked.names().index_of(host);
        let cell = asked.cells()[session.cell.index as int];
        let opened = session::with_connection(cell, peer);
        total_after_change(asked, after, session.cell, opened, j, ingress);
        total_after_change(asked, after, session.cell, opened, j, egress);
        total_after_change(asked, after, session.cell, opened, j, connections);
        cells_are_part_of_totals(asked, j, connections);
    }
}

proof fn cells_are_part_of_totals(reg: Registry, j: int, counter: spec_fn(EndpointStats) -> u64)
    requires
        reg.wf(),
        0 <= j < reg.ids().len(),
    ensures
        counter(reg.cells()[reg.ids()[j] as int]) <= conservation::total(reg, counter),
{
    let all = conservation::counts(reg, counter);
    sums::sum_of_remove(all, j);
    let others = all.remove(j);
    sums::sum_of_prefix(others, 0);
    assert(others.take(0) =~= Seq::<int>::empty());
}

/// Bytes that cross a counted stream go to the totals, all of them, once, and in one direction,
/// as long as the cell of the stream has a name.
pub proof fn transfers_reach_the_totals<S>(
    stream: Counting<S>,
    before: Registry,
    after: Registry,
    reading: bool,
    n: usize,
    line: Option<String>,
    j: int,
)
    requires
        before.wf(),
        stream.counts(before, after, reading, n, line),
        0 <= j < before.ids().len(),
        before.ids()[j] == stream.cell().index,
    ensures
        ({
            let ingress = io::is_ingress(stream.end(), reading);
            &&& conservation::kept(
                conservation::total(before, conservation::ingress_counter()) + (if ingress {
                    n as int
                } else {
                    0int
                }),
                conservation::total(after, conservation::ingress_counter()),
            )
            &&& conservation::kept(
                conservation::total(before, conservation::egress_counter()) + (if ingress {
                    0int
                } else {
                    n as int
                }),
                conservation::total(after, conservation::egress_counter()),
            )
            &&& conservation::total(after, conservation::connection_counter())
                == conservation::total(before, conservation::connection_counter())
        }),
{
    let ingress = conservation::ingress_counter();
    let egress = conservation::egress_counter();
    let connections = conservation::connection_counter();
    cells_are_part_of_totals(before, j, ingress);
    cells_are_part_of_totals(before, j, egress);
    if n != 0 {
        let cell = before.cells()[stream.cell().index as int];
        let counted = io::with_bytes(cell, io::is_ingress(stream.end(), reading), n as u64);
        total_after_change(before, after, stream.cell(), counted, j, ingress);
        total_after_change(before, after, stream.cell(), counted, j, egress);
        total_after_change(before, after, stream.cell(), counted, j, connections);
    }
}

/// The counters of a host are exact: after any series of reads and writes on a counted stream,
/// its cell holds what [`transfers::counted`] says of them, and every other cell, and every
/// name, is as it was.
pub proof fn streams_are_counted_exactly<S>(
    stream: Counting<S>,
    steps: Seq<Registry>,
    moved: Seq<Transfer>,
    lines: Seq<Option<String>>,
)
    requires
        steps.len() == moved.len() + 1,
        lines.len() == moved.len(),
        steps[0].issued(stream.cell()),
        forall|i: int|
            0 <= i < moved.len() ==> (#[trigger] moved[i]).size <= usize::MAX && stream.counts(
                steps[i],
                steps[i + 1],
                moved[i].reading,
                moved[i].size as usize,
                lines[i],
            ),
    ensures
        steps.last().cells() == steps[0].cells().update(
            stream.cell().index as int,
            transfers::counted(
                steps[0].cells()[stream.cell().index as int],
                stream.end(),
                moved,
            ),
        ),
        steps.last().names() == steps[0].names(),
        steps.last().ids() == steps[0].ids(),
    decreases moved.len(),
{
    let at = stream.cell().index as int;
    if moved.len() == 0 {
        assert(steps.last().cells() =~= steps[0].cells().update(at, steps[0].cells()[at]));
    } else {
        let n = moved.len() - 1;
        let fewer = moved.drop_last();
        assert forall|i: int| 0 <= i < fewer.len() implies (#[trigger] fewer[i]).size <= usize::MAX
            && stream.counts(
            steps.drop_last()[i],
            steps.drop_last()[i + 1],
            fewer[i].reading,
            fewer[i].size as usize,
            lines.drop_last()[i],
        ) by {
            assert(moved[i] == fewer[i]);
        }
        streams_are_counted_exactly(stream, steps.drop_last(), fewer, lines.drop_last());
        let before = steps[n];
        let after = steps[n + 1];
        assert(moved[n].size <= usize::MAX);
        assert(steps.drop_last().last() == before);
        let counted = transfers::counted(steps[0].cells()[at], stream.end(), moved);
        assert(after.cells() =~= steps[0].cells().update(at, counted));
    }
}

/// A destination that a relay meets for the first time counts as one connection and no bytes.
pub proof fn meeting_a_host_is_one_connection(
    before: Registry,
    after: Registry,
    host: Seq<char>,
    id: EndpointId,
)
    requires
        before.wf(),
        udp::entered(before, after, host, id),
    ensures
        conservation::total(after, conservation::ingress_counter()) == conservation::total(
            before,
            conservation::ingress_counter(),
        ),
        conservation::total(after, conservation::egress_counter()) == conservation::total(
            before,
            conservation::egress_counter(),
        ),
        conservation::kept(
            conservation::total(before, conservation::connection_counter()) + 1,
            conservation::total(after, conservation::connection_counter()),
        ),
{
    let ingress = conservation::ingress_counter();
    let egress = conservation::egress_counter();
    let connections = conservation::connection_counter();
    if before.knows(host) {
        let j = before.names().index_of(host);
        let cell = before.cells()[id.index as int];
        let met = udp::one_more(cell);
        cells_are_part_of_totals(before, j, connections);
        total_after_change(before, after, id, met, j, ingress);
        total_after_change(before, after, id, met, j, egress);
        total_after_change(before, after, id, met, j, connections);
    } else {
        let rx = conservation::counts(before, ingress);
        let tx = conservation::counts(before, egress);
        let conns = conservation::counts(before, connections);
        assert(conservation::counts(after, ingress) =~= rx.push(0));
        assert(conservation::counts(after, egress) =~= tx.push(0));
        assert(conservation::counts(after, connections) =~= conns.push(1));
        sums::sum_of_push(rx, 0);
        sums::sum_of_push(tx, 0);
        sums::sum_of_push(conns, 1);
    }
}

/// A datagram that was sent puts its payload into the bytes sent, and one that was handed back
/// puts its payload into the bytes received, as long as the cell has a name: the header that the
/// relay takes off and puts on is counted nowhere.
pub proof fn datagrams_reach_the_totals(
    before: Registry,
    sent: Registry,
    returned: Registry,
    id: EndpointId,
    ip: IpAddress,
    n: u64,
    j: int,
)
    requires
        before.wf(),
        0 <= j < before.ids().len(),
        before.ids()[j] == id.index,
        io::cell_set(
            before,
            sent,
            id,
            udp::bytes_sent(before.cells()[id.index as int], n, ip),
        ),
        io::cell_set(
            before,
            returned,
            id,
            io::with_bytes(before.cells()[id.index as int], true, n),
        ),
    ensures
        conservation::kept(
            conservation::total(before, conservation::egress_counter()) + n,
            conservation::total(sent, conservation::egress_counter()),
        ),
        conservation::total(sent, conservation::ingress_counter()) == conservation::total(
            before,
            conservation::ingress_counter(),
        ),
        conservation::kept(
            conservation::total(before, conservation::ingress_counter()) + n,
            conservation::total(returned, conservation::ingress_counter()),
        ),
        conservation::total(returned, conservation::egress_counter()) == conservation::total(
            before,
            conservation::egress_counter(),
        ),
{
    let ingress = conservation::ingress_counter();
    let egress = conservation::egress_counter();
    let cell = before.cells()[id.index as int];
    cells_are_part_of_totals(before, j, ingress);
    cells_are_part_of_totals(before, j, egress);
    total_after_change(before, sent, id, udp::bytes_sent(cell, n, ip), j, ingress);
    total_after_change(before, sent, id, udp::bytes_sent(cell, n, ip), j, egress);
    total_after_change(before, returned, id, io::with_bytes(cell, true, n), j, ingress);
    total_after_change(before, returned, id, io::with_bytes(cell, true, n), j, egress);
}

/// A datagram that a relay sent to its destination: the relay and its registry before, once the
/// host was met, and after the bytes were counted.
pub struct Delivery<'a> {
    /// The datagram.
    pub sending: Sending<'a>,
    /// How many bytes went out.
    pub size: usize,
    /// The relay before.
    pub relay: Relay,
    /// The relay once the host was met.
    pub met: Relay,
    /// The relay after.
    pub left: Relay,
    /// The registry before.
    pub before: Registry,
    /// The registry once the host was met.
    pub entered: Registry,
    /// The registry after.
    pub after: Registry,
}

impl<'a> Delivery<'a> {
    /// Whether the payload went out to `host`, all of it, and was counted.
    pub open spec fn in_full(&self, host: Seq<char>) -> bool {
        let d = self.sending.datagram@;
        let cell = self.sending.cell;
        &&& d.host == host
        &&& self.size == d.payload.len()
        &&& self.met.sends(
            self.relay,
            self.before,
            self.entered,
            self.sending,
            d,
            self.sending.to,
        )
        &&& self.left.cells() == self.met.cells()
        &&& io::cell_set(
            self.entered,
            self.after,
            cell,
            udp::bytes_sent(
                self.entered.cells()[cell.index as int],
                self.size as u64,
                self.sending.to.ip,
            ),
        )
    }

    /// Whether `next` is sent where this one left the relay and the registry.
    pub open spec fn precedes(&self, next: Delivery<'_>) -> bool {
        &&& next.relay.cells() == self.left.cells()
        &&& next.before == self.after
    }
}

/// Whether datagrams went out to `host` one after the other, each in full.
pub open spec fn delivered(all: Seq<Delivery<'_>>, host: Seq<char>) -> bool {
    &&& forall|i: int| 0 <= i < all.len() ==> (#[trigger] all[i]).in_full(host)
    &&& forall|i: int, j: int|
        0 <= i && j == i + 1 && j < all.len() ==> (#[trigger] all[i]).precedes(#[trigger] all[j])
}

/// The lengths of the payloads of datagrams.
pub open spec fn payload_lens(all: Seq<Delivery<'_>>) -> Seq<int> {
    Seq::new(all.len(), |i: int| all[i].sending.datagram@.payload.len() as int)
}

/// The counters of a host, which are all zero before the host is seen.
pub open spec fn counters(reg: Registry, host: Seq<char>) -> EndpointStats {
    if reg.knows(host) {
        reg@[host]
    } else {
        stats::no_traffic()
    }
}

proof fn deliveries_keep_their_cell(all: Seq<Delivery<'_>>, host: Seq<char>)
    requires
        all.len() > 0,
        all[0].before.wf(),
        !all[0].relay.cells().contains_key(host),
        delivered(all, host),
    ensures
        all.last().left.cells().contains_key(host),
        all.last().left.cells()[host] == all[0].sending.cell,
        ({
            let met = all[0].entered;
            let at = all[0].sending.cell.index as int;
            let end = all.last().after;
            &&& end.cells() == met.cells().update(at, end.cells()[at])
            &&& end.names() == met.names()
            &&& end.ids() == met.ids()
            &&& stats::same_connections(met, end)
            &&& end.cells()[at].ingress == met.cells()[at].ingress
            &&& end.cells()[at].connections == met.cells()[at].connections
            &&& conservation::kept(
                met.cells()[at].egress + sums::sum(payload_lens(all)),
                end.cells()[at].egress as int,
            )
        }),
    decreases all.len(),
{
    let n = all.len() - 1;
    let fewer = all.drop_last();
    let last = all[n];
    let met = all[0].entered;
    let at = all[0].sending.cell.index as int;
    let end = last.after;
    assert(all[0].in_full(host));
    assert(last.in_full(host));
    assert(payload_lens(all).drop_last() =~= payload_lens(fewer));
    sums::sum_of_prefix(payload_lens(all), n);
    assert(payload_lens(all).take(n) =~= payload_lens(fewer));
    if n > 0 {
        assert forall|i: int| 0 <= i < fewer.len() implies (#[trigger] fewer[i]).in_full(host) by {
            assert(all[i].in_full(host));
        }
        assert forall|i: int, j: int|
            0 <= i && j == i + 1 && j < fewer.len() implies (#[trigger] fewer[i]).precedes(
            #[trigger] fewer[j],
        ) by {
            assert(all[i].precedes(all[j]));
        }
        deliveries_keep_their_cell(fewer, host);
        assert(all[n - 1].precedes(last));
    }
    assert(end.cells() =~= met.cells().update(at, end.cells()[at]));
}

/// Datagrams to a host that is new to a relay, however many, count as one connection, and as the
/// bytes of their payloads: in the counters of the host, and in the totals. Bytes received, and
/// the counters of every other host, are as they were.
pub proof fn datagrams_to_a_new_host_add_up(all: Seq<Delivery<'_>>, host: Seq<char>)
    requires
        all.len() > 0,
        all[0].before.wf(),
        !all[0].relay.cells().contains_key(host),
        delivered(all, host),
    ensures
        ({
            let before = all[0].before;
            let after = all.last().after;
            let sent = sums::sum(payload_lens(all));
            &&& after.wf()
            &&& after@.dom() == before@.dom().insert(host)
            &&& conservation::kept(
                counters(before, host).egress + sent,
                after@[host].egress as int,
            )
            &&& conservation::kept(
                counters(before, host).connections + 1,
                after@[host].connections as int,
            )
            &&& after@[host].ingress == counters(before, host).ingress
            &&& forall|other: Seq<char>|
                other != host && before.knows(other) ==> #[trigger] after@[other] == before@[other]
            &&& conservation::kept(
                conservation::total(before, conservation::egress_counter()) + sent,
                conservation::total(after, conservation::egress_counter()),
            )
            &&& conservation::kept(
                conservation::total(before, conservation::connection_counter()) + 1,
                conservation::total(after, conservation::connection_counter()),
            )
            &&& conservation::total(after, conservation::ingress_counter())
                == conservation::total(before, conservation::ingress_counter())
        }),
{
    let first = all[0];
    let before = first.before;
    let met = first.entered;
    let after = all.last().after;
    let id = first.sending.cell;
    let at = id.index as int;
    let j = met.names().index_of(host);
    let end = after.cells()[at];
    assert(first.in_full(host));
    deliveries_keep_their_cell(all, host);
    meeting_a_host_is_one_connection(before, met, host, id);
    assert(met.names()[j] == host);
    total_after_change(met, after, id, end, j, conservation::ingress_counter());
    total_after_change(met, after, id, end, j, conservation::egress_counter());
    total_after_change(met, after, id, end, j, conservation::connection_counter());
    cells_are_part_of_totals(met, j, conservation::egress_counter());
    assert(after@.dom() =~= before@.dom().insert(host)) by {
        if !before.knows(host) {
            assert forall|other: Seq<char>| after.knows(other) implies before.knows(other) || other
                == host by {}
            assert forall|other: Seq<char>| before.knows(other) implies after.knows(other) by {
                assert(after.names()[before.names().index_of(other)] == other);
            }
        }
    }
    assert forall|other: Seq<char>|
        other != host && before.knows(other) implies #[trigger] after@[other] == before@[other] by {
        let k = before.names().index_of(other);
        assert(before.names()[k] == other);
        assert(after.names()[k] == other);
        assert(after.names().index_of(other) == k);
        assert(after.ids()[k] == before.ids()[k]);
        assert(after.ids()[k] != id.index);
    }
}

/// Ending the flight of a connection undoes its start, whatever was started and ended between.
pub proof fn releases_undo_openings(
    before: Registry,
    opened: Registry,
    later: Registry,
    released: Registry,
)
    requires
        opened.in_flight() == before.in_flight().wrapping_add(1),
        released.in_flight() == later.in_flight().wrapping_sub(1),
    ensures
        later.in_flight() == opened.in_flight() ==> released.in_flight() == before.in_flight(),
        later.in_flight() > 0 ==> released.in_flight() == later.in_flight() - 1,
{
}

} // verus!
