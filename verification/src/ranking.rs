//! Laws of snapshots and of the registry they are taken of: which rows there are, what they say,
//! and in which order they stand.

use vstd::prelude::*;

use crate::io;
use crate::stats;
use crate::stats::{Endpoint, EndpointId, EndpointStats, Registry};
use crate::text;

verus! {

/// Whether `a` comes before `b` by code points: it ends, or has the smaller code, where they first
/// differ.
pub open spec fn comes_before(a: Seq<char>, b: Seq<char>) -> bool {
    exists|k: int| #[trigger] first_differs(a, b, k)
}

/// Whether `a` and `b` agree up to `k`, where `a` ends or has the smaller code.
pub open spec fn first_differs(a: Seq<char>, b: Seq<char>, k: int) -> bool {
    &&& 0 <= k <= a.len()
    &&& k < b.len()
    &&& forall|i: int| 0 <= i < k ==> a[i] == b[i]
    &&& k == a.len() || (a[k] as int) < (b[k] as int)
}

proof fn lesser_texts_come_before(a: Seq<char>, b: Seq<char>) -> (k: int)
    requires
        text::lex_less(a, b),
    ensures
        first_differs(a, b, k),
    decreases a.len(),
{
    if a.len() == 0 || a[0] != b[0] {
        0
    } else {
        let x = a.skip(1);
        let y = b.skip(1);
        let k = lesser_texts_come_before(x, y);
        assert forall|i: int| 0 <= i < k + 1 implies a[i] == b[i] by {
            if i > 0 {
                assert(x[i - 1] == y[i - 1]);
            }
        }
        k + 1
    }
}

/// A snapshot lists the endpoints by bytes received, most first; where these are the same, by
/// bytes sent, most first; and where both are, by name.
pub proof fn snapshots_are_in_order(
    reg: &Registry,
    filter: Option<&str>,
    taken: Vec<Endpoint>,
    i: int,
    j: int,
)
    requires
        call_ensures(Registry::snapshot, (reg, filter), taken),
        0 <= i < j < taken@.len(),
    ensures
        taken@[i].ingress_bytes >= taken@[j].ingress_bytes,
        taken@[i].ingress_bytes == taken@[j].ingress_bytes ==> taken@[i].egress_bytes
            >= taken@[j].egress_bytes,
        taken@[i].ingress_bytes == taken@[j].ingress_bytes && taken@[i].egress_bytes
            == taken@[j].egress_bytes ==> comes_before(
            taken@[i].domain@,
            taken@[j].domain@,
        ),
{
    let endpoints = taken@;
    let rows = stats::rows_of(endpoints);
    assert(stats::ranks_before(rows[i], rows[j]));
    if text::lex_less(endpoints[i].domain@, endpoints[j].domain@) {
        let k = lesser_texts_come_before(endpoints[i].domain@, endpoints[j].domain@);
    }
}

/// Whether an endpoint reports these counters.
pub open spec fn reports(endpoint: Endpoint, s: EndpointStats) -> bool {
    &&& endpoint.ingress_bytes == s.ingress
    &&& endpoint.egress_bytes == s.egress
    &&& endpoint.connections == s.connections
    &&& endpoint.ip_address == s.ip
}

/// A snapshot has one row for every host of the registry, with the counters of that host and
/// whether the filter covers it, and no other rows.
pub proof fn snapshots_list_every_host(
    reg: &Registry,
    filter: Option<&str>,
    taken: Vec<Endpoint>,
)
    requires
        reg.wf(),
        call_ensures(Registry::snapshot, (reg, filter), taken),
    ensures
        taken@.len() == reg.names().len(),
        forall|i: int| #![trigger taken@[i]]
            0 <= i < taken@.len() ==> {
                let host = taken@[i].domain@;
                &&& reg.knows(host)
                &&& reports(taken@[i], reg.cells()[reg.id_of(host).index as int])
                &&& taken@[i].matches_filter == stats::falls_under(host, text::of_str(filter))
            },
        forall|host: Seq<char>|
            reg.knows(host) ==> exists|i: int|
                0 <= i < taken@.len() && (#[trigger] taken@[i]).domain@ == host,
{
    broadcast use vstd::seq_lib::group_to_multiset_ensures;

    let endpoints = taken@;
    let rows = stats::rows_of(endpoints);
    let all = reg.rows(text::of_str(filter));
    assert(rows.to_multiset().len() == rows.len());
    assert(all.to_multiset().len() == all.len());
    assert forall|i: int| #![trigger endpoints[i]] 0 <= i < endpoints.len() implies {
        let host = endpoints[i].domain@;
        &&& reg.knows(host)
        &&& reports(endpoints[i], reg.cells()[reg.id_of(host).index as int])
        &&& endpoints[i].matches_filter == stats::falls_under(host, text::of_str(filter))
    } by {
        assert(rows[i] == endpoints[i]@);
        assert(rows.contains(rows[i]));
        assert(rows.to_multiset().count(rows[i]) > 0);
        assert(all.contains(rows[i]));
        let k = choose|k: int| 0 <= k < all.len() && all[k] == rows[i];
        let host = endpoints[i].domain@;
        assert(reg.names()[k] == host);
        assert(reg.names().index_of(host) == k);
    }
    assert forall|host: Seq<char>| reg.knows(host) implies exists|i: int|
        0 <= i < endpoints.len() && (#[trigger] endpoints[i]).domain@ == host by {
        let k = reg.names().index_of(host);
        assert(all[k].domain == host);
        assert(all.contains(all[k]));
        assert(all.to_multiset().count(all[k]) > 0);
        assert(rows.contains(all[k]));
        let i = choose|i: int| 0 <= i < rows.len() && rows[i] == all[k];
        assert(rows[i] == endpoints[i]@);
        assert(endpoints[i].domain@ == host);
    }
}

/// The counters of a host are those of its cell, and no two hosts share a cell.
pub proof fn hosts_have_their_own_cells(reg: Registry, host: Seq<char>, other: Seq<char>)
    requires
        reg.wf(),
        reg.knows(host),
        reg.knows(other),
    ensures
        reg@.contains_key(host),
        reg@[host] == reg.cells()[reg.id_of(host).index as int],
        reg.id_of(host).index == reg.id_of(other).index ==> host == other,
{
    let i = reg.names().index_of(host);
    let j = reg.names().index_of(other);
    assert(reg.names()[i] == host && reg.names()[j] == other);
    if reg.ids()[i] == reg.ids()[j] {
        assert(i == j);
    }
}

/// Asking for a host gives the cell of that very host, a new one with nothing counted where it was
/// not seen before, and leaves every other host and every cell as it was.
pub proof fn lookups_find_the_host(
    before: Registry,
    after: Registry,
    host: Seq<char>,
    id: EndpointId,
    other: Seq<char>,
)
    requires
        before.wf(),
        stats::looked_up(before, after, host, id),
    ensures
        after.knows(host),
        after.id_of(host) == id,
        before.knows(host) ==> before.id_of(host) == id && after.cells() == before.cells(),
        !before.knows(host) ==> {
            let s = after.cells()[id.index as int];
            &&& id.index == before.cells().len()
            &&& after.cells().len() == before.cells().len() + 1
            &&& s.ingress == 0 && s.egress == 0 && s.connections == 0 && s.ip is None
            &&& after.cells().take(before.cells().len() as int) == before.cells()
        },
        other != host ==> after.knows(other) == before.knows(other),
        other != host && before.knows(other) ==> after.id_of(other) == before.id_of(other),
{
    if !before.knows(host) {
        assert(after.cells().take(before.cells().len() as int) =~= before.cells());
        if other != host && before.knows(other) {
            let k = before.names().index_of(other);
            assert(after.names()[k] == other);
            assert(after.names().index_of(other) == k);
        }
        if other != host && after.knows(other) {
            let k = after.names().index_of(other);
            assert(before.names()[k] == other);
        }
    }
}

/// A change of the cell of a host is a change of the counters of that host, and of no other.
pub proof fn cells_count_for_their_host(
    before: Registry,
    after: Registry,
    host: Seq<char>,
    s: EndpointStats,
    other: Seq<char>,
)
    requires
        before.wf(),
        before.knows(host),
        io::cell_set(before, after, before.id_of(host), s),
    ensures
        after.knows(host),
        after@[host] == s,
        after.knows(other) == before.knows(other),
        other != host && before.knows(other) ==> after@[other] == before@[other],
{
    let i = before.names().index_of(host);
    assert(before.names()[i] == host);
    if before.knows(other) {
        let j = before.names().index_of(other);
        assert(before.names()[j] == other);
        if other != host {
            assert(before.ids()[i] != before.ids()[j]);
        }
    }
}

/// Whether three counters are the sums of two others, as far as 64 bits go.
pub open spec fn sums_up(s: EndpointStats, a: EndpointStats, b: EndpointStats) -> bool {
    let size = 0x1_0000_0000_0000_0000int;
    &&& s.ingress == (a.ingress + b.ingress) % size
    &&& s.egress == (a.egress + b.egress) % size
    &&& s.connections == (a.connections + b.connections) % size
    &&& s.ip == (if a.ip is Some {
        a.ip
    } else {
        b.ip
    })
}

/// Folding adds the counters, and takes the other address only where there is none.
pub proof fn folding_adds(a: EndpointStats, b: EndpointStats)
    ensures
        sums_up(stats::folded(a, b), a, b),
{
}

/// A host that is renamed is gone, and its counters are under the new name, on top of what was
/// counted there; every other host keeps its own. Renaming a host to itself, or one that was never
/// seen, changes nothing.
pub proof fn renaming_moves_the_counters(
    before: Registry,
    after: Registry,
    from: Seq<char>,
    to: Seq<char>,
    other: Seq<char>,
)
    requires
        before.wf(),
        stats::renamed(before, after, from, to),
    ensures
        from == to || !before.knows(from) ==> after.names() == before.names() && after.ids()
            == before.ids() && after.cells() == before.cells(),
        from != to && before.knows(from) ==> {
            &&& !after@.contains_key(from)
            &&& after@.contains_key(to)
            &&& before@.contains_key(to) ==> sums_up(after@[to], before@[to], before@[from])
            &&& !before@.contains_key(to) ==> after@[to] == before@[from]
        },
        from != to && before.knows(from) && other != from && other != to ==> {
            &&& after@.contains_key(other) == before@.contains_key(other)
            &&& before@.contains_key(other) ==> after@[other] == before@[other]
        },
        after.in_flight() == before.in_flight(),
        after.conn_id() == before.conn_id(),
{
    if from != to && before.knows(from) {
        let i = before.names().index_of(from);
        assert(before@.contains_key(from));
        assert(before.held()[i] == before@[from]);
        if before.knows(to) {
            folding_adds(before@[to], before@[from]);
        }
    }
}

} // verus!
