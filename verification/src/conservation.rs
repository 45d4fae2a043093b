//! What is conserved: renaming a host loses no traffic, and a snapshot reports all of it.

use vstd::prelude::*;

use crate::stats;
use crate::stats::{EndpointStats, Registry, Row};
use crate::sums;

verus! {

/// One counter of every host, in the order of the names.
pub open spec fn counts(reg: Registry, counter: spec_fn(EndpointStats) -> u64) -> Seq<int> {
    Seq::new(reg.held().len(), |i: int| counter(reg.held()[i]) as int)
}

/// One counter summed over all hosts.
pub open spec fn total(reg: Registry, counter: spec_fn(EndpointStats) -> u64) -> int {
    sums::sum(counts(reg, counter))
}

/// The counter of bytes received.
pub open spec fn ingress_counter() -> spec_fn(EndpointStats) -> u64 {
    |s: EndpointStats| s.ingress
}

/// The counter of bytes sent.
pub open spec fn egress_counter() -> spec_fn(EndpointStats) -> u64 {
    |s: EndpointStats| s.egress
}

/// The counter of connections.
pub open spec fn connection_counter() -> spec_fn(EndpointStats) -> u64 {
    |s: EndpointStats| s.connections
}

/// Whether a total was kept: exactly while it fits a 64-bit counter, and modulo its size always.
pub open spec fn kept(before: int, after: int) -> bool {
    &&& before <= u64::MAX ==> after == before
    &&& (after - before) % 0x1_0000_0000_0000_0000 == 0
}

/// Renaming a host, whether or not it merges two hosts, keeps the bytes received, the bytes sent
/// and the connections summed over all hosts.
pub proof fn renaming_keeps_totals(before: Registry, after: Registry, from: Seq<char>, to: Seq<char>)
    requires
        before.wf(),
        stats::renamed(before, after, from, to),
    ensures
        kept(total(before, ingress_counter()), total(after, ingress_counter())),
        kept(total(before, egress_counter()), total(after, egress_counter())),
        kept(total(before, connection_counter()), total(after, connection_counter())),
{
    renaming_keeps(before, after, from, to, ingress_counter());
    renaming_keeps(before, after, from, to, egress_counter());
    renaming_keeps(before, after, from, to, connection_counter());
}

proof fn renaming_keeps(
    before: Registry,
    after: Registry,
    from: Seq<char>,
    to: Seq<char>,
    counter: spec_fn(EndpointStats) -> u64,
)
    requires
        before.wf(),
        stats::renamed(before, after, from, to),
        forall|a: EndpointStats, b: EndpointStats|
            #![trigger stats::folded(a, b)]
            counter(stats::folded(a, b)) == counter(a).wrapping_add(counter(b)),
    ensures
        kept(total(before, counter), total(after, counter)),
{
    let i = before.names().index_of(from);
    let all = counts(before, counter);
    if from == to || !before.knows(from) {
        assert(counts(after, counter) =~= all);
    } else if before.knows(to) {
        let j = before.names().index_of(to);
        let k = if j < i {
            j
        } else {
            j - 1
        };
        let merged = stats::folded(before.held()[j], before.held()[i]);
        assert forall|n: int| 0 <= n < all.len() && n != j implies before.ids()[n]
            != before.ids()[j] by {}
        assert(counts(after, counter) =~= all.remove(i).update(k, counter(merged) as int));
        sums::sum_of_remove(all, i);
        sums::sum_of_update(all.remove(i), k, counter(merged) as int);
        sums::sum_of_remove(all.remove(i), k);
        let others = all.remove(i).remove(k);
        sums::sum_of_prefix(others, 0);
        assert(others.take(0) =~= Seq::<int>::empty());
        assert(counter(merged) == counter(before.held()[j]).wrapping_add(counter(before.held()[i])));
    } else {
        assert(counts(after, counter) =~= all.remove(i).push(all[i]));
        sums::sum_of_remove(all, i);
        sums::sum_of_push(all.remove(i), all[i]);
    }
}

/// One column of a list of rows.
pub open spec fn column(rows: Seq<Row>, field: spec_fn(Row) -> int) -> Seq<int> {
    Seq::new(rows.len(), |i: int| field(rows[i]))
}

/// A column adds up to the same in whatever order its rows stand.
pub proof fn order_keeps_sums(a: Seq<Row>, b: Seq<Row>, field: spec_fn(Row) -> int)
    requires
        a.to_multiset() == b.to_multiset(),
    ensures
        sums::sum(column(a, field)) == sums::sum(column(b, field)),
    decreases a.len(),
{
    broadcast use vstd::seq_lib::group_to_multiset_ensures;

    assert(a.to_multiset().len() == a.len());
    assert(b.to_multiset().len() == b.len());
    if a.len() > 0 {
        let x = a.last();
        assert(a.contains(x));
        assert(a.to_multiset().count(x) > 0);
        assert(b.contains(x));
        let j = choose|j: int| 0 <= j < b.len() && b[j] == x;
        assert(a.remove(a.len() - 1).to_multiset() == b.remove(j).to_multiset());
        assert(a.remove(a.len() - 1) =~= a.drop_last());
        order_keeps_sums(a.drop_last(), b.remove(j), field);
        assert(column(a, field).drop_last() =~= column(a.drop_last(), field));
        assert(column(b, field).remove(j) =~= column(b.remove(j), field));
        sums::sum_of_remove(column(b, field), j);
    }
}

/// Bytes received, summed over rows.
pub open spec fn ingress_sum(rows: Seq<Row>) -> int {
    sums::sum(column(rows, |r: Row| r.ingress_bytes as int))
}

/// Bytes sent, summed over rows.
pub open spec fn egress_sum(rows: Seq<Row>) -> int {
    sums::sum(column(rows, |r: Row| r.egress_bytes as int))
}

/// Connections, summed over rows.
pub open spec fn connection_sum(rows: Seq<Row>) -> int {
    sums::sum(column(rows, |r: Row| r.connections as int))
}

/// A snapshot adds up to the totals of the registry, whatever the filter: a filter marks rows
/// and hides no traffic.
pub proof fn snapshot_keeps_totals(reg: Registry, rows: Seq<Row>, filter: Option<Seq<char>>)
    requires
        rows.to_multiset() == reg.rows(filter).to_multiset(),
    ensures
        ingress_sum(rows) == total(reg, ingress_counter()),
        egress_sum(rows) == total(reg, egress_counter()),
        connection_sum(rows) == total(reg, connection_counter()),
{
    let all = reg.rows(filter);
    let ingress = |r: Row| r.ingress_bytes as int;
    let egress = |r: Row| r.egress_bytes as int;
    let connections = |r: Row| r.connections as int;
    order_keeps_sums(rows, all, ingress);
    order_keeps_sums(rows, all, egress);
    order_keeps_sums(rows, all, connections);
    assert(column(all, ingress) =~= counts(reg, ingress_counter()));
    assert(column(all, egress) =~= counts(reg, egress_counter()));
    assert(column(all, connections) =~= counts(reg, connection_counter()));
}

} // verus!
