//! Laws of reverse lookups: which hosts get a name, and what becomes of the counters.

use vstd::prelude::*;

use crate::conservation;
use crate::literal;
use crate::run;
use crate::run::Renaming;
use crate::stats;
use crate::stats::{EndpointStats, Registry, Row};

verus! {

/// Whether a renaming gives `host` up.
pub open spec fn gives_up(by: Renaming, host: Seq<char>) -> bool {
    by.name is Some && by.host@ == host
}

/// Whether a renaming gives counters to `name`.
pub open spec fn gives_to(by: Renaming, name: Seq<char>) -> bool {
    by.name matches Some(n) && n@ == name
}

/// Whether renamings are what reverse lookups give: each is of a host of its own that is recorded
/// under an address, and no name is itself an address.
pub open spec fn reverse_lookups(by: Seq<Renaming>) -> bool {
    &&& forall|i: int, j: int|
        0 <= i < j < by.len() ==> (#[trigger] by[i]).host@ != (#[trigger] by[j]).host@
    &&& forall|i: int|
        0 <= i < by.len() ==> literal::spelled_by((#[trigger] by[i]).host@) is Some
    &&& forall|i: int|
        0 <= i < by.len() ==> ((#[trigger] by[i]).name matches Some(name) ==> literal::spelled_by(
            name@,
        ) is None)
}

proof fn chosen_hosts(names: Seq<Seq<char>>)
    requires
        names.no_duplicates(),
    ensures
        run::address_hosts(names).no_duplicates(),
        forall|host: Seq<char>|
            #![trigger run::address_hosts(names).contains(host)]
            run::address_hosts(names).contains(host) <==> names.contains(host)
                && literal::spelled_by(host) is Some,
    decreases names.len(),
{
    let chosen = run::address_hosts(names);
    if names.len() == 0 {
        assert(chosen.len() == 0) by {
            reveal(Seq::filter);
        }
    } else {
        let fewer = names.drop_last();
        let last = names.last();
        assert forall|i: int, j: int| 0 <= i < fewer.len() && 0 <= j < fewer.len() && i
            != j implies fewer[i] != fewer[j] by {
            assert(names[i] != names[j]);
        }
        chosen_hosts(fewer);
        let before = run::address_hosts(fewer);
        assert(chosen == if literal::spelled_by(last) is Some {
            before.push(last)
        } else {
            before
        }) by {
            reveal(Seq::filter);
        }
        assert(!before.contains(last)) by {
            if before.contains(last) {
                assert(fewer.contains(last));
                assert(names[fewer.index_of(last)] == names[names.len() - 1]);
            }
        }
        assert forall|i: int, j: int| 0 <= i < chosen.len() && 0 <= j < chosen.len() && i
            != j implies chosen[i] != chosen[j] by {
            if i < before.len() {
                assert(before.contains(before[i]));
            }
            if j < before.len() {
                assert(before.contains(before[j]));
            }
        }
        assert forall|host: Seq<char>|
            #![trigger chosen.contains(host)]
            chosen.contains(host) <==> names.contains(host) && literal::spelled_by(
                host,
            ) is Some by {
            if names.contains(host) && literal::spelled_by(host) is Some {
                if host == last {
                    assert(chosen[chosen.len() - 1] == host);
                } else {
                    assert(fewer[names.index_of(host)] == host);
                    assert(before.contains(host));
                    assert(before[before.index_of(host)] == host);
                    assert(chosen[before.index_of(host)] == host);
                }
            }
            if chosen.contains(host) {
                let k = chosen.index_of(host);
                if k < before.len() {
                    assert(before[k] == host);
                    assert(before.contains(host));
                    assert(fewer.contains(host));
                    assert(fewer[fewer.index_of(host)] == host);
                    assert(names[fewer.index_of(host)] == host);
                } else {
                    assert(names[names.len() - 1] == host);
                }
            }
        }
    }
}

/// Looking up the hosts that are chosen for it, whatever names are found as long as none is
/// itself an address, is what [`reverse_lookups`] asks for, and leaves no address out.
pub proof fn chosen_hosts_are_the_addresses(reg: Registry, by: Seq<Renaming>)
    requires
        reg.wf(),
        by.len() == run::address_hosts(reg.names()).len(),
        forall|i: int|
            0 <= i < by.len() ==> (#[trigger] by[i]).host@ == run::address_hosts(reg.names())[i],
        forall|i: int|
            0 <= i < by.len() ==> ((#[trigger] by[i]).name matches Some(name)
                ==> literal::spelled_by(name@) is None),
    ensures
        reverse_lookups(by),
        forall|host: Seq<char>|
            reg.knows(host) && literal::spelled_by(host) is Some ==> exists|i: int|
                0 <= i < by.len() && (#[trigger] by[i]).host@ == host,
{
    let chosen = run::address_hosts(reg.names());
    chosen_hosts(reg.names());
    assert forall|i: int| 0 <= i < by.len() implies literal::spelled_by(
        (#[trigger] by[i]).host@,
    ) is Some by {
        assert(chosen.contains(chosen[i]));
    }
    assert forall|host: Seq<char>| reg.knows(host) && literal::spelled_by(host) is Some implies
        exists|i: int| 0 <= i < by.len() && (#[trigger] by[i]).host@ == host by {
        assert(chosen.contains(host));
        let i = chosen.index_of(host);
        assert(by[i].host@ == host);
    }
}

/// A host that no renaming gives up or gives counters to keeps its row as it is, or stays
/// unknown. That holds of a host for which no name was found as well, unless some other host was
/// given its name.
pub proof fn unnamed_hosts_are_left_alone(
    counts: Map<Seq<char>, EndpointStats>,
    by: Seq<Renaming>,
    host: Seq<char>,
)
    requires
        forall|i: int|
            0 <= i < by.len() ==> !gives_up(#[trigger] by[i], host) && !gives_to(by[i], host),
    ensures
        run::counts_after(counts, by).contains_key(host) == counts.contains_key(host),
        counts.contains_key(host) ==> run::counts_after(counts, by)[host] == counts[host],
    decreases by.len(),
{
    if by.len() > 0 {
        let fewer = by.drop_last();
        assert forall|i: int| 0 <= i < fewer.len() implies !gives_up(#[trigger] fewer[i], host)
            && !gives_to(fewer[i], host) by {
            assert(fewer[i] == by[i]);
        }
        unnamed_hosts_are_left_alone(counts, fewer, host);
        let last = by[by.len() - 1];
        assert(!gives_up(last, host) && !gives_to(last, host));
    }
}

/// Renaming a host to a different name takes its row away and puts its counters under the name,
/// on top of what was counted there.
pub proof fn renamed_hosts_give_way(counts: Map<Seq<char>, EndpointStats>, by: Renaming)
    requires
        counts.contains_key(by.host@),
        by.name matches Some(name) && name@ != by.host@,
    ensures
        ({
            let name = by.name->0@;
            let after = run::renamed_counts(counts, by);
            &&& !after.contains_key(by.host@)
            &&& after.contains_key(name)
            &&& after[name] == (if counts.contains_key(name) {
                stats::folded(counts[name], counts[by.host@])
            } else {
                counts[by.host@]
            })
        }),
{
}

/// What is under a name after reverse lookups: what was there before, and then, in order, the
/// counters of every host that was given the name.
pub open spec fn gathered(
    counts: Map<Seq<char>, EndpointStats>,
    by: Seq<Renaming>,
    name: Seq<char>,
) -> Option<EndpointStats>
    decreases by.len(),
{
    if by.len() == 0 {
        if counts.contains_key(name) {
            Some(counts[name])
        } else {
            None
        }
    } else {
        let last = by.last();
        let before = gathered(counts, by.drop_last(), name);
        if gives_to(last, name) && counts.contains_key(last.host@) {
            match before {
                Some(s) => Some(stats::folded(s, counts[last.host@])),
                None => Some(counts[last.host@]),
            }
        } else {
            before
        }
    }
}

/// One counter of a name and of every host that was given the name, added up.
pub open spec fn share(
    counts: Map<Seq<char>, EndpointStats>,
    by: Seq<Renaming>,
    name: Seq<char>,
    counter: spec_fn(EndpointStats) -> u64,
) -> int
    decreases by.len(),
{
    if by.len() == 0 {
        if counts.contains_key(name) {
            counter(counts[name]) as int
        } else {
            0
        }
    } else {
        let last = by.last();
        share(counts, by.drop_last(), name, counter) + (if gives_to(last, name)
            && counts.contains_key(last.host@) {
            counter(counts[last.host@]) as int
        } else {
            0
        })
    }
}

proof fn fewer_lookups(by: Seq<Renaming>)
    requires
        reverse_lookups(by),
        by.len() > 0,
    ensures
        reverse_lookups(by.drop_last()),
{
    let fewer = by.drop_last();
    assert forall|i: int, j: int| 0 <= i < j < fewer.len() implies (#[trigger] fewer[i]).host@ != (
    #[trigger] fewer[j]).host@ by {
        assert(fewer[i] == by[i] && fewer[j] == by[j]);
    }
    assert forall|i: int| 0 <= i < fewer.len() implies literal::spelled_by(
        (#[trigger] fewer[i]).host@,
    ) is Some by {
        assert(fewer[i] == by[i]);
    }
    assert forall|i: int| 0 <= i < fewer.len() implies ((#[trigger] fewer[i]).name matches Some(
        name,
    ) ==> literal::spelled_by(name@) is None) by {
        assert(fewer[i] == by[i]);
    }
}

/// The last host is still as it was when its turn comes.
proof fn hosts_wait_their_turn(counts: Map<Seq<char>, EndpointStats>, by: Seq<Renaming>)
    requires
        reverse_lookups(by),
        by.len() > 0,
    ensures
        ({
            let host = by.last().host@;
            let before = run::counts_after(counts, by.drop_last());
            &&& before.contains_key(host) == counts.contains_key(host)
            &&& counts.contains_key(host) ==> before[host] == counts[host]
        }),
{
    let host = by.last().host@;
    let n = by.len() - 1;
    let fewer = by.drop_last();
    assert(literal::spelled_by(by[n].host@) is Some);
    assert forall|i: int| 0 <= i < fewer.len() implies !gives_up(#[trigger] fewer[i], host)
        && !gives_to(fewer[i], host) by {
        assert(by[i].host@ != by[n].host@);
        assert(fewer[i] == by[i]);
    }
    unnamed_hosts_are_left_alone(counts, fewer, host);
}

/// After reverse lookups a name holds exactly what was there and what its hosts brought.
pub proof fn names_gather_their_hosts(
    counts: Map<Seq<char>, EndpointStats>,
    by: Seq<Renaming>,
    name: Seq<char>,
)
    requires
        reverse_lookups(by),
        literal::spelled_by(name) is None,
    ensures
        run::counts_after(counts, by).contains_key(name) == (gathered(counts, by, name) is Some),
        gathered(counts, by, name) matches Some(s) ==> run::counts_after(counts, by)[name] == s,
    decreases by.len(),
{
    if by.len() > 0 {
        let n = by.len() - 1;
        fewer_lookups(by);
        hosts_wait_their_turn(counts, by);
        names_gather_their_hosts(counts, by.drop_last(), name);
        assert(literal::spelled_by(by[n].host@) is Some);
        assert(by[n].name matches Some(other) ==> literal::spelled_by(other@) is None);
    }
}

/// A host recorded under an address for which a name was found is gone, and the name is there.
pub proof fn addresses_give_way(
    counts: Map<Seq<char>, EndpointStats>,
    by: Seq<Renaming>,
    i: int,
)
    requires
        reverse_lookups(by),
        0 <= i < by.len(),
        by[i].name is Some,
        counts.contains_key(by[i].host@),
    ensures
        !run::counts_after(counts, by).contains_key(by[i].host@),
        run::counts_after(counts, by).contains_key(by[i].name->0@),
    decreases by.len(),
{
    let n = by.len() - 1;
    let before = run::counts_after(counts, by.drop_last());
    fewer_lookups(by);
    hosts_wait_their_turn(counts, by);
    assert(literal::spelled_by(by[n].host@) is Some);
    assert(literal::spelled_by(by[i].host@) is Some);
    assert(by[i].name matches Some(name) ==> literal::spelled_by(name@) is None);
    assert(by[n].name matches Some(name) ==> literal::spelled_by(name@) is None);
    if i < n {
        addresses_give_way(counts, by.drop_last(), i);
        assert(by[i].host@ != by[n].host@);
    }
}

/// A host that is recorded under a name stays known.
pub proof fn names_stay(
    counts: Map<Seq<char>, EndpointStats>,
    by: Seq<Renaming>,
    host: Seq<char>,
)
    requires
        reverse_lookups(by),
        literal::spelled_by(host) is None,
        counts.contains_key(host),
    ensures
        run::counts_after(counts, by).contains_key(host),
    decreases by.len(),
{
    if by.len() > 0 {
        let n = by.len() - 1;
        fewer_lookups(by);
        names_stay(counts, by.drop_last(), host);
        assert(literal::spelled_by(by[n].host@) is Some);
    }
}

proof fn gathered_adds_up(
    counts: Map<Seq<char>, EndpointStats>,
    by: Seq<Renaming>,
    name: Seq<char>,
    counter: spec_fn(EndpointStats) -> u64,
)
    requires
        forall|a: EndpointStats, b: EndpointStats|
            #![trigger stats::folded(a, b)]
            counter(stats::folded(a, b)) == counter(a).wrapping_add(counter(b)),
    ensures
        gathered(counts, by, name) matches Some(s) ==> counter(s) == share(
            counts,
            by,
            name,
            counter,
        ) % 0x1_0000_0000_0000_0000,
        gathered(counts, by, name) is None ==> share(counts, by, name, counter) == 0,
        share(counts, by, name, counter) >= 0,
    decreases by.len(),
{
    if by.len() > 0 {
        gathered_adds_up(counts, by.drop_last(), name, counter);
    }
}

/// What is under a name after reverse lookups adds up, counter by counter, to what was there and
/// what its hosts brought, as far as 64 bits go.
pub proof fn names_add_up(
    counts: Map<Seq<char>, EndpointStats>,
    by: Seq<Renaming>,
    name: Seq<char>,
)
    requires
        reverse_lookups(by),
        literal::spelled_by(name) is None,
        run::counts_after(counts, by).contains_key(name),
    ensures
        ({
            let s = run::counts_after(counts, by)[name];
            let size = 0x1_0000_0000_0000_0000int;
            &&& s.ingress == share(counts, by, name, conservation::ingress_counter()) % size
            &&& s.egress == share(counts, by, name, conservation::egress_counter()) % size
            &&& s.connections == share(counts, by, name, conservation::connection_counter())
                % size
        }),
{
    names_gather_their_hosts(counts, by, name);
    gathered_adds_up(counts, by, name, conservation::ingress_counter());
    gathered_adds_up(counts, by, name, conservation::egress_counter());
    gathered_adds_up(counts, by, name, conservation::connection_counter());
}

/// Reverse lookups touch hosts that are recorded under an address, and no others. Every other
/// host stays, and so does every address for which no name was found. An address for which one
/// was found is gone, and its name is there. A host whose name was found for no address keeps its
/// counters. And the report adds up to what it did before.
pub proof fn only_addresses_get_names(
    before: Registry,
    after: Registry,
    by: Seq<Renaming>,
    filter: Option<Seq<char>>,
    old_rows: Seq<Row>,
    new_rows: Seq<Row>,
)
    requires
        before.wf(),
        after.wf(),
        after@ == run::counts_after(before@, by),
        run::totals_kept(before, after),
        reverse_lookups(by),
        old_rows.to_multiset() == before.rows(filter).to_multiset(),
        new_rows.to_multiset() == after.rows(filter).to_multiset(),
        conservation::ingress_sum(old_rows) <= u64::MAX,
        conservation::egress_sum(old_rows) <= u64::MAX,
        conservation::connection_sum(old_rows) <= u64::MAX,
    ensures
        forall|host: Seq<char>| #[trigger]
            before.knows(host) && literal::spelled_by(host) is None ==> after.knows(host),
        forall|host: Seq<char>| #[trigger]
            before.knows(host) && literal::spelled_by(host) is Some && (forall|i: int|
                0 <= i < by.len() ==> !gives_up(#[trigger] by[i], host)) ==> after.knows(host)
                && after@[host] == before@[host],
        forall|i: int|
            0 <= i < by.len() && (#[trigger] by[i]).name is Some && before.knows(by[i].host@)
                ==> !after.knows(by[i].host@) && after.knows(by[i].name->0@),
        forall|host: Seq<char>| #[trigger]
            before.knows(host) && literal::spelled_by(host) is None && (forall|i: int|
                0 <= i < by.len() ==> !gives_to(#[trigger] by[i], host)) ==> after@[host]
                == before@[host],
        conservation::ingress_sum(new_rows) == conservation::ingress_sum(old_rows),
        conservation::egress_sum(new_rows) == conservation::egress_sum(old_rows),
        conservation::connection_sum(new_rows) == conservation::connection_sum(old_rows),
{
    assert forall|host: Seq<char>|
        before.knows(host) == before@.contains_key(host) && after.knows(host)
            == after@.contains_key(host) by {}
    assert forall|host: Seq<char>| #[trigger]
        before.knows(host) && literal::spelled_by(host) is None implies after.knows(host) by {
        assert(before@.contains_key(host));
        names_stay(before@, by, host);
    }
    assert forall|host: Seq<char>| #[trigger]
        before.knows(host) && literal::spelled_by(host) is Some && (forall|i: int|
            0 <= i < by.len() ==> !gives_up(#[trigger] by[i], host)) implies after.knows(host)
        && after@[host] == before@[host] by {
        assert(before@.contains_key(host));
        unnamed_hosts_are_left_alone(before@, by, host);
    }
    assert forall|i: int|
        0 <= i < by.len() && (#[trigger] by[i]).name is Some && before.knows(
            by[i].host@,
        ) implies !after.knows(by[i].host@) && after.knows(by[i].name->0@) by {
        assert(before@.contains_key(by[i].host@));
        addresses_give_way(before@, by, i);
    }
    assert forall|host: Seq<char>| #[trigger]
        before.knows(host) && literal::spelled_by(host) is None && (forall|i: int|
            0 <= i < by.len() ==> !gives_to(#[trigger] by[i], host)) implies after@[host]
        == before@[host] by {
        assert(before@.contains_key(host));
        assert forall|i: int| 0 <= i < by.len() implies !gives_up(#[trigger] by[i], host)
            && !gives_to(by[i], host) by {
            assert(literal::spelled_by(by[i].host@) is Some);
        }
        unnamed_hosts_are_left_alone(before@, by, host);
    }
    conservation::snapshot_keeps_totals(before, old_rows, filter);
    conservation::snapshot_keeps_totals(after, new_rows, filter);
}

} // verus!
