//! What a run comes to: the environment of the child, the time given to its last connections,
//! its exit code, and the report.

use vstd::prelude::*;

use crate::address::IpAddress;
use crate::conservation;
use crate::literal;
use crate::literal::parse_ip;
use crate::report;
use crate::report::{Report, Totals};
use crate::stats;
use crate::stats::{EndpointStats, Registry};
use crate::text;

verus! {

/// How long to wait for in-flight tunnels to drain after the child exits, in milliseconds.
pub const DRAIN_TIMEOUT_MS: u64 = 2000;

/// Poll interval used while draining, in milliseconds.
pub const DRAIN_POLL_MS: u64 = 10;

/// Whether to wait for open connections to close, `waited` milliseconds after the child exited.
pub fn keep_draining(registry: &Registry, waited: u64) -> (r: bool)
    ensures
        r == (registry.in_flight() > 0 && waited < DRAIN_TIMEOUT_MS),
        r <==> registry.in_flight() > 0 && waited < 2000,
{
    registry.open_connections() > 0 && waited < DRAIN_TIMEOUT_MS
}

/// The words of a command line, with a blank between any two.
pub open spec fn spaced(args: Seq<String>) -> Seq<char>
    decreases args.len(),
{
    if args.len() == 0 {
        Seq::empty()
    } else if args.len() == 1 {
        args[0]@
    } else {
        spaced(args.drop_last()) + " "@ + args.last()@
    }
}

/// The child command line as it is reported.
pub fn command_line(args: &[String]) -> (r: String)
    ensures
        r@ == spaced(args@),
{
    let mut out = String::new();
    let mut i: usize = 0;
    assert(out@ =~= spaced(args@.take(0)));
    while i < args.len()
        invariant
            i <= args@.len(),
            out@ == spaced(args@.take(i as int)),
        decreases args@.len() - i,
    {
        if i > 0 {
            out.append(" ");
        }
        out.append(args[i].as_str());
        proof {
            let longer = args@.take(i + 1);
            assert(longer.drop_last() =~= args@.take(i as int));
            assert(longer.last() == args@[i as int]);
            if i == 0 {
                assert(out@ =~= args@[0]@);
            }
        }
        i += 1;
    }
    assert(args@.take(i as int) =~= args@);
    out
}

/// Maps a child exit status onto a process exit code, using the shell's `128 + signal`
/// convention for signal deaths.
pub fn exit_code(code: Option<i32>, signal: Option<i32>) -> (r: i32)
    requires
        code is None && signal is Some ==> 128 + signal->0 <= i32::MAX,
    ensures
        match (code, signal) {
            (Some(code), _) => r == code,
            (None, Some(signal)) => r == 128 + signal,
            (None, None) => r == 1,
        },
{
    match (code, signal) {
        (Some(code), _) => code,
        (None, Some(signal)) => 128 + signal,
        (None, None) => 1,
    }
}

/// The exit code as a process can return it: one that does not fit a byte becomes a failure.
pub fn exit_byte(code: i32) -> (r: u8)
    ensures
        r == (if 0 <= code <= 255 {
            code as int
        } else {
            1
        }),
{
    if code >= 0 && code <= 255 {
        code as u8
    } else {
        1
    }
}

/// A host that was only ever seen as an address, and the name that was found for it, if any.
#[derive(Debug)]
pub struct Renaming {
    /// The address, as the host is recorded.
    pub host: String,
    /// The name.
    pub name: Option<String>,
}

/// The counters by host name after one renaming: the host is given up, and its counters go to
/// the name, which may have counters of its own.
pub open spec fn renamed_counts(counts: Map<Seq<char>, EndpointStats>, by: Renaming) -> Map<
    Seq<char>,
    EndpointStats,
> {
    let from = by.host@;
    match by.name {
        None => counts,
        Some(name) => if from == name@ || !counts.contains_key(from) {
            counts
        } else if counts.contains_key(name@) {
            counts.remove(from).insert(name@, stats::folded(counts[name@], counts[from]))
        } else {
            counts.remove(from).insert(name@, counts[from])
        },
    }
}

/// The counters by host name after a series of renamings.
pub open spec fn counts_after(
    counts: Map<Seq<char>, EndpointStats>,
    by: Seq<Renaming>,
) -> Map<Seq<char>, EndpointStats>
    decreases by.len(),
{
    if by.len() == 0 {
        counts
    } else {
        renamed_counts(counts_after(counts, by.drop_last()), by.last())
    }
}

/// How one renaming changes a registry.
pub open spec fn renamed_by(before: Registry, after: Registry, by: Renaming) -> bool {
    match by.name {
        Some(name) => stats::renamed(before, after, by.host@, name@),
        None => after == before,
    }
}

/// Whether a series of registries starts at one, ends at another, and goes from each to the next
/// by one renaming.
pub open spec fn renamed_through(
    steps: Seq<Registry>,
    before: Registry,
    after: Registry,
    by: Seq<Renaming>,
) -> bool {
    &&& steps.len() == by.len() + 1
    &&& steps[0] == before
    &&& steps.last() == after
    &&& forall|i: int| 0 <= i < by.len() ==> renamed_by(steps[i], steps[i + 1], #[trigger] by[i])
}

/// Whether all totals of a registry were kept.
pub open spec fn totals_kept(before: Registry, after: Registry) -> bool {
    let ingress = conservation::ingress_counter();
    let egress = conservation::egress_counter();
    let connections = conservation::connection_counter();
    &&& conservation::kept(
        conservation::total(before, ingress),
        conservation::total(after, ingress),
    )
    &&& conservation::kept(conservation::total(before, egress), conservation::total(after, egress))
    &&& conservation::kept(
        conservation::total(before, connections),
        conservation::total(after, connections),
    )
}

/// Replaces endpoint keys that are bare IP addresses with the names that were found for them, in
/// order. No traffic is lost on the way, and endpoints that are not in the list, as host or as
/// name, are left untouched.
pub fn rename_all(registry: &mut Registry, found: &[Renaming])
    requires
        old(registry).wf(),
    ensures
        final(registry).wf(),
        final(registry)@ == counts_after(old(registry)@, found@),
        exists|steps: Seq<Registry>| renamed_through(steps, *old(registry), *final(registry), found@),
        totals_kept(*old(registry), *final(registry)),
        stats::same_connections(*old(registry), *final(registry)),
{
    let ghost mut steps: Seq<Registry> = seq![*registry];
    let mut i: usize = 0;
    assert(found@.take(0) =~= Seq::<Renaming>::empty());
    while i < found.len()
        invariant
            i <= found@.len(),
            registry.wf(),
            registry@ == counts_after(old(registry)@, found@.take(i as int)),
            renamed_through(steps, *old(registry), *registry, found@.take(i as int)),
            totals_kept(*old(registry), *registry),
            stats::same_connections(*old(registry), *registry),
        decreases found@.len() - i,
    {
        let ghost before = *registry;
        let ghost by = found@.take(i + 1);
        assert(by.drop_last() =~= found@.take(i as int));
        if let Some(name) = &found[i].name {
            registry.rename(found[i].host.as_str(), name.as_str());
            proof {
                conservation::renaming_keeps_totals(
                    before,
                    *registry,
                    found@[i as int].host@,
                    name@,
                );
                if stats::same_endpoints(before, *registry) {
                    assert(registry.held() =~= before.held());
                    assert(registry@ =~= before@);
                }
            }
        }
        proof {
            let longer = steps.push(*registry);
            assert forall|j: int| 0 <= j < by.len() implies renamed_by(
                longer[j],
                longer[j + 1],
                #[trigger] by[j],
            ) by {
                if j < i {
                    assert(found@.take(i as int)[j] == by[j]);
                }
            }
            steps = longer;
        }
        i += 1;
    }
    assert(found@.take(i as int) =~= found@);
}

/// The hosts that are recorded under an address, in the order of the names.
pub open spec fn address_hosts(names: Seq<Seq<char>>) -> Seq<Seq<char>> {
    names.filter(|name: Seq<char>| literal::spelled_by(name) is Some)
}

/// Endpoints whose key is a bare IP address, which is what a reverse lookup can give a name to.
pub fn ip_only_hosts(registry: &Registry) -> (r: Vec<(String, IpAddress)>)
    requires
        registry.wf(),
    ensures
        Seq::new(r@.len(), |i: int| r@[i].0@) == address_hosts(registry.names()),
        forall|i: int|
            0 <= i < r@.len() ==> literal::spelled_by((#[trigger] r@[i]).0@) == Some(
                r@[i].1.spelled(),
            ),
{
    let hosts = registry.hosts();
    let ghost names = registry.names();
    let mut out: Vec<(String, IpAddress)> = Vec::new();
    let mut i: usize = 0;
    proof {
        reveal(Seq::filter);
        assert(Seq::new(out@.len(), |j: int| out@[j].0@) =~= address_hosts(names.take(0)));
    }
    while i < hosts.len()
        invariant
            names == registry.names(),
            hosts@.len() == names.len(),
            forall|j: int| 0 <= j < hosts@.len() ==> (#[trigger] hosts@[j]).0@ == names[j],
            i <= names.len(),
            Seq::new(out@.len(), |j: int| out@[j].0@) == address_hosts(names.take(i as int)),
            forall|j: int|
                0 <= j < out@.len() ==> literal::spelled_by((#[trigger] out@[j]).0@) == Some(
                    out@[j].1.spelled(),
                ),
        decreases names.len() - i,
    {
        let ghost before = Seq::new(out@.len(), |j: int| out@[j].0@);
        if let Some(ip) = parse_ip(hosts[i].0.as_str()) {
            out.push((hosts[i].0.clone(), ip));
        }
        proof {
            reveal(Seq::filter);
            assert(names.take(i + 1).drop_last() =~= names.take(i as int));
            if literal::spelled_by(names[i as int]) is Some {
                assert(Seq::new(out@.len(), |j: int| out@[j].0@) =~= before.push(names[i as int]));
            }
        }
        i += 1;
    }
    assert(names.take(i as int) =~= names);
    out
}

/// The report on a run, or `None` if the totals of the run do not fit their counters.
pub fn summarize(
    registry: &Registry,
    command: String,
    domain_prefix_filter: Option<String>,
    execution_time_ms: u128,
    exit_code: i32,
) -> (r: Option<Report>)
    requires
        registry.wf(),
    ensures
        r is Some <==> {
            &&& conservation::total(*registry, conservation::ingress_counter()) <= u64::MAX
            &&& conservation::total(*registry, conservation::egress_counter()) <= u64::MAX
            &&& conservation::total(*registry, conservation::connection_counter()) <= u64::MAX
        },
        r matches Some(summary) ==> {
            &&& summary.command == command
            &&& summary.domain_prefix_filter == domain_prefix_filter
            &&& summary.execution_time_ms == execution_time_ms
            &&& summary.exit_code == exit_code
            &&& stats::ranked(summary.rows())
            &&& summary.rows().to_multiset() == registry.rows(
                text::of_string(domain_prefix_filter),
            ).to_multiset()
            &&& report::adds_up(summary.totals.matching_filter, report::shown(summary.rows()))
            &&& report::adds_up(summary.totals.all_destinations, summary.rows())
        },
{
    let filter: Option<&str> = match &domain_prefix_filter {
        Some(filter) => Some(filter.as_str()),
        None => None,
    };
    let endpoints = registry.snapshot(filter);
    proof {
        conservation::snapshot_keeps_totals(
            *registry,
            stats::rows_of(endpoints@),
            text::of_str(filter),
        );
    }
    if !Totals::fit(endpoints.as_slice()) {
        return None;
    }
    Some(Report::new(command, domain_prefix_filter, execution_time_ms, exit_code, endpoints))
}

} // verus!
