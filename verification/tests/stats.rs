use wiretally::address::IpAddress;
use wiretally::stats::{matches_domain, EndpointStats, Registry};

fn add(registry: &mut Registry, host: &str, ingress: u64, egress: u64) {
    let id = registry.endpoint(host);
    let stats = registry.stats_mut(id);
    stats.add_ingress(ingress);
    stats.add_egress(egress);
    stats.add_connection();
}

#[test]
fn suffix_match_respects_label_boundaries() {
    assert!(matches_domain("a.b.example.com", Some("example.com")));
    assert!(!matches_domain("badexample.com", Some("example.com")));
    assert!(matches_domain("EXAMPLE.com", Some("example.com")));
    assert!(matches_domain("x.example.com.", Some(".example.com")));
    assert!(matches_domain("x.example.com", Some("*.example.com")));
}

#[test]
fn documented_filter_examples_hold() {
    assert!(matches_domain("s3.amazonaws.com", Some("amazonaws.com")));
    assert!(matches_domain("amazonaws.com", Some("amazonaws.com")));
    assert!(!matches_domain("notamazonaws.com", Some("amazonaws.com")));
    assert!(matches_domain("anything.dev", None));
    assert!(matches_domain("s3.us-east-1.amazonaws.com", Some("amazonaws.com")));
}

#[test]
fn filters_are_trimmed_before_they_are_compared() {
    assert!(matches_domain("anything", Some("")));
    assert!(matches_domain("anything", Some("...")));
    assert!(matches_domain("anything", Some("*.")));
    assert!(matches_domain("x.com", Some("*.*.x.com.")));
    assert!(matches_domain("x.com..", Some("X.COM")));
    assert!(!matches_domain("x.com", Some("*x.com")));
    assert!(!matches_domain("com", Some("x.com")));
    assert!(!matches_domain("", Some("x")));
    assert!(matches_domain("", Some("")));
    assert!(!matches_domain("x.com", Some(".*.x.com")));
    assert!(matches_domain("a.x.com", Some("A.X.com")));
}

#[test]
fn endpoint_handles_are_shared_per_host() {
    let mut registry = Registry::new();
    let id = registry.endpoint("a.example");
    registry.stats_mut(id).add_ingress(10);
    let id = registry.endpoint("a.example");
    registry.stats_mut(id).add_egress(4);
    let id = registry.endpoint("a.example");
    registry.stats_mut(id).add_connection();
    let snap = registry.snapshot(Some("example"));
    assert_eq!(snap.len(), 1);
    assert_eq!(snap[0].ingress_bytes, 10);
    assert_eq!(snap[0].egress_bytes, 4);
    assert_eq!(snap[0].connections, 1);
    assert!(snap[0].matches_filter);
}

#[test]
fn rename_merges_into_existing_host() {
    let mut registry = Registry::new();
    let ip = registry.endpoint("1.2.3.4");
    registry.stats_mut(ip).add_ingress(100);
    registry.stats_mut(ip).add_connection();
    let named = registry.endpoint("host.example");
    registry.stats_mut(named).add_ingress(1);
    registry.stats_mut(named).add_connection();

    registry.rename("1.2.3.4", "host.example");

    let snap = registry.snapshot(None);
    assert_eq!(snap.len(), 1);
    assert_eq!(snap[0].domain, "host.example");
    assert_eq!(snap[0].ingress_bytes, 101);
    assert_eq!(snap[0].connections, 2);
}

#[test]
fn rename_keeps_the_cell_where_nothing_merges() {
    let mut registry = Registry::new();
    let id = registry.endpoint("1.2.3.4");
    registry.stats_mut(id).add_egress(7);
    registry.rename("1.2.3.4", "host.example");
    registry.rename("unknown", "elsewhere");
    registry.rename("host.example", "host.example");
    assert_eq!(registry.endpoint("host.example"), id);
    assert_eq!(registry.stats(id).egress(), 7);
    registry.stats_mut(id).add_egress(1);
    let snap = registry.snapshot(None);
    assert_eq!(snap.len(), 1);
    assert_eq!(snap[0].egress_bytes, 8);
    assert_eq!(registry.hosts().len(), 1);
    assert_eq!(registry.hosts()[0].0, "host.example");
}

#[test]
fn rename_keeps_the_address_of_the_host_that_stays() {
    let first = IpAddress::V4([1, 1, 1, 1]);
    let second = IpAddress::V4([2, 2, 2, 2]);
    let mut registry = Registry::new();
    for (host, ip) in [("a", Some(first)), ("b", Some(second)), ("c", None)] {
        let id = registry.endpoint(host);
        if let Some(ip) = ip {
            registry.stats_mut(id).observe_ip(ip);
        }
    }
    registry.rename("a", "c");
    registry.rename("b", "c");
    let snap = registry.snapshot(None);
    assert_eq!(snap.len(), 1);
    assert_eq!(snap[0].ip_address, Some(first));
}

#[test]
fn renaming_loses_no_traffic() {
    let mut registry = Registry::new();
    add(&mut registry, "1.1.1.1", 5, 50);
    add(&mut registry, "2.2.2.2", 7, 70);
    add(&mut registry, "a.example", 11, 110);
    registry.rename("1.1.1.1", "a.example");
    registry.rename("2.2.2.2", "b.example");
    let snap = registry.snapshot(None);
    assert_eq!(snap.iter().map(|e| e.ingress_bytes).sum::<u64>(), 23);
    assert_eq!(snap.iter().map(|e| e.egress_bytes).sum::<u64>(), 230);
    assert_eq!(snap.iter().map(|e| e.connections).sum::<u64>(), 3);
}

#[test]
fn snapshot_sorts_by_ingress_descending() {
    let mut registry = Registry::new();
    let small = registry.endpoint("small");
    registry.stats_mut(small).add_ingress(1);
    let big = registry.endpoint("big");
    registry.stats_mut(big).add_ingress(1_000);
    let snap = registry.snapshot(None);
    assert_eq!(snap[0].domain, "big");
}

#[test]
fn snapshots_break_ties_by_egress_and_then_by_name() {
    let hosts = [("b", 1, 1), ("a", 1, 1), ("d", 1, 2), ("c", 2, 0), ("é", 1, 1), ("ab", 1, 1)];
    let mut forwards = Registry::new();
    for (host, rx, tx) in hosts {
        add(&mut forwards, host, rx, tx);
    }
    let mut backwards = Registry::new();
    for (host, rx, tx) in hosts.iter().rev() {
        add(&mut backwards, host, *rx, *tx);
    }
    let order: Vec<String> = forwards.snapshot(None).into_iter().map(|e| e.domain).collect();
    assert_eq!(order, ["c", "d", "a", "ab", "b", "é"]);
    assert_eq!(forwards.snapshot(None), backwards.snapshot(None));
}

#[test]
fn a_filter_marks_rows_and_hides_none() {
    let mut registry = Registry::new();
    add(&mut registry, "a.example.com", 3, 0);
    add(&mut registry, "other.dev", 2, 0);
    let snap = registry.snapshot(Some("example.com"));
    assert_eq!(snap.len(), 2);
    assert!(snap[0].matches_filter);
    assert!(!snap[1].matches_filter);
    assert!(registry.snapshot(None).iter().all(|e| e.matches_filter));
}

#[test]
fn a_filter_that_covers_everything_is_like_none() {
    let mut registry = Registry::new();
    add(&mut registry, "a.example.com", 3, 0);
    add(&mut registry, "example.com", 2, 0);
    assert_eq!(registry.snapshot(Some("example.com")), registry.snapshot(None));
    assert_eq!(registry.snapshot(Some("*.")), registry.snapshot(None));
}

#[test]
fn the_first_address_observed_wins() {
    let mut stats = EndpointStats::default();
    assert_eq!(stats.ip(), None);
    stats.observe_ip(IpAddress::V4([10, 0, 0, 1]));
    stats.observe_ip(IpAddress::V4([10, 0, 0, 2]));
    assert_eq!(stats.ip(), Some(IpAddress::V4([10, 0, 0, 1])));
}

#[test]
fn counters_wrap_around_like_the_machine() {
    let mut stats = EndpointStats::default();
    stats.add_ingress(u64::MAX);
    stats.add_ingress(3);
    stats.add_egress(u64::MAX);
    stats.add_egress(1);
    assert_eq!(stats.ingress(), 2);
    assert_eq!(stats.egress(), 0);
    assert_eq!(stats.connections(), 0);
}

#[test]
fn connections_are_numbered_from_one_and_tracked_while_open() {
    let mut registry = Registry::new();
    assert!(registry.can_number());
    assert_eq!(registry.next_conn_id(), 1);
    assert_eq!(registry.next_conn_id(), 2);
    let first = registry.track_open();
    let second = registry.track_open();
    assert_eq!(registry.open_connections(), 2);
    registry.release(first);
    assert_eq!(registry.open_connections(), 1);
    registry.release(second);
    assert_eq!(registry.open_connections(), 0);
    assert!(registry.snapshot(None).is_empty());
}

#[test]
fn cells_belong_to_their_registry() {
    let mut registry = Registry::new();
    let id = registry.endpoint("a");
    assert!(registry.has(id));
    assert!(!Registry::new().has(id));
}
