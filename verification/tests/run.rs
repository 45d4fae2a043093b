use wiretally::address::IpAddress;
use wiretally::run::{
    command_line, exit_byte, exit_code, ip_only_hosts, keep_draining, rename_all, summarize, Renaming,
    DRAIN_POLL_MS, DRAIN_TIMEOUT_MS,
};
use wiretally::stats::Registry;

#[test]
fn exit_codes_follow_the_shell() {
    assert_eq!(exit_code(Some(7), None), 7);
    assert_eq!(exit_code(Some(0), Some(9)), 0);
    assert_eq!(exit_code(None, Some(9)), 137);
    assert_eq!(exit_code(None, None), 1);
    assert_eq!(exit_byte(0), 0);
    assert_eq!(exit_byte(137), 137);
    assert_eq!(exit_byte(255), 255);
    assert_eq!(exit_byte(256), 1);
    assert_eq!(exit_byte(-1), 1);
}

#[test]
fn command_lines_are_joined_with_blanks() {
    let args = |words: &[&str]| words.iter().map(|w| w.to_string()).collect::<Vec<_>>();
    assert_eq!(command_line(&args(&["curl", "-s", "https://x"])), "curl -s https://x");
    assert_eq!(command_line(&args(&["true"])), "true");
    assert_eq!(command_line(&args(&["a", "", "b"])), "a  b");
    assert_eq!(command_line(&[]), "");
}

#[test]
fn draining_stops_when_nothing_is_open_or_time_is_up() {
    let mut registry = Registry::new();
    assert!(!keep_draining(&registry, 0));
    let guard = registry.track_open();
    assert!(keep_draining(&registry, 0));
    assert!(keep_draining(&registry, 1999));
    assert!(!keep_draining(&registry, 2000));
    registry.release(guard);
    assert!(!keep_draining(&registry, 0));
    assert_eq!((DRAIN_TIMEOUT_MS, DRAIN_POLL_MS), (2000, 10));
}

#[test]
fn addresses_get_the_names_that_were_found() {
    let mut registry = Registry::new();
    for (host, n) in [("1.1.1.1", 1), ("2.2.2.2", 2), ("one.example", 4), ("3.3.3.3", 8)] {
        let id = registry.endpoint(host);
        registry.stats_mut(id).add_ingress(n);
    }
    let renaming = |host: &str, name: Option<&str>| Renaming {
        host: host.to_owned(),
        name: name.map(str::to_owned),
    };
    rename_all(
        &mut registry,
        &[
            renaming("1.1.1.1", Some("one.example")),
            renaming("2.2.2.2", Some("two.example")),
            renaming("3.3.3.3", None),
        ],
    );
    let snap: Vec<(String, u64)> =
        registry.snapshot(None).into_iter().map(|e| (e.domain, e.ingress_bytes)).collect();
    assert_eq!(
        snap,
        [
            ("3.3.3.3".to_owned(), 8),
            ("one.example".to_owned(), 5),
            ("two.example".to_owned(), 2)
        ]
    );
}

#[test]
fn a_summary_reports_the_registry() {
    let mut registry = Registry::new();
    for (host, n) in [("a.example.com", 1), ("b.dev", 2)] {
        let id = registry.endpoint(host);
        registry.stats_mut(id).add_ingress(n);
    }
    let filter = Some("example.com".to_owned());
    let report = summarize(&registry, "x".to_owned(), filter, 5, 3).unwrap();
    assert_eq!(report.command, "x");
    assert_eq!(report.domain_prefix_filter.as_deref(), Some("example.com"));
    assert_eq!((report.execution_time_ms, report.exit_code), (5, 3));
    assert_eq!(report.totals.matching_filter.ingress_bytes, 1);
    assert_eq!(report.totals.all_destinations.ingress_bytes, 3);
    assert_eq!(report.endpoints[0].domain, "b.dev");

    let unfiltered = summarize(&registry, "x".to_owned(), None, 5, 3).unwrap();
    assert_eq!(
        unfiltered.totals.matching_filter, unfiltered.totals.all_destinations,
        "with no filter, both totals rows agree"
    );
    let id = registry.endpoint("c");
    registry.stats_mut(id).add_ingress(u64::MAX);
    assert!(summarize(&registry, "x".to_owned(), None, 5, 3).is_none());
}

#[test]
fn only_addresses_are_looked_up_and_only_they_give_way() {
    let mut registry = Registry::new();
    for (host, n) in [
        ("one.example", 1),
        ("1.1.1.1", 2),
        ("two.example", 4),
        ("::1", 8),
        ("9.9.9.9", 16),
        ("1.1.1.999", 32),
    ] {
        let id = registry.endpoint(host);
        registry.stats_mut(id).add_ingress(n);
    }
    let chosen = ip_only_hosts(&registry);
    let hosts: Vec<&str> = chosen.iter().map(|(host, _)| host.as_str()).collect();
    assert_eq!(hosts, ["1.1.1.1", "::1", "9.9.9.9"]);
    assert_eq!(chosen[0].1, IpAddress::V4([1, 1, 1, 1]));
    let found: Vec<Renaming> = chosen
        .into_iter()
        .map(|(host, _)| {
            let name = if host == "9.9.9.9" { None } else { Some("one.example".to_owned()) };
            Renaming { host, name }
        })
        .collect();
    rename_all(&mut registry, &found);
    let snap: Vec<(String, u64)> =
        registry.snapshot(None).into_iter().map(|e| (e.domain, e.ingress_bytes)).collect();
    assert_eq!(
        snap,
        [
            ("1.1.1.999".to_owned(), 32),
            ("9.9.9.9".to_owned(), 16),
            ("one.example".to_owned(), 11),
            ("two.example".to_owned(), 4),
        ]
    );
}
