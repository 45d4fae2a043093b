use wiretally::address::IpAddress;
use wiretally::io::Side;
use wiretally::session::{conn_log, target, Attempt, Session};
use wiretally::socks::Request;
use wiretally::stats::Registry;

fn local() -> Attempt {
    Attempt::Open(Some(IpAddress::V4([127, 0, 0, 1])))
}

#[test]
fn connect_tunnel_counts_exact_wire_bytes() {
    let mut registry = Registry::new();
    let session = Session::tunnel(&mut registry, false, "127.0.0.1:8080");
    assert_eq!((session.host.as_str(), session.port), ("127.0.0.1", 8080));
    let answer = session.answer_tunnel(&mut registry, local());
    assert!(answer.open);
    assert!(answer.reply.starts_with("HTTP/1.1 200"));
    let client = session.counting((), Side::Client);
    for _ in 0..3 {
        client.on_read(&mut registry, 100_000);
        client.on_write(&mut registry, 100_000);
    }
    let id = registry.endpoint("127.0.0.1");
    assert_eq!(registry.stats(id).egress(), 300_000);
    assert_eq!(registry.stats(id).ingress(), 300_000);
    assert_eq!(registry.stats(id).connections(), 1);
    assert_eq!(registry.stats(id).ip(), Some(IpAddress::V4([127, 0, 0, 1])));
    assert_eq!(session.closed(&registry), None);
}

#[test]
fn unreachable_connect_target_returns_bad_gateway() {
    for attempt in [Attempt::Refused, Attempt::Failed] {
        let mut registry = Registry::new();
        let session = Session::tunnel(&mut registry, true, "127.0.0.1:9");
        let answer = session.answer_tunnel(&mut registry, attempt);
        assert!(!answer.open);
        assert!(answer.reply.starts_with("HTTP/1.1 502"));
        assert_eq!(answer.line, None);
        let id = registry.endpoint("127.0.0.1");
        assert_eq!(registry.stats(id).connections(), 0);
        assert_eq!(registry.stats(id).ip(), None);
        assert_eq!(registry.snapshot(None).len(), 1);
    }
}

#[test]
fn an_unreachable_origin_becomes_a_bad_gateway() {
    let mut registry = Registry::new();
    let session =
        Session::upstream(&mut registry, false, "http://127.0.0.1:9/data").unwrap();
    assert_eq!(session.connected(&mut registry, Attempt::Refused), None);
    let id = registry.endpoint("127.0.0.1");
    assert_eq!(registry.stats(id).connections(), 0);
}

#[test]
fn schemes_stand_for_ports() {
    let mut registry = Registry::new();
    let port = |registry: &mut Registry, scheme, authority| {
        Session::upstream_parts(registry, false, scheme, Some(authority)).unwrap().port
    };
    assert_eq!(port(&mut registry, Some("https"), "h"), 443);
    assert_eq!(port(&mut registry, Some("http"), "h"), 80);
    assert_eq!(port(&mut registry, Some("HTTPS"), "h"), 80);
    assert_eq!(port(&mut registry, None, "h"), 80);
    assert_eq!(port(&mut registry, Some("https"), "h:81"), 81);
    assert!(Session::upstream_parts(&mut registry, false, Some("http"), None).is_none());
    assert!(Session::upstream(&mut registry, false, "/path").is_none());
    assert!(Session::upstream(&mut registry, false, "not a uri").is_none());
    let session = Session::upstream(&mut registry, false, "https://H/x?y").unwrap();
    assert_eq!((session.host.as_str(), session.port), ("h", 443));
    assert_eq!(Session::upstream(&mut registry, false, "HTTPS://h/").unwrap().port, 443);
    assert_eq!(Session::upstream(&mut registry, false, "http://h:81").unwrap().port, 81);
    assert_eq!(registry.hosts().len(), 1);
    assert_eq!(Session::tunnel(&mut registry, false, "H").port, 443);
    assert_eq!(registry.hosts().len(), 1);
}

#[test]
fn socks5_clients_hear_how_it_went() {
    let mut registry = Registry::new();
    let request = Request { host: "localhost".to_owned(), port: 5432 };
    let session = Session::socks(&mut registry, false, request);
    let refused = session.answer_socks(&mut registry, Attempt::Refused);
    assert_eq!(refused.reply, [5, 5, 0, 1, 0, 0, 0, 0, 0, 0]);
    let failed = session.answer_socks(&mut registry, Attempt::Failed);
    assert_eq!(failed.reply, [5, 1, 0, 1, 0, 0, 0, 0, 0, 0]);
    assert!(!refused.open && !failed.open);
    let open = session.answer_socks(&mut registry, Attempt::Open(None));
    assert_eq!(open.reply, [5, 0, 0, 1, 0, 0, 0, 0, 0, 0]);
    assert!(open.open);
    let id = registry.endpoint("localhost");
    assert_eq!(registry.stats(id).connections(), 1);
    assert_eq!(registry.stats(id).ip(), None);
}

#[test]
fn multiple_connections_to_one_host_aggregate() {
    let mut registry = Registry::new();
    for _ in 0..3 {
        let session = Session::tunnel(&mut registry, false, "127.0.0.1:1");
        session.answer_tunnel(&mut registry, local());
        let client = session.counting((), Side::Client);
        client.on_read(&mut registry, 4);
        client.on_write(&mut registry, 4);
    }
    let id = registry.endpoint("127.0.0.1");
    assert_eq!(registry.stats(id).connections(), 3);
    assert_eq!(registry.stats(id).egress(), 12);
    assert_eq!(registry.stats(id).ingress(), 12);
    assert_eq!(registry.snapshot(None).len(), 1, "one host, one row");
}

#[test]
fn verbose_sessions_log_open_and_close() {
    let mut registry = Registry::new();
    let session = Session::tunnel(&mut registry, true, "Example.com:8443");
    let line = session.connected(&mut registry, local()).unwrap();
    assert!(line.ends_with("] [CONN #1] OPEN  -> example.com:8443 (127.0.0.1)"), "{line}");
    let counted = session.counting((), Side::Upstream);
    let line = counted.on_read(&mut registry, 10).unwrap();
    assert!(line.ends_with("] [CONN #1] RX    <- 10 bytes example.com:8443"), "{line}");
    counted.on_write(&mut registry, 3);
    let line = session.closed(&registry).unwrap();
    assert!(
        line.ends_with("] [CONN #1] CLOSE -> Total Rx: 10 bytes | Total Tx: 3 bytes"),
        "{line}"
    );
    let silent = Session::tunnel(&mut registry, true, "h");
    assert_eq!(silent.connected(&mut registry, Attempt::Open(None)), None);
}

#[test]
fn only_verbose_connections_are_numbered() {
    let mut registry = Registry::new();
    assert!(conn_log(&mut registry, false, "a:1").is_none());
    let log = conn_log(&mut registry, true, "a:1").unwrap();
    assert!(log.tx(2).ends_with("] [CONN #1] TX    -> 2 bytes a:1"));
    assert_eq!(registry.next_conn_id(), 2);
    assert_eq!(target("h", 65535), "h:65535");
}

#[test]
fn handshakes_put_no_bytes_into_the_totals() {
    let mut registry = Registry::new();
    let id = registry.endpoint("a");
    registry.stats_mut(id).add_ingress(5);
    let session = Session::tunnel(&mut registry, false, "a:1");
    session.answer_tunnel(&mut registry, local());
    let other = Session::tunnel(&mut registry, false, "b:1");
    other.answer_tunnel(&mut registry, Attempt::Failed);
    let snap = registry.snapshot(None);
    assert_eq!(snap.iter().map(|e| e.ingress_bytes).sum::<u64>(), 5);
    assert_eq!(snap.iter().map(|e| e.egress_bytes).sum::<u64>(), 0);
    assert_eq!(snap.iter().map(|e| e.connections).sum::<u64>(), 1);
}

#[test]
fn targets_are_read_back_as_they_were_written() {
    let mut registry = Registry::new();
    let session = Session::tunnel(&mut registry, false, &target("Host.Example", 8080));
    assert_eq!((session.host.as_str(), session.port), ("host.example", 8080));
    let session = Session::tunnel(&mut registry, false, &target("a:b", 0));
    assert_eq!((session.host.as_str(), session.port), ("a:b", 0));
}
