use wiretally::address::{IpAddress, SocketAddress};
use wiretally::io::ConnLog;
use wiretally::socks::parse_datagram;
use wiretally::stats::Registry;
use wiretally::udp::{Outward, Relay, Resolution, MAX_DATAGRAM};

fn v4(octets: [u8; 4], port: u16) -> SocketAddress {
    SocketAddress::new(IpAddress::V4(octets), port)
}

fn client() -> SocketAddress {
    v4([127, 0, 0, 1], 5000)
}

fn destination() -> SocketAddress {
    v4([127, 0, 0, 1], 53)
}

/// Wraps `payload` in a client-side relay header for an IPv4 destination.
fn wrap(octets: [u8; 4], port: u16, payload: &[u8]) -> Vec<u8> {
    let mut out = vec![0x00, 0x00, 0x00, 0x01];
    out.extend_from_slice(&octets);
    out.extend_from_slice(&port.to_be_bytes());
    out.extend_from_slice(payload);
    out
}

fn wrap_name(name: &str, port: u16, payload: &[u8]) -> Vec<u8> {
    let mut out = vec![0x00, 0x00, 0x00, 0x03, name.len() as u8];
    out.extend_from_slice(name.as_bytes());
    out.extend_from_slice(&port.to_be_bytes());
    out.extend_from_slice(payload);
    out
}

/// Takes a datagram of the client through to its destination.
fn send(relay: &mut Relay, registry: &mut Registry, raw: &[u8], to: SocketAddress) -> Option<String> {
    let outward = match relay.from_client(registry, client(), raw) {
        Outward::Resolve(datagram) => relay.found(registry, datagram, Resolution::Address(to)),
        other => other,
    };
    match outward {
        Outward::Send(sending) => {
            let n = sending.datagram.payload.len();
            relay.sent(registry, &sending, Ok(n))
        }
        other => panic!("{other:?}"),
    }
}

#[test]
fn relayed_datagrams_are_delivered_and_counted_both_ways() {
    let mut registry = Registry::new();
    let mut relay = Relay::new(None);
    let payload = b"query bytes";
    let raw = wrap([127, 0, 0, 1], 53, payload);
    assert_eq!(send(&mut relay, &mut registry, &raw, destination()), None);

    let mut scratch = vec![1, 2, 3];
    let back = relay.from_upstream(&mut registry, destination(), payload, &mut scratch).unwrap();
    assert_eq!(back.to, client());
    let echoed = parse_datagram(&scratch).unwrap();
    assert_eq!(echoed.payload, payload, "relay must be byte-transparent");
    assert_eq!(echoed.port, 53, "reply names its source");
    assert_eq!(relay.returned(&mut registry, &back, payload.len(), Ok(())), None);

    let id = registry.endpoint("127.0.0.1");
    assert_eq!(registry.stats(id).egress(), payload.len() as u64);
    assert_eq!(registry.stats(id).ingress(), payload.len() as u64);
    assert_eq!(registry.stats(id).connections(), 1);
    assert_eq!(registry.stats(id).ip(), Some(destination().ip));
}

#[test]
fn many_datagrams_accumulate_under_one_endpoint() {
    let mut registry = Registry::new();
    let mut relay = Relay::new(None);
    let payload = [0xEEu8; 512];
    let mut scratch = Vec::new();
    for _ in 0..5 {
        let raw = wrap([127, 0, 0, 1], 53, &payload);
        send(&mut relay, &mut registry, &raw, destination());
        let back =
            relay.from_upstream(&mut registry, destination(), &payload, &mut scratch).unwrap();
        relay.returned(&mut registry, &back, payload.len(), Ok(()));
    }
    let id = registry.endpoint("127.0.0.1");
    assert_eq!(registry.stats(id).egress(), 5 * 512);
    assert_eq!(registry.stats(id).ingress(), 5 * 512);
    assert_eq!(
        registry.stats(id).connections(),
        1,
        "one destination is one row, however many datagrams"
    );
}

#[test]
fn datagrams_to_a_new_host_are_one_connection_and_their_payloads() {
    let mut registry = Registry::new();
    // Known to the registry from elsewhere, new to the relay.
    let id = registry.endpoint("127.0.0.1");
    registry.stats_mut(id).add_connection();
    registry.stats_mut(id).add_egress(100);
    registry.stats_mut(id).add_ingress(7);
    let mut relay = Relay::new(None);
    for len in [3, 0, 1200, 41] {
        let raw = wrap([127, 0, 0, 1], 53, &vec![0x11u8; len]);
        send(&mut relay, &mut registry, &raw, destination());
    }
    assert_eq!(registry.stats(id).egress(), 100 + 3 + 1200 + 41);
    assert_eq!(registry.stats(id).connections(), 2);
    assert_eq!(registry.stats(id).ingress(), 7);
}

#[test]
fn malformed_datagrams_are_dropped_without_killing_the_relay() {
    let mut registry = Registry::new();
    let mut relay = Relay::new(None);
    // Fragmented, then truncated, then valid: only the last should be relayed.
    let fragmented = [0x00, 0x00, 0x07, 0x01, 1, 2, 3, 4, 0, 53];
    assert!(matches!(relay.from_client(&mut registry, client(), &fragmented), Outward::Dropped(None)));
    assert!(matches!(relay.from_client(&mut registry, client(), &[0x00, 0x00]), Outward::Dropped(None)));
    let raw = wrap([127, 0, 0, 1], 53, b"ok");
    send(&mut relay, &mut registry, &raw, destination());
    let mut scratch = Vec::new();
    relay.from_upstream(&mut registry, destination(), b"ok", &mut scratch).unwrap();
    assert_eq!(parse_datagram(&scratch).unwrap().payload, b"ok");
    let id = registry.endpoint("127.0.0.1");
    assert_eq!(registry.stats(id).egress(), 2);
}

#[test]
fn names_are_resolved_once_and_replies_go_to_them() {
    let mut registry = Registry::new();
    let mut relay = Relay::new(None);
    let to = v4([9, 9, 9, 9], 53);
    let raw = wrap_name("DNS.example.", 53, b"abc");
    assert!(matches!(relay.from_client(&mut registry, client(), &raw), Outward::Resolve(_)));
    send(&mut relay, &mut registry, &raw, to);
    match relay.from_client(&mut registry, client(), &raw) {
        Outward::Send(sending) => {
            assert_eq!(sending.datagram.host, "dns.example");
            assert_eq!(sending.to, to);
        }
        other => panic!("{other:?}"),
    }
    let other_port = wrap_name("dns.example", 54, b"abc");
    assert!(matches!(relay.from_client(&mut registry, client(), &other_port), Outward::Resolve(_)));
    let mut scratch = Vec::new();
    let back = relay.from_upstream(&mut registry, to, b"reply", &mut scratch).unwrap();
    assert_eq!(back.host, "dns.example");
    relay.returned(&mut registry, &back, 5, Ok(()));
    let snap = registry.snapshot(None);
    assert_eq!(snap.len(), 1);
    assert_eq!(snap[0].domain, "dns.example");
    assert_eq!((snap[0].ingress_bytes, snap[0].egress_bytes, snap[0].connections), (5, 3, 1));
}

#[test]
fn strangers_are_counted_under_their_address() {
    let mut registry = Registry::new();
    let mut relay = Relay::new(None);
    let mut scratch = vec![7];
    let stranger = v4([8, 8, 4, 4], 53);
    assert!(relay.from_upstream(&mut registry, stranger, b"x", &mut scratch).is_none());
    assert_eq!(scratch, [7], "there is no client to reply to yet");
    assert!(registry.snapshot(None).is_empty());
    let _ = relay.from_client(&mut registry, client(), &[]);
    let back = relay.from_upstream(&mut registry, stranger, b"x", &mut scratch).unwrap();
    assert_eq!(back.host, "8.8.4.4");
    let id = registry.endpoint("8.8.4.4");
    assert_eq!(registry.stats(id).connections(), 1);
    assert_eq!(registry.stats(id).ingress(), 0);
}

#[test]
fn the_client_is_where_its_last_datagram_came_from() {
    let mut registry = Registry::new();
    let mut relay = Relay::new(None);
    let moved = v4([127, 0, 0, 1], 5001);
    let _ = relay.from_client(&mut registry, client(), &[]);
    let _ = relay.from_client(&mut registry, moved, &[]);
    let mut scratch = Vec::new();
    let back = relay.from_upstream(&mut registry, destination(), b"", &mut scratch).unwrap();
    assert_eq!(back.to, moved);
}

#[test]
fn verbose_relays_log_every_outcome() {
    let mut registry = Registry::new();
    let mut relay = Relay::new(Some(ConnLog::new(4, "udp")));
    let ends = |line: Option<String>, end: &str| {
        let line = line.unwrap();
        assert!(line.ends_with(&format!("] [CONN #4] {end}")), "{line}");
    };
    match relay.from_client(&mut registry, client(), &[0, 0]) {
        Outward::Dropped(line) => ends(line, "UDP   -- dropped datagram: truncated udp relay header"),
        other => panic!("{other:?}"),
    }
    let raw = wrap_name("h", 53, b"abc");
    let datagram = parse_datagram(&raw).unwrap();
    let failed = Resolution::Failed("nope".to_owned());
    match relay.found(&mut registry, datagram.clone(), failed) {
        Outward::Dropped(line) => ends(line, "UDP   -- cannot resolve h:53: nope"),
        other => panic!("{other:?}"),
    }
    assert!(matches!(
        relay.found(&mut registry, datagram, Resolution::Nothing),
        Outward::Dropped(None)
    ));
    assert!(registry.snapshot(None).is_empty(), "nothing was sent, so nothing is counted");
    let line = send(&mut relay, &mut registry, &raw, destination());
    ends(line, "UDP   -> 3 bytes h:53");
    match relay.from_client(&mut registry, client(), &raw) {
        Outward::Send(sending) => {
            let line = relay.sent(&mut registry, &sending, Err("gone".to_owned()));
            ends(line, "UDP   -- send to 127.0.0.1:53 failed: gone");
        }
        other => panic!("{other:?}"),
    }
    let cell = registry.endpoint("h");
    let mut scratch = Vec::new();
    let back = relay.from_upstream(&mut registry, destination(), b"12345", &mut scratch).unwrap();
    ends(relay.returned(&mut registry, &back, 5, Ok(())), "UDP   <- 5 bytes h");
    ends(
        relay.returned(&mut registry, &back, 5, Err("closed".to_owned())),
        "UDP   -- reply to client failed: closed",
    );
    let stats = registry.stats(cell);
    assert_eq!((stats.egress(), stats.ingress(), stats.connections()), (3, 5, 1));
    assert_eq!(MAX_DATAGRAM, 65_535);
}
