use wiretally::io::{ConnLog, Counting, Rewind, Side};
use wiretally::stats::Registry;

fn body_of(line: &str) -> &str {
    // [HH:MM:SS.mmm] followed by the connection.
    let bytes = line.as_bytes();
    assert_eq!((bytes[0], bytes[3], bytes[6], bytes[9], bytes[13]), (b'[', b':', b':', b'.', b']'));
    for i in [1, 2, 4, 5, 7, 8, 10, 11, 12] {
        assert!(bytes[i].is_ascii_digit(), "{line}");
    }
    &line[15..]
}

#[test]
fn counting_client_side_maps_read_to_egress() {
    let mut registry = Registry::new();
    let id = registry.endpoint("host");
    let stream = Counting::new(b"hello".to_vec(), id, Side::Client, None);
    assert_eq!(stream.on_read(&mut registry, 5), None);
    assert_eq!(stream.on_read(&mut registry, 0), None);
    assert_eq!(registry.stats(id).egress(), 5);
    assert_eq!(registry.stats(id).ingress(), 0);
}

#[test]
fn counting_upstream_side_maps_write_to_egress() {
    let mut registry = Registry::new();
    let id = registry.endpoint("host");
    let stream = Counting::new(Vec::<u8>::new(), id, Side::Upstream, None);
    assert_eq!(stream.on_write(&mut registry, 4), None);
    assert_eq!(registry.stats(id).egress(), 4);
    assert_eq!(registry.stats(id).ingress(), 0);
}

#[test]
fn both_ends_of_a_tunnel_count_alike() {
    let mut registry = Registry::new();
    let a = registry.endpoint("a");
    let b = registry.endpoint("b");
    let client = Counting::new((), a, Side::Client, None);
    let upstream = Counting::new((), b, Side::Upstream, None);
    for n in [3, 0, 1000] {
        client.on_read(&mut registry, n);
        upstream.on_write(&mut registry, n);
        client.on_write(&mut registry, 2 * n);
        upstream.on_read(&mut registry, 2 * n);
    }
    for id in [a, b] {
        assert_eq!(registry.stats(id).egress(), 1003);
        assert_eq!(registry.stats(id).ingress(), 2006);
        assert_eq!(registry.stats(id).connections(), 0);
    }
}

#[test]
fn verbose_streams_log_what_they_count() {
    let mut registry = Registry::new();
    let id = registry.endpoint("host");
    let log = ConnLog::new(7, "host:443");
    let client = Counting::new((), id, Side::Client, Some(log.clone()));
    let upstream = Counting::new((), id, Side::Upstream, Some(log));
    let line = client.on_read(&mut registry, 12).unwrap();
    assert_eq!(body_of(&line), "[CONN #7] TX    -> 12 bytes host:443");
    let line = client.on_write(&mut registry, 3).unwrap();
    assert_eq!(body_of(&line), "[CONN #7] RX    <- 3 bytes host:443");
    let line = upstream.on_read(&mut registry, 4).unwrap();
    assert_eq!(body_of(&line), "[CONN #7] RX    <- 4 bytes host:443");
    let line = upstream.on_write(&mut registry, 5).unwrap();
    assert_eq!(body_of(&line), "[CONN #7] TX    -> 5 bytes host:443");
    assert_eq!(client.on_read(&mut registry, 0), None);
    assert_eq!(registry.stats(id).egress(), 17);
    assert_eq!(registry.stats(id).ingress(), 7);
}

#[test]
fn log_lines_carry_the_time_and_the_connection() {
    let log = ConnLog::new(u64::MAX, "h:1");
    assert_eq!(
        log.line_at("01:02:03.004", "OPEN"),
        "[01:02:03.004] [CONN #18446744073709551615] OPEN"
    );
    assert_eq!(body_of(&log.event("x y")), "[CONN #18446744073709551615] x y");
    assert_eq!(body_of(&ConnLog::new(1, "h:1").tx(0)), "[CONN #1] TX    -> 0 bytes h:1");
    assert_eq!(body_of(&ConnLog::new(1, "h:1").rx(1)), "[CONN #1] RX    <- 1 bytes h:1");
}

#[test]
fn streams_can_be_taken_out_again() {
    let mut registry = Registry::new();
    let id = registry.endpoint("host");
    let mut stream = Counting::new(1, id, Side::Client, None);
    *stream.inner_mut() += 1;
    assert_eq!(*stream.inner(), 2);
    assert_eq!(stream.into_inner(), 2);
}

#[test]
fn rewind_replays_prefix_then_stream() {
    let mut stream = Rewind::new(b"head".to_vec(), b"tail".to_vec());
    let mut out = Vec::new();
    while let Some(bytes) = stream.replay(3) {
        out.extend_from_slice(&bytes);
    }
    out.extend_from_slice(stream.inner_mut());
    assert_eq!(out, b"headtail");
}

#[test]
fn rewinding_splits_the_prefix_as_the_reader_asks() {
    let mut stream = Rewind::new(b"abcdef".to_vec(), ());
    assert_eq!(stream.replay(2), Some(b"ab".to_vec()));
    assert_eq!(stream.replay(0), Some(vec![]));
    assert_eq!(stream.replay(100), Some(b"cdef".to_vec()));
    assert_eq!(stream.replay(100), None);
    assert_eq!(Rewind::new(vec![], ()).replay(1), None);
}
