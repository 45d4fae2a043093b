use wiretally::address::{IpAddress, SocketAddress};
use wiretally::proxy::{
    absolutize, check_form, error_response, find_head_end, forward_parts, forward_to, head_body, hop_by_hop,
    protocol, request_line, route, split_authority, tunnel_established, tunnel_refused,
    upstream_failure, HeadError, HeadReader, HeadStep, Protocol, Proxy, Route, MAX_HEAD_BYTES,
};

#[test]
fn request_line_extracts_method_and_target() {
    let head = b"CONNECT example.com:443 HTTP/1.1\r\nHost: example.com\r\n\r\n";
    assert_eq!(
        request_line(head),
        Some(("CONNECT", "example.com:443")),
        "CONNECT target should come through verbatim"
    );
    let head = b"GET http://example.com/x HTTP/1.1\r\n\r\n";
    assert_eq!(request_line(head), Some(("GET", "http://example.com/x")));
    assert_eq!(request_line(b"garbage"), None);
}

#[test]
fn request_lines_need_two_words() {
    assert_eq!(request_line(b"nonsense\r\n\r\n"), None);
    assert_eq!(request_line(b" x\r\n"), None);
    assert_eq!(request_line(b"GET \r\n"), None);
    assert_eq!(request_line(b"GET  x\r\n"), None);
    assert_eq!(request_line(b"GET x\r\n"), Some(("GET", "x")));
    assert_eq!(request_line(b"GET x\n\r\n"), Some(("GET", "x\n")));
    assert_eq!(request_line(b"\xff x\r\n"), None);
    assert_eq!(request_line("PÜT é y\r\n".as_bytes()), Some(("PÜT", "é")));
    assert_eq!(request_line(b""), None);
}

#[test]
fn head_body_returns_pipelined_bytes() {
    let head = b"CONNECT a:443 HTTP/1.1\r\n\r\nEXTRA".to_vec();
    assert_eq!(head_body(&head), b"EXTRA");
    let head = b"CONNECT a:443 HTTP/1.1\r\n\r\n".to_vec();
    assert!(head_body(&head).is_empty());
}

#[test]
fn heads_end_at_the_first_blank_line() {
    assert_eq!(find_head_end(b""), None);
    assert_eq!(find_head_end(b"\r\n\r"), None);
    assert_eq!(find_head_end(b"\r\n\r\n"), Some(4));
    assert_eq!(find_head_end(b"a\r\n\r\n\r\n\r\n"), Some(5));
    assert_eq!(find_head_end(b"a\r\r\n\r\nb"), Some(6));
    assert_eq!(head_body(b"no end"), b"");
}

#[test]
fn authority_split_handles_ipv6_and_missing_ports() {
    assert_eq!(split_authority("Example.COM:8443", 80), ("example.com".into(), 8443));
    assert_eq!(split_authority("example.com", 80), ("example.com".into(), 80));
    assert_eq!(split_authority("[2001:db8::1]:443", 80), ("2001:db8::1".into(), 443));
    assert_eq!(split_authority("[2001:db8::1]", 80), ("2001:db8::1".into(), 80));
}

#[test]
fn documented_authorities_split() {
    assert_eq!(split_authority("example.com:8080", 443), ("example.com".into(), 8080));
    assert_eq!(split_authority("example.com", 443), ("example.com".into(), 443));
    assert_eq!(split_authority("[::1]:80", 443), ("::1".into(), 80));
}

#[test]
fn odd_authorities_fall_back_to_the_default() {
    assert_eq!(split_authority("", 1), ("".into(), 1));
    assert_eq!(split_authority(":", 1), (":".into(), 1));
    assert_eq!(split_authority("A:", 1), ("a:".into(), 1));
    assert_eq!(split_authority("A:x", 1), ("a:x".into(), 1));
    assert_eq!(split_authority("a:65535", 1), ("a".into(), 65535));
    assert_eq!(split_authority("a:65536", 1), ("a:65536".into(), 1));
    assert_eq!(split_authority("a:99999999999999999999", 1), ("a:99999999999999999999".into(), 1));
    assert_eq!(split_authority("a:+80", 1), ("a".into(), 80));
    assert_eq!(split_authority("a:+", 1), ("a:+".into(), 1));
    assert_eq!(split_authority("a:-0", 1), ("a:-0".into(), 1));
    assert_eq!(split_authority("a:00080", 1), ("a".into(), 80));
    assert_eq!(split_authority("a:b:80", 1), ("a:b".into(), 80));
    assert_eq!(split_authority("2001:db8::1", 443), ("2001:db8:".into(), 1));
    assert_eq!(split_authority("[A", 1), ("a".into(), 1));
    assert_eq!(split_authority("[a]80", 1), ("a".into(), 1));
    assert_eq!(split_authority("[a]:x", 1), ("a".into(), 1));
    assert_eq!(split_authority("[a]:70000", 1), ("a".into(), 1));
    assert_eq!(split_authority("[a]b]:80", 1), ("a".into(), 1));
    assert_eq!(split_authority("[]:80", 1), ("".into(), 80));
}

#[test]
fn the_first_byte_tells_the_protocol() {
    assert_eq!(protocol(0x05), Protocol::Socks);
    for first in [0x04, b'G', b'C', 0x00, 0xff] {
        assert_eq!(protocol(first), Protocol::Http);
    }
}

fn read_all(chunks: &[&[u8]]) -> HeadStep {
    let mut reader = HeadReader::new();
    for chunk in chunks {
        match reader.take(chunk) {
            HeadStep::More(next) => reader = next,
            over => return over,
        }
    }
    HeadStep::More(reader)
}

#[test]
fn heads_are_read_in_any_pieces() {
    let whole = b"GET / HTTP/1.1\r\n\r\nrest";
    for cut in 1..whole.len() {
        match read_all(&[&whole[..cut], &whole[cut..]]) {
            HeadStep::Head(head) => assert_eq!(head, if cut < 18 { &whole[..] } else { &whole[..cut] }),
            other => panic!("{other:?}"),
        }
    }
}

#[test]
fn a_client_that_hangs_up_ends_the_head() {
    assert!(matches!(read_all(&[b""]), HeadStep::Failed(HeadError::UnexpectedEof)));
    assert!(matches!(read_all(&[b"GET", b""]), HeadStep::Head(head) if head == b"GET"));
    assert!(matches!(read_all(&[b"GET"]), HeadStep::More(_)));
    assert_eq!(HeadError::UnexpectedEof.message(), "unexpected end of file");
}

#[test]
fn an_oversized_request_head_is_refused_rather_than_buffered() {
    let limit = vec![b'p'; MAX_HEAD_BYTES];
    assert!(matches!(read_all(&[&limit]), HeadStep::More(_)));
    assert!(matches!(read_all(&[&limit, b"p"]), HeadStep::Failed(HeadError::TooLarge)));
    assert!(matches!(read_all(&[&limit, b"\r\n\r\n"]), HeadStep::Head(_)));
    assert_eq!(MAX_HEAD_BYTES, 64 * 1024);
    assert_eq!(HeadError::TooLarge.message(), "request head too large");
}

#[test]
fn connect_goes_into_a_tunnel_and_the_rest_is_http() {
    match route(b"connect Host:1 HTTP/1.1\r\nA: b\r\n\r\nEXTRA") {
        Route::Tunnel(target, leftover) => {
            assert_eq!(target, "Host:1");
            assert_eq!(leftover, b"EXTRA");
        }
        other => panic!("{other:?}"),
    }
    assert!(matches!(route(b"CONNECT a:1\r\n"), Route::Tunnel(_, leftover) if leftover.is_empty()));
    assert!(matches!(route(b"GET / HTTP/1.1\r\n\r\n"), Route::Http));
    assert!(matches!(route(b"CONNECTS a HTTP/1.1\r\n\r\n"), Route::Http));
    assert!(matches!(route(b"nonsense\r\n\r\n"), Route::Malformed));
}

#[test]
fn origin_form_requests_are_rebuilt_from_the_host_header() {
    assert_eq!(
        absolutize(Some(b"example.com:81"), Some("/data?x=1")),
        Ok("http://example.com:81/data?x=1".to_owned())
    );
    assert_eq!(absolutize(Some(b"h"), None), Ok("http://h/".to_owned()));
    assert_eq!(
        forward_parts(None, Some(b"h"), Some("/x")).unwrap(),
        Some("http://h/x".to_owned())
    );
    assert_eq!(forward_parts(Some("h"), None, None).unwrap(), None);
    assert_eq!(
        forward_to("/data?x=1", Some(b"h:8080")).unwrap(),
        Some("http://h:8080/data?x=1".to_owned())
    );
    assert_eq!(forward_to("http://h/x", None).unwrap(), None);
    assert_eq!(forward_to("h:443", None).unwrap(), None);
}

#[test]
fn an_origin_form_request_with_no_host_is_a_bad_request() {
    let missing = "request has neither an absolute URI nor a Host header";
    assert_eq!(absolutize(None, Some("/data")), Err(missing.to_owned()));
    assert_eq!(absolutize(Some(b"h\x01"), Some("/")), Err(missing.to_owned()));
    assert_eq!(absolutize(Some(b"h\x7f"), Some("/")), Err(missing.to_owned()));
    assert_eq!(absolutize(Some(b"h\xe9"), Some("/")), Err(missing.to_owned()));
    let response = forward_to("/data", None).unwrap_err();
    assert_eq!(response.status, 400);
    assert_eq!(response.content_type, "text/plain");
    assert_eq!(response.body, missing);
}

#[test]
fn a_host_that_makes_no_uri_is_a_bad_request() {
    assert_eq!(
        absolutize(Some(b"a b"), Some("/")),
        Err("cannot build absolute URI: invalid uri character".to_owned())
    );
    assert_eq!(
        absolutize(Some(b"h\t"), Some("/")),
        Err("cannot build absolute URI: invalid uri character".to_owned())
    );
    let response = forward_to("/", Some(b"a b")).unwrap_err();
    assert_eq!(response.status, 400);
    assert_eq!(response.body, "cannot build absolute URI: invalid uri character");
    assert_eq!(check_form("x".to_owned(), None), Ok("x".to_owned()));
    assert_eq!(
        check_form("x".to_owned(), Some("e".to_owned())),
        Err("cannot build absolute URI: e".to_owned())
    );
}

#[test]
fn failures_are_answered_as_plain_text() {
    let response = upstream_failure("client error (Connect)");
    assert_eq!(response.status, 502);
    assert_eq!(response.content_type, "text/plain");
    assert_eq!(response.body, "upstream request failed: client error (Connect)");
    assert_eq!(error_response(418, "x".to_owned()).status, 418);
    assert_eq!(tunnel_established(), "HTTP/1.1 200 Connection Established\r\n\r\n");
    assert_eq!(tunnel_refused(), "HTTP/1.1 502 Bad Gateway\r\nContent-Length: 0\r\n\r\n");
    assert_eq!(hop_by_hop(), ["proxy-connection", "proxy-authorization", "keep-alive"]);
}

#[test]
fn proxy_environment_is_visible_to_the_child() {
    let addr = SocketAddress::new(IpAddress::V4([127, 0, 0, 1]), 40123);
    let proxy = Proxy::at(addr);
    assert_eq!(proxy.local_addr(), addr);
    assert_eq!(proxy.url(), "http://127.0.0.1:40123");
    assert_eq!(proxy.socks_url(), "socks5h://127.0.0.1:40123");
    let environment = proxy.environment();
    let expected = [
        ("HTTP_PROXY", "http://127.0.0.1:40123"),
        ("HTTPS_PROXY", "http://127.0.0.1:40123"),
        ("ALL_PROXY", "socks5h://127.0.0.1:40123"),
        ("http_proxy", "http://127.0.0.1:40123"),
        ("https_proxy", "http://127.0.0.1:40123"),
        ("all_proxy", "socks5h://127.0.0.1:40123"),
    ];
    assert_eq!(environment.len(), expected.len());
    for ((name, value), (wanted_name, wanted_value)) in environment.iter().zip(expected) {
        assert_eq!(*name, wanted_name);
        assert_eq!(value, wanted_value);
    }
}
