use wiretally::address::{IpAddress, SocketAddress};
use wiretally::socks::{
    accept, association_reply, encode_datagram, io_failure_text, normalize_host, parse_datagram,
    refusal, reply, reply_bound, Command, DatagramError, Error, Handshake, IoKind, Request, Step,
    ATYP_DOMAIN, ATYP_IPV4, ATYP_IPV6,
    CMD_CONNECT, CMD_UDP_ASSOCIATE, METHOD_NONE, METHOD_UNACCEPTABLE, REP_ADDRESS_NOT_SUPPORTED,
    REP_COMMAND_NOT_SUPPORTED, REP_GENERAL_FAILURE, REP_SUCCESS,
};

/// Drives a handshake, returning its result and the bytes sent to the client.
fn handshake(client_bytes: &[u8]) -> (Result<Command, Error>, Vec<u8>) {
    let accepted = accept(client_bytes);
    (accepted.result, accepted.sent)
}

fn v4(octets: [u8; 4], port: u16) -> SocketAddress {
    SocketAddress::new(IpAddress::V4(octets), port)
}

fn documentation_v6() -> [u8; 16] {
    [0x20, 0x01, 0x0d, 0xb8, 0, 0, 0, 0, 0, 0, 0, 0, 0, 0, 0, 1]
}

fn v6(octets: [u8; 16], port: u16) -> SocketAddress {
    SocketAddress::new(IpAddress::V6(octets), port)
}

#[test]
fn domain_request_preserves_the_hostname() {
    let mut bytes = vec![0x05, 0x01, 0x00, 0x05, CMD_CONNECT, 0x00, ATYP_DOMAIN, 11];
    bytes.extend_from_slice(b"Example.COM");
    bytes.extend_from_slice(&443u16.to_be_bytes());
    let (result, sent) = handshake(&bytes);
    assert_eq!(
        result.unwrap(),
        Command::Connect(Request { host: "example.com".to_owned(), port: 443 })
    );
    assert_eq!(sent, vec![0x05, METHOD_NONE], "method selection only");
}

/// Destination of a `CONNECT`, for tests that only care about the address parsing.
fn connect_target(command: Command) -> Request {
    match command {
        Command::Connect(request) => request,
        other => panic!("expected CONNECT, got {other:?}"),
    }
}

#[test]
fn ipv4_and_ipv6_literals_are_accepted() {
    let mut v4 = vec![0x05, 0x01, 0x00, 0x05, CMD_CONNECT, 0x00, ATYP_IPV4];
    v4.extend_from_slice(&[10, 0, 0, 7]);
    v4.extend_from_slice(&80u16.to_be_bytes());
    let target = connect_target(handshake(&v4).0.unwrap());
    assert_eq!(target.host, "10.0.0.7");

    let mut v6 = vec![0x05, 0x01, 0x00, 0x05, CMD_CONNECT, 0x00, ATYP_IPV6];
    v6.extend_from_slice(&[0, 0, 0, 0, 0, 0, 0, 0, 0, 0, 0, 0, 0, 0, 0, 1]);
    v6.extend_from_slice(&443u16.to_be_bytes());
    let target = connect_target(handshake(&v6).0.unwrap());
    assert_eq!(target.host, "::1");
}

#[test]
fn udp_associate_is_accepted_as_its_own_command() {
    let mut bytes = vec![0x05, 0x01, 0x00, 0x05, CMD_UDP_ASSOCIATE, 0x00, ATYP_IPV4];
    bytes.extend_from_slice(&[127, 0, 0, 1]);
    bytes.extend_from_slice(&0u16.to_be_bytes());
    assert!(matches!(handshake(&bytes).0.unwrap(), Command::UdpAssociate(_)));
}

#[test]
fn bind_is_still_unsupported() {
    let mut bytes = vec![0x05, 0x01, 0x00, 0x05, 0x02, 0x00, ATYP_IPV4];
    bytes.extend_from_slice(&[127, 0, 0, 1]);
    bytes.extend_from_slice(&80u16.to_be_bytes());
    let err = handshake(&bytes).0.unwrap_err();
    assert_eq!(err.reply_code(), REP_COMMAND_NOT_SUPPORTED);
    assert_eq!(err.to_string(), "unsupported socks command 0x02");
}

#[test]
fn datagram_round_trip_preserves_payload_and_source() {
    let mut encoded = Vec::new();
    encode_datagram(v4([203, 0, 113, 9], 53), b"answer", &mut encoded);
    let parsed = parse_datagram(&encoded).unwrap();
    assert_eq!(parsed.host, "203.0.113.9");
    assert_eq!(parsed.port, 53);
    assert_eq!(parsed.payload, b"answer");
}

#[test]
fn documented_datagram_example_holds() {
    let mut buf = vec![0, 0, 0, 0x01, 10, 0, 0, 7];
    buf.extend_from_slice(&53u16.to_be_bytes());
    buf.extend_from_slice(b"payload");
    let datagram = parse_datagram(&buf).unwrap();
    assert_eq!((datagram.host.as_str(), datagram.port), ("10.0.0.7", 53));
    assert_eq!(datagram.payload, b"payload");
}

#[test]
fn datagram_parse_rejects_fragments_and_truncation() {
    assert_eq!(
        parse_datagram(&[0x00, 0x00, 0x01, ATYP_IPV4, 1, 2, 3, 4, 0, 53]),
        Err(DatagramError::Fragmented(1))
    );
    assert_eq!(parse_datagram(&[0x00, 0x00]), Err(DatagramError::Truncated));
    assert_eq!(
        parse_datagram(&[0x00, 0x00, 0x00, ATYP_IPV4, 1, 2]),
        Err(DatagramError::Truncated)
    );
    assert_eq!(
        parse_datagram(&[0x00, 0x00, 0x00, 0x09, 1, 2]),
        Err(DatagramError::UnsupportedAddressType(0x09))
    );
}

#[test]
fn datagram_parse_accepts_domain_destinations() {
    let mut buf = vec![0x00, 0x00, 0x00, ATYP_DOMAIN, 11];
    buf.extend_from_slice(b"Example.COM");
    buf.extend_from_slice(&443u16.to_be_bytes());
    buf.extend_from_slice(b"body");
    let parsed = parse_datagram(&buf).unwrap();
    assert_eq!(parsed.host, "example.com", "names are normalised");
    assert_eq!(parsed.payload, b"body");
}

#[test]
fn the_header_of_a_datagram_decides_in_order() {
    assert_eq!(parse_datagram(&[]), Err(DatagramError::Truncated));
    assert_eq!(parse_datagram(&[9, 9, 2]), Err(DatagramError::Truncated));
    assert_eq!(parse_datagram(&[9, 9, 2, 9]), Err(DatagramError::Fragmented(2)));
    assert_eq!(parse_datagram(&[9, 9, 0, 0]), Err(DatagramError::UnsupportedAddressType(0)));
    assert_eq!(parse_datagram(&[0, 0, 0, ATYP_DOMAIN]), Err(DatagramError::Truncated));
    assert_eq!(parse_datagram(&[0, 0, 0, ATYP_DOMAIN, 2, b'a']), Err(DatagramError::Truncated));
    assert_eq!(parse_datagram(&[0, 0, 0, ATYP_DOMAIN, 1, b'a', 0]), Err(DatagramError::Truncated));
    let empty = parse_datagram(&[0, 0, 0, ATYP_DOMAIN, 0, 1, 2]).unwrap();
    assert_eq!((empty.host.as_str(), empty.port, empty.payload.len()), ("", 258, 0));
}

#[test]
fn names_that_are_not_utf8_are_read_with_replacements() {
    let buf = [0, 0, 0, ATYP_DOMAIN, 5, b'A', 0xFF, b'B', b'.', b'.', 0, 80];
    assert_eq!(parse_datagram(&buf).unwrap().host, "a\u{FFFD}b");
    let mut bytes = vec![0x05, 0x01, 0x00, 0x05, CMD_CONNECT, 0x00, ATYP_DOMAIN, 3];
    bytes.extend_from_slice(&[b'X', 0xC3, 0xA9, 0, 80]);
    assert_eq!(connect_target(handshake(&bytes).0.unwrap()).host, "xé");
}

#[test]
fn hosts_are_normalized_in_ascii_only() {
    assert_eq!(normalize_host("ÄB.Example.COM..."), "Äb.example.com");
    assert_eq!(normalize_host("..."), "");
}

#[test]
fn udp_reply_advertises_the_relay_address() {
    let buf = reply_bound(REP_SUCCESS, v4([127, 0, 0, 1], 40_000));
    assert_eq!(buf.len(), 10);
    assert_eq!(buf[3], ATYP_IPV4);
    assert_eq!(&buf[4..8], &[127, 0, 0, 1]);
    assert_eq!(u16::from_be_bytes([buf[8], buf[9]]), 40_000);
}

#[test]
fn authentication_requirement_is_rejected() {
    let (result, sent) = handshake(&[0x05, 0x01, 0x02]);
    assert!(matches!(result, Err(Error::NoAcceptableMethod)));
    assert_eq!(sent, vec![0x05, METHOD_UNACCEPTABLE]);
    let (result, sent) = handshake(&[0x05, 0x00]);
    assert!(matches!(result, Err(Error::NoAcceptableMethod)));
    assert_eq!(sent, vec![0x05, METHOD_UNACCEPTABLE]);
}

#[test]
fn wrong_version_is_rejected() {
    let (result, sent) = handshake(&[0x04, 0x01, 0x00]);
    assert!(matches!(result, Err(Error::UnsupportedVersion(0x04))));
    assert!(sent.is_empty());
}

#[test]
fn success_reply_is_ten_bytes() {
    assert_eq!(reply(REP_SUCCESS), [0x05, 0x00, 0x00, 0x01, 0, 0, 0, 0, 0, 0]);
}

#[test]
fn unsupported_address_type_is_rejected_with_its_own_code() {
    // Greeting is fine; the request then names an address family this proxy cannot forward.
    let bytes = vec![0x05, 0x01, 0x00, 0x05, CMD_CONNECT, 0x00, 0x09];
    let (result, sent) = handshake(&bytes);
    let err = result.unwrap_err();
    assert!(matches!(err, Error::UnsupportedAddressType(0x09)));
    assert_eq!(err.reply_code(), REP_ADDRESS_NOT_SUPPORTED);
    assert_eq!(
        sent,
        vec![0x05, METHOD_NONE],
        "the greeting is answered before the request is rejected"
    );
}

#[test]
fn version_is_rechecked_on_the_request_after_the_greeting() {
    // A client can speak 0x05 in its greeting and then send a mismatched request header;
    // accepting that would mean parsing the rest of the record under the wrong layout.
    let bytes = vec![0x05, 0x01, 0x00, 0x04, CMD_CONNECT, 0x00, ATYP_IPV4];
    let (result, _) = handshake(&bytes);
    assert!(matches!(result, Err(Error::UnsupportedVersion(0x04))));
}

#[test]
fn a_truncated_handshake_surfaces_as_an_io_error() {
    // Half a greeting, then the end: the error must carry its source through, since that is what
    // the caller logs.
    let accepted = accept(&[0x05]);
    assert_eq!(accepted.io_kind, Some(IoKind::UnexpectedEof));
    let err = accepted.result.unwrap_err();
    assert!(matches!(err, Error::Io(_)));
    assert!(err.source().is_some());
    assert_eq!(err.source().unwrap().kind(), std::io::ErrorKind::UnexpectedEof);
    assert_eq!(
        err.reply_code(),
        REP_GENERAL_FAILURE,
        "errors with no specific code fall back to a general failure"
    );
}

#[test]
fn every_error_describes_itself() {
    // The proxy only ever shows these to a human in verbose mode, so the requirement is that
    // each variant says something distinct rather than any exact wording.
    let errors = [
        Error::Io(std::io::Error::from(std::io::ErrorKind::UnexpectedEof)),
        Error::UnsupportedVersion(0x04),
        Error::NoAcceptableMethod,
        Error::UnsupportedCommand(0x02),
        Error::UnsupportedAddressType(0x09),
    ];
    let rendered: Vec<String> = errors.iter().map(|err| err.to_string()).collect();
    assert!(rendered.iter().all(|text| !text.is_empty()));
    assert_eq!(
        rendered.iter().collect::<std::collections::HashSet<_>>().len(),
        rendered.len(),
        "variants must not render identically: {rendered:?}"
    );
    assert_eq!(
        Error::NoAcceptableMethod.reply_code(),
        REP_GENERAL_FAILURE,
        "no code of its own"
    );
    assert!(
        Error::NoAcceptableMethod.source().is_none(),
        "only the io variant wraps another error"
    );

    let datagram_errors = [
        DatagramError::Truncated,
        DatagramError::UnsupportedAddressType(0x09),
        DatagramError::Fragmented(0x01),
    ];
    let rendered: Vec<String> = datagram_errors.iter().map(|err| err.to_string()).collect();
    assert_eq!(
        rendered.iter().collect::<std::collections::HashSet<_>>().len(),
        rendered.len(),
        "variants must not render identically: {rendered:?}"
    );
}

#[test]
fn errors_say_exactly_this() {
    let eof = std::io::Error::from(std::io::ErrorKind::UnexpectedEof);
    assert_eq!(
        Error::Io(eof).to_string(),
        "socks5 handshake io error: unexpected end of file"
    );
    assert_eq!(io_failure_text("boom"), "socks5 handshake io error: boom");
    assert_eq!(Error::UnsupportedVersion(0x4f).to_string(), "unsupported socks version 0x4f");
    assert_eq!(
        Error::NoAcceptableMethod.to_string(),
        "client offered no acceptable authentication method"
    );
    assert_eq!(Error::UnsupportedAddressType(0xA0).to_string(), "unsupported address type 0xa0");
    assert_eq!(DatagramError::Truncated.to_string(), "truncated udp relay header");
    assert_eq!(
        DatagramError::UnsupportedAddressType(9).to_string(),
        "unsupported address type 0x09"
    );
    assert_eq!(
        DatagramError::Fragmented(1).to_string(),
        "fragmented datagram (FRAG 0x01) is not supported"
    );
}

#[test]
fn io_errors_convert_into_handshake_errors() {
    let err: Error = std::io::Error::from(std::io::ErrorKind::ConnectionReset).into();
    assert!(matches!(err, Error::Io(_)));
}

#[test]
fn ipv6_datagrams_round_trip() {
    // The v6 arms of both the encoder and the parser are otherwise only reachable on a v6
    // host, which is exactly the configuration least likely to be tested by hand.
    let mut encoded = Vec::new();
    encode_datagram(v6(documentation_v6(), 9000), b"v6 payload", &mut encoded);
    assert_eq!(encoded[3], ATYP_IPV6);

    let parsed = parse_datagram(&encoded).unwrap();
    assert_eq!(parsed.host, "2001:db8::1");
    assert_eq!(parsed.port, 9000);
    assert_eq!(parsed.payload, b"v6 payload");
}

#[test]
fn udp_reply_can_advertise_an_ipv6_relay() {
    let buf = reply_bound(REP_SUCCESS, v6(documentation_v6(), 40_000));
    assert_eq!(buf.len(), 22);
    assert_eq!(buf[3], ATYP_IPV6);
    assert_eq!(&buf[4..20], &documentation_v6());
    assert_eq!(u16::from_be_bytes([buf[20], buf[21]]), 40_000);
}

#[test]
fn encoding_clears_what_was_in_the_buffer() {
    let mut out = vec![1, 2, 3];
    encode_datagram(v4([1, 2, 3, 4], 258), &[7], &mut out);
    assert_eq!(out, [0, 0, 0, 1, 1, 2, 3, 4, 1, 2, 7]);
}

#[test]
fn truncating_a_datagram_is_always_an_error() {
    let mut encoded = Vec::new();
    encode_datagram(v4([198, 51, 100, 4], 53), b"", &mut encoded);
    assert_eq!(encoded.len(), 10);
    for cut in 0..13 {
        let prefix = &encoded[..cut.min(encoded.len())];
        assert_eq!(parse_datagram(prefix).is_err(), cut < encoded.len());
    }
    let domain = [0, 0, 0, ATYP_DOMAIN, 3, b'a', b'.', b'b', 0, 80, 1, 2, 3];
    for cut in 0..domain.len() {
        let parsed = parse_datagram(&domain[..cut]);
        if cut < 10 {
            assert_eq!(parsed, Err(DatagramError::Truncated));
        } else {
            let parsed = parsed.unwrap();
            assert_eq!((parsed.host.as_str(), parsed.port), ("a.b", 80));
            assert_eq!(parsed.payload, &domain[10..cut]);
        }
    }
}

#[test]
fn a_handshake_leaves_what_follows_alone() {
    let mut bytes = vec![0x05, 0x02, 0x02, 0x00, 0x05, CMD_CONNECT, 0x00, ATYP_IPV4];
    bytes.extend_from_slice(&[10, 0, 0, 7, 1, 187]);
    let alone = accept(&bytes);
    assert_eq!(alone.used, bytes.len());
    bytes.extend_from_slice(b"payload");
    let followed = accept(&bytes);
    assert_eq!(followed.used, bytes.len() - 7);
    assert_eq!(followed.result.unwrap(), alone.result.unwrap());
    assert_eq!(followed.sent, [0x05, METHOD_NONE]);
}

#[test]
fn every_cut_of_a_handshake_is_an_io_error() {
    let mut bytes = vec![0x05, 0x01, 0x00, 0x05, CMD_CONNECT, 0x00, ATYP_DOMAIN, 2];
    bytes.extend_from_slice(&[b'h', b'i', 0, 80]);
    for cut in 0..bytes.len() {
        let accepted = accept(&bytes[..cut]);
        assert_eq!(accepted.io_kind, Some(IoKind::UnexpectedEof));
        assert_eq!(accepted.used, cut);
        assert_eq!(accepted.sent.len(), if cut < 3 { 0 } else { 2 });
        let err = accepted.result.unwrap_err();
        assert_eq!(err.source().unwrap().kind(), std::io::ErrorKind::UnexpectedEof, "{cut}");
        assert_eq!(err.reply_code(), REP_GENERAL_FAILURE);
    }
    let complete = accept(&bytes);
    assert_eq!(complete.io_kind, None);
    assert!(complete.result.is_ok());
}

#[test]
fn only_an_early_end_has_the_kind_of_an_io_error() {
    let refused: [&[u8]; 4] = [
        &[0x04, 0x01],
        &[0x05, 0x01, 0x02],
        &[0x05, 0x01, 0x00, 0x05, 0x02, 0x00, ATYP_IPV4, 10, 0, 0, 7, 1, 187],
        &[0x05, 0x01, 0x00, 0x05, CMD_CONNECT, 0x00, 0x09],
    ];
    for bytes in refused {
        let accepted = accept(bytes);
        assert_eq!(accepted.io_kind, None);
        assert!(accepted.result.unwrap_err().source().is_none());
    }
}

#[test]
fn a_handshake_can_be_fed_step_by_step() {
    let mut state = Handshake::new();
    let mut sent = Vec::new();
    let mut input: Vec<u8> = vec![0x05, 0x01, 0x00, 0x05, CMD_UDP_ASSOCIATE, 0x00, ATYP_DOMAIN, 1];
    input.extend_from_slice(&[b'A', 0, 53]);
    let mut at = 0;
    let mut needed = Vec::new();
    let result = loop {
        let n = state.needs();
        needed.push(n);
        let bytes = &input[at..at + n];
        at += n;
        match state.feed(bytes) {
            Step::Next(next, send) => {
                sent.extend_from_slice(&send);
                state = next;
            }
            Step::Done(result, send) => {
                sent.extend_from_slice(&send);
                break result;
            }
        }
    };
    assert_eq!(needed, [2, 1, 4, 1, 1, 2]);
    assert_eq!(sent, [0x05, METHOD_NONE]);
    assert_eq!(
        result.unwrap(),
        Command::UdpAssociate(Request { host: "a".to_owned(), port: 53 })
    );
}

#[test]
fn refusals_carry_the_code_of_the_error() {
    assert_eq!(refusal(&Error::UnsupportedCommand(2)), [5, 7, 0, 1, 0, 0, 0, 0, 0, 0]);
    assert_eq!(refusal(&Error::UnsupportedAddressType(9)), [5, 8, 0, 1, 0, 0, 0, 0, 0, 0]);
    assert_eq!(refusal(&Error::UnsupportedVersion(4)), [5, 1, 0, 1, 0, 0, 0, 0, 0, 0]);
    assert_eq!(association_reply(None), [5, 1, 0, 1, 0, 0, 0, 0, 0, 0]);
    assert_eq!(
        association_reply(Some(v4([127, 0, 0, 1], 258))),
        [5, 0, 0, 1, 127, 0, 0, 1, 1, 2]
    );
}
