use wiretally::address::IpAddress;
use wiretally::literal::parse_ip;

fn v6(groups: [u16; 8]) -> Option<IpAddress> {
    let mut octets = [0u8; 16];
    for (i, group) in groups.iter().enumerate() {
        octets[2 * i] = (group >> 8) as u8;
        octets[2 * i + 1] = *group as u8;
    }
    Some(IpAddress::V6(octets))
}

#[test]
fn ipv4_literals_are_four_plain_numbers() {
    assert_eq!(parse_ip("127.0.0.1"), Some(IpAddress::V4([127, 0, 0, 1])));
    assert_eq!(parse_ip("0.10.200.255"), Some(IpAddress::V4([0, 10, 200, 255])));
    for text in [
        "", "1", "1.2.3", "1.2.3.4.5", "1.2.3.", ".1.2.3", "1..2.3", "1.2.3.256", "1.2.3.04",
        "00.1.2.3", "1.2.3.0004", "1.2.3.4 ", " 1.2.3.4", "1.2.3.a", "+1.2.3.4", "1.2.3.-4",
        "1.2.3.4:80", "0x1.2.3.4", "1,2,3,4", "1.2.3.\u{0664}",
    ] {
        assert_eq!(parse_ip(text), None, "{text}");
    }
}

#[test]
fn ipv6_literals_are_read_in_every_form() {
    assert_eq!(parse_ip("::"), v6([0; 8]));
    assert_eq!(parse_ip("::1"), v6([0, 0, 0, 0, 0, 0, 0, 1]));
    assert_eq!(parse_ip("1::"), v6([1, 0, 0, 0, 0, 0, 0, 0]));
    assert_eq!(parse_ip("2001:DB8::00f"), v6([0x2001, 0xdb8, 0, 0, 0, 0, 0, 0xf]));
    assert_eq!(parse_ip("1:2:3:4:5:6:7:8"), v6([1, 2, 3, 4, 5, 6, 7, 8]));
    assert_eq!(parse_ip("1:2:3:4:5:6:7::"), v6([1, 2, 3, 4, 5, 6, 7, 0]));
    assert_eq!(parse_ip("::2:3:4:5:6:7:8"), v6([0, 2, 3, 4, 5, 6, 7, 8]));
    assert_eq!(parse_ip("1:2::7:8"), v6([1, 2, 0, 0, 0, 0, 7, 8]));
    assert_eq!(parse_ip("::ffff:10.0.0.7"), v6([0, 0, 0, 0, 0, 0xffff, 0x0a00, 7]));
    assert_eq!(parse_ip("::10.0.0.7"), v6([0, 0, 0, 0, 0, 0, 0x0a00, 7]));
    assert_eq!(parse_ip("1:2:3:4:5:6:1.2.3.4"), v6([1, 2, 3, 4, 5, 6, 0x0102, 0x0304]));
    assert_eq!(parse_ip("1:2:3:4:5::1.2.3.4"), v6([1, 2, 3, 4, 5, 0, 0x0102, 0x0304]));
    for text in [
        ":", ":::", "1:", ":1", "1:2:3:4:5:6:7", "1:2:3:4:5:6:7:8:9", "1:2:3:4:5:6:7:8::",
        "::1:2:3:4:5:6:7:8", "1::2::3", "1:::2", "12345::", "g::", "::1%eth0", "[::1]",
        "1.2.3.4::", "::1.2.3.4:5", "1:2:3:4:5:6::1.2.3.4", "1:1.2.3.4", "::1.2.3",
        "::1.2.3.04", "::1 ", "1:2:3:4:5:6:7:1.2.3.4",
    ] {
        assert_eq!(parse_ip(text), None, "{text}");
    }
}

#[test]
fn names_are_no_literals() {
    for text in ["localhost", "example.com", "1.2.3.4.example", "dead.beef", "a", "."] {
        assert_eq!(parse_ip(text), None, "{text}");
    }
}

#[test]
fn addresses_read_back_from_their_text() {
    let mut seed: u32 = 12345;
    for _ in 0..500 {
        let mut octets = [0u8; 16];
        for octet in octets.iter_mut() {
            seed = seed.wrapping_mul(1_664_525).wrapping_add(1_013_904_223);
            *octet = if seed & 0x3000_0000 == 0 { (seed >> 20) as u8 } else { 0 };
        }
        let ip = IpAddress::V6(octets);
        assert_eq!(parse_ip(&ip.to_string()), Some(ip));
        let ip = IpAddress::V4([octets[0], octets[5], octets[10], octets[15]]);
        assert_eq!(parse_ip(&ip.to_string()), Some(ip));
    }
    let mapped = IpAddress::V6([0, 0, 0, 0, 0, 0, 0, 0, 0, 0, 255, 255, 1, 20, 200, 0]);
    assert_eq!(parse_ip(&mapped.to_string()), Some(mapped));
}
