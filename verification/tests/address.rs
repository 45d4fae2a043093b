use wiretally::address::{IpAddress, SocketAddress};

fn v6(groups: [u16; 8]) -> IpAddress {
    let mut octets = [0u8; 16];
    for (i, group) in groups.iter().enumerate() {
        octets[2 * i] = (group >> 8) as u8;
        octets[2 * i + 1] = *group as u8;
    }
    IpAddress::V6(octets)
}

#[test]
fn addresses_print_in_canonical_form() {
    assert_eq!(IpAddress::V4([0, 10, 200, 255]).to_string(), "0.10.200.255");
    assert_eq!(v6([0, 0, 0, 0, 0, 0, 0, 0]).to_string(), "::");
    assert_eq!(v6([0, 0, 0, 0, 0, 0, 0, 1]).to_string(), "::1");
    assert_eq!(v6([1, 0, 0, 0, 0, 0, 0, 0]).to_string(), "1::");
    assert_eq!(v6([0x2001, 0xdb8, 0, 0, 1, 0, 0, 1]).to_string(), "2001:db8::1:0:0:1");
    assert_eq!(v6([1, 0, 2, 3, 4, 5, 6, 7]).to_string(), "1:0:2:3:4:5:6:7");
    assert_eq!(v6([1, 0, 0, 3, 0, 0, 0, 7]).to_string(), "1:0:0:3::7");
    assert_eq!(v6([0, 0, 0, 0, 0, 0xffff, 0x0a00, 0x0007]).to_string(), "::ffff:10.0.0.7");
    assert_eq!(v6([0, 0, 0, 0, 0, 0, 0x0a00, 0x0007]).to_string(), "::a00:7");
    assert_eq!(
        v6([0xffff, 0xfffe, 0xabcd, 0xef01, 0x10, 0x100, 0x1000, 1]).to_string(),
        "ffff:fffe:abcd:ef01:10:100:1000:1"
    );
}

#[test]
fn socket_addresses_print_with_their_port() {
    let v4 = SocketAddress::new(IpAddress::V4([127, 0, 0, 1]), 80);
    assert_eq!(v4.to_string(), "127.0.0.1:80");
    let local = v6([0, 0, 0, 0, 0, 0, 0, 1]);
    let scoped = SocketAddress { ip: local, port: 65535, flow_info: 9, scope_id: 3 };
    assert_eq!(SocketAddress::new(local, 0).to_string(), "[::1]:0");
    assert_eq!(scoped.to_string(), "[::1%3]:65535");
}

#[test]
fn addresses_compare_by_octets_and_family() {
    let a = IpAddress::V4([1, 2, 3, 4]);
    assert!(a.same(&IpAddress::V4([1, 2, 3, 4])));
    assert!(!a.same(&IpAddress::V4([1, 2, 3, 5])));
    assert!(!a.same(&v6([0, 0, 0, 0, 0, 0, 0x0102, 0x0304])));
}
