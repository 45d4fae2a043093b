//! Laws of SOCKS5 requests and relayed datagrams, byte by byte: what a client that sends these
//! bytes is taken to ask for.

use vstd::prelude::*;

use crate::address;
use crate::address::{IpAddress, SocketAddress};
use crate::proxy;
use crate::socks;
use crate::socks::{Accepted, Command, Datagram, DatagramError, Error, IoKind};
use crate::text;
use crate::wire;

verus! {

/// Whether `host` is `name` without its final dots and with `A` to `Z` in lower case, every
/// other character being kept.
pub open spec fn is_host_of(host: Seq<char>, name: Seq<char>) -> bool {
    &&& host.len() <= name.len()
    &&& forall|i: int|
        0 <= i < host.len() ==> (#[trigger] host[i]) as int == (if 65 <= name[i] as int <= 90 {
            name[i] as int + 32
        } else {
            name[i] as int
        })
    &&& forall|i: int| host.len() <= i < name.len() ==> #[trigger] name[i] == '.'
    &&& host.len() > 0 ==> name[host.len() - 1] != '.'
}

/// The characters of ASCII bytes.
pub open spec fn ascii(bytes: Seq<u8>) -> Seq<char> {
    Seq::new(bytes.len(), |i: int| bytes[i] as char)
}

/// A text without its final run of a character is the start of it, up to the last character that
/// is another.
pub proof fn trimming_takes_the_final_run(text: Seq<char>, c: char)
    ensures
        ({
            let kept = text::trim_end(text, c);
            &&& kept.len() <= text.len()
            &&& kept == text.take(kept.len() as int)
            &&& forall|i: int| kept.len() <= i < text.len() ==> #[trigger] text[i] == c
            &&& kept.len() > 0 ==> text[kept.len() - 1] != c
        }),
    decreases text.len(),
{
    let kept = text::trim_end(text, c);
    if text.len() > 0 && text.last() == c {
        let fewer = text.drop_last();
        trimming_takes_the_final_run(fewer, c);
        assert(kept =~= text.take(kept.len() as int));
        assert forall|i: int| kept.len() <= i < text.len() implies #[trigger] text[i] == c by {
            if i < fewer.len() {
                assert(fewer[i] == c);
            }
        }
    } else {
        assert(kept =~= text.take(kept.len() as int));
    }
}

/// Bringing a host name into the form in which it is counted drops its final dots and puts
/// `A` to `Z` into lower case, and does nothing else.
pub proof fn hosts_are_normalized(name: Seq<char>)
    ensures
        is_host_of(socks::normalized(name), name),
{
    trimming_takes_the_final_run(name, '.');
}

/// There is only one host of a name.
pub proof fn hosts_are_settled(a: Seq<char>, b: Seq<char>, name: Seq<char>)
    requires
        is_host_of(a, name),
        is_host_of(b, name),
    ensures
        a == b,
{
    if a.len() < b.len() {
        assert(name[b.len() - 1] == '.');
    } else if b.len() < a.len() {
        assert(name[a.len() - 1] == '.');
    }
    assert forall|i: int| 0 <= i < a.len() implies a[i] == b[i] by {}
    assert(a =~= b);
}

/// What a command byte comes to: a tunnel, a relay, or a refusal that names the byte.
pub open spec fn carries_out(accepted: Accepted, command: u8, host: Seq<char>, port: int) -> bool {
    &&& command == 1 ==> (accepted.result matches Ok(Command::Connect(request)) && request.host@
        == host && request.port == port)
    &&& command == 3 ==> (accepted.result matches Ok(Command::UdpAssociate(request))
        && request.host@ == host && request.port == port)
    &&& command != 1 && command != 3 ==> (accepted.result matches Err(
        Error::UnsupportedCommand(c),
    ) && c == command)
}

proof fn requests_are_read(
    accepted: Accepted,
    methods: Seq<u8>,
    command: u8,
    reserved: u8,
    kind: u8,
    addr: Seq<u8>,
    high: u8,
    low: u8,
    rest: Seq<u8>,
)
    requires
        methods.len() <= 255,
        methods.contains(0u8),
        socks::known_type(kind),
        socks::address_len(kind, addr) == Some(addr.len()),
        accepted@ == socks::handshake(
            seq![5u8, methods.len() as u8] + methods + seq![5u8, command, reserved, kind] + addr
                + seq![high, low] + rest,
        ),
    ensures
        carries_out(accepted, command, socks::address_host(kind, addr), high * 256 + low),
        accepted.sent@ == seq![5u8, 0u8],
        accepted.used == 8 + methods.len() + addr.len(),
{
    let port = (high * 256 + low) as u16;
    let request = seq![5u8, command, reserved, kind] + addr + socks::port_bytes(port);
    let front = seq![5u8, methods.len() as u8] + methods + request;
    wire::well_formed_requests_are_understood(methods, command, reserved, kind, addr, port);
    assert(socks::port_bytes(port) =~= seq![high, low]);
    assert(seq![5u8, methods.len() as u8] + methods + seq![5u8, command, reserved, kind] + addr
        + seq![high, low] + rest =~= front + rest);
    wire::handshakes_leave_the_rest(front, rest);
    match accepted.result {
        Ok(Command::Connect(request)) => {},
        Ok(Command::UdpAssociate(request)) => {},
        Err(err) => {},
    }
}

/// A client that names an ASCII domain gets to the host of that name and to the port whose two
/// bytes, the high one first, close the request. It is told to go on without authentication, and
/// what it sends behind the request is left alone.
pub proof fn domain_requests_reach_their_host(
    input: &[u8],
    accepted: Accepted,
    methods: Seq<u8>,
    command: u8,
    reserved: u8,
    name: Seq<u8>,
    high: u8,
    low: u8,
    rest: Seq<u8>,
) -> (host: Seq<char>)
    requires
        methods.len() <= 255,
        methods.contains(0u8),
        name.len() <= 255,
        forall|i: int| 0 <= i < name.len() ==> #[trigger] name[i] < 128,
        input@ == seq![5u8, methods.len() as u8] + methods + seq![5u8, command, reserved, 3u8] + (
        seq![name.len() as u8] + name) + seq![high, low] + rest,
        call_ensures(socks::accept, (input,), accepted),
    ensures
        is_host_of(host, ascii(name)),
        carries_out(accepted, command, host, high * 256 + low),
        accepted.sent@ == seq![5u8, 0u8],
        accepted.used == 9 + methods.len() + name.len(),
{
    let addr = seq![name.len() as u8] + name;
    wire::ascii_names_are_preserved(name);
    requests_are_read(accepted, methods, command, reserved, 3, addr, high, low, rest);
    assert(proxy::as_text(name) =~= ascii(name));
    hosts_are_normalized(ascii(name));
    socks::normalized(ascii(name))
}

/// The text of a name: what its bytes encode where they are UTF-8, else what
/// [`String::from_utf8_lossy`] makes of them.
pub open spec fn text_of_name(name: Seq<u8>) -> Seq<char> {
    if vstd::utf8::valid_utf8(name) {
        vstd::utf8::decode_utf8(name)
    } else {
        socks::utf8_lossy(name)
    }
}

/// A client that names a domain in whatever bytes gets to the host of their text.
pub proof fn text_requests_reach_their_host(
    input: &[u8],
    accepted: Accepted,
    methods: Seq<u8>,
    command: u8,
    reserved: u8,
    name: Seq<u8>,
    high: u8,
    low: u8,
    rest: Seq<u8>,
) -> (host: Seq<char>)
    requires
        methods.len() <= 255,
        methods.contains(0u8),
        name.len() <= 255,
        input@ == seq![5u8, methods.len() as u8] + methods + seq![5u8, command, reserved, 3u8] + (
        seq![name.len() as u8] + name) + seq![high, low] + rest,
        call_ensures(socks::accept, (input,), accepted),
    ensures
        is_host_of(host, text_of_name(name)),
        carries_out(accepted, command, host, high * 256 + low),
        accepted.used == 9 + methods.len() + name.len(),
{
    let addr = seq![name.len() as u8] + name;
    assert(addr.skip(1) =~= name);
    requests_are_read(accepted, methods, command, reserved, 3, addr, high, low, rest);
    hosts_are_normalized(text_of_name(name));
    socks::normalized(text_of_name(name))
}

/// A client that gives an address gets to the host that the address is the text of.
pub proof fn address_requests_reach_their_host(
    input: &[u8],
    accepted: Accepted,
    methods: Seq<u8>,
    command: u8,
    reserved: u8,
    ip: IpAddress,
    high: u8,
    low: u8,
    rest: Seq<u8>,
)
    requires
        methods.len() <= 255,
        methods.contains(0u8),
        input@ == seq![5u8, methods.len() as u8] + methods + (match ip {
                IpAddress::V4(octets) => seq![5u8, command, reserved, 1u8] + octets@,
                IpAddress::V6(octets) => seq![5u8, command, reserved, 4u8] + octets@,
            }) + seq![high, low] + rest,
        call_ensures(socks::accept, (input,), accepted),
    ensures
        carries_out(accepted, command, address::ip_text(ip), high * 256 + low),
        accepted.sent@ == seq![5u8, 0u8],
        accepted.used == 8 + methods.len() + (if ip is V4 {
            4int
        } else {
            16int
        }),
{
    let (kind, octets) = match ip {
        IpAddress::V4(octets) => (1u8, octets@),
        IpAddress::V6(octets) => (4u8, octets@),
    };
    let greeting = seq![5u8, methods.len() as u8] + methods;
    let header = seq![5u8, command, reserved, kind];
    assert(greeting + (header + octets) + seq![high, low] + rest =~= greeting + header + octets
        + seq![high, low] + rest);
    requests_are_read(accepted, methods, command, reserved, kind, octets, high, low, rest);
}

/// A client that speaks another version is told apart by its first byte, and is sent nothing.
pub proof fn other_versions_are_refused(accepted: Accepted, input: &[u8])
    requires
        input@.len() >= 2,
        input@[0] != 5,
        call_ensures(socks::accept, (input,), accepted),
    ensures
        accepted.result matches Err(Error::UnsupportedVersion(v)) && v == input@[0],
        accepted.sent@.len() == 0,
        accepted.used == 2,
{
    match accepted.result {
        Ok(command) => {},
        Err(err) => {},
    }
}

/// A client that does not offer to go without authentication is refused, and told so.
pub proof fn other_methods_are_refused(input: &[u8], accepted: Accepted, methods: Seq<u8>, rest: Seq<u8>)
    requires
        methods.len() <= 255,
        !methods.contains(0u8),
        input@ == seq![5u8, methods.len() as u8] + methods + rest,
        call_ensures(socks::accept, (input,), accepted),
    ensures
        accepted.result matches Err(Error::NoAcceptableMethod),
        accepted.sent@ == seq![5u8, 255u8],
        accepted.used == 2 + methods.len(),
{
    assert(input@.subrange(2, 2 + methods.len() as int) =~= methods);
    match accepted.result {
        Ok(command) => {},
        Err(err) => {},
    }
}

/// A request in another version, or with an address of another type than the three that exist,
/// is refused by the byte that is wrong, once the client was told to go on.
pub proof fn other_requests_are_refused(
    input: &[u8],
    accepted: Accepted,
    methods: Seq<u8>,
    version: u8,
    command: u8,
    reserved: u8,
    kind: u8,
    rest: Seq<u8>,
)
    requires
        methods.len() <= 255,
        methods.contains(0u8),
        version != 5 || kind != 1 && kind != 3 && kind != 4,
        input@ == seq![5u8, methods.len() as u8] + methods + seq![version, command, reserved, kind] + rest,
        call_ensures(socks::accept, (input,), accepted),
    ensures
        version != 5 ==> (accepted.result matches Err(Error::UnsupportedVersion(v)) && v == version),
        version == 5 ==> (accepted.result matches Err(Error::UnsupportedAddressType(a)) && a
            == kind),
        accepted.sent@ == seq![5u8, 0u8],
        accepted.used == 6 + methods.len(),
{
    let header = seq![version, command, reserved, kind];
    let n = 2 + methods.len() as int;
    assert(input@.subrange(2, n) =~= methods);
    assert(input@.skip(n) =~= header + rest);
    let granted = seq![5u8, 0u8];
    assert(granted + Seq::<u8>::empty() =~= granted);
    assert(granted + (Seq::<u8>::empty() + Seq::<u8>::empty()) =~= granted);
    match accepted.result {
        Ok(command) => {},
        Err(err) => {},
    }
}

/// A client that hangs up within the first two bytes leaves an input error.
pub proof fn short_greetings_are_input_errors(accepted: Accepted, input: &[u8])
    requires
        input@.len() < 2,
        call_ensures(socks::accept, (input,), accepted),
    ensures
        accepted.result matches Err(Error::Io(_)),
        accepted.sent@.len() == 0,
        accepted.used == input@.len(),
{
    match accepted.result {
        Ok(command) => {},
        Err(err) => {},
    }
}

/// The kind of an input error is that of an unexpected end, and no other failure has one.
pub proof fn input_errors_are_unexpected_ends(accepted: Accepted, input: &[u8])
    requires
        call_ensures(socks::accept, (input,), accepted),
    ensures
        accepted.io_kind == Some(IoKind::UnexpectedEof) <==> (accepted.result matches Err(
            Error::Io(_),
        )),
        accepted.io_kind is None <==> !(accepted.result matches Err(Error::Io(_))),
{
    match accepted.result {
        Ok(command) => {},
        Err(err) => {},
    }
}

/// What a refused client hears tells an unknown command and an unknown address type, and of every
/// other failure only that it is one.
pub proof fn refusals_have_their_codes(err: Error)
    ensures
        socks::code_of(err@) == (match err {
            Error::UnsupportedCommand(_) => 7u8,
            Error::UnsupportedAddressType(_) => 8u8,
            _ => 1u8,
        }),
{
}

/// Whether a datagram was read, and says this.
pub open spec fn says(
    read: Result<Datagram<'_>, DatagramError>,
    host: Seq<char>,
    port: int,
    payload: Seq<u8>,
) -> bool {
    read matches Ok(d) && d.host@ == host && d.port == port && d.payload@ == payload
}

proof fn datagrams_are_read(
    read: Result<Datagram<'_>, DatagramError>,
    a: u8,
    b: u8,
    kind: u8,
    addr: Seq<u8>,
    high: u8,
    low: u8,
    payload: Seq<u8>,
)
    requires
        socks::known_type(kind),
        socks::address_len(kind, addr) == Some(addr.len()),
        socks::datagram_view(read) == socks::relayed(
            seq![a, b, 0u8, kind] + addr + seq![high, low] + payload,
        ),
    ensures
        says(read, socks::address_host(kind, addr), high * 256 + low, payload),
{
    let buf = seq![a, b, 0u8, kind] + addr + seq![high, low] + payload;
    let n = addr.len() as int;
    let body = buf.skip(4);
    assert(body =~= addr + seq![high, low] + payload);
    assert(socks::address_len(kind, body) == Some(addr.len()));
    assert(body.take(n) =~= addr);
    assert(body[n] == high && body[n + 1] == low);
    assert(buf.skip(4 + (n + 2)) =~= payload);
    match read {
        Ok(d) => {},
        Err(err) => {},
    }
}

/// A datagram for an ASCII domain goes to the host of that name, to the port that its header
/// says, and with all that stands behind the header.
pub proof fn domain_datagrams_reach_their_host(
    buf: &[u8],
    read: Result<Datagram<'_>, DatagramError>,
    a: u8,
    b: u8,
    name: Seq<u8>,
    high: u8,
    low: u8,
    payload: Seq<u8>,
) -> (host: Seq<char>)
    requires
        name.len() <= 255,
        forall|i: int| 0 <= i < name.len() ==> #[trigger] name[i] < 128,
        buf@ == seq![a, b, 0u8, 3u8] + (seq![name.len() as u8] + name) + seq![high, low] + payload,
        call_ensures(socks::parse_datagram, (buf,), read),
    ensures
        is_host_of(host, ascii(name)),
        says(read, host, high * 256 + low, payload),
{
    let addr = seq![name.len() as u8] + name;
    wire::ascii_names_are_preserved(name);
    datagrams_are_read(read, a, b, 3, addr, high, low, payload);
    assert(proxy::as_text(name) =~= ascii(name));
    hosts_are_normalized(ascii(name));
    socks::normalized(ascii(name))
}

/// A datagram for a domain in whatever bytes goes to the host of their text.
pub proof fn text_datagrams_reach_their_host(
    buf: &[u8],
    read: Result<Datagram<'_>, DatagramError>,
    a: u8,
    b: u8,
    name: Seq<u8>,
    high: u8,
    low: u8,
    payload: Seq<u8>,
) -> (host: Seq<char>)
    requires
        name.len() <= 255,
        buf@ == seq![a, b, 0u8, 3u8] + (seq![name.len() as u8] + name) + seq![high, low] + payload,
        call_ensures(socks::parse_datagram, (buf,), read),
    ensures
        is_host_of(host, text_of_name(name)),
        says(read, host, high * 256 + low, payload),
{
    let addr = seq![name.len() as u8] + name;
    assert(addr.skip(1) =~= name);
    datagrams_are_read(read, a, b, 3, addr, high, low, payload);
    hosts_are_normalized(text_of_name(name));
    socks::normalized(text_of_name(name))
}

/// A datagram for an address goes there.
pub proof fn address_datagrams_reach_their_host(
    buf: &[u8],
    read: Result<Datagram<'_>, DatagramError>,
    a: u8,
    b: u8,
    ip: IpAddress,
    high: u8,
    low: u8,
    payload: Seq<u8>,
)
    requires
        buf@ == (match ip {
                IpAddress::V4(octets) => seq![a, b, 0u8, 1u8] + octets@,
                IpAddress::V6(octets) => seq![a, b, 0u8, 4u8] + octets@,
            }) + seq![high, low] + payload,
        call_ensures(socks::parse_datagram, (buf,), read),
    ensures
        says(read, address::ip_text(ip), high * 256 + low, payload),
{
    match ip {
        IpAddress::V4(octets) => {
            datagrams_are_read(read, a, b, 1, octets@, high, low, payload);
        },
        IpAddress::V6(octets) => {
            datagrams_are_read(read, a, b, 4, octets@, high, low, payload);
        },
    }
}

/// A datagram that is too short for a header, that is a fragment, or whose address is of another
/// type than the three that exist is dropped, and for that reason.
pub proof fn bad_datagrams_are_told_apart(
    read: Result<Datagram<'_>, DatagramError>,
    buf: &[u8],
)
    requires
        call_ensures(socks::parse_datagram, (buf,), read),
    ensures
        buf@.len() < 4 ==> read matches Err(DatagramError::Truncated),
        buf@.len() >= 4 && buf@[2] != 0 ==> (read matches Err(DatagramError::Fragmented(f)) && f
            == buf@[2]),
        buf@.len() >= 4 && buf@[2] == 0 && buf@[3] != 1 && buf@[3] != 3 && buf@[3] != 4 ==> (
        read matches Err(DatagramError::UnsupportedAddressType(k)) && k == buf@[3]),
{
    match read {
        Ok(d) => {},
        Err(err) => {},
    }
}

/// A datagram for the client carries an empty prefix, the type and the octets of its source, the
/// port with the high byte first, and the payload.
pub proof fn wrapped_datagrams_are_laid_out(from: SocketAddress, payload: Seq<u8>)
    ensures
        ({
            let (kind, octets) = match from.ip {
                IpAddress::V4(octets) => (1u8, octets@),
                IpAddress::V6(octets) => (4u8, octets@),
            };
            let n = octets.len() as int;
            let out = socks::wrapped(from, payload);
            &&& out.len() == 6 + n + payload.len()
            &&& out[0] == 0 && out[1] == 0 && out[2] == 0 && out[3] == kind
            &&& out.subrange(4, 4 + n) == octets
            &&& out[4 + n] * 256 + out[5 + n] == from.port
            &&& out.skip(6 + n) == payload
            &&& socks::wire_address(from) == out.subrange(3, 6 + n)
        }),
{
    let octets = address::octets(from.ip);
    let n = octets.len() as int;
    let out = socks::wrapped(from, payload);
    assert(out.subrange(4, 4 + n) =~= octets);
    assert(out.skip(6 + n) =~= payload);
    assert(socks::wire_address(from) =~= out.subrange(3, 6 + n));
}

} // verus!
