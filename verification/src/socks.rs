//! SOCKS5 ([RFC 1928](https://www.rfc-editor.org/rfc/rfc1928)) handshake, no authentication.
//!
//! SOCKS5 is what makes this a general TCP meter rather than an HTTP one: a client pointed at
//! `ALL_PROXY=socks5h://…` tunnels *any* TCP protocol through it — gRPC, Postgres, Redis, plain
//! TLS — and the `socks5h` form sends the hostname rather than a pre-resolved address, so
//! endpoints still get named instead of showing up as bare IPs.
//!
//! `CONNECT` and `UDP ASSOCIATE` are both supported, so a client that asks for UDP relay gets
//! working UDP *and* has it counted. Note this covers only clients that ask: QUIC or HTTP/3
//! sent straight to a destination never touches the proxy and cannot be seen at all.
//!
//! There is deliberately no third option. Refusing `UDP ASSOCIATE` can break a client that
//! would otherwise have gone direct, and accepting it without relaying is worse — the client
//! stops sending to the destination and its datagrams disappear into the proxy with no error.
//!
//! A destination looks the same in a handshake and in a relayed datagram: an address type, an
//! address and a port. [`destination`] says what one stands for, and both readers go by it.

use vstd::prelude::*;

use crate::address;
use crate::address::{IpAddress, SocketAddress};
use crate::text;
use crate::text::{chars_of, lower_chars, push_hex_byte, text_of, trimmed_len};

verus! {

/// SOCKS protocol version this module speaks.
pub const VERSION: u8 = 0x05;

/// First byte of a SOCKS5 greeting, used to tell SOCKS clients from HTTP ones.
pub const GREETING_BYTE: u8 = VERSION;

/// The authentication method "none".
pub const METHOD_NONE: u8 = 0x00;

/// The answer to a client that offers no acceptable method.
pub const METHOD_UNACCEPTABLE: u8 = 0xFF;

/// The command to tunnel a TCP connection.
pub const CMD_CONNECT: u8 = 0x01;

/// The command to relay UDP datagrams.
pub const CMD_UDP_ASSOCIATE: u8 = 0x03;

/// Address type: four octets.
pub const ATYP_IPV4: u8 = 0x01;

/// Address type: a length and a domain name.
pub const ATYP_DOMAIN: u8 = 0x03;

/// Address type: sixteen octets.
pub const ATYP_IPV6: u8 = 0x04;

/// Size of the fixed part of a UDP request header: `RSV(2) FRAG(1) ATYP(1)`.
pub const UDP_HEADER_PREFIX: usize = 4;

/// Reply code for a successful `CONNECT`.
pub const REP_SUCCESS: u8 = 0x00;

/// Reply code for an unspecified failure.
pub const REP_GENERAL_FAILURE: u8 = 0x01;

/// Reply code for a refused upstream connection.
pub const REP_CONNECTION_REFUSED: u8 = 0x05;

/// Reply code for an unsupported command, e.g. `BIND`.
pub const REP_COMMAND_NOT_SUPPORTED: u8 = 0x07;

/// Reply code for an unsupported address type.
pub const REP_ADDRESS_NOT_SUPPORTED: u8 = 0x08;

/// A destination requested by a SOCKS5 client.
#[derive(Debug, Clone, PartialEq, Eq)]
pub struct Request {
    /// Destination host: a domain name (with `socks5h`) or an address literal.
    pub host: String,
    /// Destination port.
    pub port: u16,
}

/// What a client asked the proxy to do.
#[derive(Debug, Clone, PartialEq, Eq)]
pub enum Command {
    /// Tunnel a TCP connection to the given destination.
    Connect(Request),
    /// Relay UDP datagrams. The address is what the client said it will send from, which is
    /// commonly `0.0.0.0:0` ("I don't know yet") and so cannot be relied on.
    UdpAssociate(Request),
}

/// An error of the operating system's input and output.
#[verifier::external_type_specification]
#[verifier::external_body]
pub struct ExIoError(std::io::Error);

/// Why a SOCKS5 handshake could not be completed.
#[derive(Debug)]
pub enum Error {
    /// The connection failed while reading or writing the handshake.
    Io(std::io::Error),
    /// The client asked for a SOCKS version this module does not speak.
    UnsupportedVersion(u8),
    /// The client offered no authentication method the proxy accepts.
    NoAcceptableMethod,
    /// The client asked for a command other than `CONNECT` and `UDP ASSOCIATE`.
    UnsupportedCommand(u8),
    /// The client used an address type other than IPv4, IPv6, or domain name.
    UnsupportedAddressType(u8),
}

/// A datagram received from a SOCKS5 client, with its relay header stripped.
#[derive(Debug, Clone, PartialEq, Eq)]
pub struct Datagram<'a> {
    /// Destination host the client wants this payload delivered to.
    pub host: String,
    /// Destination port.
    pub port: u16,
    /// The payload to relay, excluding the SOCKS header.
    pub payload: &'a [u8],
}

/// Why a relayed datagram could not be handled.
#[derive(Debug, Clone, PartialEq, Eq)]
pub enum DatagramError {
    /// The datagram was shorter than its own header claims.
    Truncated,
    /// The client used an address type other than IPv4, IPv6, or domain name.
    UnsupportedAddressType(u8),
    /// The datagram is part of a fragmented message, which this relay does not reassemble.
    Fragmented(u8),
}

/// What a [`Command`] asks for.
pub enum Asked {
    /// A tunnel to a host and port.
    Connect(Seq<char>, u16),
    /// A relay for datagrams from a host and port.
    UdpAssociate(Seq<char>, u16),
}

impl View for Command {
    type V = Asked;

    open spec fn view(&self) -> Asked {
        match self {
            Command::Connect(request) => Asked::Connect(request.host@, request.port),
            Command::UdpAssociate(request) => Asked::UdpAssociate(request.host@, request.port),
        }
    }
}

/// What an [`Error`] says; of an input or output error, only that it is one.
pub enum Failure {
    /// The connection failed.
    Io,
    /// Another version than ours.
    UnsupportedVersion(u8),
    /// No method that we accept.
    NoAcceptableMethod,
    /// An unknown command.
    UnsupportedCommand(u8),
    /// An unknown address type.
    UnsupportedAddressType(u8),
}

impl View for Error {
    type V = Failure;

    open spec fn view(&self) -> Failure {
        match self {
            Error::Io(_) => Failure::Io,
            Error::UnsupportedVersion(v) => Failure::UnsupportedVersion(*v),
            Error::NoAcceptableMethod => Failure::NoAcceptableMethod,
            Error::UnsupportedCommand(c) => Failure::UnsupportedCommand(*c),
            Error::UnsupportedAddressType(a) => Failure::UnsupportedAddressType(*a),
        }
    }
}

/// What [`String::from_utf8_lossy`] makes of bytes.
pub uninterp spec fn utf8_lossy(bytes: Seq<u8>) -> Seq<char>;

/// Calls [`String::from_utf8_lossy`]. What it makes of bytes depends on them alone, and bytes
/// that are valid UTF-8 come out as the text that they encode. How it replaces what is not valid
/// is left to its documentation.
#[verifier::external_body]
fn lossy_text(bytes: &[u8]) -> (r: String)
    ensures
        r@ == utf8_lossy(bytes@),
        vstd::utf8::valid_utf8(bytes@) ==> r@ == vstd::utf8::decode_utf8(bytes@),
{
    String::from_utf8_lossy(bytes).into_owned()
}

/// The text that the bytes of a name stand for: what they encode where they are UTF-8, else what
/// [`String::from_utf8_lossy`] makes of them.
pub open spec fn name_text(bytes: Seq<u8>) -> Seq<char> {
    if vstd::utf8::valid_utf8(bytes) {
        vstd::utf8::decode_utf8(bytes)
    } else {
        utf8_lossy(bytes)
    }
}

/// A host name in the form in which it is counted: final dots removed, in lower case.
pub open spec fn normalized(name: Seq<char>) -> Seq<char> {
    text::lowered(text::trim_end(name, '.'))
}

/// Brings a host name into the form in which it is counted.
pub fn normalize_host(name: &str) -> (r: String)
    ensures
        r@ == normalized(name@),
{
    let chars = chars_of(name);
    let len: usize = trimmed_len(chars.as_slice(), '.');
    let kept: &[char] = &chars.as_slice()[0..len];
    assert(kept@ =~= chars@.take(len as int));
    text_of(lower_chars(kept).as_slice())
}

/// What an address and port on the wire stand for.
pub enum Destination {
    /// A host and port, and how many bytes told of them.
    Found(Seq<char>, u16, nat),
    /// The bytes end too early.
    Short,
    /// The address type is unknown.
    Unknown(u8),
}

/// Two bytes as a number, the high one first.
pub open spec fn big_endian(high: u8, low: u8) -> u16 {
    (high * 256 + low) as u16
}

/// How many bytes an address of a known type takes, where they begin in a way that tells.
pub open spec fn address_len(kind: u8, bytes: Seq<u8>) -> Option<nat> {
    if kind == ATYP_IPV4 {
        Some(4)
    } else if kind == ATYP_IPV6 {
        Some(16)
    } else if bytes.len() == 0 {
        None
    } else {
        Some(1 + bytes[0] as nat)
    }
}

/// The host that an address of a known type names.
pub open spec fn address_host(kind: u8, bytes: Seq<u8>) -> Seq<char> {
    if kind == ATYP_IPV4 {
        address::dotted(bytes)
    } else if kind == ATYP_IPV6 {
        address::v6_text(bytes)
    } else {
        normalized(name_text(bytes.skip(1)))
    }
}

/// Whether an address type is one of the three that exist.
pub open spec fn known_type(kind: u8) -> bool {
    kind == ATYP_IPV4 || kind == ATYP_IPV6 || kind == ATYP_DOMAIN
}

/// What the bytes behind an address type stand for: an address, then a port.
pub open spec fn destination(kind: u8, bytes: Seq<u8>) -> Destination {
    if !known_type(kind) {
        Destination::Unknown(kind)
    } else {
        match address_len(kind, bytes) {
            None => Destination::Short,
            Some(n) => if bytes.len() < n + 2 {
                Destination::Short
            } else {
                Destination::Found(
                    address_host(kind, bytes.take(n as int)),
                    big_endian(bytes[n as int], bytes[n as int + 1]),
                    n + 2,
                )
            },
        }
    }
}

/// What a relayed datagram holds.
pub struct Relayed {
    /// The destination host.
    pub host: Seq<char>,
    /// The destination port.
    pub port: u16,
    /// What is to be delivered there.
    pub payload: Seq<u8>,
}

impl<'a> View for Datagram<'a> {
    type V = Relayed;

    open spec fn view(&self) -> Relayed {
        Relayed { host: self.host@, port: self.port, payload: self.payload@ }
    }
}

/// What a client datagram says: `RSV(2) FRAG(1) ATYP(1) DST.ADDR DST.PORT DATA`.
pub open spec fn relayed(buf: Seq<u8>) -> Result<Relayed, DatagramError> {
    if buf.len() < UDP_HEADER_PREFIX {
        Err(DatagramError::Truncated)
    } else if buf[2] != 0 {
        Err(DatagramError::Fragmented(buf[2]))
    } else {
        match destination(buf[3], buf.skip(UDP_HEADER_PREFIX as int)) {
            Destination::Unknown(kind) => Err(DatagramError::UnsupportedAddressType(kind)),
            Destination::Short => Err(DatagramError::Truncated),
            Destination::Found(host, port, used) => Ok(
                Relayed { host, port, payload: buf.skip(UDP_HEADER_PREFIX + used) },
            ),
        }
    }
}

/// A result over values as a result over what they stand for.
pub open spec fn datagram_view(r: Result<Datagram<'_>, DatagramError>) -> Result<
    Relayed,
    DatagramError,
> {
    match r {
        Ok(datagram) => Ok(datagram@),
        Err(err) => Err(err),
    }
}

/// Parses a client datagram: `RSV(2) FRAG(1) ATYP(1) DST.ADDR DST.PORT DATA`.
///
/// # Errors
///
/// Returns [`DatagramError`] if the header is truncated, fragmented, or uses an address type
/// this relay cannot forward. Callers should drop such datagrams, as UDP has no way to report
/// the failure back.
pub fn parse_datagram(buf: &[u8]) -> (r: Result<Datagram<'_>, DatagramError>)
    ensures
        datagram_view(r) == relayed(buf@),
{
    if buf.len() < UDP_HEADER_PREFIX {
        return Err(DatagramError::Truncated);
    }
    if buf[2] != 0 {
        return Err(DatagramError::Fragmented(buf[2]));
    }
    let mut cursor: usize = UDP_HEADER_PREFIX;
    let ghost body = buf@.skip(UDP_HEADER_PREFIX as int);
    let host: String = match buf[3] {
        ATYP_IPV4 => {
            let octets: &[u8] = read_slice(buf, &mut cursor, 4)?;
            assert(octets@ =~= body.take(4));
            IpAddress::V4([octets[0], octets[1], octets[2], octets[3]]).to_string()
        },
        ATYP_IPV6 => {
            let octets: &[u8] = read_slice(buf, &mut cursor, 16)?;
            assert(octets@ =~= body.take(16));
            ipv6(octets).to_string()
        },
        ATYP_DOMAIN => {
            let len: &[u8] = read_slice(buf, &mut cursor, 1)?;
            let domain: &[u8] = read_slice(buf, &mut cursor, len[0] as usize)?;
            assert(domain@ =~= body.take(1 + len@[0]).skip(1));
            normalize_host(lossy_text(domain).as_str())
        },
        other => {
            return Err(DatagramError::UnsupportedAddressType(other));
        },
    };
    let port: &[u8] = read_slice(buf, &mut cursor, 2)?;
    let payload: &[u8] = &buf[cursor..buf.len()];
    assert(payload@ =~= buf@.skip(cursor as int));
    Ok(Datagram { host, port: port_number(port[0], port[1]), payload })
}

/// Reads a field of `n` bytes, advancing `cursor`.
fn read_slice<'a>(buf: &'a [u8], cursor: &mut usize, n: usize) -> (r: Result<
    &'a [u8],
    DatagramError,
>)
    ensures
        *old(cursor) + n <= buf@.len() ==> {
            &&& r matches Ok(field) && field@ == buf@.subrange(*old(cursor) as int, *old(cursor) + n)
            &&& *final(cursor) == *old(cursor) + n
        },
        *old(cursor) + n > buf@.len() ==> {
            &&& r == Err::<&'a [u8], DatagramError>(DatagramError::Truncated)
            &&& *final(cursor) == *old(cursor)
        },
{
    if *cursor > buf.len() || buf.len() - *cursor < n {
        return Err(DatagramError::Truncated);
    }
    let end: usize = *cursor + n;
    let field: &[u8] = &buf[*cursor..end];
    *cursor = end;
    Ok(field)
}

fn port_number(high: u8, low: u8) -> (r: u16)
    ensures
        r == big_endian(high, low),
{
    high as u16 * 256 + low as u16
}

fn ipv6(octets: &[u8]) -> (r: IpAddress)
    requires
        octets@.len() == 16,
    ensures
        r matches IpAddress::V6(bytes) && bytes@ == octets@,
{
    let bytes: [u8; 16] = [
        octets[0],
        octets[1],
        octets[2],
        octets[3],
        octets[4],
        octets[5],
        octets[6],
        octets[7],
        octets[8],
        octets[9],
        octets[10],
        octets[11],
        octets[12],
        octets[13],
        octets[14],
        octets[15],
    ];
    assert(bytes@ =~= octets@);
    IpAddress::V6(bytes)
}

/// The two bytes of a port, the high one first.
pub open spec fn port_bytes(port: u16) -> Seq<u8> {
    seq![(port / 256) as u8, (port % 256) as u8]
}

/// An address and port as they travel: the address type, the octets, the port.
pub open spec fn wire_address(addr: SocketAddress) -> Seq<u8> {
    let kind = match addr.ip {
        IpAddress::V4(_) => ATYP_IPV4,
        IpAddress::V6(_) => ATYP_IPV6,
    };
    seq![kind] + address::octets(addr.ip) + port_bytes(addr.port)
}

fn push_address(out: &mut Vec<u8>, addr: SocketAddress)
    ensures
        final(out)@ == old(out)@ + wire_address(addr),
{
    match addr.ip {
        IpAddress::V4(bytes) => {
            out.push(ATYP_IPV4);
            out.extend_from_slice(&bytes);
        },
        IpAddress::V6(bytes) => {
            out.push(ATYP_IPV6);
            out.extend_from_slice(&bytes);
        },
    }
    out.push((addr.port / 256) as u8);
    out.push((addr.port % 256) as u8);
    assert(out@ =~= old(out)@ + wire_address(addr));
}

/// A datagram on its way to the client: an empty prefix, the source, the payload.
pub open spec fn wrapped(from: SocketAddress, payload: Seq<u8>) -> Seq<u8> {
    seq![0u8, 0u8, 0u8] + wire_address(from) + payload
}

/// Wraps `payload` in a relay header naming `from` as its source, ready to send to the client.
///
/// The buffer is cleared and reused rather than allocated per datagram, which keeps the relay
/// allocation-free once it is warm.
pub fn encode_datagram(from: SocketAddress, payload: &[u8], out: &mut Vec<u8>)
    ensures
        final(out)@ == wrapped(from, payload@),
{
    out.clear();
    out.push(0);
    out.push(0);
    out.push(0);
    push_address(out, from);
    out.extend_from_slice(payload);
    assert(out@ =~= wrapped(from, payload@));
}

/// The SOCKS5 reply with the given code and an all-zero bound address.
///
/// Fine for `CONNECT`, where the bound address is informational and ignored by every client
/// this targets. `UDP ASSOCIATE` must use [`reply_bound`] instead, because there the address is
/// where the client is expected to send its datagrams.
pub fn reply(code: u8) -> (r: Vec<u8>)
    ensures
        r@ == seq![VERSION, code, 0u8, ATYP_IPV4, 0u8, 0u8, 0u8, 0u8, 0u8, 0u8],
        r@ == seq![5u8, code, 0u8, 1u8, 0u8, 0u8, 0u8, 0u8, 0u8, 0u8],
{
    vec![VERSION, code, 0x00, ATYP_IPV4, 0, 0, 0, 0, 0, 0]
}

/// The SOCKS5 reply advertising `bound` as the address the client should talk to.
pub fn reply_bound(code: u8, bound: SocketAddress) -> (r: Vec<u8>)
    ensures
        r@ == seq![VERSION, code, 0u8] + wire_address(bound),
        r@ == seq![5u8, code, 0u8] + wire_address(bound),
{
    let mut out: Vec<u8> = Vec::with_capacity(22);
    out.push(VERSION);
    out.push(code);
    out.push(0);
    push_address(&mut out, bound);
    assert(out@ =~= seq![VERSION, code, 0u8] + wire_address(bound));
    out
}

/// The reply code for a failure.
pub open spec fn code_of(failure: Failure) -> u8 {
    match failure {
        Failure::UnsupportedCommand(_) => REP_COMMAND_NOT_SUPPORTED,
        Failure::UnsupportedAddressType(_) => REP_ADDRESS_NOT_SUPPORTED,
        _ => REP_GENERAL_FAILURE,
    }
}

/// The text of a failure. Of an input or output error, this is what stands before the text of
/// the error itself.
pub open spec fn failure_text(failure: Failure) -> Seq<char> {
    match failure {
        Failure::Io => "socks5 handshake io error: "@,
        Failure::UnsupportedVersion(v) => "unsupported socks version "@ + text::hex_byte(v),
        Failure::NoAcceptableMethod => "client offered no acceptable authentication method"@,
        Failure::UnsupportedCommand(c) => "unsupported socks command "@ + text::hex_byte(c),
        Failure::UnsupportedAddressType(a) => "unsupported address type "@ + text::hex_byte(a),
    }
}

/// The text of a [`DatagramError`].
pub open spec fn datagram_error_text(err: DatagramError) -> Seq<char> {
    match err {
        DatagramError::Truncated => "truncated udp relay header"@,
        DatagramError::UnsupportedAddressType(a) => "unsupported address type "@ + text::hex_byte(
            a,
        ),
        DatagramError::Fragmented(frag) => "fragmented datagram (FRAG "@ + text::hex_byte(frag)
            + ") is not supported"@,
    }
}

/// Calls `to_string` on an input or output error. The text comes from whoever made the error, in
/// part from the operating system, so nothing is said of it.
#[verifier::external_body]
fn io_error_text(err: &std::io::Error) -> (r: String) {
    err.to_string()
}

/// The text of a handshake that failed on an input or output error with the text `detail`.
pub fn io_failure_text(detail: &str) -> (r: String)
    ensures
        r@ == failure_text(Failure::Io) + detail@,
{
    let mut out = String::new();
    out.append("socks5 handshake io error: ");
    out.append(detail);
    assert(out@ =~= failure_text(Failure::Io) + detail@);
    out
}

fn with_hex_byte(label: &str, b: u8) -> (r: String)
    ensures
        r@ == label@ + text::hex_byte(b),
{
    let mut out: String = label.to_owned();
    push_hex_byte(&mut out, b);
    out
}

impl Error {
    /// SOCKS5 reply code to send back for this error.
    pub fn reply_code(&self) -> (r: u8)
        ensures
            r == code_of(self@),
    {
        match self {
            Error::UnsupportedCommand(_) => REP_COMMAND_NOT_SUPPORTED,
            Error::UnsupportedAddressType(_) => REP_ADDRESS_NOT_SUPPORTED,
            _ => REP_GENERAL_FAILURE,
        }
    }

    /// What this error says to a human.
    pub fn to_string(&self) -> (r: String)
        ensures
            self@ is Io ==> r@.len() >= failure_text(self@).len() && r@.take(
                failure_text(self@).len() as int,
            ) == failure_text(self@),
            !(self@ is Io) ==> r@ == failure_text(self@),
    {
        match self {
            Error::Io(err) => {
                let detail: String = io_error_text(err);
                let out = io_failure_text(detail.as_str());
                assert(out@.take(failure_text(self@).len() as int) =~= failure_text(self@));
                out
            },
            Error::UnsupportedVersion(v) => with_hex_byte("unsupported socks version ", *v),
            Error::NoAcceptableMethod => {
                "client offered no acceptable authentication method".to_owned()
            },
            Error::UnsupportedCommand(c) => with_hex_byte("unsupported socks command ", *c),
            Error::UnsupportedAddressType(a) => with_hex_byte("unsupported address type ", *a),
        }
    }

    /// The error that caused this one, if any.
    pub fn source(&self) -> (r: Option<&std::io::Error>)
        ensures
            match *self {
                Error::Io(err) => r == Some(&err),
                _ => r is None,
            },
    {
        match self {
            Error::Io(err) => Some(err),
            _ => None,
        }
    }
}

impl From<std::io::Error> for Error {
    fn from(err: std::io::Error) -> (r: Self) {
        Error::Io(err)
    }
}

impl vstd::std_specs::convert::FromSpecImpl<std::io::Error> for Error {
    open spec fn obeys_from_spec() -> bool {
        true
    }

    open spec fn from_spec(err: std::io::Error) -> Self {
        Error::Io(err)
    }
}

impl DatagramError {
    /// What this error says to a human.
    pub fn to_string(&self) -> (r: String)
        ensures
            r@ == datagram_error_text(*self),
    {
        match self {
            DatagramError::Truncated => "truncated udp relay header".to_owned(),
            DatagramError::UnsupportedAddressType(a) => with_hex_byte(
                "unsupported address type ",
                *a,
            ),
            DatagramError::Fragmented(frag) => {
                let mut out = with_hex_byte("fragmented datagram (FRAG ", *frag);
                out.append(") is not supported");
                out
            },
        }
    }
}

/// The kinds of input and output errors that the library makes itself.
#[derive(Debug, Clone, Copy, PartialEq, Eq, Structural)]
pub enum IoKind {
    /// The client's bytes ended too early.
    UnexpectedEof,
}

/// Makes an input or output error of a kind, by [`std::io::Error::from`] on the kind of the same
/// name. The error is opaque, so nothing is said of it; the kind that it was made of is kept
/// beside it.
#[verifier::external_body]
fn io_error(kind: IoKind) -> (r: std::io::Error) {
    match kind {
        IoKind::UnexpectedEof => std::io::Error::from(std::io::ErrorKind::UnexpectedEof),
    }
}

/// The answer to a client whose handshake failed, to be sent before the connection is closed.
pub fn refusal(err: &Error) -> (r: Vec<u8>)
    ensures
        r@ == seq![VERSION, code_of(err@), 0u8, ATYP_IPV4, 0u8, 0u8, 0u8, 0u8, 0u8, 0u8],
{
    reply(err.reply_code())
}

/// The answer to a client that asked for a relay: where to send its datagrams, or that there is
/// no such place.
pub fn association_reply(bound: Option<SocketAddress>) -> (r: Vec<u8>)
    ensures
        r@ == (match bound {
            Some(addr) => seq![VERSION, REP_SUCCESS, 0u8] + wire_address(addr),
            None => seq![
                VERSION,
                REP_GENERAL_FAILURE,
                0u8,
                ATYP_IPV4,
                0u8,
                0u8,
                0u8,
                0u8,
                0u8,
                0u8,
            ],
        }),
{
    match bound {
        Some(addr) => reply_bound(REP_SUCCESS, addr),
        None => reply(REP_GENERAL_FAILURE),
    }
}

/// How a handshake with a client ends.
pub struct Handshaken {
    /// What the client asked for, or why it got no further.
    pub result: Result<Asked, Failure>,
    /// What the client was sent on the way.
    pub sent: Seq<u8>,
    /// How many bytes of the client were read.
    pub used: nat,
}

/// A handshake that the end of the client's bytes cut short.
pub open spec fn cut_short(sent: Seq<u8>, used: nat) -> Handshaken {
    Handshaken { result: Err(Failure::Io), sent, used }
}

/// The kind of the error that a handshake ends in, where that is an input or output error: on
/// bytes that are all there, it can only be that they end too early.
pub open spec fn early_end(end: Handshaken) -> Option<IoKind> {
    if end.result == Err::<Asked, Failure>(Failure::Io) {
        Some(IoKind::UnexpectedEof)
    } else {
        None
    }
}

/// What a command byte asks for.
pub open spec fn asked(command: u8, host: Seq<char>, port: u16) -> Result<Asked, Failure> {
    if command == CMD_CONNECT {
        Ok(Asked::Connect(host, port))
    } else if command == CMD_UDP_ASSOCIATE {
        Ok(Asked::UdpAssociate(host, port))
    } else {
        Err(Failure::UnsupportedCommand(command))
    }
}

/// How a handshake ends whose client is about to name a destination of the given type.
pub open spec fn addressed(command: u8, kind: u8, input: Seq<u8>) -> Handshaken {
    match destination(kind, input) {
        Destination::Unknown(other) => Handshaken {
            result: Err(Failure::UnsupportedAddressType(other)),
            sent: Seq::empty(),
            used: 0,
        },
        Destination::Short => cut_short(Seq::empty(), input.len()),
        Destination::Found(host, port, used) => Handshaken {
            result: asked(command, host, port),
            sent: Seq::empty(),
            used,
        },
    }
}

/// `end`, with `sent` sent and `used` bytes read before it.
pub open spec fn preceded(sent: Seq<u8>, used: nat, end: Handshaken) -> Handshaken {
    Handshaken { result: end.result, sent: sent + end.sent, used: used + end.used }
}

/// How a handshake ends whose greeting was answered: `VER CMD RSV ATYP DST.ADDR DST.PORT`.
pub open spec fn requested(input: Seq<u8>) -> Handshaken {
    if input.len() < 4 {
        cut_short(Seq::empty(), input.len())
    } else if input[0] != VERSION {
        Handshaken {
            result: Err(Failure::UnsupportedVersion(input[0])),
            sent: Seq::empty(),
            used: 4,
        }
    } else {
        preceded(Seq::empty(), 4, addressed(input[1], input[3], input.skip(4)))
    }
}

/// How a handshake with a client that sends `input` ends: `VER NMETHODS METHODS`, an answer, and
/// the request.
pub open spec fn handshake(input: Seq<u8>) -> Handshaken {
    if input.len() < 2 {
        cut_short(Seq::empty(), input.len())
    } else if input[0] != VERSION {
        Handshaken {
            result: Err(Failure::UnsupportedVersion(input[0])),
            sent: Seq::empty(),
            used: 2,
        }
    } else if input.len() < 2 + input[1] {
        cut_short(Seq::empty(), input.len())
    } else if !input.subrange(2, 2 + input[1]).contains(METHOD_NONE) {
        Handshaken {
            result: Err(Failure::NoAcceptableMethod),
            sent: seq![VERSION, METHOD_UNACCEPTABLE],
            used: (2 + input[1]) as nat,
        }
    } else {
        preceded(
            seq![VERSION, METHOD_NONE],
            (2 + input[1]) as nat,
            requested(input.skip(2 + input[1])),
        )
    }
}

/// How far a handshake has come: what the client's next bytes tell.
#[derive(Debug)]
pub enum Phase {
    /// The version and the number of methods.
    Greeting,
    /// The methods.
    Methods(u8),
    /// The version, the command and the address type.
    Header,
    /// Four octets of an address.
    V4(u8),
    /// Sixteen octets of an address.
    V6(u8),
    /// The length of a name.
    NameLength(u8),
    /// A name.
    Name(u8, u8),
    /// The port.
    Port(u8, String),
}

/// How a handshake ends that has come to `phase`, where the client goes on with `input`.
#[verifier::opaque]
pub open spec fn remaining(phase: Phase, input: Seq<u8>) -> Handshaken {
    match phase {
        Phase::Greeting => handshake(input),
        Phase::Methods(n) => if input.len() < n {
            cut_short(Seq::empty(), input.len())
        } else if !input.take(n as int).contains(METHOD_NONE) {
            Handshaken {
                result: Err(Failure::NoAcceptableMethod),
                sent: seq![VERSION, METHOD_UNACCEPTABLE],
                used: n as nat,
            }
        } else {
            preceded(seq![VERSION, METHOD_NONE], n as nat, requested(input.skip(n as int)))
        },
        Phase::Header => requested(input),
        Phase::V4(command) => addressed(command, ATYP_IPV4, input),
        Phase::V6(command) => addressed(command, ATYP_IPV6, input),
        Phase::NameLength(command) => addressed(command, ATYP_DOMAIN, input),
        Phase::Name(command, len) => {
            let end = addressed(command, ATYP_DOMAIN, seq![len] + input);
            Handshaken { used: (end.used - 1) as nat, ..end }
        },
        Phase::Port(command, host) => if input.len() < 2 {
            cut_short(Seq::empty(), input.len())
        } else {
            Handshaken {
                result: asked(command, host@, big_endian(input[0], input[1])),
                sent: Seq::empty(),
                used: 2,
            }
        },
    }
}

/// How many bytes a phase takes.
pub open spec fn phase_len(phase: Phase) -> nat {
    match phase {
        Phase::Greeting => 2,
        Phase::Methods(n) => n as nat,
        Phase::Header => 4,
        Phase::V4(_) => 4,
        Phase::V6(_) => 16,
        Phase::NameLength(_) => 1,
        Phase::Name(_, len) => len as nat,
        Phase::Port(_, _) => 2,
    }
}

/// An upper bound on the phases that are still to come.
pub open spec fn phases_left(phase: Phase) -> nat {
    match phase {
        Phase::Greeting => 6,
        Phase::Methods(_) => 5,
        Phase::Header => 4,
        Phase::V4(_) => 2,
        Phase::V6(_) => 2,
        Phase::NameLength(_) => 3,
        Phase::Name(_, _) => 2,
        Phase::Port(_, _) => 1,
    }
}

/// A handshake in progress.
#[derive(Debug)]
pub struct Handshake {
    /// How far it has come.
    pub phase: Phase,
}

/// What follows from the bytes of a phase.
#[derive(Debug)]
pub enum Step {
    /// Send the bytes, if any, and go on.
    Next(Handshake, Vec<u8>),
    /// Send the bytes, if any; the handshake is over.
    Done(Result<Command, Error>, Vec<u8>),
}

/// A result over values as a result over what they stand for.
pub open spec fn result_view(r: Result<Command, Error>) -> Result<Asked, Failure> {
    match r {
        Ok(command) => Ok(command@),
        Err(err) => Err(err@),
    }
}

/// Whether a step is right: however the client goes on, the handshake ends as it should.
pub open spec fn follows(phase: Phase, bytes: Seq<u8>, step: Step) -> bool {
    match step {
        Step::Next(state, send) => {
            &&& phases_left(state.phase) < phases_left(phase)
            &&& forall|tail: Seq<u8>| #[trigger]
                remaining(phase, bytes + tail) == preceded(
                    send@,
                    bytes.len(),
                    remaining(state.phase, tail),
                )
        },
        Step::Done(result, send) => {
            &&& result_view(result) != Err::<Asked, Failure>(Failure::Io)
            &&& forall|tail: Seq<u8>| #[trigger]
                remaining(phase, bytes + tail) == (Handshaken {
                    result: result_view(result),
                    sent: send@,
                    used: bytes.len(),
                })
        },
    }
}

/// A client whose bytes end within a phase leaves the handshake with an input error, and is sent
/// nothing more.
pub proof fn ending_within_a_phase_cuts_short(phase: Phase, input: Seq<u8>)
    requires
        input.len() < phase_len(phase),
    ensures
        remaining(phase, input) == cut_short(Seq::empty(), input.len()),
{
    reveal(remaining);
}

fn offers_none(methods: &[u8]) -> (r: bool)
    ensures
        r == methods@.contains(METHOD_NONE),
{
    let mut i: usize = 0;
    while i < methods.len()
        invariant
            i <= methods@.len(),
            forall|j: int| 0 <= j < i ==> methods@[j] != METHOD_NONE,
        decreases methods@.len() - i,
    {
        if methods[i] == METHOD_NONE {
            return true;
        }
        i += 1;
    }
    false
}

impl Handshake {
    /// A handshake that waits for the greeting.
    pub fn new() -> (r: Self)
        ensures
            r.phase is Greeting,
    {
        Handshake { phase: Phase::Greeting }
    }

    /// How many bytes must be read before the next step.
    pub fn needs(&self) -> (n: usize)
        ensures
            n == phase_len(self.phase),
    {
        match &self.phase {
            Phase::Greeting => 2,
            Phase::Methods(n) => *n as usize,
            Phase::Header => 4,
            Phase::V4(_) => 4,
            Phase::V6(_) => 16,
            Phase::NameLength(_) => 1,
            Phase::Name(_, len) => *len as usize,
            Phase::Port(_, _) => 2,
        }
    }

    /// Takes the bytes that were needed.
    pub fn feed(self, bytes: &[u8]) -> (step: Step)
        requires
            bytes@.len() == phase_len(self.phase),
        ensures
            follows(self.phase, bytes@, step),
    {
        match self.phase {
            Phase::Greeting => after_greeting(bytes),
            Phase::Methods(n) => after_methods(n, bytes),
            Phase::Header => after_header(bytes),
            Phase::V4(command) => {
                let host: String = IpAddress::V4(
                    [bytes[0], bytes[1], bytes[2], bytes[3]],
                ).to_string();
                after_address(Phase::V4(command), ATYP_IPV4, bytes, command, host)
            },
            Phase::V6(command) => {
                let host: String = ipv6(bytes).to_string();
                after_address(Phase::V6(command), ATYP_IPV6, bytes, command, host)
            },
            Phase::NameLength(command) => after_name_length(command, bytes),
            Phase::Name(command, len) => after_name(command, len, bytes),
            Phase::Port(command, host) => after_port(command, host, bytes),
        }
    }
}

fn after_greeting(bytes: &[u8]) -> (step: Step)
    requires
        bytes@.len() == 2,
    ensures
        follows(Phase::Greeting, bytes@, step),
{
    proof {
        reveal(remaining);
        assert forall|tail: Seq<u8>|
            #![trigger remaining(Phase::Greeting, bytes@ + tail)]
            {
                let input = bytes@ + tail;
                &&& input[0] == bytes@[0]
                &&& input[1] == bytes@[1]
                &&& tail.len() >= input[1] ==> {
                    &&& input.subrange(2, 2 + input[1]) == tail.take(input[1] as int)
                    &&& input.skip(2 + input[1]) == tail.skip(input[1] as int)
                }
            } by {
            let input = bytes@ + tail;
            if tail.len() >= input[1] {
                assert(input.subrange(2, 2 + input[1]) =~= tail.take(input[1] as int));
                assert(input.skip(2 + input[1]) =~= tail.skip(input[1] as int));
            }
        }
        nothing_more();
    }
    if bytes[0] != VERSION {
        return Step::Done(Err(Error::UnsupportedVersion(bytes[0])), Vec::new());
    }
    Step::Next(Handshake { phase: Phase::Methods(bytes[1]) }, Vec::new())
}

fn after_methods(n: u8, bytes: &[u8]) -> (step: Step)
    requires
        bytes@.len() == n,
    ensures
        follows(Phase::Methods(n), bytes@, step),
{
    proof {
        reveal(remaining);
        assert forall|tail: Seq<u8>|
            #![trigger remaining(Phase::Methods(n), bytes@ + tail)]
            (bytes@ + tail).take(n as int) == bytes@ && (bytes@ + tail).skip(n as int) == tail by {
            assert((bytes@ + tail).take(n as int) =~= bytes@);
            assert((bytes@ + tail).skip(n as int) =~= tail);
        }
    }
    if !offers_none(bytes) {
        return Step::Done(Err(Error::NoAcceptableMethod), vec![VERSION, METHOD_UNACCEPTABLE]);
    }
    Step::Next(Handshake { phase: Phase::Header }, vec![VERSION, METHOD_NONE])
}

fn after_header(bytes: &[u8]) -> (step: Step)
    requires
        bytes@.len() == 4,
    ensures
        follows(Phase::Header, bytes@, step),
{
    proof {
        reveal(remaining);
        assert forall|tail: Seq<u8>|
            #![trigger remaining(Phase::Header, bytes@ + tail)]
            (bytes@ + tail).skip(4) == tail by {
            assert((bytes@ + tail).skip(4) =~= tail);
        }
        nothing_more();
    }
    if bytes[0] != VERSION {
        return Step::Done(Err(Error::UnsupportedVersion(bytes[0])), Vec::new());
    }
    let command: u8 = bytes[1];
    match bytes[3] {
        ATYP_IPV4 => Step::Next(Handshake { phase: Phase::V4(command) }, Vec::new()),
        ATYP_IPV6 => Step::Next(Handshake { phase: Phase::V6(command) }, Vec::new()),
        ATYP_DOMAIN => Step::Next(Handshake { phase: Phase::NameLength(command) }, Vec::new()),
        other => Step::Done(Err(Error::UnsupportedAddressType(other)), Vec::new()),
    }
}

fn after_address(phase: Phase, kind: u8, bytes: &[u8], command: u8, host: String) -> (step: Step)
    requires
        phase == Phase::V4(command) && kind == ATYP_IPV4 && bytes@.len() == 4 || phase
            == Phase::V6(command) && kind == ATYP_IPV6 && bytes@.len() == 16,
        host@ == address_host(kind, bytes@),
    ensures
        follows(phase, bytes@, step),
{
    proof {
        address_then_port(command, kind, bytes@, host);
        assert forall|tail: Seq<u8>| #[trigger]
            remaining(phase, bytes@ + tail) == addressed(command, kind, bytes@ + tail) by {
            reveal(remaining);
        }
    }
    Step::Next(Handshake { phase: Phase::Port(command, host) }, Vec::new())
}

fn after_name_length(command: u8, bytes: &[u8]) -> (step: Step)
    requires
        bytes@.len() == 1,
    ensures
        follows(Phase::NameLength(command), bytes@, step),
{
    proof {
        reveal(remaining);
        assert forall|tail: Seq<u8>|
            #![trigger remaining(Phase::NameLength(command), bytes@ + tail)]
            bytes@ + tail == seq![bytes@[0]] + tail by {
            assert(bytes@ + tail =~= seq![bytes@[0]] + tail);
        }
        nothing_more();
    }
    Step::Next(Handshake { phase: Phase::Name(command, bytes[0]) }, Vec::new())
}

fn after_name(command: u8, len: u8, bytes: &[u8]) -> (step: Step)
    requires
        bytes@.len() == len,
    ensures
        follows(Phase::Name(command, len), bytes@, step),
{
    let host: String = normalize_host(lossy_text(bytes).as_str());
    proof {
        let whole = seq![len] + bytes@;
        assert(whole.skip(1) =~= bytes@);
        address_then_port(command, ATYP_DOMAIN, whole, host);
        assert forall|tail: Seq<u8>| #[trigger]
            remaining(Phase::Name(command, len), bytes@ + tail) == preceded(
                Seq::empty(),
                bytes@.len(),
                remaining(Phase::Port(command, host), tail),
            ) by {
            reveal(remaining);
            assert(seq![len] + (bytes@ + tail) =~= whole + tail);
            assert(addressed(command, ATYP_DOMAIN, whole + tail) == preceded(
                Seq::empty(),
                whole.len(),
                remaining(Phase::Port(command, host), tail),
            ));
        }
    }
    Step::Next(Handshake { phase: Phase::Port(command, host) }, Vec::new())
}

fn after_port(command: u8, host: String, bytes: &[u8]) -> (step: Step)
    requires
        bytes@.len() == 2,
    ensures
        follows(Phase::Port(command, host), bytes@, step),
{
    let ghost phase = Phase::Port(command, host);
    let port: u16 = port_number(bytes[0], bytes[1]);
    proof {
        reveal(remaining);
        assert forall|tail: Seq<u8>|
            #![trigger remaining(phase, bytes@ + tail)]
            (bytes@ + tail)[0] == bytes@[0] && (bytes@ + tail)[1] == bytes@[1] by {}
    }
    let result: Result<Command, Error> = match command {
        CMD_CONNECT => Ok(Command::Connect(Request { host, port })),
        CMD_UDP_ASSOCIATE => Ok(Command::UdpAssociate(Request { host, port })),
        other => Err(Error::UnsupportedCommand(other)),
    };
    Step::Done(result, Vec::new())
}

proof fn nothing_more()
    ensures
        forall|s: Seq<u8>| #[trigger] (Seq::<u8>::empty() + s) == s,
{
    assert forall|s: Seq<u8>| #[trigger] (Seq::<u8>::empty() + s) == s by {
        assert(Seq::<u8>::empty() + s =~= s);
    }
}

proof fn address_then_port(command: u8, kind: u8, bytes: Seq<u8>, host: String)
    requires
        known_type(kind),
        address_len(kind, bytes) == Some(bytes.len()),
        host@ == address_host(kind, bytes),
    ensures
        forall|tail: Seq<u8>| #[trigger]
            addressed(command, kind, bytes + tail) == preceded(
                Seq::empty(),
                bytes.len(),
                remaining(Phase::Port(command, host), tail),
            ),
{
    assert forall|tail: Seq<u8>| #[trigger]
        addressed(command, kind, bytes + tail) == preceded(
            Seq::empty(),
            bytes.len(),
            remaining(Phase::Port(command, host), tail),
        ) by {
        reveal(remaining);
        let input = bytes + tail;
        assert(address_len(kind, input) == Some(bytes.len()));
        assert(input.take(bytes.len() as int) =~= bytes);
        assert(Seq::<u8>::empty() + Seq::<u8>::empty() =~= Seq::<u8>::empty());
        if tail.len() >= 2 {
            assert(input[bytes.len() as int] == tail[0]);
            assert(input[bytes.len() as int + 1] == tail[1]);
        }
    }
}

/// What a handshake came to.
#[derive(Debug)]
pub struct Accepted {
    /// What the client asked for, or why it got no further.
    pub result: Result<Command, Error>,
    /// What the client was sent on the way.
    pub sent: Vec<u8>,
    /// How many bytes of the client were read.
    pub used: usize,
    /// The kind that the error in `result` was made of, where it is an input or output error.
    pub io_kind: Option<IoKind>,
}

impl View for Accepted {
    type V = Handshaken;

    open spec fn view(&self) -> Handshaken {
        Handshaken { result: result_view(self.result), sent: self.sent@, used: self.used as nat }
    }
}

/// Performs the greeting and reads the client's request, leaving the reply to the caller.
///
/// `input` is all that the client sends before it waits or hangs up.
///
/// The reply is deliberately not part of this: the proxy has to try the upstream connection (or
/// bind the relay socket) first so it can report failure accurately, and a client must not
/// start sending payload until it sees a success reply.
///
/// # Errors
///
/// The result is an [`Error`] for malformed, unsupported, or truncated handshakes. Send
/// [`Error::reply_code`] back with [`reply`] before closing the connection.
pub fn accept(input: &[u8]) -> (r: Accepted)
    ensures
        r@ == handshake(input@),
        r.io_kind == early_end(handshake(input@)),
{
    let mut state = Handshake::new();
    let mut sent: Vec<u8> = Vec::new();
    let mut used: usize = 0;
    proof {
        reveal(remaining);
    }
    assert(input@.skip(0) =~= input@);
    assert(sent@ + handshake(input@).sent =~= handshake(input@).sent);
    loop
        invariant
            used <= input@.len(),
            handshake(input@) == preceded(
                sent@,
                used as nat,
                remaining(state.phase, input@.skip(used as int)),
            ),
        decreases phases_left(state.phase),
    {
        let n: usize = state.needs();
        let ghost rest = input@.skip(used as int);
        if input.len() - used < n {
            proof {
                ending_within_a_phase_cuts_short(state.phase, rest);
                assert(sent@ + Seq::<u8>::empty() =~= sent@);
            }
            let kind = IoKind::UnexpectedEof;
            return Accepted {
                result: Err(Error::Io(io_error(kind))),
                sent,
                used: input.len(),
                io_kind: Some(kind),
            };
        }
        let bytes: &[u8] = &input[used..used + n];
        let ghost tail = input@.skip(used + n);
        let ghost before = sent@;
        assert(rest =~= bytes@ + tail);
        match state.feed(bytes) {
            Step::Next(next, send) => {
                sent.extend_from_slice(send.as_slice());
                used = used + n;
                state = next;
                proof {
                    let end = remaining(state.phase, tail);
                    assert(sent@ =~= before + send@);
                    assert(before + (send@ + end.sent) =~= sent@ + end.sent);
                }
            },
            Step::Done(result, send) => {
                sent.extend_from_slice(send.as_slice());
                assert(sent@ =~= before + send@);
                return Accepted { result, sent, used: used + n, io_kind: None };
            },
        }
    }
}

} // verus!
