//! Laws of the SOCKS5 formats.

use vstd::prelude::*;

use crate::address;
use crate::address::SocketAddress;
use crate::proxy;
use crate::socks;
use crate::socks::{
    Asked, DatagramError, Failure, Handshaken, IoKind, Phase, Relayed, Step, ATYP_DOMAIN,
    METHOD_NONE, METHOD_UNACCEPTABLE, REP_GENERAL_FAILURE, UDP_HEADER_PREFIX, VERSION,
};
use crate::text;
use crate::transfers;

verus! {

proof fn ports_travel_unchanged(port: u16)
    ensures
        socks::big_endian((port / 256) as u8, (port % 256) as u8) == port,
{
}

/// Whatever is wrapped for the client reads back unchanged: the source as host and port, and the
/// payload byte for byte.
pub proof fn wrapped_datagrams_read_back(from: SocketAddress, payload: Seq<u8>)
    ensures
        socks::relayed(socks::wrapped(from, payload)) == Ok::<Relayed, DatagramError>(
            Relayed { host: address::ip_text(from.ip), port: from.port, payload },
        ),
{
    let buf = socks::wrapped(from, payload);
    let octets = address::octets(from.ip);
    let n = octets.len() as int;
    let kind = buf[3];
    let body = buf.skip(UDP_HEADER_PREFIX as int);
    ports_travel_unchanged(from.port);
    assert(body =~= octets + socks::port_bytes(from.port) + payload);
    assert(body.take(n) =~= octets);
    assert(body[n] == (from.port / 256) as u8);
    assert(body[n + 1] == (from.port % 256) as u8);
    assert(buf.skip(UDP_HEADER_PREFIX + (n + 2)) =~= payload);
}

/// The payload of a datagram is the end of it, and no more than that.
pub proof fn payloads_are_tails(buf: Seq<u8>)
    ensures
        socks::relayed(buf) matches Ok(d) ==> d.payload.len() + UDP_HEADER_PREFIX < buf.len()
            && d.payload == buf.skip(buf.len() - d.payload.len()),
{
}

/// A datagram cut off anywhere before its payload is rejected as truncated, never read as
/// something smaller.
pub proof fn cut_headers_are_truncated(buf: Seq<u8>, n: int)
    requires
        socks::relayed(buf) matches Ok(d) && 0 <= n < buf.len() - d.payload.len(),
    ensures
        socks::relayed(buf.take(n)) == Err::<Relayed, DatagramError>(DatagramError::Truncated),
{
    let cut = buf.take(n);
    if n >= UDP_HEADER_PREFIX {
        let body = buf.skip(UDP_HEADER_PREFIX as int);
        let rest = cut.skip(UDP_HEADER_PREFIX as int);
        assert(rest =~= body.take(n - UDP_HEADER_PREFIX));
        if rest.len() > 0 {
            assert(rest[0] == body[0]);
        }
    }
}

/// A datagram cut off within its payload has the same destination and what is left of the
/// payload.
pub proof fn cut_payloads_are_shorter(buf: Seq<u8>, n: int)
    requires
        socks::relayed(buf) matches Ok(d) && buf.len() - d.payload.len() <= n <= buf.len(),
    ensures
        ({
            let d = socks::relayed(buf)->Ok_0;
            socks::relayed(buf.take(n)) == Ok::<Relayed, DatagramError>(
                Relayed {
                    host: d.host,
                    port: d.port,
                    payload: buf.subrange(buf.len() - d.payload.len(), n),
                },
            )
        }),
{
    let d = socks::relayed(buf)->Ok_0;
    let cut = buf.take(n);
    let start = buf.len() - d.payload.len();
    let body = buf.skip(UDP_HEADER_PREFIX as int);
    let rest = cut.skip(UDP_HEADER_PREFIX as int);
    let m = socks::address_len(buf[3], body)->0 as int;
    assert(rest =~= body.take(n - UDP_HEADER_PREFIX));
    assert(rest.take(m) =~= body.take(m));
    assert(rest[m] == body[m] && rest[m + 1] == body[m + 1]);
    assert(cut.skip(start) =~= buf.subrange(start, n));
}

/// A request that is put together as the protocol says is understood, whatever stands in it, and
/// read to its last byte and no further.
pub proof fn well_formed_requests_are_understood(
    methods: Seq<u8>,
    command: u8,
    reserved: u8,
    kind: u8,
    addr: Seq<u8>,
    port: u16,
)
    requires
        methods.len() <= 255,
        methods.contains(METHOD_NONE),
        socks::known_type(kind),
        socks::address_len(kind, addr) == Some(addr.len()),
    ensures
        socks::handshake(
            seq![VERSION, methods.len() as u8] + methods + (seq![VERSION, command, reserved, kind]
                + addr + socks::port_bytes(port)),
        ) == (Handshaken {
            result: socks::asked(command, socks::address_host(kind, addr), port),
            sent: seq![VERSION, METHOD_NONE],
            used: 2 + methods.len() + 4 + addr.len() + 2,
        }),
{
    let request = seq![VERSION, command, reserved, kind] + addr + socks::port_bytes(port);
    let input = seq![VERSION, methods.len() as u8] + methods + request;
    let n = addr.len() as int;
    assert(input.subrange(2, 2 + methods.len() as int) =~= methods);
    assert(input.skip(2 + methods.len() as int) =~= request);
    let dest = request.skip(4);
    assert(dest =~= addr + socks::port_bytes(port));
    assert(socks::address_len(kind, dest) == Some(addr.len()));
    assert(dest.take(n) =~= addr);
    assert(dest[n] == (port / 256) as u8);
    assert(dest[n + 1] == (port % 256) as u8);
    ports_travel_unchanged(port);
    assert(seq![VERSION, METHOD_NONE] + (Seq::<u8>::empty() + Seq::<u8>::empty()) =~= seq![
        VERSION,
        METHOD_NONE,
    ]);
}

proof fn ascii_is_utf8(bytes: Seq<u8>)
    requires
        forall|i: int| 0 <= i < bytes.len() ==> #[trigger] bytes[i] < 128,
    ensures
        vstd::utf8::valid_utf8(bytes),
        vstd::utf8::decode_utf8(bytes) == proxy::as_text(bytes),
    decreases bytes.len(),
{
    if bytes.len() == 0 {
        assert(vstd::utf8::decode_utf8(bytes) =~= proxy::as_text(bytes));
    } else {
        let b = bytes[0];
        assert(b & 0x7f == b) by (bit_vector)
            requires
                b < 128,
        ;
        let rest = bytes.subrange(1, bytes.len() as int);
        assert forall|i: int| 0 <= i < rest.len() implies #[trigger] rest[i] < 128 by {
            assert(rest[i] == bytes[i + 1]);
        }
        ascii_is_utf8(rest);
        assert(vstd::utf8::pop_first_scalar(bytes) == rest);
        assert(seq![b as char] + proxy::as_text(rest) =~= proxy::as_text(bytes));
    }
}

/// A client that names a destination in ASCII gets to the host of that name, in lower case and
/// without final dots: `Example.COM.` is the host `example.com`.
pub proof fn ascii_names_are_preserved(name: Seq<u8>)
    requires
        name.len() <= 255,
        forall|i: int| 0 <= i < name.len() ==> #[trigger] name[i] < 128,
    ensures
        socks::address_len(ATYP_DOMAIN, seq![name.len() as u8] + name) == Some(
            (1 + name.len()) as nat,
        ),
        socks::address_host(ATYP_DOMAIN, seq![name.len() as u8] + name) == socks::normalized(
            proxy::as_text(name),
        ),
{
    ascii_is_utf8(name);
    assert((seq![name.len() as u8] + name).skip(1) =~= name);
}

/// A handshake that is cut off before its end is an input error, that of an unexpected end, and
/// never read as a shorter request.
pub proof fn cut_handshakes_are_input_errors(input: Seq<u8>, n: int)
    requires
        socks::handshake(input).result != Err::<Asked, Failure>(Failure::Io),
        0 <= n < socks::handshake(input).used,
    ensures
        socks::handshake(input.take(n)).result == Err::<Asked, Failure>(Failure::Io),
        socks::handshake(input.take(n)).used == n,
        socks::early_end(socks::handshake(input.take(n))) == Some(IoKind::UnexpectedEof),
        socks::code_of(Failure::Io) == REP_GENERAL_FAILURE,
{
    let cut = input.take(n);
    handshakes_read_what_is_there(input);
    handshakes_read_what_is_there(cut);
    if socks::handshake(cut).result != Err::<Asked, Failure>(Failure::Io) {
        handshakes_leave_the_rest(cut, input.skip(n));
        assert(cut + input.skip(n) =~= input);
    }
}

proof fn destinations_leave_the_rest(kind: u8, bytes: Seq<u8>, more: Seq<u8>)
    requires
        !(socks::destination(kind, bytes) is Short),
    ensures
        socks::destination(kind, bytes + more) == socks::destination(kind, bytes),
{
    if socks::known_type(kind) {
        let n = socks::address_len(kind, bytes)->0;
        assert((bytes + more).take(n as int) =~= bytes.take(n as int));
    }
}

/// A handshake that comes to an end of its own takes nothing from what the client sends after
/// it: those bytes are left for the tunnel.
pub proof fn handshakes_leave_the_rest(input: Seq<u8>, more: Seq<u8>)
    requires
        socks::handshake(input).result != Err::<Asked, Failure>(Failure::Io),
    ensures
        socks::handshake(input + more) == socks::handshake(input),
{
    let all = input + more;
    if input[0] == VERSION {
        let n = 2 + input[1];
        assert(all.subrange(2, n) =~= input.subrange(2, n));
        let request = input.skip(n);
        assert(all.skip(n) =~= request + more);
        if input.subrange(2, n).contains(METHOD_NONE) && request[0] == VERSION {
            assert((request + more).skip(4) =~= request.skip(4) + more);
            destinations_leave_the_rest(request[3], request.skip(4), more);
        }
    }
}

/// A handshake never reads past what the client sent, and reads all of it where it is cut short.
pub proof fn handshakes_read_what_is_there(input: Seq<u8>)
    ensures
        socks::handshake(input).used <= input.len(),
        socks::handshake(input).result == Err::<Asked, Failure>(Failure::Io)
            ==> socks::handshake(input).used == input.len(),
{
}

/// A handshake sends the client nothing but the choice of method: a client whose request was
/// understood was told to go on without authentication, and the refusal goes to those clients
/// that offer no such thing, and to no others.
pub proof fn handshakes_send_the_method_choice(input: Seq<u8>)
    ensures
        ({
            let end = socks::handshake(input);
            let granted = seq![VERSION, METHOD_NONE];
            let refused = seq![VERSION, METHOD_UNACCEPTABLE];
            &&& end.sent == Seq::<u8>::empty() || end.sent == granted || end.sent == refused
            &&& end.result is Ok ==> end.sent == granted
            &&& end.sent == refused <==> end.result == Err::<Asked, Failure>(
                Failure::NoAcceptableMethod,
            )
        }),
{
    let end = socks::handshake(input);
    assert(seq![VERSION, METHOD_NONE][1] != seq![VERSION, METHOD_UNACCEPTABLE][1]);
    let choice = seq![VERSION, METHOD_NONE];
    assert(choice + Seq::<u8>::empty() =~= choice);
    assert(choice + (Seq::<u8>::empty() + Seq::<u8>::empty()) =~= choice);
    assert(Seq::<u8>::empty().len() != seq![VERSION, METHOD_UNACCEPTABLE].len());
}

/// The phase that a handshake is in before its `i`th step.
pub open spec fn phase_before(steps: Seq<Step>, i: int) -> Phase {
    if i == 0 {
        Phase::Greeting
    } else {
        steps[i - 1]->Next_0.phase
    }
}

/// What a step sends.
pub open spec fn sent_by(step: Step) -> Seq<u8> {
    match step {
        Step::Next(_, send) => send@,
        Step::Done(_, send) => send@,
    }
}

/// What each of the steps sends.
pub open spec fn all_sent(steps: Seq<Step>) -> Seq<Seq<u8>> {
    Seq::new(steps.len(), |i: int| sent_by(steps[i]))
}

proof fn steps_so_far(steps: Seq<Step>, pieces: Seq<Seq<u8>>, k: int, tail: Seq<u8>)
    requires
        steps.len() == pieces.len(),
        0 <= k <= steps.len(),
        forall|i: int| 0 <= i < k ==> (#[trigger] steps[i]) is Next,
        forall|i: int|
            0 <= i < k ==> socks::follows(phase_before(steps, i), #[trigger] pieces[i], steps[i]),
    ensures
        socks::remaining(Phase::Greeting, transfers::joined(pieces.take(k)) + tail)
            == socks::preceded(
            transfers::joined(all_sent(steps).take(k)),
            transfers::joined(pieces.take(k)).len(),
            socks::remaining(phase_before(steps, k), tail),
        ),
    decreases k,
{
    if k == 0 {
        assert(transfers::joined(pieces.take(0)) + tail =~= tail);
        let end = socks::remaining(Phase::Greeting, tail);
        assert(transfers::joined(all_sent(steps).take(0)) + end.sent =~= end.sent);
    } else {
        let n = k - 1;
        let read = transfers::joined(pieces.take(n));
        let sent = transfers::joined(all_sent(steps).take(n));
        steps_so_far(steps, pieces, n, pieces[n] + tail);
        assert(pieces.take(k).drop_last() =~= pieces.take(n));
        assert(all_sent(steps).take(k).drop_last() =~= all_sent(steps).take(n));
        assert(read + (pieces[n] + tail) =~= (read + pieces[n]) + tail);
        assert(steps[n] is Next);
        assert(socks::follows(phase_before(steps, n), pieces[n], steps[n]));
        let rest = socks::remaining(phase_before(steps, k), tail);
        assert(socks::remaining(phase_before(steps, n), pieces[n] + tail) == socks::preceded(
            sent_by(steps[n]),
            pieces[n].len(),
            rest,
        ));
        assert(sent + (sent_by(steps[n]) + rest.sent) =~= (sent + sent_by(steps[n])) + rest.sent);
    }
}

/// A handshake that is fed phase by phase ends as the bytes of all phases, one after the other,
/// say, with the same bytes sent on the way and nothing read beyond them.
pub proof fn steps_give_the_handshake(
    steps: Seq<Step>,
    pieces: Seq<Seq<u8>>,
    more: Seq<u8>,
)
    requires
        steps.len() == pieces.len(),
        steps.len() > 0,
        forall|i: int| 0 <= i < steps.len() - 1 ==> (#[trigger] steps[i]) is Next,
        steps.last() is Done,
        forall|i: int|
            0 <= i < steps.len() ==> socks::follows(
                phase_before(steps, i),
                #[trigger] pieces[i],
                steps[i],
            ),
    ensures
        socks::handshake(transfers::joined(pieces) + more) == (Handshaken {
            result: socks::result_view(steps.last()->Done_0),
            sent: transfers::joined(all_sent(steps)),
            used: transfers::joined(pieces).len(),
        }),
{
    let n = steps.len() - 1;
    let read = transfers::joined(pieces.take(n));
    steps_so_far(steps, pieces, n, pieces[n] + more);
    assert(pieces.drop_last() =~= pieces.take(n));
    assert(all_sent(steps).drop_last() =~= all_sent(steps).take(n));
    assert(read + (pieces[n] + more) =~= transfers::joined(pieces) + more);
    assert(socks::follows(phase_before(steps, n), pieces[n], steps[n]));
    assert(socks::remaining(phase_before(steps, n), pieces[n] + more).sent == sent_by(steps[n]));
    let input = transfers::joined(pieces) + more;
    assert(socks::remaining(Phase::Greeting, input) == socks::handshake(input)) by {
        reveal(socks::remaining);
    }
}

proof fn hex_bytes_differ(a: u8, b: u8)
    requires
        text::hex_byte(a) == text::hex_byte(b),
    ensures
        a == b,
{
    assert(text::hex_byte(a)[2] == text::hex_byte(b)[2]);
    assert(text::hex_byte(a)[3] == text::hex_byte(b)[3]);
    assert((a / 16) * 16 + a % 16 == a);
    assert((b / 16) * 16 + b % 16 == b);
}

/// The text of a failure tells it from every other failure.
pub proof fn failures_describe_themselves(a: Failure, b: Failure)
    requires
        socks::failure_text(a) == socks::failure_text(b),
    ensures
        a == b,
{
    reveal_strlit("socks5 handshake io error: ");
    reveal_strlit("unsupported socks version ");
    reveal_strlit("client offered no acceptable authentication method");
    reveal_strlit("unsupported socks command ");
    reveal_strlit("unsupported address type ");
    let s = socks::failure_text(a);
    let t = socks::failure_text(b);
    assert(s[0] == t[0]);
    assert(s[12] == t[12]);
    assert(s[18] == t[18]);
    match (a, b) {
        (Failure::UnsupportedVersion(x), Failure::UnsupportedVersion(y)) => {
            assert(s.skip(26) =~= text::hex_byte(x));
            assert(t.skip(26) =~= text::hex_byte(y));
            hex_bytes_differ(x, y);
        },
        (Failure::UnsupportedCommand(x), Failure::UnsupportedCommand(y)) => {
            assert(s.skip(26) =~= text::hex_byte(x));
            assert(t.skip(26) =~= text::hex_byte(y));
            hex_bytes_differ(x, y);
        },
        (Failure::UnsupportedAddressType(x), Failure::UnsupportedAddressType(y)) => {
            assert(s.skip(25) =~= text::hex_byte(x));
            assert(t.skip(25) =~= text::hex_byte(y));
            hex_bytes_differ(x, y);
        },
        _ => {},
    }
}

/// The text of a datagram error tells it from every other.
pub proof fn datagram_errors_describe_themselves(a: DatagramError, b: DatagramError)
    requires
        socks::datagram_error_text(a) == socks::datagram_error_text(b),
    ensures
        a == b,
{
    reveal_strlit("truncated udp relay header");
    reveal_strlit("unsupported address type ");
    reveal_strlit("fragmented datagram (FRAG ");
    reveal_strlit(") is not supported");
    let s = socks::datagram_error_text(a);
    let t = socks::datagram_error_text(b);
    assert(s[0] == t[0]);
    match (a, b) {
        (DatagramError::UnsupportedAddressType(x), DatagramError::UnsupportedAddressType(y)) => {
            assert(s.skip(25) =~= text::hex_byte(x));
            assert(t.skip(25) =~= text::hex_byte(y));
            hex_bytes_differ(x, y);
        },
        (DatagramError::Fragmented(x), DatagramError::Fragmented(y)) => {
            assert(s.subrange(26, 30) =~= text::hex_byte(x));
            assert(t.subrange(26, 30) =~= text::hex_byte(y));
            hex_bytes_differ(x, y);
        },
        _ => {},
    }
}

} // verus!
