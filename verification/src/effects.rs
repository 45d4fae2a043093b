//! Laws of single events: what each does to the counters of a host, and what is logged of it.

use vstd::prelude::*;

use crate::address;
use crate::address::IpAddress;
use crate::conservation;
use crate::dns;
use crate::heads;
use crate::io;
use crate::io::{ConnLog, Counting, Side};
use crate::literal;
use crate::proxy;
use crate::run;
use crate::run::Renaming;
use crate::session;
use crate::session::{Attempt, Session};
use crate::socks;
use crate::socks::{DatagramError, Error};
use crate::stats::{EndpointId, EndpointStats, Registry};
use crate::sums;
use crate::text;
use crate::transfers;
use crate::udp;
use crate::udp::{Relay, Sending};

verus! {

/// What the child receives is what is read from the remote host and what is written to the child;
/// what it sends is the rest.
pub proof fn directions_are_those_of_the_child()
    ensures
        io::is_ingress(Side::Upstream, true),
        io::is_ingress(Side::Client, false),
        !io::is_ingress(Side::Upstream, false),
        !io::is_ingress(Side::Client, true),
{
}

/// Whether counters grew by bytes received, bytes sent and connections, as far as 64 bits go.
pub open spec fn grew(
    before: EndpointStats,
    after: EndpointStats,
    received: int,
    sent: int,
    opened: int,
) -> bool {
    let size = 0x1_0000_0000_0000_0000int;
    &&& after.ingress == (before.ingress + received) % size
    &&& after.egress == (before.egress + sent) % size
    &&& after.connections == (before.connections + opened) % size
}

/// Whether of a registry nothing changed but one cell.
pub open spec fn only_cell_changed(before: Registry, after: Registry, id: EndpointId) -> bool {
    &&& after.names() == before.names()
    &&& after.ids() == before.ids()
    &&& after.cells().len() == before.cells().len()
    &&& forall|i: int|
        0 <= i < before.cells().len() && i != id.index ==> #[trigger] after.cells()[i]
            == before.cells()[i]
    &&& after.in_flight() == before.in_flight()
    &&& after.conn_id() == before.conn_id()
}

/// Bytes that cross a stream are counted once, in the cell of the stream and in their direction,
/// and logged with their number and the target in verbose mode only; no bytes do nothing.
pub proof fn bytes_are_counted_once<S>(
    stream: Counting<S>,
    before: Registry,
    after: Registry,
    reading: bool,
    n: usize,
    line: Option<String>,
)
    requires
        before.issued(stream.cell()),
        stream.counts(before, after, reading, n, line),
    ensures
        ({
            let at = stream.cell().index as int;
            let received = (stream.end() == Side::Upstream) == reading;
            &&& n == 0 ==> after == before && line is None
            &&& only_cell_changed(before, after, stream.cell())
            &&& n > 0 && received ==> grew(before.cells()[at], after.cells()[at], n as int, 0, 0)
            &&& n > 0 && !received ==> grew(before.cells()[at], after.cells()[at], 0, n as int, 0)
            &&& after.cells()[at].ip == before.cells()[at].ip
            &&& n > 0 ==> (line is Some <==> stream.logger() is Some)
            &&& n > 0 ==> (stream.logger() matches Some(log) ==> log.logs(
                line->0@,
                (if received {
                    "RX    <- "@
                } else {
                    "TX    -> "@
                }) + text::decimal(n as nat) + " bytes "@ + log.target(),
            ))
        }),
{
}

/// A logged line is a time of day in brackets, the number of the connection, and what happened.
pub proof fn lines_show_time_connection_and_event(log: ConnLog, line: Seq<char>, body: Seq<char>)
    requires
        log.logs(line, body),
    ensures
        line.len() > 13,
        line[0] == '[',
        line[3] == ':' && line[6] == ':' && line[9] == '.',
        forall|i: int|
            1 <= i < 13 && i != 3 && i != 6 && i != 9 ==> 48 <= (#[trigger] line[i]) as int <= 57,
        line.skip(13) == "] [CONN #"@ + text::decimal(log.id() as nat) + "] "@ + body,
{
    reveal_strlit("[");
    reveal_strlit("] [CONN #");
    let stamp = choose|stamp: Seq<char>|
        io::is_stamp(stamp) && line == #[trigger] log.line(stamp, body);
    let tail = "] [CONN #"@ + text::decimal(log.id() as nat) + "] "@ + body;
    assert(line =~= seq!['['] + stamp + tail);
    assert(line[3] == stamp[2] && line[6] == stamp[5] && line[9] == stamp[8]);
    assert forall|i: int| 1 <= i < 13 && i != 3 && i != 6 && i != 9 implies 48 <= (
    #[trigger] line[i]) as int <= 57 by {
        assert(line[i] == stamp[i - 1]);
        assert('0' <= stamp[i - 1] <= '9');
    }
    assert(line.skip(13) =~= tail);
}

/// A session is with the host and port that were asked for, and counts in the cell of that host;
/// in verbose mode, and only then, it has a log under the next number.
pub proof fn sessions_are_with_whom_was_asked(
    session: Session,
    before: Registry,
    after: Registry,
    verbose: bool,
    host: Seq<char>,
    port: u16,
)
    requires
        session.begun(before, after, verbose, host, port),
    ensures
        session.host@ == host,
        session.port == port,
        after.knows(host),
        after.id_of(host) == session.cell,
        after.in_flight() == before.in_flight(),
        !verbose ==> session.log is None && after.conn_id() == before.conn_id(),
        verbose ==> after.conn_id() == before.conn_id() + 1 && (session.log matches Some(log)
            && log.id() == before.conn_id() + 1 && log.target() == host + seq![':']
            + text::decimal(port as nat)),
{
    reveal_strlit(":");
    assert(":"@ =~= seq![':']);
}

/// An open connection counts as one, and as no bytes, and its address is kept where there was
/// none; it is logged in verbose mode where its address is known. A connection that could not be
/// opened changes nothing and is not logged.
pub proof fn only_open_connections_count(
    session: Session,
    before: Registry,
    after: Registry,
    attempt: Attempt,
    line: Option<String>,
)
    requires
        before.issued(session.cell),
        session.attempted(before, after, attempt, line),
    ensures
        ({
            let s = before.cells()[session.cell.index as int];
            let t = after.cells()[session.cell.index as int];
            &&& only_cell_changed(before, after, session.cell)
            &&& attempt matches Attempt::Open(peer) ==> {
                &&& grew(s, t, 0, 0, 1)
                &&& t.ip == (if s.ip is Some {
                    s.ip
                } else {
                    peer
                })
                &&& line is Some <==> session.log is Some && peer is Some
                &&& line is Some ==> session.log->0.logs(
                    line->0@,
                    "OPEN  -> "@ + (session.host@ + ":"@ + text::decimal(session.port as nat))
                        + " ("@ + address::ip_text(peer->0) + ")"@,
                )
            }
            &&& !(attempt is Open) ==> after == before && line is None
        }),
{
}

/// A client hears 0 of an open connection, 5 of a refused one, and 1 of any other failure.
pub proof fn attempts_have_their_codes(attempt: Attempt)
    ensures
        session::attempt_code(attempt) == (match attempt {
            Attempt::Open(_) => 0u8,
            Attempt::Refused => 5u8,
            Attempt::Failed => 1u8,
        }),
{
}

/// The last line of a connection shows what its host received and sent.
pub proof fn last_lines_show_the_counters(s: EndpointStats)
    ensures
        session::close_body(s) == "CLOSE -> Total Rx: "@ + text::decimal(s.ingress as nat)
            + " bytes | Total Tx: "@ + text::decimal(s.egress as nat) + " bytes"@,
{
}

/// A tunnel to a host without a port goes to 443.
pub proof fn tunnels_go_to_https_by_default(
    session: Session,
    before: Registry,
    after: Registry,
    verbose: bool,
    to: Seq<char>,
)
    requires
        !to.contains(':'),
        to.len() > 0 ==> to[0] != '[',
        session.begun(
            before,
            after,
            verbose,
            proxy::authority_parts(to, proxy::TUNNEL_PORT).0,
            proxy::authority_parts(to, proxy::TUNNEL_PORT).1,
        ),
    ensures
        session.host@ == text::lowered(to),
        session.port == 443,
{
    proxy::cut_last_is_at_the_last(to, ':', 0);
}

/// Forwarded HTTP goes to the authority of the request, to 443 for `https` and to 80 for anything
/// else where no port is named, and nowhere without an authority.
pub proof fn forwarded_requests_go_to_their_authority(
    session: Option<Session>,
    before: Registry,
    after: Registry,
    verbose: bool,
    scheme: Option<&str>,
    authority: Option<&str>,
)
    requires
        session::upstream_begun(
            session,
            before,
            after,
            verbose,
            text::of_str(scheme),
            text::of_str(authority),
        ),
    ensures
        authority is None ==> session is None && after == before,
        authority matches Some(a) ==> {
            let default_port = if scheme is Some && scheme->0@ == "https"@ {
                443u16
            } else {
                80u16
            };
            &&& session matches Some(s)
            &&& s.host@ == proxy::authority_parts(a@, default_port).0
            &&& s.port == proxy::authority_parts(a@, default_port).1
            &&& after.knows(s.host@) && after.id_of(s.host@) == s.cell
        },
{
}

/// A relay that meets a host for the first time counts one connection for it, and no bytes; one
/// that met it before counts nothing. Either way the cell is that of the host.
pub proof fn relays_count_each_host_once(
    relay: Relay,
    met: Relay,
    before: Registry,
    after: Registry,
    host: Seq<char>,
    cell: EndpointId,
)
    requires
        before.wf(),
        met.meets(relay, before, after, host, cell),
    ensures
        met.cells().contains_key(host) && met.cells()[host] == cell,
        forall|other: Seq<char>|
            other != host ==> met.cells().contains_key(other) == relay.cells().contains_key(other)
                && met.cells()[other] == relay.cells()[other],
        relay.cells().contains_key(host) ==> after == before && cell == relay.cells()[host],
        !relay.cells().contains_key(host) ==> after.knows(host) && after.id_of(host) == cell,
        !relay.cells().contains_key(host) && before.knows(host) ==> {
            &&& only_cell_changed(before, after, cell)
            &&& grew(before.cells()[cell.index as int], after.cells()[cell.index as int], 0, 0, 1)
        },
        !relay.cells().contains_key(host) && !before.knows(host) ==> {
            let s = after.cells()[cell.index as int];
            &&& s.ingress == 0 && s.egress == 0 && s.connections == 1 && s.ip is None
            &&& after.cells().take(before.cells().len() as int) == before.cells()
        },
{
    if !relay.cells().contains_key(host) && !before.knows(host) {
        assert(after.cells().take(before.cells().len() as int) =~= before.cells());
    }
}

/// What is on its way out is the payload that the client sent, to the address of its destination,
/// in the cell of the host that the client named.
pub proof fn relays_send_what_they_were_given(
    relay: Relay,
    met: Relay,
    before: Registry,
    after: Registry,
    sending: Sending<'_>,
    d: socks::Relayed,
    to: address::SocketAddress,
)
    requires
        met.sends(relay, before, after, sending, d, to),
    ensures
        sending.datagram.host@ == d.host,
        sending.datagram.port == d.port,
        sending.datagram.payload@ == d.payload,
        sending.to == to,
        met.cells().contains_key(d.host) && met.cells()[d.host] == sending.cell,
{
}

/// Bytes that a relay sent or handed back count once each, in their direction, and the first
/// address of a host is kept.
pub proof fn relayed_bytes_are_counted(s: EndpointStats, n: u64, ip: IpAddress)
    ensures
        grew(s, udp::bytes_sent(s, n, ip), 0, n as int, 0),
        udp::bytes_sent(s, n, ip).ip == (if s.ip is Some {
            s.ip
        } else {
            Some(ip)
        }),
        grew(s, io::with_bytes(s, true, n), n as int, 0, 0),
        io::with_bytes(s, true, n).ip == s.ip,
{
}

/// A reply counts for the name that the client used for the address, or else for the address.
pub proof fn replies_go_to_the_name_that_was_used(relay: Relay, ip: IpAddress)
    ensures
        relay.hosts().contains_key(ip) ==> relay.host_of(ip) == relay.hosts()[ip],
        !relay.hosts().contains_key(ip) ==> relay.host_of(ip) == address::ip_text(ip),
{
}

/// What is logged of datagrams says how many bytes went where, or what went wrong.
pub proof fn datagrams_are_logged(
    relay: Relay,
    n: nat,
    host: Seq<char>,
    port: u16,
    to: address::SocketAddress,
    err: Seq<char>,
    line: Option<String>,
    body: Seq<char>,
)
    ensures
        udp::sent_body(n, host, port) == "UDP   -> "@ + text::decimal(n) + " bytes "@ + (host
            + ":"@ + text::decimal(port as nat)),
        udp::returned_body(n, host) == "UDP   <- "@ + text::decimal(n) + " bytes "@ + host,
        udp::unresolved_body(host, port, err) == "UDP   -- cannot resolve "@ + (host + ":"@
            + text::decimal(port as nat)) + ": "@ + err,
        udp::unsent_body(to, err) == "UDP   -- send to "@ + address::socket_text(to) + " failed: "@
            + err,
        udp::unreturned_body(err) == "UDP   -- reply to client failed: "@ + err,
        relay.notes(line, body) ==> (line is Some <==> relay.logger() is Some) && (
        relay.logger() matches Some(log) ==> log.logs(line->0@, body)),
{
}

/// What an error of a handshake says: what is wrong, and the byte that is.
pub proof fn errors_name_the_wrong_byte(err: Error)
    ensures
        match err {
            Error::Io(_) => socks::failure_text(err@) == "socks5 handshake io error: "@,
            Error::UnsupportedVersion(b) => socks::failure_text(err@)
                == "unsupported socks version "@ + text::hex_byte(b),
            Error::NoAcceptableMethod => socks::failure_text(err@)
                == "client offered no acceptable authentication method"@,
            Error::UnsupportedCommand(b) => socks::failure_text(err@)
                == "unsupported socks command "@ + text::hex_byte(b),
            Error::UnsupportedAddressType(b) => socks::failure_text(err@)
                == "unsupported address type "@ + text::hex_byte(b),
        },
{
}

/// What is logged of a datagram that is dropped says what is wrong, and the byte that is.
pub proof fn drops_name_the_wrong_byte(err: DatagramError)
    ensures
        udp::dropped_body(err) == "UDP   -- dropped datagram: "@ + (match err {
            DatagramError::Truncated => "truncated udp relay header"@,
            DatagramError::UnsupportedAddressType(b) => "unsupported address type "@
                + text::hex_byte(b),
            DatagramError::Fragmented(b) => "fragmented datagram (FRAG "@ + text::hex_byte(b)
                + ") is not supported"@,
        }),
{
}

/// A command line is its words, in order, with a blank between any two.
pub proof fn command_lines_are_their_words(a: Seq<String>, b: Seq<String>, word: String)
    requires
        a.len() > 0,
        b.len() > 0,
    ensures
        run::spaced(Seq::<String>::empty()).len() == 0,
        run::spaced(seq![word]) == word@,
        run::spaced(a + b) == run::spaced(a) + seq![' '] + run::spaced(b),
    decreases b.len(),
{
    reveal_strlit(" ");
    assert(" "@ =~= seq![' ']);
    if b.len() == 1 {
        assert((a + b).drop_last() =~= a);
    } else {
        let fewer = b.drop_last();
        command_lines_are_their_words(a, fewer, word);
        assert((a + b).drop_last() =~= a + fewer);
        assert(run::spaced(a) + seq![' '] + run::spaced(fewer) + seq![' '] + b.last()@
            =~= run::spaced(a) + seq![' '] + run::spaced(b));
    }
}

/// Hosts are chosen for a reverse lookup one by one, in their order: those whose name is an
/// address.
pub proof fn addresses_are_looked_up(a: Seq<Seq<char>>, b: Seq<Seq<char>>, name: Seq<char>)
    ensures
        run::address_hosts(a + b) == run::address_hosts(a) + run::address_hosts(b),
        literal::spelled_by(name) is Some ==> run::address_hosts(seq![name]) == seq![name],
        literal::spelled_by(name) is None ==> run::address_hosts(seq![name]).len() == 0,
        run::address_hosts(Seq::<Seq<char>>::empty()).len() == 0,
    decreases b.len(),
{
    reveal(Seq::filter);
    let none = Seq::<Seq<char>>::empty();
    assert(seq![name].drop_last() =~= none);
    assert(run::address_hosts(none) =~= none);
    assert(none.push(name) =~= seq![name]);
    if b.len() == 0 {
        assert(a + b =~= a);
        assert(run::address_hosts(a) + run::address_hosts(b) =~= run::address_hosts(a));
    } else {
        let fewer = b.drop_last();
        addresses_are_looked_up(a, fewer, name);
        assert((a + b).drop_last() =~= a + fewer);
        assert(run::address_hosts(a) + run::address_hosts(fewer).push(b.last()) =~= (
        run::address_hosts(a) + run::address_hosts(fewer)).push(b.last()));
    }
}

/// Renamings take effect one after the other, and a host without a name keeps its own.
pub proof fn renamings_take_effect_in_order(
    counts: Map<Seq<char>, EndpointStats>,
    a: Seq<Renaming>,
    b: Seq<Renaming>,
    by: Renaming,
)
    ensures
        run::counts_after(counts, Seq::<Renaming>::empty()) == counts,
        run::counts_after(counts, a + b) == run::counts_after(run::counts_after(counts, a), b),
        run::counts_after(counts, seq![by]) == run::renamed_counts(counts, by),
        by.name is None ==> run::renamed_counts(counts, by) == counts,
    decreases b.len(),
{
    assert(seq![by].drop_last() =~= Seq::<Renaming>::empty());
    if b.len() == 0 {
        assert(a + b =~= a);
    } else {
        let fewer = b.drop_last();
        renamings_take_effect_in_order(counts, a, fewer, by);
        assert((a + b).drop_last() =~= a + fewer);
    }
}

/// A name is in the form in which hosts are counted if it is not empty, does not end in a dot and
/// has no capital letter.
pub proof fn counted_names_are_plain(name: Seq<char>)
    ensures
        dns::is_plain(name) <==> name.len() > 0 && name.last() != '.' && forall|i: int|
            0 <= i < name.len() ==> !(65 <= (#[trigger] name[i]) as int <= 90),
{
    if name.len() > 0 && name.last() != '.' {
        let low = text::lowered(name);
        assert(socks::normalized(name) == low);
        if low == name {
            assert forall|i: int| 0 <= i < name.len() implies !(65 <= (#[trigger] name[i]) as int
                <= 90) by {
                assert(low[i] == name[i]);
            }
        } else if forall|i: int|
            0 <= i < name.len() ==> !(65 <= (#[trigger] name[i]) as int <= 90) {
            assert(low =~= name);
        }
    }
}

/// Sums go number by number, and pieces byte by byte.
pub proof fn sums_and_pieces_go_one_by_one(
    a: Seq<int>,
    b: Seq<int>,
    x: int,
    p: Seq<Seq<u8>>,
    q: Seq<Seq<u8>>,
    piece: Seq<u8>,
)
    ensures
        sums::sum(Seq::<int>::empty()) == 0,
        sums::sum(seq![x]) == x,
        sums::sum(a + b) == sums::sum(a) + sums::sum(b),
        transfers::joined(Seq::<Seq<u8>>::empty()).len() == 0,
        transfers::joined(seq![piece]) == piece,
        transfers::joined(p + q) == transfers::joined(p) + transfers::joined(q),
    decreases b.len() + q.len(),
{
    assert(seq![x].drop_last() =~= Seq::<int>::empty());
    assert(seq![piece].drop_last() =~= Seq::<Seq<u8>>::empty());
    assert(Seq::<u8>::empty() + piece =~= piece);
    if b.len() > 0 {
        sums_and_pieces_go_one_by_one(a, b.drop_last(), x, p, q, piece);
        assert((a + b).drop_last() =~= a + b.drop_last());
    } else {
        assert(a + b =~= a);
        if q.len() > 0 {
            sums_and_pieces_go_one_by_one(a, b, x, p, q.drop_last(), piece);
            assert((p + q).drop_last() =~= p + q.drop_last());
            assert(transfers::joined(p) + transfers::joined(q.drop_last()) + q.last()
                =~= transfers::joined(p) + transfers::joined(q));
        } else {
            assert(p + q =~= p);
            assert(transfers::joined(p) + transfers::joined(q) =~= transfers::joined(p));
        }
    }
}

/// A total is the sum of one counter over the cells of all hosts, and a total that is kept is the
/// same number as long as it fits 64 bits.
pub proof fn totals_go_over_all_hosts(reg: Registry, s: EndpointStats, before: int, after: int)
    ensures
        conservation::total(reg, conservation::ingress_counter()) == sums::sum(
            Seq::new(reg.names().len(), |i: int| reg.cells()[reg.ids()[i] as int].ingress as int),
        ),
        conservation::total(reg, conservation::egress_counter()) == sums::sum(
            Seq::new(reg.names().len(), |i: int| reg.cells()[reg.ids()[i] as int].egress as int),
        ),
        conservation::total(reg, conservation::connection_counter()) == sums::sum(
            Seq::new(
                reg.names().len(),
                |i: int| reg.cells()[reg.ids()[i] as int].connections as int,
            ),
        ),
        conservation::kept(before, after) && before <= 0xffff_ffff_ffff_ffff ==> after == before,
        conservation::kept(before, after) ==> (after - before) % 0x1_0000_0000_0000_0000 == 0,
{
    assert(conservation::counts(reg, conservation::ingress_counter()) =~= Seq::new(
        reg.names().len(),
        |i: int| reg.cells()[reg.ids()[i] as int].ingress as int,
    ));
    assert(conservation::counts(reg, conservation::egress_counter()) =~= Seq::new(
        reg.names().len(),
        |i: int| reg.cells()[reg.ids()[i] as int].egress as int,
    ));
    assert(conservation::counts(reg, conservation::connection_counter()) =~= Seq::new(
        reg.names().len(),
        |i: int| reg.cells()[reg.ids()[i] as int].connections as int,
    ));
}

/// The exit code of a child passes through where it fits a byte, and is a failure where it does
/// not; a child that died of a signal exits as a shell says it, and one that left neither fails.
pub proof fn exit_codes_are_those_of_a_shell(
    code: Option<i32>,
    signal: Option<i32>,
    whole: i32,
    byte: u8,
)
    requires
        call_ensures(run::exit_code, (code, signal), whole),
        call_ensures(run::exit_byte, (whole,), byte),
    ensures
        code matches Some(c) ==> (0 <= c <= 255 ==> byte == c) && (!(0 <= c <= 255) ==> byte == 1),
        code is None ==> (signal matches Some(n) ==> 0 < n < 128 ==> byte == 128 + n && byte > 128),
        code is None && signal is None ==> byte == 1,
{
}

/// A refusal is a reply of ten bytes: the version, the code of the failure, and an address and
/// port of nothing but zeros.
pub proof fn refusals_are_ten_bytes(err: &Error, answer: Vec<u8>)
    requires
        call_ensures(socks::refusal, (err,), answer),
    ensures
        answer@.len() == 10,
        answer@[0] == 5,
        answer@[1] == (match *err {
            Error::UnsupportedCommand(_) => 7u8,
            Error::UnsupportedAddressType(_) => 8u8,
            _ => 1u8,
        }),
        answer@[2] == 0,
        answer@[3] == 1,
        forall|i: int| 4 <= i < 10 ==> #[trigger] answer@[i] == 0,
{
}

/// A client that asked for a relay is told where to send its datagrams, as an address and port
/// that read back, or else that there is no relay.
pub proof fn associations_tell_their_address(
    bound: Option<address::SocketAddress>,
    answer: Vec<u8>,
)
    requires
        call_ensures(socks::association_reply, (bound,), answer),
    ensures
        answer@.len() >= 4 && answer@[0] == 5 && answer@[2] == 0,
        bound is None ==> answer@[1] == 1 && answer@[3] == 1 && answer@.len() == 10,
        bound matches Some(addr) ==> {
            let (kind, octets) = match addr.ip {
                IpAddress::V4(octets) => (1u8, octets@),
                IpAddress::V6(octets) => (4u8, octets@),
            };
            let n = octets.len() as int;
            &&& answer@[1] == 0 && answer@[3] == kind
            &&& answer@.len() == n + 6
            &&& answer@.subrange(4, 4 + n) == octets
            &&& answer@[4 + n] * 256 + answer@[5 + n] == addr.port
        },
{
    if let Some(addr) = bound {
        let octets = address::octets(addr.ip);
        assert(answer@.subrange(4, 4 + octets.len() as int) =~= octets);
    }
}

/// A `CONNECT`, in whatever case, becomes a tunnel to the second word of its first line, and what
/// came behind the empty line is the first of its payload; another method is served as HTTP.
pub proof fn connects_become_tunnels(
    head: &[u8],
    to: proxy::Route,
    at: int,
    end: int,
    method: Seq<char>,
    target: Seq<char>,
    rest: Seq<char>,
)
    requires
        call_ensures(proxy::route, (head,), to),
        heads::line_ends_at(head@, at),
        vstd::utf8::valid_utf8(head@.take(at)),
        vstd::utf8::decode_utf8(head@.take(at)) == method + seq![' '] + target + rest,
        method.len() > 0 && !method.contains(' '),
        target.len() > 0 && !target.contains(' '),
        rest.len() > 0 ==> rest[0] == ' ',
        heads::ends_at(head@, end),
        forall|i: int| i < end ==> !#[trigger] heads::ends_at(head@, i),
    ensures
        proxy::is_connect(method) ==> (to matches proxy::Route::Tunnel(host, leftover) && host@
            == target && leftover@ == head@.skip(end)),
        !proxy::is_connect(method) ==> to is Http,
{
    heads::request_lines_say(head@, at, method, target, rest);
    heads::heads_end_at_the_first_empty_line(head@, end);
    let found = proxy::head_end(head@)->0 as int;
    assert(heads::ends_at(head@, found));
}

} // verus!
