//! The ephemeral loopback proxy.
//!
//! Three protocols share one port, told apart by the first byte of a connection and, behind
//! that, by the first request line:
//!
//! * SOCKS5, whose greeting starts with a byte that no HTTP request starts with;
//! * `CONNECT host:port` — answered with `200 Connection Established`, then the two sockets
//!   are spliced together. TLS is never terminated, so there are no certificates to install and
//!   no per-byte crypto cost; the counters see exactly the ciphertext that crosses the wire;
//! * anything else (absolute-form HTTP, i.e. `GET http://host/path`) — forwarded with a pooled
//!   client whose connector wraps each upstream socket in a counter. Counting on the *upstream*
//!   socket rather than the client socket is deliberate: it measures what actually left the
//!   machine, not what the child handed to the proxy.
//!
//! This module decides; sockets are read and written elsewhere, as it says.

use vstd::prelude::*;

use crate::address;
use crate::address::SocketAddress;
use crate::socks::GREETING_BYTE;
use crate::text;
use crate::text::{chars_of, find_char, lower_char, lower_chars, text_of};

verus! {

/// Largest request head the proxy will buffer before giving up on a connection.
pub const MAX_HEAD_BYTES: usize = 65536;

/// The port of a `CONNECT` target that names none.
pub const TUNNEL_PORT: u16 = 443;

/// The protocols that share the port.
#[derive(Debug, Clone, Copy, PartialEq, Eq, Structural)]
pub enum Protocol {
    /// SOCKS5.
    Socks,
    /// HTTP, with `CONNECT` or without.
    Http,
}

/// Which protocol a connection speaks whose first byte is `first`.
pub fn protocol(first: u8) -> (r: Protocol)
    ensures
        r == Protocol::Socks <==> first == GREETING_BYTE,
        r == Protocol::Socks <==> first == 5,
{
    if first == GREETING_BYTE {
        Protocol::Socks
    } else {
        Protocol::Http
    }
}

/// The first position from `i` on at which `pattern` occurs in `buf`.
pub open spec fn find_from(buf: Seq<u8>, pattern: Seq<u8>, i: nat) -> Option<nat>
    decreases buf.len() - i,
{
    if i + pattern.len() > buf.len() || pattern.len() == 0 {
        None
    } else if buf.subrange(i as int, i + pattern.len() as int) == pattern {
        Some(i)
    } else {
        find_from(buf, pattern, i + 1)
    }
}

/// The end of a line.
pub open spec fn line_end() -> Seq<u8> {
    seq![13u8, 10u8]
}

/// The end of a request head: the end of a line, and an empty line.
pub open spec fn blank_line() -> Seq<u8> {
    seq![13u8, 10u8, 13u8, 10u8]
}

/// Where the request head in `buf` ends, if it does.
pub open spec fn head_end(buf: Seq<u8>) -> Option<nat> {
    match find_from(buf, blank_line(), 0) {
        Some(i) => Some(i + 4),
        None => None,
    }
}

/// What is found is an occurrence, and the first one.
pub proof fn found_is_first(buf: Seq<u8>, pattern: Seq<u8>, i: nat, j: int)
    requires
        pattern.len() > 0,
    ensures
        find_from(buf, pattern, i) matches Some(at) ==> {
            &&& i <= at && at + pattern.len() <= buf.len()
            &&& buf.subrange(at as int, at + pattern.len() as int) == pattern
            &&& i <= j < at ==> buf.subrange(j, j + pattern.len()) != pattern
        },
        find_from(buf, pattern, i) is None && i <= j && j + pattern.len() <= buf.len()
            ==> buf.subrange(j, j + pattern.len()) != pattern,
    decreases buf.len() - i,
{
    if i + pattern.len() <= buf.len() && buf.subrange(i as int, i + pattern.len() as int)
        != pattern {
        found_is_first(buf, pattern, i + 1, j);
    }
}

fn find_line_end(buf: &[u8]) -> (r: Option<usize>)
    ensures
        r is Some <==> find_from(buf@, line_end(), 0) is Some,
        r matches Some(i) ==> find_from(buf@, line_end(), 0) == Some(i as nat) && i + 2
            <= buf@.len(),
{
    let mut i: usize = 0;
    while i < buf.len() && buf.len() - i >= 2
        invariant
            i <= buf@.len(),
            find_from(buf@, line_end(), 0) == find_from(buf@, line_end(), i as nat),
        decreases buf@.len() - i,
    {
        let ghost window = buf@.subrange(i as int, i + 2);
        if buf[i] == 13 && buf[i + 1] == 10 {
            assert(window =~= line_end());
            return Some(i);
        }
        assert(window[0] == buf@[i as int] && window[1] == buf@[i + 1]);
        i += 1;
    }
    None
}

/// Where the request head in `buf` ends, past its blank line.
pub fn find_head_end(buf: &[u8]) -> (r: Option<usize>)
    ensures
        r is Some <==> head_end(buf@) is Some,
        r matches Some(end) ==> head_end(buf@) == Some(end as nat) && end <= buf@.len(),
{
    let mut i: usize = 0;
    while i < buf.len() && buf.len() - i >= 4
        invariant
            i <= buf@.len(),
            find_from(buf@, blank_line(), 0) == find_from(buf@, blank_line(), i as nat),
        decreases buf@.len() - i,
    {
        let ghost window = buf@.subrange(i as int, i + 4);
        if buf[i] == 13 && buf[i + 1] == 10 && buf[i + 2] == 13 && buf[i + 3] == 10 {
            assert(window =~= blank_line());
            return Some(i + 4);
        }
        assert(window[0] == buf@[i as int] && window[1] == buf@[i + 1]);
        assert(window[2] == buf@[i + 2] && window[3] == buf@[i + 3]);
        i += 1;
    }
    None
}

/// Bytes read past the end of the head, which belong to the tunnel payload.
pub fn head_body(head: &[u8]) -> (r: Vec<u8>)
    ensures
        r@ == (match head_end(head@) {
            Some(end) => head@.skip(end as int),
            None => Seq::empty(),
        }),
{
    let mut out: Vec<u8> = Vec::new();
    if let Some(end) = find_head_end(head) {
        out.extend_from_slice(&head[end..head.len()]);
        assert(out@ =~= head@.skip(end as int));
    }
    out
}

/// Bytes that are not UTF-8.
#[verifier::external_type_specification]
#[verifier::external_body]
pub struct ExUtf8Error(std::str::Utf8Error);

/// [`std::str::from_utf8`] accepts exactly the bytes that are valid UTF-8, and gives the text
/// that they encode.
pub assume_specification[ std::str::from_utf8 ](v: &[u8]) -> (r: Result<&str, std::str::Utf8Error>)
    ensures
        r is Ok <==> vstd::utf8::valid_utf8(v@),
        r matches Ok(s) ==> s@ == vstd::utf8::decode_utf8(v@),
;

/// The method and the target of a request line: its first two words, neither of them empty.
pub open spec fn method_and_target(line: Seq<char>) -> Option<(Seq<char>, Seq<char>)> {
    match text::cut(line, ' ') {
        None => None,
        Some((method, rest)) => {
            let target = match text::cut(rest, ' ') {
                Some((word, _)) => word,
                None => rest,
            };
            if method.len() > 0 && target.len() > 0 {
                Some((method, target))
            } else {
                None
            }
        },
    }
}

/// The method and the target of the request whose head is `head`.
pub open spec fn requested(head: Seq<u8>) -> Option<(Seq<char>, Seq<char>)> {
    match find_from(head, line_end(), 0) {
        None => None,
        Some(end) => {
            let line = head.take(end as int);
            if vstd::utf8::valid_utf8(line) {
                method_and_target(vstd::utf8::decode_utf8(line))
            } else {
                None
            }
        },
    }
}

/// A method and a target as text.
pub open spec fn words(r: Option<(&str, &str)>) -> Option<(Seq<char>, Seq<char>)> {
    match r {
        Some((method, target)) => Some((method@, target@)),
        None => None,
    }
}

/// Splits `METHOD target` out of a request head.
pub fn request_line(head: &[u8]) -> (r: Option<(&str, &str)>)
    ensures
        words(r) == requested(head@),
{
    let end: usize = match find_line_end(head) {
        Some(end) => end,
        None => {
            return None;
        },
    };
    assert(head@.subrange(0, end as int) =~= head@.take(end as int));
    let line: &str = match std::str::from_utf8(&head[0..end]) {
        Ok(line) => line,
        Err(_) => {
            return None;
        },
    };
    let chars = chars_of(line);
    let first: usize = find_char(chars.as_slice(), ' ', 0);
    proof {
        text::cut_is_at_the_first(line@, ' ', first as int);
    }
    if first == chars.len() {
        return None;
    }
    let second: usize = find_char(chars.as_slice(), ' ', first + 1);
    let method: &str = line.substring_char(0, first);
    let target: &str = line.substring_char(first + 1, second);
    proof {
        let rest = line@.skip(first + 1);
        let n = second - (first + 1);
        assert forall|i: int| 0 <= i < n implies rest[i] != ' ' by {
            assert(rest[i] == line@[first + 1 + i]);
        }
        text::cut_is_at_the_first(rest, ' ', n);
        assert(method@ =~= line@.take(first as int));
        assert(target@ =~= rest.take(n));
        if second < chars@.len() {
            assert(rest[n] == line@[second as int]);
        } else {
            assert(target@ =~= rest);
        }
    }
    if first == 0 || second == first + 1 {
        None
    } else {
        Some((method, target))
    }
}

/// `s` cut at the last `c`: what stands before it and what stands behind it.
pub open spec fn cut_last(s: Seq<char>, c: char) -> Option<(Seq<char>, Seq<char>)>
    decreases s.len(),
{
    if s.len() == 0 {
        None
    } else if s.last() == c {
        Some((s.drop_last(), Seq::empty()))
    } else {
        match cut_last(s.drop_last(), c) {
            Some((before, after)) => Some((before, after.push(s.last()))),
            None => None,
        }
    }
}

/// Whether every character is a decimal digit.
pub open spec fn all_digits(s: Seq<char>) -> bool {
    forall|i: int| 0 <= i < s.len() ==> '0' <= #[trigger] s[i] <= '9'
}

/// The value of a decimal numeral.
pub open spec fn value(s: Seq<char>) -> nat
    decreases s.len(),
{
    if s.len() == 0 {
        0
    } else {
        (value(s.drop_last()) * 10 + (s.last() as int - '0' as int)) as nat
    }
}

/// The port that a text spells: decimal digits, at least one, that come to a 16-bit number; a
/// plus sign may stand before them.
pub open spec fn port_value(s: Seq<char>) -> Option<u16> {
    let digits = if s.len() > 0 && s[0] == '+' {
        s.skip(1)
    } else {
        s
    };
    if digits.len() > 0 && all_digits(digits) && value(digits) <= 65535 {
        Some(value(digits) as u16)
    } else {
        None
    }
}

/// The host and port of an authority. A host in brackets ends at the bracket; elsewhere the port
/// stands behind the last colon. A port that is missing or spells none is the default, and then
/// a colon outside brackets is part of the host.
pub open spec fn authority_parts(authority: Seq<char>, default_port: u16) -> (Seq<char>, u16) {
    if authority.len() > 0 && authority[0] == '[' {
        let rest = authority.skip(1);
        let (host, tail) = match text::cut(rest, ']') {
            Some((host, tail)) => (host, tail),
            None => (rest, Seq::empty()),
        };
        let port = if tail.len() > 0 && tail[0] == ':' {
            port_value(tail.skip(1))
        } else {
            None
        };
        (
            text::lowered(host),
            match port {
                Some(p) => p,
                None => default_port,
            },
        )
    } else {
        match cut_last(authority, ':') {
            Some((host, port)) => match port_value(port) {
                Some(p) => (text::lowered(host), p),
                None => (text::lowered(authority), default_port),
            },
            None => (text::lowered(authority), default_port),
        }
    }
}

/// A longer numeral has no smaller a value.
proof fn value_grows(s: Seq<char>, n: int)
    requires
        all_digits(s),
        0 <= n <= s.len(),
    ensures
        value(s.take(n)) <= value(s),
    decreases s.len(),
{
    if n == s.len() {
        assert(s.take(n) =~= s);
    } else {
        let shorter = s.drop_last();
        assert(all_digits(shorter));
        value_grows(shorter, n);
        assert(shorter.take(n) =~= s.take(n));
        assert('0' <= s[s.len() - 1] <= '9');
        assert(value(s) == value(shorter) * 10 + (s.last() as int - '0' as int));
    }
}

pub(crate) fn parse_digits(digits: &[char]) -> (r: Option<u16>)
    ensures
        r == (if digits@.len() > 0 && all_digits(digits@) && value(digits@) <= 65535 {
            Some(value(digits@) as u16)
        } else {
            None
        }),
{
    if digits.len() == 0 {
        return None;
    }
    let mut n: u32 = 0;
    let mut i: usize = 0;
    while i < digits.len()
        invariant
            i <= digits@.len(),
            n <= 65535,
            all_digits(digits@.take(i as int)),
            n == value(digits@.take(i as int)),
        decreases digits@.len() - i,
    {
        let c: char = digits[i];
        if c < '0' || c > '9' {
            assert(!('0' <= digits@[i as int] <= '9'));
            return None;
        }
        let next: u32 = n * 10 + (c as u32 - '0' as u32);
        proof {
            let longer = digits@.take(i + 1);
            assert(longer.drop_last() =~= digits@.take(i as int));
            assert forall|j: int| 0 <= j < longer.len() implies '0' <= #[trigger] longer[j] <= '9' by {
                if j < i {
                    assert(longer[j] == digits@.take(i as int)[j]);
                }
            }
            assert(next == value(longer));
            if next > 65535 && all_digits(digits@) {
                value_grows(digits@, i + 1);
            }
        }
        if next > 65535 {
            return None;
        }
        n = next;
        i += 1;
    }
    assert(digits@.take(i as int) =~= digits@);
    Some(n as u16)
}

fn parse_port(s: &[char]) -> (r: Option<u16>)
    ensures
        r == port_value(s@),
{
    if s.len() > 0 && s[0] == '+' {
        assert(s@.subrange(1, s@.len() as int) =~= s@.skip(1));
        parse_digits(&s[1..s.len()])
    } else {
        parse_digits(s)
    }
}

/// Cutting at the last occurrence of a character finds it.
pub proof fn cut_last_is_at_the_last(s: Seq<char>, c: char, n: int)
    requires
        0 <= n <= s.len(),
        forall|i: int| n <= i < s.len() ==> s[i] != c,
    ensures
        n > 0 && s[n - 1] == c ==> cut_last(s, c) == Some((s.take(n - 1), s.skip(n))),
        n == 0 ==> cut_last(s, c) is None,
    decreases s.len(),
{
    if n == s.len() {
        if n > 0 && s[n - 1] == c {
            assert(s.take(n - 1) =~= s.drop_last());
            assert(s.skip(n) =~= Seq::<char>::empty());
        }
    } else {
        let shorter = s.drop_last();
        cut_last_is_at_the_last(shorter, c, n);
        if n > 0 && s[n - 1] == c {
            assert(shorter.take(n - 1) =~= s.take(n - 1));
            assert(shorter.skip(n).push(s.last()) =~= s.skip(n));
        }
    }
}

fn behind_last(chars: &[char], c: char) -> (n: usize)
    ensures
        n <= chars@.len(),
        forall|i: int| n <= i < chars@.len() ==> chars@[i] != c,
        n > 0 ==> chars@[n - 1] == c,
{
    let mut n: usize = chars.len();
    while n > 0 && chars[n - 1] != c
        invariant
            n <= chars@.len(),
            forall|i: int| n <= i < chars@.len() ==> chars@[i] != c,
        decreases n,
    {
        n -= 1;
    }
    n
}

fn lowered_text(chars: &[char]) -> (r: String)
    ensures
        r@ == text::lowered(chars@),
{
    text_of(lower_chars(chars).as_slice())
}

/// Splits an authority into a `(host, port)` pair, defaulting the port and unwrapping the
/// brackets of an IPv6 literal.
pub fn split_authority(authority: &str, default_port: u16) -> (r: (String, u16))
    ensures
        (r.0@, r.1) == authority_parts(authority@, default_port),
{
    let all = chars_of(authority);
    if all.len() > 0 && all[0] == '[' {
        let rest: &[char] = &all.as_slice()[1..all.len()];
        assert(rest@ =~= authority@.skip(1));
        let end: usize = find_char(rest, ']', 0);
        proof {
            text::cut_is_at_the_first(rest@, ']', end as int);
        }
        assert(rest@.subrange(0, end as int) =~= rest@.take(end as int));
        let host: String = lowered_text(&rest[0..end]);
        if end == rest.len() {
            assert(rest@.take(end as int) =~= rest@);
            return (host, default_port);
        }
        let tail: &[char] = &rest[end + 1..rest.len()];
        assert(tail@ =~= rest@.skip(end + 1));
        if tail.len() == 0 || tail[0] != ':' {
            return (host, default_port);
        }
        assert(tail@.subrange(1, tail@.len() as int) =~= tail@.skip(1));
        match parse_port(&tail[1..tail.len()]) {
            Some(port) => (host, port),
            None => (host, default_port),
        }
    } else {
        let n: usize = behind_last(all.as_slice(), ':');
        proof {
            cut_last_is_at_the_last(authority@, ':', n as int);
        }
        if n == 0 {
            return (lowered_text(all.as_slice()), default_port);
        }
        let port: &[char] = &all.as_slice()[n..all.len()];
        assert(port@ =~= authority@.skip(n as int));
        match parse_port(port) {
            Some(port) => {
                assert(all@.subrange(0, n - 1) =~= authority@.take(n - 1));
                (lowered_text(&all.as_slice()[0..n - 1]), port)
            },
            None => (lowered_text(all.as_slice()), default_port),
        }
    }
}

/// Why a request head could not be read.
#[derive(Debug, Clone, Copy, PartialEq, Eq, Structural)]
pub enum HeadError {
    /// The client hung up before it sent anything.
    UnexpectedEof,
    /// The head did not end within [`MAX_HEAD_BYTES`].
    TooLarge,
}

impl HeadError {
    /// What this error says to a human.
    pub fn message(&self) -> (r: &'static str)
        ensures
            r@ == (match self {
                HeadError::UnexpectedEof => "unexpected end of file"@,
                HeadError::TooLarge => "request head too large"@,
            }),
    {
        match self {
            HeadError::UnexpectedEof => "unexpected end of file",
            HeadError::TooLarge => "request head too large",
        }
    }
}

/// How far the reading of a head has come.
pub enum Reading {
    /// The head does not end in these bytes yet.
    More(Seq<u8>),
    /// The head, and what came with it.
    Head(Seq<u8>),
    /// No head.
    Failed(HeadError),
}

/// What the next read makes of a head that is not complete. A read of nothing is the end of the
/// client's bytes, and what was read is taken for the head.
pub open spec fn read_on(buf: Seq<u8>, chunk: Seq<u8>) -> Reading {
    if chunk.len() == 0 {
        if buf.len() == 0 {
            Reading::Failed(HeadError::UnexpectedEof)
        } else {
            Reading::Head(buf)
        }
    } else if head_end(buf + chunk) is Some {
        Reading::Head(buf + chunk)
    } else if (buf + chunk).len() > MAX_HEAD_BYTES {
        Reading::Failed(HeadError::TooLarge)
    } else {
        Reading::More(buf + chunk)
    }
}

/// Reads until the end of the request head (`\r\n\r\n`), keeping everything read.
#[derive(Debug)]
pub struct HeadReader {
    buf: Vec<u8>,
}

/// What a read leaves a [`HeadReader`] with.
#[derive(Debug)]
pub enum HeadStep {
    /// Read on.
    More(HeadReader),
    /// The head, and what came with it.
    Head(Vec<u8>),
    /// Give the connection up.
    Failed(HeadError),
}

impl HeadStep {
    /// What the step says.
    pub open spec fn view(&self) -> Reading {
        match self {
            HeadStep::More(reader) => Reading::More(reader.bytes()),
            HeadStep::Head(head) => Reading::Head(head@),
            HeadStep::Failed(err) => Reading::Failed(*err),
        }
    }
}

impl HeadReader {
    /// What was read so far.
    pub closed spec fn bytes(&self) -> Seq<u8> {
        self.buf@
    }

    /// A reader that has read nothing.
    pub fn new() -> (r: Self)
        ensures
            r.bytes() == Seq::<u8>::empty(),
    {
        HeadReader { buf: Vec::with_capacity(1024) }
    }

    /// Takes what a read gave; nothing, at the end of the client's bytes.
    pub fn take(self, chunk: &[u8]) -> (r: HeadStep)
        ensures
            r@ == read_on(self.bytes(), chunk@),
    {
        let mut buf = self.buf;
        let ghost before = buf@;
        if chunk.len() == 0 {
            return if buf.len() == 0 {
                HeadStep::Failed(HeadError::UnexpectedEof)
            } else {
                HeadStep::Head(buf)
            };
        }
        buf.extend_from_slice(chunk);
        assert(buf@ =~= before + chunk@);
        if find_head_end(buf.as_slice()).is_some() {
            return HeadStep::Head(buf);
        }
        if buf.len() > MAX_HEAD_BYTES {
            return HeadStep::Failed(HeadError::TooLarge);
        }
        HeadStep::More(HeadReader { buf })
    }
}

/// Where a connection goes, by its request head.
#[derive(Debug)]
pub enum Route {
    /// Into a tunnel to a target; the bytes behind the head are the first of its payload.
    Tunnel(String, Vec<u8>),
    /// To be served as HTTP.
    Http,
    /// Nowhere: the head is malformed.
    Malformed,
}

/// Whether a method is `CONNECT`, in whatever case.
pub open spec fn is_connect(method: Seq<char>) -> bool {
    text::lowered(method) == seq!['c', 'o', 'n', 'n', 'e', 'c', 't']
}

fn says_connect(method: &str) -> (r: bool)
    ensures
        r == is_connect(method@),
{
    let chars = chars_of(method);
    let ghost lower = text::lowered(method@);
    let ghost wanted = seq!['c', 'o', 'n', 'n', 'e', 'c', 't'];
    assert(lower.len() == chars@.len() && wanted.len() == 7);
    if chars.len() != 7 {
        return false;
    }
    let r: bool = lower_char(chars[0]) == 'c' && lower_char(chars[1]) == 'o' && lower_char(chars[2])
        == 'n' && lower_char(chars[3]) == 'n' && lower_char(chars[4]) == 'e' && lower_char(chars[5])
        == 'c' && lower_char(chars[6]) == 't';
    proof {
        if r {
            assert(lower =~= wanted);
        } else if lower == wanted {
            assert(lower[0] == wanted[0] && lower[1] == wanted[1] && lower[2] == wanted[2]);
            assert(lower[3] == wanted[3] && lower[4] == wanted[4] && lower[5] == wanted[5]);
            assert(lower[6] == wanted[6]);
        }
    }
    r
}

/// Looks at the first request line to tell tunnels from HTTP.
pub fn route(head: &[u8]) -> (r: Route)
    ensures
        match requested(head@) {
            None => r is Malformed,
            Some((method, target)) => if is_connect(method) {
                r matches Route::Tunnel(to, leftover) && to@ == target && leftover@ == (
                match head_end(head@) {
                    Some(end) => head@.skip(end as int),
                    None => Seq::empty(),
                })
            } else {
                r is Http
            },
        },
{
    match request_line(head) {
        None => Route::Malformed,
        Some((method, target)) => if says_connect(method) {
            Route::Tunnel(target.to_owned(), head_body(head))
        } else {
            Route::Http
        },
    }
}

/// Headers between a client and its proxy, which must not be forwarded upstream.
pub fn hop_by_hop() -> (r: [&'static str; 3])
    ensures
        r@[0]@ == "proxy-connection"@,
        r@[1]@ == "proxy-authorization"@,
        r@[2]@ == "keep-alive"@,
{
    ["proxy-connection", "proxy-authorization", "keep-alive"]
}

/// A byte that a header may show: printable ASCII, or a tab.
pub open spec fn visible(b: u8) -> bool {
    32 <= b < 127 || b == 9
}

/// Bytes as the characters of the same codes.
pub open spec fn as_text(bytes: Seq<u8>) -> Seq<char> {
    Seq::new(bytes.len(), |i: int| bytes[i] as char)
}

/// The text of a header, if all of it is visible.
pub open spec fn header_text(bytes: Seq<u8>) -> Option<Seq<char>> {
    if forall|i: int| 0 <= i < bytes.len() ==> visible(#[trigger] bytes[i]) {
        Some(as_text(bytes))
    } else {
        None
    }
}

fn visible_text(bytes: &[u8]) -> (r: Option<String>)
    ensures
        match r {
            Some(s) => header_text(bytes@) == Some(s@),
            None => header_text(bytes@) is None,
        },
{
    let mut out = String::new();
    let mut i: usize = 0;
    while i < bytes.len()
        invariant
            i <= bytes@.len(),
            forall|j: int| 0 <= j < i ==> visible(#[trigger] bytes@[j]),
            out@ == as_text(bytes@.take(i as int)),
        decreases bytes@.len() - i,
    {
        let b: u8 = bytes[i];
        if !((b >= 32 && b < 127) || b == 9) {
            assert(!visible(bytes@[i as int]));
            return None;
        }
        out.push(b as char);
        assert(out@ =~= as_text(bytes@.take(i + 1)));
        i += 1;
    }
    assert(bytes@.take(i as int) =~= bytes@);
    Some(out)
}

/// The parts of a URI that decide where a request goes.
#[derive(Debug)]
pub struct UriParts {
    /// The scheme, as in `http`.
    pub scheme: Option<String>,
    /// The authority: a host, with a port or without.
    pub authority: Option<String>,
    /// The path and the query.
    pub path: Option<String>,
}

/// What `str::parse::<hyper::Uri>` makes of a text: a scheme, an authority and a path with its
/// query, each of which may be missing, or an error, by its text.
pub uninterp spec fn parsed_uri(uri: Seq<char>) -> Result<
    (Option<Seq<char>>, Option<Seq<char>>, Option<Seq<char>>),
    Seq<char>,
>;

/// Parts, or an error, as text.
pub open spec fn parts_text(r: Result<UriParts, String>) -> Result<
    (Option<Seq<char>>, Option<Seq<char>>, Option<Seq<char>>),
    Seq<char>,
> {
    match r {
        Ok(parts) => Ok(
            (text::of_string(parts.scheme), text::of_string(parts.authority), text::of_string(parts.path)),
        ),
        Err(err) => Err(err@),
    }
}

/// Calls `str::parse::<hyper::Uri>`, and takes the scheme, the authority and the path with its
/// query out of the URI, or the text out of the error. All of this depends on the text that is
/// parsed alone. Which texts are URIs, and where their parts begin and end, is left to the crate.
#[verifier::external_body]
pub(crate) fn parse_uri(uri: &str) -> (r: Result<UriParts, String>)
    ensures
        parts_text(r) == parsed_uri(uri@),
{
    match uri.parse::<hyper::Uri>() {
        Ok(uri) => Ok(UriParts {
            scheme: uri.scheme_str().map(|scheme| scheme.to_owned()),
            authority: uri.authority().map(|authority| authority.as_str().to_owned()),
            path: uri.path_and_query().map(|path| path.as_str().to_owned()),
        }),
        Err(err) => Err(err.to_string()),
    }
}

/// The parts of a URI; a text that is none has none.
pub open spec fn parts_of(
    parsed: Result<(Option<Seq<char>>, Option<Seq<char>>, Option<Seq<char>>), Seq<char>>,
) -> (Option<Seq<char>>, Option<Seq<char>>, Option<Seq<char>>) {
    match parsed {
        Ok(parts) => parts,
        Err(_) => (None, None, None),
    }
}

/// The parts of a URI; a text that is none has none.
pub(crate) fn uri_parts(uri: &str) -> (r: UriParts)
    ensures
        parts_text(Ok(r)) == Ok::<
            (Option<Seq<char>>, Option<Seq<char>>, Option<Seq<char>>),
            Seq<char>,
        >(parts_of(parsed_uri(uri@))),
{
    match parse_uri(uri) {
        Ok(parts) => parts,
        Err(_) => UriParts { scheme: None, authority: None, path: None },
    }
}

/// What is wrong with a URI, if anything.
pub open spec fn uri_error(uri: Seq<char>) -> Option<Seq<char>> {
    match parsed_uri(uri) {
        Ok(_) => None,
        Err(err) => Some(err),
    }
}

/// The absolute form of a request for `path` at `host`.
pub open spec fn absolute_form(host: Seq<char>, path: Option<Seq<char>>) -> Seq<char> {
    "http://"@ + host + (match path {
        Some(p) => p,
        None => "/"@,
    })
}

/// What becomes of an absolute form, by what is wrong with it.
pub open spec fn checked_form(uri: Seq<char>, wrong: Option<Seq<char>>) -> Result<
    Seq<char>,
    Seq<char>,
> {
    match wrong {
        Some(err) => Err("cannot build absolute URI: "@ + err),
        None => Ok(uri),
    }
}

/// A result over texts as a result over their characters.
pub open spec fn texts(r: Result<String, String>) -> Result<Seq<char>, Seq<char>> {
    match r {
        Ok(s) => Ok(s@),
        Err(s) => Err(s@),
    }
}

/// Passes an absolute form on, or says what is wrong with it.
pub fn check_form(uri: String, wrong: Option<String>) -> (r: Result<String, String>)
    ensures
        texts(r) == checked_form(
            uri@,
            match wrong {
                Some(err) => Some(err@),
                None => None,
            },
        ),
{
    match wrong {
        Some(err) => {
            let mut message: String = "cannot build absolute URI: ".to_owned();
            message.append(err.as_str());
            Err(message)
        },
        None => Ok(uri),
    }
}

/// The text of an optional header.
pub open spec fn optional_header(bytes: Option<&[u8]>) -> Option<Seq<char>> {
    match bytes {
        Some(bytes) => header_text(bytes@),
        None => None,
    }
}

/// The absolute form that a request gets, by its `Host` header and its path, or what is wrong.
pub open spec fn rebuilt(host: Option<Seq<char>>, path: Option<Seq<char>>) -> Result<
    Seq<char>,
    Seq<char>,
> {
    match host {
        None => Err("request has neither an absolute URI nor a Host header"@),
        Some(h) => checked_form(absolute_form(h, path), uri_error(absolute_form(h, path))),
    }
}

/// Rebuilds an origin-form request URI into absolute form using the `Host` header.
///
/// Well-behaved clients always send absolute form to a proxy; this covers the ones that don't.
pub fn absolutize(host: Option<&[u8]>, path: Option<&str>) -> (r: Result<String, String>)
    ensures
        texts(r) == rebuilt(optional_header(host), text::of_str(path)),
{
    let host: Option<String> = match host {
        Some(bytes) => visible_text(bytes),
        None => None,
    };
    match host {
        None => Err("request has neither an absolute URI nor a Host header".to_owned()),
        Some(host) => {
            let mut uri: String = "http://".to_owned();
            uri.append(host.as_str());
            uri.append(
                match path {
                    Some(path) => path,
                    None => "/",
                },
            );
            let wrong: Option<String> = match parse_uri(uri.as_str()) {
                Ok(_) => None,
                Err(err) => Some(err),
            };
            check_form(uri, wrong)
        },
    }
}

/// An answer that the proxy gives itself, as `text/plain`.
#[derive(Debug)]
pub struct ErrorResponse {
    /// The status code.
    pub status: u16,
    /// The value of the `Content-Type` header.
    pub content_type: &'static str,
    /// The body.
    pub body: String,
}

/// The answer with a status and a message.
pub fn error_response(status: u16, message: String) -> (r: ErrorResponse)
    ensures
        r.status == status,
        r.content_type@ == "text/plain"@,
        r.body == message,
{
    ErrorResponse { status, content_type: "text/plain", body: message }
}

/// What becomes of the URI of a request before it is forwarded.
pub enum Forwarding {
    /// It is left alone.
    AsIs,
    /// It is replaced.
    To(Seq<char>),
    /// The client is told that its request was bad.
    Refused(Seq<char>),
}

/// A URI that names an authority is left alone. Another is rebuilt from the `Host` header, and
/// where that fails the request was bad.
pub open spec fn forwarding(
    authority: Option<Seq<char>>,
    host: Option<Seq<char>>,
    path: Option<Seq<char>>,
) -> Forwarding {
    if authority is Some {
        Forwarding::AsIs
    } else {
        match rebuilt(host, path) {
            Ok(uri) => Forwarding::To(uri),
            Err(message) => Forwarding::Refused(message),
        }
    }
}

/// Whether a decision on a URI is the right one.
pub open spec fn decides(r: Result<Option<String>, ErrorResponse>, f: Forwarding) -> bool {
    match f {
        Forwarding::AsIs => r == Ok::<Option<String>, ErrorResponse>(None),
        Forwarding::To(uri) => r matches Ok(Some(to)) && to@ == uri,
        Forwarding::Refused(message) => r matches Err(resp) && resp.status == 400
            && resp.content_type@ == "text/plain"@ && resp.body@ == message,
    }
}

/// Decides on the URI of a request before it is forwarded, by the parts of the URI and the
/// `Host` header: `None` leaves it alone.
pub fn forward_parts(authority: Option<&str>, host: Option<&[u8]>, path: Option<&str>) -> (r:
    Result<Option<String>, ErrorResponse>)
    ensures
        decides(
            r,
            forwarding(text::of_str(authority), optional_header(host), text::of_str(path)),
        ),
{
    if authority.is_some() {
        return Ok(None);
    }
    match absolutize(host, path) {
        Ok(uri) => Ok(Some(uri)),
        Err(message) => Err(error_response(400, message)),
    }
}

/// Decides on the URI of a request before it is forwarded: `None` leaves it alone.
pub fn forward_to(uri: &str, host: Option<&[u8]>) -> (r: Result<Option<String>, ErrorResponse>)
    ensures
        decides(
            r,
            forwarding(
                parts_of(parsed_uri(uri@)).1,
                optional_header(host),
                parts_of(parsed_uri(uri@)).2,
            ),
        ),
{
    let parts = uri_parts(uri);
    forward_parts(borrowed(&parts.authority), host, borrowed(&parts.path))
}

/// Borrows an optional text.
pub(crate) fn borrowed(s: &Option<String>) -> (r: Option<&str>)
    ensures
        text::of_str(r) == text::of_string(*s),
{
    match s {
        Some(s) => Some(s.as_str()),
        None => None,
    }
}

/// The answer to a request that could not be forwarded.
pub fn upstream_failure(err: &str) -> (r: ErrorResponse)
    ensures
        r.status == 502,
        r.content_type@ == "text/plain"@,
        r.body@ == "upstream request failed: "@ + err@,
{
    let mut message: String = "upstream request failed: ".to_owned();
    message.append(err);
    error_response(502, message)
}

/// What a client hears when its tunnel is open.
pub fn tunnel_established() -> (r: &'static str)
    ensures
        r@ == "HTTP/1.1 200 Connection Established\r\n\r\n"@,
{
    "HTTP/1.1 200 Connection Established\r\n\r\n"
}

/// What a client hears when its tunnel cannot be opened.
pub fn tunnel_refused() -> (r: &'static str)
    ensures
        r@ == "HTTP/1.1 502 Bad Gateway\r\nContent-Length: 0\r\n\r\n"@,
{
    "HTTP/1.1 502 Bad Gateway\r\nContent-Length: 0\r\n\r\n"
}

/// A running proxy server bound to an OS-assigned loopback port.
#[derive(Debug, Clone, Copy)]
pub struct Proxy {
    addr: SocketAddress,
}

impl Proxy {
    /// The address that the proxy listens on.
    pub closed spec fn addr(&self) -> SocketAddress {
        self.addr
    }

    /// The proxy that listens on `addr`.
    pub fn at(addr: SocketAddress) -> (r: Self)
        ensures
            r.addr() == addr,
    {
        Proxy { addr }
    }

    /// Address the child process should be pointed at.
    pub fn local_addr(&self) -> (r: SocketAddress)
        ensures
            r == self.addr(),
    {
        self.addr
    }

    fn url_with(&self, scheme: &str) -> (r: String)
        ensures
            r@ == scheme@ + address::socket_text(self.addr()),
    {
        let mut out: String = scheme.to_owned();
        out.append(self.addr.to_string().as_str());
        out
    }

    /// Proxy URL in the form expected by `HTTP_PROXY` and friends.
    pub fn url(&self) -> (r: String)
        ensures
            r@ == "http://"@ + address::socket_text(self.addr()),
    {
        self.url_with("http://")
    }

    /// Proxy URL in the form expected by `ALL_PROXY`: SOCKS5, with names left to the proxy.
    pub fn socks_url(&self) -> (r: String)
        ensures
            r@ == "socks5h://"@ + address::socket_text(self.addr()),
    {
        self.url_with("socks5h://")
    }

    /// The variables that point a child process at the proxy.
    pub fn environment(&self) -> (r: Vec<(&'static str, String)>)
        ensures
            r@.len() == 6,
            r@[0].0@ == "HTTP_PROXY"@ && r@[1].0@ == "HTTPS_PROXY"@ && r@[2].0@ == "ALL_PROXY"@,
            r@[3].0@ == "http_proxy"@ && r@[4].0@ == "https_proxy"@ && r@[5].0@ == "all_proxy"@,
            forall|i: int|
                0 <= i < 6 ==> (#[trigger] r@[i]).1@ == (if i == 2 || i == 5 {
                    "socks5h://"@
                } else {
                    "http://"@
                }) + address::socket_text(self.addr()),
    {
        let mut out: Vec<(&'static str, String)> = Vec::new();
        out.push(("HTTP_PROXY", self.url()));
        out.push(("HTTPS_PROXY", self.url()));
        out.push(("ALL_PROXY", self.socks_url()));
        out.push(("http_proxy", self.url()));
        out.push(("https_proxy", self.url()));
        out.push(("all_proxy", self.socks_url()));
        out
    }
}

} // verus!
