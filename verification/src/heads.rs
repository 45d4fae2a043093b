//! Laws of request heads and authorities.

use vstd::prelude::*;

use crate::proxy;
use crate::proxy::{
    ErrorResponse, HeadError, HeadReader, HeadStep, Reading, UriParts, MAX_HEAD_BYTES,
};
use crate::session;
use crate::text;
use crate::transfers;

verus! {

proof fn found_stays_found(buf: Seq<u8>, more: Seq<u8>, pattern: Seq<u8>, i: nat)
    requires
        proxy::find_from(buf, pattern, i) is Some,
    ensures
        proxy::find_from(buf + more, pattern, i) == proxy::find_from(buf, pattern, i),
    decreases buf.len() - i,
{
    let n = i + pattern.len() as int;
    assert((buf + more).subrange(i as int, n) =~= buf.subrange(i as int, n));
    if buf.subrange(i as int, n) != pattern {
        found_stays_found(buf, more, pattern, i + 1);
    }
}

/// Bytes that come after a request head do not change where it ends.
pub proof fn heads_end_where_they_end(buf: Seq<u8>, more: Seq<u8>)
    requires
        proxy::head_end(buf) is Some,
    ensures
        proxy::head_end(buf + more) == proxy::head_end(buf),
        proxy::head_end(buf)->0 <= buf.len(),
{
    found_stays_found(buf, more, proxy::blank_line(), 0);
    proxy::found_is_first(buf, proxy::blank_line(), 0, 0);
}

/// How the reading of a head stands after a series of reads.
pub open spec fn reading(chunks: Seq<Seq<u8>>) -> Reading
    decreases chunks.len(),
{
    if chunks.len() == 0 {
        Reading::More(Seq::empty())
    } else {
        match reading(chunks.drop_last()) {
            Reading::More(buf) => proxy::read_on(buf, chunks.last()),
            over => over,
        }
    }
}

/// A client cannot make the proxy buffer without bound: while it reads on, the proxy holds
/// exactly what was read, and that is within the limit and has no end of a head in it.
pub proof fn unfinished_heads_are_bounded(chunks: Seq<Seq<u8>>)
    ensures
        reading(chunks) matches Reading::More(buf) ==> {
            &&& buf == transfers::joined(chunks)
            &&& buf.len() <= MAX_HEAD_BYTES
            &&& proxy::head_end(buf) is None
        },
    decreases chunks.len(),
{
    if chunks.len() > 0 {
        unfinished_heads_are_bounded(chunks.drop_last());
    }
}

/// A head is the same however it arrives: reads that leave it unfinished, and within the limit,
/// until the last one finishes it, give all that was read.
pub proof fn heads_arrive_in_any_pieces(chunks: Seq<Seq<u8>>)
    requires
        chunks.len() > 0,
        forall|i: int| 0 <= i < chunks.len() ==> (#[trigger] chunks[i]).len() > 0,
        transfers::joined(chunks.drop_last()).len() <= MAX_HEAD_BYTES,
        proxy::head_end(transfers::joined(chunks.drop_last())) is None,
        proxy::head_end(transfers::joined(chunks)) is Some,
    ensures
        reading(chunks) == Reading::Head(transfers::joined(chunks)),
{
    reading_goes_on(chunks.drop_last());
}

proof fn reading_goes_on(chunks: Seq<Seq<u8>>)
    requires
        forall|i: int| 0 <= i < chunks.len() ==> (#[trigger] chunks[i]).len() > 0,
        transfers::joined(chunks).len() <= MAX_HEAD_BYTES,
        proxy::head_end(transfers::joined(chunks)) is None,
    ensures
        reading(chunks) == Reading::More(transfers::joined(chunks)),
    decreases chunks.len(),
{
    if chunks.len() > 0 {
        let before = chunks.drop_last();
        assert forall|i: int| 0 <= i < before.len() implies (#[trigger] before[i]).len() > 0 by {
            assert(before[i] == chunks[i]);
        }
        assert(chunks[chunks.len() - 1].len() > 0);
        if proxy::head_end(transfers::joined(before)) is Some {
            heads_end_where_they_end(transfers::joined(before), chunks.last());
        }
        reading_goes_on(before);
    }
}

/// A head that does not end within the limit is given up.
pub proof fn endless_heads_are_given_up(chunks: Seq<Seq<u8>>)
    requires
        chunks.len() > 0,
        forall|i: int| 0 <= i < chunks.len() ==> (#[trigger] chunks[i]).len() > 0,
        transfers::joined(chunks.drop_last()).len() <= MAX_HEAD_BYTES,
        transfers::joined(chunks).len() > MAX_HEAD_BYTES,
        proxy::head_end(transfers::joined(chunks)) is None,
    ensures
        reading(chunks) == Reading::Failed(HeadError::TooLarge),
{
    let before = chunks.drop_last();
    assert(chunks[chunks.len() - 1].len() > 0);
    if proxy::head_end(transfers::joined(before)) is Some {
        heads_end_where_they_end(transfers::joined(before), chunks.last());
    }
    reading_goes_on(before);
}

/// A decimal numeral is made of digits, and has the value that it was made of.
pub proof fn numerals_have_their_value(n: nat)
    ensures
        text::decimal(n).len() > 0,
        proxy::all_digits(text::decimal(n)),
        proxy::value(text::decimal(n)) == n,
    decreases n,
{
    let s = text::decimal(n);
    if n < 10 {
        assert(s.drop_last() =~= Seq::<char>::empty());
        assert(proxy::value(Seq::<char>::empty()) == 0);
    } else {
        numerals_have_their_value(n / 10);
        assert(s.drop_last() =~= text::decimal(n / 10));
        assert forall|i: int| 0 <= i < s.len() implies '0' <= #[trigger] s[i] <= '9' by {
            if i < s.len() - 1 {
                assert(s[i] == text::decimal(n / 10)[i]);
            }
        }
    }
}

/// The numeral of a port spells that port.
pub proof fn ports_read_back(port: u16)
    ensures
        proxy::port_value(text::decimal(port as nat)) == Some(port),
{
    let s = text::decimal(port as nat);
    numerals_have_their_value(port as nat);
    assert('0' <= s[0] <= '9');
}

/// A host and port that are written with a colon between them read back, the host in lower
/// case, whatever the default; a host that starts with a bracket has to stand in brackets.
pub proof fn targets_read_back(host: Seq<char>, port: u16, default_port: u16)
    requires
        host.len() > 0 ==> host[0] != '[',
    ensures
        proxy::authority_parts(session::target_text(host, port), default_port) == (
            text::lowered(host),
            port,
        ),
{
    reveal_strlit(":");
    let digits = text::decimal(port as nat);
    let all = session::target_text(host, port);
    let n = host.len() + 1;
    numerals_have_their_value(port as nat);
    ports_read_back(port);
    assert(all =~= host + seq![':'] + digits);
    assert forall|i: int| n <= i < all.len() implies all[i] != ':' by {
        assert(all[i] == digits[i - n]);
    }
    proxy::cut_last_is_at_the_last(all, ':', n as int);
    assert(all.take(n - 1) =~= host);
    assert(all.skip(n as int) =~= digits);
}

/// A host in brackets reads back with the port behind them, or the default where there is none.
#[verifier::spinoff_prover]
pub proof fn bracketed_targets_read_back(host: Seq<char>, port: u16, default_port: u16)
    requires
        !host.contains(']'),
    ensures
        proxy::authority_parts(
            seq!['['] + host + seq![']', ':'] + text::decimal(port as nat),
            default_port,
        ) == (text::lowered(host), port),
        proxy::authority_parts(seq!['['] + host + seq![']'], default_port) == (
            text::lowered(host),
            default_port,
        ),
{
    let digits = text::decimal(port as nat);
    ports_read_back(port);
    let n = host.len() as int;
    let with_port = seq!['['] + host + seq![']', ':'] + digits;
    let rest = with_port.skip(1);
    assert(rest =~= host + seq![']', ':'] + digits);
    text::cut_is_at_the_first(rest, ']', n);
    assert(rest.take(n) =~= host);
    assert(rest.skip(n + 1) =~= seq![':'] + digits);
    assert(rest.skip(n + 1).skip(1) =~= digits);
    let bare = seq!['['] + host + seq![']'];
    let tail = bare.skip(1);
    assert(tail =~= host + seq![']']);
    text::cut_is_at_the_first(tail, ']', n);
    assert(tail.take(n) =~= host);
    assert(tail.skip(n + 1) =~= Seq::<char>::empty());
}

/// A host without a colon gets the default port.
pub proof fn bare_hosts_get_the_default(host: Seq<char>, default_port: u16)
    requires
        !host.contains(':'),
        host.len() > 0 ==> host[0] != '[',
    ensures
        proxy::authority_parts(host, default_port) == (text::lowered(host), default_port),
{
    proxy::cut_last_is_at_the_last(host, ':', 0);
}

/// Whether a head ends at `at`: the four bytes before it are two ends of line.
pub open spec fn ends_at(buf: Seq<u8>, at: int) -> bool {
    4 <= at <= buf.len() && buf[at - 4] == 13 && buf[at - 3] == 10 && buf[at - 2] == 13 && buf[at
        - 1] == 10
}

/// A head ends behind the first empty line, if there is one.
pub proof fn heads_end_at_the_first_empty_line(buf: Seq<u8>, j: int)
    ensures
        proxy::head_end(buf) matches Some(at) ==> ends_at(buf, at as int),
        ends_at(buf, j) ==> (proxy::head_end(buf) matches Some(at) && at <= j),
{
    let pattern = proxy::blank_line();
    proxy::found_is_first(buf, pattern, 0, j - 4);
    if let Some(found) = proxy::find_from(buf, pattern, 0) {
        let at = found as int;
        let window = buf.subrange(at, at + 4);
        assert(window == pattern);
        assert(window[0] == buf[at] && window[1] == buf[at + 1]);
        assert(window[2] == buf[at + 2] && window[3] == buf[at + 3]);
    }
    if ends_at(buf, j) {
        assert(buf.subrange(j - 4, j) =~= pattern);
    }
}

/// What a read makes of a head: all that was read where the head ends in it, or where the client
/// hangs up after sending something; an error where it sent nothing, or more than fits without an
/// end; and otherwise a wait for more, with all that was read.
pub proof fn reads_are_kept(
    reader: HeadReader,
    read: &[u8],
    step: HeadStep,
    buf: Seq<u8>,
    chunk: Seq<u8>,
)
    requires
        reader.bytes() == buf,
        read@ == chunk,
        call_ensures(HeadReader::take, (reader, read), step),
    ensures
        chunk.len() == 0 && buf.len() == 0 ==> step matches HeadStep::Failed(
            HeadError::UnexpectedEof,
        ),
        chunk.len() == 0 && buf.len() > 0 ==> (step matches HeadStep::Head(head) && head@ == buf),
        chunk.len() > 0 && proxy::head_end(buf + chunk) is Some ==> (step matches HeadStep::Head(
            head,
        ) && head@ == buf + chunk),
        chunk.len() > 0 && proxy::head_end(buf + chunk) is None && buf.len() + chunk.len() > 65536
            ==> step matches HeadStep::Failed(HeadError::TooLarge),
        chunk.len() > 0 && proxy::head_end(buf + chunk) is None && buf.len() + chunk.len() <= 65536
            ==> (step matches HeadStep::More(next) && next.bytes() == buf + chunk),
{
    match step {
        HeadStep::More(_) => {},
        HeadStep::Head(_) => {},
        HeadStep::Failed(_) => {},
    }
}

/// Where a line ends in `head`: at the first carriage return that a line feed follows.
pub open spec fn line_ends_at(head: Seq<u8>, at: int) -> bool {
    &&& 0 <= at && at + 2 <= head.len()
    &&& head[at] == 13 && head[at + 1] == 10
    &&& forall|i: int| 0 <= i < at ==> !(#[trigger] head[i] == 13 && head[i + 1] == 10)
}

proof fn first_lines_are_found(head: Seq<u8>, at: int)
    requires
        line_ends_at(head, at),
    ensures
        proxy::find_from(head, proxy::line_end(), 0) == Some(at as nat),
{
    let pattern = proxy::line_end();
    proxy::found_is_first(head, pattern, 0, at);
    assert(head.subrange(at, at + 2) =~= pattern);
    if let Some(position) = proxy::find_from(head, pattern, 0) {
        let found = position as int;
        let window = head.subrange(found, found + 2);
        assert(window == pattern);
        assert(window[0] == head[found] && window[1] == head[found + 1]);
    }
}

pub(crate) proof fn request_lines_say(
    head: Seq<u8>,
    at: int,
    method: Seq<char>,
    target: Seq<char>,
    rest: Seq<char>,
)
    requires
        line_ends_at(head, at),
        vstd::utf8::valid_utf8(head.take(at)),
        vstd::utf8::decode_utf8(head.take(at)) == method + seq![' '] + target + rest,
        !method.contains(' '),
        !target.contains(' '),
        rest.len() > 0 ==> rest[0] == ' ',
    ensures
        method.len() > 0 && target.len() > 0 ==> proxy::requested(head) == Some((method, target)),
        method.len() == 0 || target.len() == 0 ==> proxy::requested(head) is None,
{
    first_lines_are_found(head, at);
    let line = method + seq![' '] + target + rest;
    let n = method.len() as int;
    assert forall|i: int| 0 <= i < n implies line[i] != ' ' by {
        assert(line[i] == method[i]);
    }
    text::cut_is_at_the_first(line, ' ', n);
    assert(line.take(n) =~= method);
    let after = line.skip(n + 1);
    assert(after =~= target + rest);
    let m = target.len() as int;
    assert forall|i: int| 0 <= i < m implies after[i] != ' ' by {
        assert(after[i] == target[i]);
    }
    text::cut_is_at_the_first(after, ' ', m);
    assert(after.take(m) =~= target);
    if rest.len() > 0 {
        assert(after[m] == rest[0]);
    } else {
        assert(after =~= target);
    }
}

/// The first two words of the first line are the method and the target; whatever stands behind
/// them makes no difference.
pub proof fn request_lines_say_method_and_target(
    said: Option<(&str, &str)>,
    head: &[u8],
    at: int,
    method: Seq<char>,
    target: Seq<char>,
    rest: Seq<char>,
)
    requires
        call_ensures(proxy::request_line, (head,), said),
        line_ends_at(head@, at),
        vstd::utf8::valid_utf8(head@.take(at)),
        vstd::utf8::decode_utf8(head@.take(at)) == method + seq![' '] + target + rest,
        !method.contains(' '),
        !target.contains(' '),
        rest.len() > 0 ==> rest[0] == ' ',
    ensures
        method.len() > 0 && target.len() > 0 ==> (said matches Some((m, t)) && m@ == method && t@
            == target),
        method.len() == 0 || target.len() == 0 ==> said is None,
{
    request_lines_say(head@, at, method, target, rest);
}

/// A head without an end of line, with a first line that is not UTF-8, or with a first line of one
/// word says nothing.
pub proof fn other_request_lines_say_nothing(said: Option<(&str, &str)>, head: &[u8], at: int)
    requires
        call_ensures(proxy::request_line, (head,), said),
    ensures
        (forall|i: int| !#[trigger] line_ends_at(head@, i)) ==> said is None,
        line_ends_at(head@, at) && !vstd::utf8::valid_utf8(head@.take(at)) ==> said is None,
        line_ends_at(head@, at) && !vstd::utf8::decode_utf8(head@.take(at)).contains(' ')
            ==> said is None,
{
    let head = head@;
    let pattern = proxy::line_end();
    if let Some(position) = proxy::find_from(head, pattern, 0) {
        let found = position as int;
        proxy::found_is_first(head, pattern, 0, 0);
        let window = head.subrange(found, found + 2);
        assert(window == pattern);
        assert(window[0] == head[found] && window[1] == head[found + 1]);
        assert forall|i: int| 0 <= i < found implies !(#[trigger] head[i] == 13 && head[i + 1]
            == 10) by {
            proxy::found_is_first(head, pattern, 0, i);
            if head[i] == 13 && head[i + 1] == 10 {
                assert(head.subrange(i, i + 2) =~= pattern);
            }
        }
        assert(line_ends_at(head, found));
    }
    if line_ends_at(head, at) {
        first_lines_are_found(head, at);
        let line = vstd::utf8::decode_utf8(head.take(at));
        if !line.contains(' ') {
            text::cut_is_at_the_first(line, ' ', line.len() as int);
        }
    }
}

/// A method is `CONNECT` if it is these seven letters, each in either case.
pub proof fn connect_is_seven_letters(method: Seq<char>)
    ensures
        proxy::is_connect(method) <==> method.len() == 7 && (method[0] == 'C' || method[0] == 'c')
            && (method[1] == 'O' || method[1] == 'o') && (method[2] == 'N' || method[2] == 'n')
            && (method[3] == 'N' || method[3] == 'n') && (method[4] == 'E' || method[4] == 'e')
            && (method[5] == 'C' || method[5] == 'c') && (method[6] == 'T' || method[6] == 't'),
{
    let low = text::lowered(method);
    let wanted = seq!['c', 'o', 'n', 'n', 'e', 'c', 't'];
    assert(low.len() == method.len() && wanted.len() == 7);
    if low == wanted {
        assert(low[0] == 'c' && low[1] == 'o' && low[2] == 'n' && low[3] == 'n');
        assert(low[4] == 'e' && low[5] == 'c' && low[6] == 't');
    }
    if method.len() == 7 && low[0] == 'c' && low[1] == 'o' && low[2] == 'n' && low[3] == 'n'
        && low[4] == 'e' && low[5] == 'c' && low[6] == 't' {
        assert(low =~= wanted);
    }
}

/// A numeral is worth ten times what stands before its last digit, and that digit.
pub proof fn digits_count_by_their_place(s: Seq<char>, c: char)
    requires
        48 <= c as int <= 57,
    ensures
        proxy::value(Seq::<char>::empty()) == 0,
        proxy::value(s.push(c)) == 10 * proxy::value(s) + (c as int - 48),
{
    assert(s.push(c).drop_last() =~= s);
}

/// A text spells a port if it is digits, behind a plus sign or not, that come to no more than
/// 65535; then it spells what they come to.
pub proof fn ports_are_small_numerals(s: Seq<char>, digits: Seq<char>)
    requires
        s == seq!['+'] + digits || s == digits && (s.len() > 0 ==> s[0] != '+'),
    ensures
        proxy::port_value(s) is Some <==> digits.len() > 0 && (forall|i: int|
            0 <= i < digits.len() ==> 48 <= (#[trigger] digits[i]) as int <= 57) && proxy::value(
            digits,
        ) <= 65535,
        proxy::port_value(s) matches Some(port) ==> port == proxy::value(digits),
{
    if s == seq!['+'] + digits {
        assert(s[0] == '+');
        assert(s.skip(1) =~= digits);
    }
    if proxy::all_digits(digits) {
        assert forall|i: int| 0 <= i < digits.len() implies 48 <= (#[trigger] digits[i]) as int
            <= 57 by {
            assert('0' <= digits[i] <= '9');
        }
    } else {
        let i = choose|i: int| 0 <= i < digits.len() && !('0' <= #[trigger] digits[i] <= '9');
        assert(!(48 <= digits[i] as int <= 57));
    }
}

/// An authority gives its host in lower case and the port behind its last colon; where what stands
/// there is no port, all of it is the host and the port is the default, as it is without a colon.
pub proof fn ports_stand_behind_the_last_colon(
    authority: &str,
    parts: (String, u16),
    default_port: u16,
    host: Seq<char>,
    tail: Seq<char>,
)
    requires
        host.len() > 0 ==> host[0] != '[',
        !tail.contains(':'),
        call_ensures(proxy::split_authority, (authority, default_port), parts),
    ensures
        authority@ == host + seq![':'] + tail ==> {
            match proxy::port_value(tail) {
                Some(port) => parts.0@ == text::lowered(host) && parts.1 == port,
                None => parts.0@ == text::lowered(host + seq![':'] + tail) && parts.1
                    == default_port,
            }
        },
        !host.contains(':') && authority@ == host ==> parts.0@ == text::lowered(host) && parts.1 == default_port,
{
    let n = host.len() as int;
    let all = host + seq![':'] + tail;
    assert forall|i: int| n + 1 <= i < all.len() implies all[i] != ':' by {
        assert(all[i] == tail[i - n - 1]);
    }
    proxy::cut_last_is_at_the_last(all, ':', n + 1);
    assert(all.take(n) =~= host);
    assert(all.skip(n + 1) =~= tail);
    if n > 0 {
        assert(all[0] == host[0]);
    }
    if !host.contains(':') {
        proxy::cut_last_is_at_the_last(host, ':', 0);
    }
}

/// A host in brackets ends at the first closing one, and the port stands behind that and a colon;
/// where what stands there is no port, or something else does, the port is the default.
pub proof fn brackets_hold_the_host(
    authority: &str,
    parts: (String, u16),
    default_port: u16,
    host: Seq<char>,
    tail: Seq<char>,
)
    requires
        !host.contains(']'),
        authority@ == seq!['['] + host + seq![']'] + tail,
        call_ensures(proxy::split_authority, (authority, default_port), parts),
    ensures
        parts.0@ == text::lowered(host),
        parts.1 == (if tail.len() > 0 && tail[0] == ':' && proxy::port_value(
            tail.skip(1),
        ) is Some {
            proxy::port_value(tail.skip(1))->0
        } else {
            default_port
        }),
{
    let n = host.len() as int;
    let all = seq!['['] + host + seq![']'] + tail;
    let rest = all.skip(1);
    assert(rest =~= host + seq![']'] + tail);
    assert forall|i: int| 0 <= i < n implies rest[i] != ']' by {
        assert(rest[i] == host[i]);
    }
    text::cut_is_at_the_first(rest, ']', n);
    assert(rest.take(n) =~= host);
    assert(rest.skip(n + 1) =~= tail);
}

/// A bracket that is never closed opens a host that goes to the end, with the default port.
pub proof fn open_brackets_hold_the_rest(
    authority: &str,
    parts: (String, u16),
    default_port: u16,
    host: Seq<char>,
)
    requires
        !host.contains(']'),
        authority@ == seq!['['] + host,
        call_ensures(proxy::split_authority, (authority, default_port), parts),
    ensures
        parts.0@ == text::lowered(host),
        parts.1 == default_port,
{
    let all = seq!['['] + host;
    assert(all.skip(1) =~= host);
    text::cut_is_at_the_first(host, ']', host.len() as int);
}

/// A `Host` header counts where all its bytes are printable ASCII or tabs, and then as the
/// characters of these codes.
pub proof fn headers_are_visible_ascii(bytes: Option<&[u8]>)
    ensures
        bytes is None ==> proxy::optional_header(bytes) is None,
        bytes matches Some(b) ==> {
            let plain = forall|i: int|
                0 <= i < b@.len() ==> 32 <= #[trigger] b@[i] < 127 || b@[i] == 9;
            &&& proxy::optional_header(bytes) is Some <==> plain
            &&& proxy::optional_header(bytes) matches Some(s) ==> s.len() == b@.len() && forall|
                i: int,
            |
                0 <= i < s.len() ==> (#[trigger] s[i]) as int == b@[i]
        },
{
    if let Some(b) = bytes {
        assert forall|i: int| 0 <= i < b@.len() implies proxy::visible(#[trigger] b@[i]) == (32
            <= b@[i] < 127 || b@[i] == 9) by {}
        if proxy::optional_header(bytes) is None {
            let i = choose|i: int| 0 <= i < b@.len() && !proxy::visible(#[trigger] b@[i]);
            assert(!(32 <= b@[i] < 127 || b@[i] == 9));
        } else {
            assert forall|i: int| 0 <= i < b@.len() implies 32 <= #[trigger] b@[i] < 127 || b@[i]
                == 9 by {
                assert(proxy::visible(b@[i]));
            }
        }
    }
}

/// A request that names an authority is forwarded as it is. Another is forwarded to
/// `http://`, its `Host` header and its path, or `/` without one, where that is a URI; and without
/// such a header, or where it is none, the client hears what is wrong, with status 400.
pub proof fn requests_are_forwarded_by_their_host(
    decision: Result<Option<String>, ErrorResponse>,
    authority: Option<&str>,
    host: Option<&[u8]>,
    path: Option<&str>,
)
    requires
        call_ensures(proxy::forward_parts, (authority, host, path), decision),
    ensures
        authority is Some ==> decision matches Ok(None),
        authority is None && proxy::optional_header(host) is None ==> (decision matches Err(answer)
            && answer.status == 400 && answer.body@
            == "request has neither an absolute URI nor a Host header"@),
        authority is None ==> (proxy::optional_header(host) matches Some(h) ==> {
            let uri = "http://"@ + h + (match path {
                Some(p) => p@,
                None => "/"@,
            });
            match proxy::parsed_uri(uri) {
                Ok(_) => decision matches Ok(Some(to)) && to@ == uri,
                Err(wrong) => decision matches Err(answer) && answer.status == 400 && answer.body@
                    == "cannot build absolute URI: "@ + wrong,
            }
        }),
{
}

/// An origin-form request becomes `http://`, its `Host` header and its path, or `/` without one;
/// where that is no URI, or there is no such header, what is wrong is said.
pub proof fn absolute_forms_are_put_together(
    form: Result<String, String>,
    host: Option<&[u8]>,
    path: Option<&str>,
)
    requires
        call_ensures(proxy::absolutize, (host, path), form),
    ensures
        proxy::optional_header(host) is None ==> (form matches Err(message) && message@
            == "request has neither an absolute URI nor a Host header"@),
        proxy::optional_header(host) matches Some(h) ==> {
            let uri = "http://"@ + h + (match path {
                Some(p) => p@,
                None => "/"@,
            });
            match proxy::parsed_uri(uri) {
                Ok(_) => form matches Ok(to) && to@ == uri,
                Err(wrong) => form matches Err(message) && message@
                    == "cannot build absolute URI: "@ + wrong,
            }
        },
{
    match form {
        Ok(_) => {},
        Err(_) => {},
    }
}

/// An absolute form is passed on where nothing is wrong with it, and otherwise what is wrong.
pub proof fn wrong_forms_are_not_passed_on(
    form: Result<String, String>,
    uri: String,
    wrong: Option<String>,
)
    requires
        call_ensures(proxy::check_form, (uri, wrong), form),
    ensures
        wrong is None ==> (form matches Ok(to) && to@ == uri@),
        wrong matches Some(err) ==> (form matches Err(message) && message@
            == "cannot build absolute URI: "@ + err@),
{
    match form {
        Ok(_) => {},
        Err(_) => {},
    }
}

/// The parts of a URI are its scheme, its authority and its path, each where it has one; a text
/// that is no URI has none of them.
pub proof fn parts_are_those_of_the_uri(
    parts: UriParts,
    parsed: Result<(Option<Seq<char>>, Option<Seq<char>>, Option<Seq<char>>), Seq<char>>,
)
    requires
        proxy::parts_text(Ok(parts)) == Ok::<
            (Option<Seq<char>>, Option<Seq<char>>, Option<Seq<char>>),
            Seq<char>,
        >(proxy::parts_of(parsed)),
    ensures
        parsed is Err ==> parts.scheme is None && parts.authority is None && parts.path is None,
        parsed matches Ok((scheme, authority, path)) ==> {
            &&& (scheme matches Some(s) ==> parts.scheme is Some && parts.scheme->0@ == s)
            &&& (scheme is None ==> parts.scheme is None)
            &&& (authority matches Some(a) ==> parts.authority is Some && parts.authority->0@ == a)
            &&& (authority is None ==> parts.authority is None)
            &&& (path matches Some(p) ==> parts.path is Some && parts.path->0@ == p)
            &&& (path is None ==> parts.path is None)
        },
{
}

} // verus!
