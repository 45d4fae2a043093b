//! Address literals.
//!
//! A host that a client names by its address is recorded under that literal. Telling such hosts
//! from names is what reverse lookups start from.

use vstd::prelude::*;

use crate::address;
use crate::address::IpAddress;
use crate::heads;
use crate::proxy;
use crate::proxy::parse_digits;
use crate::text;
use crate::text::{chars_of, find_char};

verus! {

/// What an address literal spells: the octets of an address of either family.
pub enum Spelled {
    /// Four octets.
    V4(Seq<u8>),
    /// Sixteen octets.
    V6(Seq<u8>),
}

impl IpAddress {
    /// The address, by its family and octets.
    pub open spec fn spelled(self) -> Spelled {
        match self {
            IpAddress::V4(bytes) => Spelled::V4(bytes@),
            IpAddress::V6(bytes) => Spelled::V6(bytes@),
        }
    }
}

/// The pieces of `s` between the occurrences of `c`.
pub open spec fn split(s: Seq<char>, c: char) -> Seq<Seq<char>>
    decreases s.len(),
{
    proof {
        cut_shortens(s, c);
    }
    match text::cut(s, c) {
        None => seq![s],
        Some((before, after)) => seq![before] + split(after, c),
    }
}

/// The octet that a decimal numeral spells: at most three digits, no leading zero.
pub open spec fn octet(s: Seq<char>) -> Option<u8> {
    if 1 <= s.len() <= 3 && proxy::all_digits(s) && (s.len() == 1 || s[0] != '0')
        && proxy::value(s) <= 255 {
        Some(proxy::value(s) as u8)
    } else {
        None
    }
}

/// The octets of an IPv4 literal: four numerals with dots between them.
pub open spec fn v4_octets(s: Seq<char>) -> Option<Seq<u8>> {
    let parts = split(s, '.');
    if parts.len() == 4 && octet(parts[0]) is Some && octet(parts[1]) is Some && octet(
        parts[2],
    ) is Some && octet(parts[3]) is Some {
        Some(
            seq![
                octet(parts[0])->0,
                octet(parts[1])->0,
                octet(parts[2])->0,
                octet(parts[3])->0,
            ],
        )
    } else {
        None
    }
}

/// The value of a hexadecimal digit of either case.
pub open spec fn hex_digit_value(c: char) -> Option<nat> {
    if '0' <= c <= '9' {
        Some((c as int - '0' as int) as nat)
    } else if 'a' <= c <= 'f' {
        Some((c as int - 'a' as int + 10) as nat)
    } else if 'A' <= c <= 'F' {
        Some((c as int - 'A' as int + 10) as nat)
    } else {
        None
    }
}

/// Whether every character is a hexadecimal digit.
pub open spec fn all_hex(s: Seq<char>) -> bool {
    forall|i: int| 0 <= i < s.len() ==> hex_digit_value(#[trigger] s[i]) is Some
}

/// The value of a hexadecimal numeral.
pub open spec fn hex_value(s: Seq<char>) -> nat
    decreases s.len(),
{
    if s.len() == 0 {
        0
    } else {
        hex_value(s.drop_last()) * 16 + hex_digit_value(s.last())->0
    }
}

/// The group that a hexadecimal numeral spells: at most four digits.
pub open spec fn group(s: Seq<char>) -> Option<u16> {
    if 1 <= s.len() <= 4 && all_hex(s) {
        Some(hex_value(s) as u16)
    } else {
        None
    }
}

/// The groups that numerals spell, if each spells one.
pub open spec fn groups_of(parts: Seq<Seq<char>>) -> Option<Seq<u16>> {
    if forall|i: int| 0 <= i < parts.len() ==> group(#[trigger] parts[i]) is Some {
        Some(Seq::new(parts.len(), |i: int| group(parts[i])->0))
    } else {
        None
    }
}

/// Four octets as two groups.
pub open spec fn octet_groups(octets: Seq<u8>) -> Seq<u16> {
    seq![(octets[0] * 256 + octets[1]) as u16, (octets[2] * 256 + octets[3]) as u16]
}

/// The groups of one side of an IPv6 literal: numerals with colons between them, or nothing. At
/// the end of the literal, an IPv4 literal may stand for the last two.
pub open spec fn side(s: Seq<char>, at_end: bool) -> Option<Seq<u16>> {
    if s.len() == 0 {
        Some(Seq::empty())
    } else {
        let parts = split(s, ':');
        if at_end && v4_octets(parts.last()) is Some {
            match groups_of(parts.drop_last()) {
                Some(words) => Some(words + octet_groups(v4_octets(parts.last())->0)),
                None => None,
            }
        } else {
            groups_of(parts)
        }
    }
}

/// `s` cut at its first `::`.
pub open spec fn cut_double(s: Seq<char>) -> Option<(Seq<char>, Seq<char>)>
    decreases s.len(),
{
    if s.len() < 2 {
        None
    } else if s[0] == ':' && s[1] == ':' {
        Some((Seq::empty(), s.skip(2)))
    } else {
        match cut_double(s.skip(1)) {
            Some((before, after)) => Some((seq![s[0]] + before, after)),
            None => None,
        }
    }
}

/// The groups of an IPv6 literal: eight of them, or fewer around a `::` that stands for at least
/// one group of zero.
pub open spec fn v6_groups(s: Seq<char>) -> Option<Seq<u16>> {
    match cut_double(s) {
        None => match side(s, true) {
            Some(words) => if words.len() == 8 {
                Some(words)
            } else {
                None
            },
            None => None,
        },
        Some((before, after)) => match (side(before, false), side(after, true)) {
            (Some(head), Some(tail)) => if head.len() + tail.len() <= 7 {
                Some(head + Seq::new((8 - head.len() - tail.len()) as nat, |i: int| 0u16) + tail)
            } else {
                None
            },
            _ => None,
        },
    }
}

/// The octets of groups, the high one of each first.
pub open spec fn group_octets(words: Seq<u16>) -> Seq<u8> {
    Seq::new(
        2 * words.len(),
        |i: int|
            if i % 2 == 0 {
                (words[i / 2] / 256) as u8
            } else {
                (words[i / 2] % 256) as u8
            },
    )
}

/// The address that a text spells, if it is an address literal.
pub open spec fn spelled_by(s: Seq<char>) -> Option<Spelled> {
    match v4_octets(s) {
        Some(octets) => Some(Spelled::V4(octets)),
        None => match v6_groups(s) {
            Some(words) => Some(Spelled::V6(group_octets(words))),
            None => None,
        },
    }
}

/// What stands around the character of a cut is shorter than the text by that character.
pub proof fn cut_shortens(s: Seq<char>, c: char)
    ensures
        text::cut(s, c) matches Some((before, after)) ==> before.len() + 1 + after.len() == s.len(),
    decreases s.len(),
{
    if s.len() > 0 && s[0] != c {
        cut_shortens(s.skip(1), c);
    }
}

/// The views of pieces.
pub open spec fn views(parts: Seq<&[char]>) -> Seq<Seq<char>> {
    Seq::new(parts.len(), |i: int| parts[i]@)
}

fn split_chars<'a>(s: &'a [char], c: char) -> (r: Vec<&'a [char]>)
    ensures
        views(r@) == split(s@, c),
        r@.len() >= 1,
{
    let mut out: Vec<&'a [char]> = Vec::new();
    let mut start: usize = 0;
    assert(s@.skip(0) =~= s@);
    assert(views(out@) + split(s@, c) =~= split(s@, c));
    loop
        invariant
            start <= s@.len(),
            views(out@) + split(s@.skip(start as int), c) == split(s@, c),
        decreases s@.len() - start,
    {
        let end: usize = find_char(s, c, start);
        let ghost rest = s@.skip(start as int);
        let ghost before = views(out@);
        let piece: &'a [char] = &s[start..end];
        proof {
            let n = end - start;
            assert forall|i: int| 0 <= i < n implies rest[i] != c by {
                assert(rest[i] == s@[start + i]);
            }
            cut_shortens(rest, c);
            text::cut_is_at_the_first(rest, c, n);
            assert(piece@ =~= rest.take(n));
            if end < s@.len() {
                assert(rest[n] == s@[end as int]);
                assert(rest.skip(n + 1) =~= s@.skip(end + 1));
            } else {
                assert(piece@ =~= rest);
            }
        }
        out.push(piece);
        assert(views(out@) =~= before.push(piece@));
        if end == s.len() {
            assert(before + split(rest, c) =~= before.push(piece@));
            return out;
        }
        proof {
            let tail = split(s@.skip(end + 1), c);
            assert(before + split(rest, c) =~= before.push(piece@) + tail);
        }
        start = end + 1;
    }
}

fn read_octet(s: &[char]) -> (r: Option<u8>)
    ensures
        r == octet(s@),
{
    if s.len() == 0 || s.len() > 3 || (s.len() > 1 && s[0] == '0') {
        return None;
    }
    match parse_digits(s) {
        Some(n) => if n <= 255 {
            Some(n as u8)
        } else {
            None
        },
        None => {
            proof {
                if proxy::all_digits(s@) {
                    short_numerals_are_small(s@);
                }
            }
            None
        },
    }
}

proof fn short_numerals_are_small(s: Seq<char>)
    requires
        proxy::all_digits(s),
        s.len() <= 3,
    ensures
        proxy::value(s) <= 999,
{
    reveal_with_fuel(proxy::value, 4);
    assert forall|i: int| 0 <= i < s.len() implies '0' <= #[trigger] s[i] <= '9' by {}
    if s.len() > 0 {
        assert('0' <= s[s.len() - 1] <= '9');
        let a = s.drop_last();
        if a.len() > 0 {
            assert('0' <= s[a.len() - 1] <= '9');
            let b = a.drop_last();
            if b.len() > 0 {
                assert('0' <= s[b.len() - 1] <= '9');
            }
        }
    }
}

fn read_v4(s: &[char]) -> (r: Option<[u8; 4]>)
    ensures
        match r {
            Some(octets) => v4_octets(s@) == Some(octets@),
            None => v4_octets(s@) is None,
        },
{
    let parts = split_chars(s, '.');
    if parts.len() != 4 {
        return None;
    }
    assert(views(parts@)[0] == parts@[0]@ && views(parts@)[1] == parts@[1]@);
    assert(views(parts@)[2] == parts@[2]@ && views(parts@)[3] == parts@[3]@);
    match (read_octet(parts[0]), read_octet(parts[1]), read_octet(parts[2]), read_octet(parts[3])) {
        (Some(a), Some(b), Some(c), Some(d)) => {
            let octets: [u8; 4] = [a, b, c, d];
            assert(octets@ =~= seq![a, b, c, d]);
            Some(octets)
        },
        _ => None,
    }
}

fn read_hex_digit(c: char) -> (r: Option<u16>)
    ensures
        r is Some <==> hex_digit_value(c) is Some,
        r matches Some(n) ==> n == hex_digit_value(c)->0 && n < 16,
{
    if '0' <= c && c <= '9' {
        Some((c as u32 - '0' as u32) as u16)
    } else if 'a' <= c && c <= 'f' {
        Some((c as u32 - 'a' as u32 + 10) as u16)
    } else if 'A' <= c && c <= 'F' {
        Some((c as u32 - 'A' as u32 + 10) as u16)
    } else {
        None
    }
}

fn read_group(s: &[char]) -> (r: Option<u16>)
    ensures
        r == group(s@),
{
    if s.len() == 0 || s.len() > 4 {
        return None;
    }
    let mut n: u32 = 0;
    let mut i: usize = 0;
    while i < s.len()
        invariant
            i <= s@.len() <= 4,
            all_hex(s@.take(i as int)),
            n == hex_value(s@.take(i as int)),
            i == 0 ==> n == 0,
            i == 1 ==> n < 0x10,
            i == 2 ==> n < 0x100,
            i == 3 ==> n < 0x1000,
            i == 4 ==> n < 0x1_0000,
        decreases s@.len() - i,
    {
        let ghost longer = s@.take(i + 1);
        match read_hex_digit(s[i]) {
            Some(d) => {
                proof {
                    assert(longer.drop_last() =~= s@.take(i as int));
                    assert forall|j: int| 0 <= j < longer.len() implies hex_digit_value(
                        #[trigger] longer[j],
                    ) is Some by {
                        if j < i {
                            assert(longer[j] == s@.take(i as int)[j]);
                        }
                    }
                }
                n = n * 16 + d as u32;
            },
            None => {
                assert(hex_digit_value(s@[i as int]) is None);
                return None;
            },
        }
        i += 1;
    }
    assert(s@.take(i as int) =~= s@);
    Some(n as u16)
}

fn read_groups(parts: &[&[char]]) -> (r: Option<Vec<u16>>)
    ensures
        match r {
            Some(words) => groups_of(views(parts@)) == Some(words@),
            None => groups_of(views(parts@)) is None,
        },
{
    let ghost all = views(parts@);
    let mut out: Vec<u16> = Vec::new();
    let mut i: usize = 0;
    while i < parts.len()
        invariant
            all == views(parts@),
            i <= parts@.len(),
            out@.len() == i,
            forall|j: int| 0 <= j < i ==> group(#[trigger] all[j]) == Some(out@[j]),
        decreases parts@.len() - i,
    {
        match read_group(parts[i]) {
            Some(word) => {
                out.push(word);
            },
            None => {
                assert(group(all[i as int]) is None);
                return None;
            },
        }
        i += 1;
    }
    assert(out@ =~= groups_of(all)->0);
    Some(out)
}

fn read_side(s: &[char], at_end: bool) -> (r: Option<Vec<u16>>)
    ensures
        match r {
            Some(words) => side(s@, at_end) == Some(words@),
            None => side(s@, at_end) is None,
        },
{
    if s.len() == 0 {
        let none: Vec<u16> = Vec::new();
        assert(none@ =~= Seq::<u16>::empty());
        return Some(none);
    }
    let parts = split_chars(s, ':');
    let last: usize = parts.len() - 1;
    assert(views(parts@).last() == parts@[last as int]@);
    if at_end {
        if let Some(octets) = read_v4(parts[last]) {
            let front: &[&[char]] = &parts.as_slice()[0..last];
            assert(views(front@) =~= views(parts@).drop_last());
            return match read_groups(front) {
                Some(words) => {
                    let mut words = words;
                    let ghost before = words@;
                    words.push(octets[0] as u16 * 256 + octets[1] as u16);
                    words.push(octets[2] as u16 * 256 + octets[3] as u16);
                    assert(words@ =~= before + octet_groups(octets@));
                    Some(words)
                },
                None => None,
            };
        }
    }
    read_groups(parts.as_slice())
}

/// Whether `::` stands at position `i`.
pub open spec fn double_at(s: Seq<char>, i: int) -> bool {
    i + 1 < s.len() && s[i] == ':' && s[i + 1] == ':'
}

pub(crate) proof fn cut_double_is_at_the_first(s: Seq<char>, n: int)
    requires
        0 <= n <= s.len(),
        forall|i: int| 0 <= i < n ==> !#[trigger] double_at(s, i),
    ensures
        double_at(s, n) ==> cut_double(s) == Some(
            (s.take(n), s.skip(n + 2)),
        ),
        n + 1 >= s.len() ==> cut_double(s) is None,
    decreases n,
{
    if n == 0 {
        if s.len() >= 2 && s[0] == ':' && s[1] == ':' {
            assert(s.take(0) =~= Seq::<char>::empty());
        }
    } else if s.len() >= 2 {
        let rest = s.skip(1);
        assert(!double_at(s, 0));
        assert forall|i: int| 0 <= i < n - 1 implies !#[trigger] double_at(rest, i) by {
            assert(!double_at(s, i + 1));
        }
        cut_double_is_at_the_first(rest, n - 1);
        if double_at(s, n) {
            assert(rest[n - 1] == s[n]);
            assert(rest[n] == s[n + 1]);
            assert(seq![s[0]] + rest.take(n - 1) =~= s.take(n));
            assert(rest.skip(n + 1) =~= s.skip(n + 2));
        }
    }
}

fn find_double(s: &[char]) -> (r: Option<usize>)
    ensures
        match r {
            Some(n) => n + 2 <= s@.len() && cut_double(s@) == Some(
                (s@.take(n as int), s@.skip(n + 2)),
            ),
            None => cut_double(s@) is None,
        },
{
    let mut n: usize = 0;
    while n < s.len() && s.len() - n >= 2
        invariant
            n <= s@.len(),
            forall|i: int| 0 <= i < n ==> !#[trigger] double_at(s@, i),
        decreases s@.len() - n,
    {
        if s[n] == ':' && s[n + 1] == ':' {
            proof {
                cut_double_is_at_the_first(s@, n as int);
            }
            return Some(n);
        }
        n += 1;
    }
    proof {
        cut_double_is_at_the_first(s@, n as int);
    }
    None
}

fn read_v6(s: &[char]) -> (r: Option<Vec<u16>>)
    ensures
        match r {
            Some(words) => v6_groups(s@) == Some(words@) && words@.len() == 8,
            None => v6_groups(s@) is None,
        },
{
    match find_double(s) {
        None => match read_side(s, true) {
            Some(words) => if words.len() == 8 {
                Some(words)
            } else {
                None
            },
            None => None,
        },
        Some(n) => {
            let end: usize = s.len();
            let before: &[char] = &s[0..n];
            let after: &[char] = &s[n + 2..end];
            assert(before@ =~= s@.take(n as int));
            assert(after@ =~= s@.skip(n + 2));
            match (read_side(before, false), read_side(after, true)) {
                (Some(head), Some(tail)) => {
                    if head.len() > 7 || tail.len() > 7 - head.len() {
                        return None;
                    }
                    let ghost front = head@;
                    let mut words = head;
                    let zeros: usize = 8 - words.len() - tail.len();
                    let mut i: usize = 0;
                    while i < zeros
                        invariant
                            i <= zeros,
                            words@ == front + Seq::new(i as nat, |j: int| 0u16),
                        decreases zeros - i,
                    {
                        words.push(0);
                        i += 1;
                        assert(words@ =~= front + Seq::new(i as nat, |j: int| 0u16));
                    }
                    let ghost middle = words@;
                    words.extend_from_slice(tail.as_slice());
                    assert(words@ =~= middle + tail@);
                    Some(words)
                },
                _ => None,
            }
        },
    }
}

fn high(word: u16) -> (r: u8)
    ensures
        r == (word / 256) as u8,
{
    (word / 256) as u8
}

fn low(word: u16) -> (r: u8)
    ensures
        r == (word % 256) as u8,
{
    (word % 256) as u8
}

/// Reads an address literal: an IPv4 address as four decimal numbers with dots, or an IPv6
/// address in any of its textual forms, without a scope.
pub fn parse_ip(text: &str) -> (r: Option<IpAddress>)
    ensures
        match r {
            Some(ip) => spelled_by(text@) == Some(ip.spelled()),
            None => spelled_by(text@) is None,
        },
{
    let chars = chars_of(text);
    if let Some(octets) = read_v4(chars.as_slice()) {
        return Some(IpAddress::V4(octets));
    }
    match read_v6(chars.as_slice()) {
        Some(w) => {
            let octets: [u8; 16] = [
                high(w[0]),
                low(w[0]),
                high(w[1]),
                low(w[1]),
                high(w[2]),
                low(w[2]),
                high(w[3]),
                low(w[3]),
                high(w[4]),
                low(w[4]),
                high(w[5]),
                low(w[5]),
                high(w[6]),
                low(w[6]),
                high(w[7]),
                low(w[7]),
            ];
            assert(octets@ =~= group_octets(w@));
            Some(IpAddress::V6(octets))
        },
        None => None,
    }
}

pub(crate) proof fn split_whole(s: Seq<char>, c: char)
    requires
        !s.contains(c),
    ensures
        split(s, c) == seq![s],
{
    text::cut_is_at_the_first(s, c, s.len() as int);
}

proof fn split_first(a: Seq<char>, c: char, rest: Seq<char>)
    requires
        !a.contains(c),
    ensures
        split(a + seq![c] + rest, c) == seq![a] + split(rest, c),
{
    let s = a + seq![c] + rest;
    let n = a.len() as int;
    assert forall|i: int| 0 <= i < n implies s[i] != c by {
        assert(s[i] == a[i]);
    }
    assert(s[n] == c);
    text::cut_is_at_the_first(s, c, n);
    assert(s.take(n) =~= a);
    assert(s.skip(n + 1) =~= rest);
    cut_shortens(s, c);
}

pub(crate) proof fn split_last(front: Seq<char>, c: char, last: Seq<char>)
    requires
        !last.contains(c),
    ensures
        split(front + seq![c] + last, c) == split(front, c).push(last),
    decreases front.len(),
{
    let s = front + seq![c] + last;
    cut_shortens(front, c);
    match text::cut(front, c) {
        None => {
            if front.contains(c) {
                let n = find_first(front, c);
                text::cut_is_at_the_first(front, c, n);
            }
            split_first(front, c, last);
            split_whole(last, c);
            assert(seq![front] + seq![last] =~= seq![front].push(last));
        },
        Some((before, after)) => {
            let n = find_first(front, c);
            text::cut_is_at_the_first(front, c, n);
            assert(before == front.take(n) && after == front.skip(n + 1));
            assert(!before.contains(c));
            assert(front =~= before + seq![c] + after);
            assert(s =~= before + seq![c] + (after + seq![c] + last));
            split_first(before, c, after + seq![c] + last);
            split_first(before, c, after);
            split_last(after, c, last);
            assert((seq![before] + split(after, c)).push(last) =~= seq![before] + split(
                after,
                c,
            ).push(last));
        },
    }
}

proof fn find_first(s: Seq<char>, c: char) -> (n: int)
    ensures
        0 <= n <= s.len(),
        forall|i: int| 0 <= i < n ==> s[i] != c,
        n < s.len() ==> s[n] == c,
        text::cut(s, c) is Some ==> n < s.len(),
        s.contains(c) ==> n < s.len(),
    decreases s.len(),
{
    if s.len() == 0 || s[0] == c {
        0
    } else {
        let rest = s.skip(1);
        let n = find_first(rest, c);
        assert forall|i: int| 0 <= i < n + 1 implies s[i] != c by {
            if i > 0 {
                assert(s[i] == rest[i - 1]);
            }
        }
        if s.contains(c) {
            let k = s.index_of(c);
            assert(rest[k - 1] == c);
        }
        n + 1
    }
}

pub(crate) proof fn octets_read_back(b: u8)
    ensures
        octet(text::decimal(b as nat)) == Some(b),
        !text::decimal(b as nat).contains('.'),
        !text::decimal(b as nat).contains(':'),
{
    let s = text::decimal(b as nat);
    heads::numerals_have_their_value(b as nat);
    assert forall|i: int| 0 <= i < s.len() implies s[i] != '.' && s[i] != ':' by {
        assert('0' <= s[i] <= '9');
    }
    reveal_with_fuel(text::decimal, 3);
    if b >= 100 {
        assert(s[0] == text::digit((b / 100) as nat)) by {
            assert(text::decimal(b as nat / 10) == text::decimal((b as nat / 10) / 10).push(
                text::digit((b as nat / 10) % 10),
            ));
        }
    }
}

pub(crate) proof fn dotted_reads_back(bytes: Seq<u8>)
    requires
        bytes.len() == 4,
    ensures
        v4_octets(address::dotted(bytes)) == Some(bytes),
        split(address::dotted(bytes), '.').len() == 4,
        !address::dotted(bytes).contains(':'),
{
    let a = text::decimal(bytes[0] as nat);
    let b = text::decimal(bytes[1] as nat);
    let c = text::decimal(bytes[2] as nat);
    let d = text::decimal(bytes[3] as nat);
    octets_read_back(bytes[0]);
    octets_read_back(bytes[1]);
    octets_read_back(bytes[2]);
    octets_read_back(bytes[3]);
    let s = address::dotted(bytes);
    split_whole(d, '.');
    split_first(c, '.', d);
    split_first(b, '.', c + seq!['.'] + d);
    split_first(a, '.', b + seq!['.'] + (c + seq!['.'] + d));
    assert(s =~= a + seq!['.'] + (b + seq!['.'] + (c + seq!['.'] + d)));
    assert(split(s, '.') =~= seq![a, b, c, d]);
    assert(seq![bytes[0], bytes[1], bytes[2], bytes[3]] =~= bytes);
    if s.contains(':') {
        let k = s.index_of(':');
        let la = a.len() as int;
        let lb = la + 1 + b.len();
        let lc = lb + 1 + c.len();
        assert(s[k] == ':');
        if k < la {
            assert(a[k] == ':');
        } else if la < k < lb {
            assert(b[k - la - 1] == ':');
        } else if lb < k < lc {
            assert(c[k - lb - 1] == ':');
        } else if lc < k {
            assert(d[k - lc - 1] == ':');
        }
    }
}

proof fn hex_numerals_read_back(n: nat)
    ensures
        text::hexadecimal(n).len() > 0,
        all_hex(text::hexadecimal(n)),
        hex_value(text::hexadecimal(n)) == n,
    decreases n,
{
    let s = text::hexadecimal(n);
    assert forall|d: nat| d < 16 implies hex_digit_value(#[trigger] text::hex_digit(d)) == Some(
        d,
    ) by {}
    if n < 16 {
        assert(s.drop_last() =~= Seq::<char>::empty());
        assert(hex_value(Seq::<char>::empty()) == 0);
        assert(s.last() == text::hex_digit(n));
    } else {
        hex_numerals_read_back(n / 16);
        assert(s.drop_last() =~= text::hexadecimal(n / 16));
        assert(s.last() == text::hex_digit(n % 16));
        assert forall|i: int| 0 <= i < s.len() implies hex_digit_value(#[trigger] s[i]) is Some by {
            if i < s.len() - 1 {
                assert(s[i] == text::hexadecimal(n / 16)[i]);
            }
        }
    }
}

proof fn groups_read_back(w: u16)
    ensures
        group(text::hexadecimal(w as nat)) == Some(w),
        !text::hexadecimal(w as nat).contains(':'),
        !text::hexadecimal(w as nat).contains('.'),
        text::hexadecimal(w as nat).len() > 0,
{
    let s = text::hexadecimal(w as nat);
    hex_numerals_read_back(w as nat);
    reveal_with_fuel(text::hexadecimal, 4);
    assert forall|i: int| 0 <= i < s.len() implies s[i] != ':' && s[i] != '.' by {
        assert(hex_digit_value(s[i]) is Some);
    }
}

/// The numerals of groups.
pub open spec fn numerals(words: Seq<u16>) -> Seq<Seq<char>> {
    Seq::new(words.len(), |i: int| text::hexadecimal(words[i] as nat))
}

proof fn joined_groups(words: Seq<u16>)
    requires
        words.len() > 0,
    ensures
        ({
            let s = address::colon_joined(words);
            &&& split(s, ':') == numerals(words)
            &&& s.len() > 0
            &&& s[0] != ':'
            &&& s.last() != ':'
            &&& !s.contains('.')
            &&& forall|i: int| !#[trigger] double_at(s, i) || i < 0
        }),
    decreases words.len(),
{
    let s = address::colon_joined(words);
    let last = text::hexadecimal(words.last() as nat);
    groups_read_back(words.last());
    if words.len() == 1 {
        split_whole(s, ':');
        assert(numerals(words) =~= seq![s]);
        assert forall|i: int| i >= 0 implies !#[trigger] double_at(s, i) by {
            if double_at(s, i) {
                assert(s.contains(s[i]));
            }
        }
        assert(s.contains(s[0]));
        assert(s.contains(s.last()));
    } else {
        let fewer = words.drop_last();
        let front = address::colon_joined(fewer);
        joined_groups(fewer);
        split_last(front, ':', last);
        assert(numerals(words) =~= numerals(fewer).push(last));
        let n = front.len() as int;
        assert(s[0] == front[0]);
        assert(s.last() == last.last());
        assert(last.contains(last.last()));
        assert forall|i: int| i >= 0 implies !#[trigger] double_at(s, i) by {
            if i + 1 < n {
                assert(!double_at(front, i));
            } else if i + 1 == n {
                assert(s[i] == front.last());
            } else if i == n && i + 1 < s.len() {
                assert(s[i + 1] == last[0]);
                assert(last.contains(last[0]));
            } else if i > n && i + 1 < s.len() {
                assert(s[i] == last[i - n - 1]);
                assert(last.contains(last[i - n - 1]));
            }
        }
        if s.contains('.') {
            let k = s.index_of('.');
            assert(s[k] == '.');
            if k < n {
                assert(front.contains(front[k]));
            } else if k > n {
                assert(last.contains(last[k - n - 1]));
            }
        }
    }
}

proof fn sides_read_back(words: Seq<u16>, at_end: bool)
    ensures
        side(address::colon_joined(words), at_end) == Some(words),
{
    let s = address::colon_joined(words);
    if words.len() == 0 {
        assert(words =~= Seq::<u16>::empty());
    } else {
        joined_groups(words);
        let parts = numerals(words);
        groups_read_back(words.last());
        split_whole(parts.last(), '.');
        assert forall|i: int| 0 <= i < parts.len() implies group(#[trigger] parts[i]) == Some(
            words[i],
        ) by {
            groups_read_back(words[i]);
        }
        assert(groups_of(parts)->0 =~= words);
    }
}

proof fn zeros_run(words: Seq<u16>, i: int)
    requires
        0 <= i <= words.len(),
    ensures
        i + address::zero_run(words, i) <= words.len(),
        forall|j: int| i <= j < i + address::zero_run(words, i) ==> words[j] == 0,
    decreases words.len() - i,
{
    if i < words.len() && words[i] == 0 {
        zeros_run(words, i + 1);
    }
}

proof fn groups_give_octets(bytes: Seq<u8>)
    requires
        bytes.len() == 16,
    ensures
        group_octets(address::groups(bytes)) == bytes,
{
    let words = address::groups(bytes);
    assert forall|i: int| 0 <= i < 16 implies group_octets(words)[i] == bytes[i] by {
        let k = i / 2;
        assert(words[k] == bytes[2 * k] * 256 + bytes[2 * k + 1]);
    }
    assert(group_octets(words) =~= bytes);
}

pub(crate) proof fn no_dot_no_v4(s: Seq<char>)
    requires
        !s.contains('.'),
    ensures
        v4_octets(s) is None,
{
    split_whole(s, '.');
}

proof fn shortened_text_reads_back(words: Seq<u16>, start: int, len: int)
    requires
        words.len() == 8,
        0 <= start,
        len > 1,
        start + len <= 8,
        forall|j: int| start <= j < start + len ==> words[j] == 0,
    ensures
        ({
            let s = address::colon_joined(words.take(start)) + seq![':', ':']
                + address::colon_joined(words.skip(start + len));
            v4_octets(s) is None && v6_groups(s) == Some(words)
        }),
{
    let head = words.take(start);
    let tail = words.skip(start + len);
    let before = address::colon_joined(head);
    let after = address::colon_joined(tail);
    let s = before + seq![':', ':'] + after;
    sides_read_back(head, false);
    sides_read_back(tail, true);
    if head.len() > 0 {
        joined_groups(head);
    }
    if tail.len() > 0 {
        joined_groups(tail);
    }
    let n = before.len() as int;
    assert(double_at(s, n));
    assert forall|i: int| 0 <= i < n implies !#[trigger] double_at(s, i) by {
        if i + 1 < n {
            assert(!double_at(before, i));
        } else {
            assert(s[i] == before.last());
        }
    }
    cut_double_is_at_the_first(s, n);
    assert(s.take(n) =~= before);
    assert(s.skip(n + 2) =~= after);
    assert(v6_groups(s)->0 =~= words);
    if s.contains('.') {
        let k = s.index_of('.');
        assert(s[k] == '.');
        if k < n {
            assert(before.contains(before[k]));
        } else if k >= n + 2 {
            assert(after.contains(after[k - n - 2]));
        }
    }
    no_dot_no_v4(s);
}

proof fn full_text_reads_back(words: Seq<u16>)
    requires
        words.len() == 8,
    ensures
        v4_octets(address::colon_joined(words)) is None,
        v6_groups(address::colon_joined(words)) == Some(words),
{
    let s = address::colon_joined(words);
    sides_read_back(words, true);
    joined_groups(words);
    assert forall|i: int| 0 <= i < s.len() implies !#[trigger] double_at(s, i) by {}
    cut_double_is_at_the_first(s, s.len() as int);
    no_dot_no_v4(s);
}

proof fn v6_text_reads_back(bytes: Seq<u8>)
    requires
        bytes.len() == 16,
    ensures
        v4_octets(address::v6_text(bytes)) is None,
        v6_groups(address::v6_text(bytes)) == Some(address::groups(bytes)),
{
    let words = address::groups(bytes);
    let start = address::longest_run(words, 8);
    let len = address::zero_run(words, start);
    address::longest_run_is_first_longest(words, 8, 0);
    if address::is_mapped(words) {
        mapped_text_reads_back(bytes);
    } else if len > 1 {
        reveal_strlit("::");
        assert("::"@ =~= seq![':', ':']);
        zeros_run(words, start);
        shortened_text_reads_back(words, start, len as int);
    } else {
        full_text_reads_back(words);
    }
}

proof fn mapped_text_reads_back(bytes: Seq<u8>)
    requires
        bytes.len() == 16,
        address::is_mapped(address::groups(bytes)),
    ensures
        v4_octets(address::v6_text(bytes)) is None,
        v6_groups(address::v6_text(bytes)) == Some(address::groups(bytes)),
{
    reveal_strlit("::ffff:");
    let words = address::groups(bytes);
    let s = address::v6_text(bytes);
    let quad = bytes.skip(12);
    let dotted = address::dotted(quad);
    let ffff = seq!['f', 'f', 'f', 'f'];
    dotted_reads_back(quad);
    let after = ffff + seq![':'] + dotted;
    assert(s =~= seq![':', ':'] + after);
    assert(double_at(s, 0));
    cut_double_is_at_the_first(s, 0);
    assert(s.take(0) =~= Seq::<char>::empty());
    assert(s.skip(2) =~= after);
    assert(!ffff.contains(':'));
    split_first(ffff, ':', dotted);
    split_whole(dotted, ':');
    let parts = split(after, ':');
    assert(parts =~= seq![ffff, dotted]);
    assert(parts.drop_last() =~= seq![ffff]);
    assert(all_hex(ffff));
    assert(hex_value(ffff) == 0xffff) by {
        reveal_with_fuel(hex_value, 5);
        assert(ffff.drop_last() =~= seq!['f', 'f', 'f']);
        assert(ffff.drop_last().drop_last() =~= seq!['f', 'f']);
        assert(ffff.drop_last().drop_last().drop_last() =~= seq!['f']);
    }
    assert(group(parts.drop_last()[0]) == Some(0xffffu16));
    assert(groups_of(parts.drop_last())->0 =~= seq![0xffffu16]);
    let tail = seq![0xffffu16] + octet_groups(quad);
    assert(side(after, true) == Some(tail));
    assert(side(Seq::<char>::empty(), false) == Some(Seq::<u16>::empty()));
    assert(v6_groups(s)->0 =~= words) by {
        assert(words[6] == (bytes[12] * 256 + bytes[13]) as u16);
        assert(words[7] == (bytes[14] * 256 + bytes[15]) as u16);
        assert(words[0] == 0 && words[1] == 0 && words[2] == 0 && words[3] == 0 && words[4] == 0);
    }
    // The first piece between dots starts with a colon, so it is no octet.
    let pieces = split(s, '.');
    let n = find_first(s, '.');
    text::cut_is_at_the_first(s, '.', n);
    cut_shortens(s, '.');
    if n < s.len() {
        assert(n > 0);
        assert(pieces[0] == s.take(n));
        assert(pieces[0][0] == ':');
        assert(octet(pieces[0]) is None);
    } else {
        assert(pieces =~= seq![s]);
    }
}

/// Every address is told from a name by its text, and reads back from it: a host that is
/// recorded under an address is recognised as one.
pub proof fn addresses_read_back(ip: IpAddress)
    ensures
        spelled_by(address::ip_text(ip)) == Some(ip.spelled()),
{
    match ip {
        IpAddress::V4(bytes) => {
            dotted_reads_back(bytes@);
        },
        IpAddress::V6(bytes) => {
            v6_text_reads_back(bytes@);
            groups_give_octets(bytes@);
        },
    }
}

} // verus!
