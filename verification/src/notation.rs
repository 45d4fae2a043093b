//! Laws of written addresses: which text an address has, and which texts are addresses.

use vstd::prelude::*;

use crate::address;
use crate::address::{IpAddress, SocketAddress};
use crate::literal;
use crate::literal::Spelled;
use crate::proxy;
use crate::text;

verus! {

/// An IPv4 address is written as its four octets in decimal, in order, with dots between them.
pub proof fn dotted_addresses_show_their_octets(octets: [u8; 4])
    ensures
        address::ip_text(IpAddress::V4(octets)) == text::decimal(octets@[0] as nat) + seq!['.']
            + text::decimal(octets@[1] as nat) + seq!['.'] + text::decimal(octets@[2] as nat)
            + seq!['.'] + text::decimal(octets@[3] as nat),
{
}

/// A group of an IPv6 address is two octets, the high one first.
pub proof fn groups_are_pairs_of_octets(octets: Seq<u8>, i: int)
    requires
        octets.len() == 16,
        0 <= i < 8,
    ensures
        address::groups(octets).len() == 8,
        address::groups(octets)[i] == octets[2 * i] * 256 + octets[2 * i + 1],
{
}

/// Groups are written in hexadecimal with colons between them.
pub proof fn groups_are_joined_by_colons(a: Seq<u16>, b: Seq<u16>, word: u16)
    requires
        a.len() > 0,
        b.len() > 0,
    ensures
        address::colon_joined(Seq::<u16>::empty()) == Seq::<char>::empty(),
        address::colon_joined(seq![word]) == text::hexadecimal(word as nat),
        address::colon_joined(a + b) == address::colon_joined(a) + seq![':']
            + address::colon_joined(b),
    decreases b.len(),
{
    if b.len() == 1 {
        assert((a + b).drop_last() =~= a);
    } else {
        let fewer = b.drop_last();
        groups_are_joined_by_colons(a, fewer, word);
        assert((a + b).drop_last() =~= a + fewer);
        assert(address::colon_joined(a) + seq![':'] + address::colon_joined(fewer) + seq![':']
            + text::hexadecimal(b.last() as nat) =~= address::colon_joined(a) + seq![':']
            + address::colon_joined(b));
    }
}

/// Whether `n` groups from `start` on are zero.
pub open spec fn zeros(words: Seq<u16>, start: int, n: int) -> bool {
    &&& 0 <= start && 0 <= n && start + n <= words.len()
    &&& forall|i: int| start <= i < start + n ==> words[i] == 0
}

proof fn zero_runs_reach(words: Seq<u16>, start: int, n: int)
    requires
        zeros(words, start, n),
    ensures
        address::zero_run(words, start) >= n,
    decreases n,
{
    if n > 0 {
        assert(words[start] == 0);
        zero_runs_reach(words, start + 1, n - 1);
    }
}

proof fn zero_runs_are_zero(words: Seq<u16>, start: int)
    requires
        0 <= start <= words.len(),
    ensures
        zeros(words, start, address::zero_run(words, start) as int),
    decreases words.len() - start,
{
    if start < words.len() && words[start] == 0 {
        zero_runs_are_zero(words, start + 1);
    }
}

/// The longest run of two or more zero groups, and the first of those that are equally long, is
/// written as `::`, whatever stands around it.
pub proof fn the_first_longest_run_is_left_out(octets: [u8; 16], start: int, n: int)
    requires
        n >= 2,
        zeros(address::groups(octets@), start, n),
        forall|s: int, m: int| #[trigger] zeros(address::groups(octets@), s, m) ==> m <= n,
        forall|s: int| s < start ==> !#[trigger] zeros(address::groups(octets@), s, n),
        !address::is_mapped(address::groups(octets@)),
    ensures
        address::ip_text(IpAddress::V6(octets)) == address::colon_joined(
            address::groups(octets@).take(start),
        ) + seq![':', ':'] + address::colon_joined(address::groups(octets@).skip(start + n)),
{
    let words = address::groups(octets@);
    let best = address::longest_run(words, 8);
    reveal_strlit("::");
    assert("::"@ =~= seq![':', ':']);
    zero_runs_reach(words, start, n);
    zero_runs_are_zero(words, start);
    address::longest_run_is_first_longest(words, 8, start);
    zero_runs_are_zero(words, best);
    assert(zeros(words, best, n));
}

/// An address without two zero groups in a row is written in full.
pub proof fn addresses_without_runs_are_written_in_full(octets: [u8; 16])
    requires
        forall|s: int| !#[trigger] zeros(address::groups(octets@), s, 2),
    ensures
        address::ip_text(IpAddress::V6(octets)) == address::colon_joined(
            address::groups(octets@),
        ),
{
    let words = address::groups(octets@);
    let best = address::longest_run(words, 8);
    address::longest_run_is_first_longest(words, 8, 0);
    zero_runs_are_zero(words, best);
    if address::zero_run(words, best) > 1 {
        assert(zeros(words, best, 2));
    }
    if address::is_mapped(words) {
        assert(words[0] == 0 && words[1] == 0);
        assert(zeros(words, 0, 2));
    }
}

/// An address that stands for an IPv4 one, and only such an address, shows it behind `::ffff:`.
pub proof fn mapped_addresses_show_the_other(octets: [u8; 16])
    ensures
        address::is_mapped(address::groups(octets@)) <==> octets@[10] == 255 && octets@[11] == 255
            && forall|i: int| 0 <= i < 10 ==> #[trigger] octets@[i] == 0,
        address::is_mapped(address::groups(octets@)) ==> address::ip_text(IpAddress::V6(octets))
            == "::ffff:"@ + text::decimal(octets@[12] as nat) + seq!['.'] + text::decimal(
            octets@[13] as nat,
        ) + seq!['.'] + text::decimal(octets@[14] as nat) + seq!['.'] + text::decimal(
            octets@[15] as nat,
        ),
{
    let words = address::groups(octets@);
    assert(words[5] == octets@[10] * 256 + octets@[11]);
    if address::is_mapped(words) {
        assert forall|i: int| 0 <= i < 10 implies #[trigger] octets@[i] == 0 by {
            let k = i / 2;
            assert(words[k] == 0);
            assert(words[k] == octets@[2 * k] * 256 + octets@[2 * k + 1]);
        }
        assert(address::v6_text(octets@) =~= "::ffff:"@ + text::decimal(octets@[12] as nat) + seq![
            '.',
        ] + text::decimal(octets@[13] as nat) + seq!['.'] + text::decimal(octets@[14] as nat)
            + seq!['.'] + text::decimal(octets@[15] as nat));
    } else if octets@[10] == 255 && octets@[11] == 255 && (forall|i: int|
        0 <= i < 10 ==> #[trigger] octets@[i] == 0) {
        assert forall|i: int| 0 <= i < 5 implies words[i] == 0 by {
            assert(octets@[2 * i] == 0 && octets@[2 * i + 1] == 0);
        }
    }
}

/// A socket address is its address, in brackets and with its scope for IPv6, a colon and its port.
pub proof fn socket_addresses_show_their_parts(addr: SocketAddress)
    ensures
        ({
            let ip = address::ip_text(addr.ip);
            let port = seq![':'] + text::decimal(addr.port as nat);
            &&& addr.ip is V4 ==> address::socket_text(addr) == ip + port
            &&& addr.ip is V6 && addr.scope_id == 0 ==> address::socket_text(addr) == seq!['[']
                + ip + seq![']'] + port
            &&& addr.ip is V6 && addr.scope_id != 0 ==> address::socket_text(addr) == seq!['[']
                + ip + seq!['%'] + text::decimal(addr.scope_id as nat) + seq![']'] + port
        }),
{
}

proof fn numerals_are_settled(s: Seq<char>)
    requires
        s.len() > 0,
        proxy::all_digits(s),
        s.len() == 1 || s[0] != '0',
    ensures
        s == text::decimal(proxy::value(s)),
        s.len() > 1 ==> proxy::value(s) >= 10,
        s[0] != '0' ==> proxy::value(s) > 0,
    decreases s.len(),
{
    let front = s.drop_last();
    let d = (s.last() as int - '0' as int) as nat;
    assert('0' <= s[s.len() - 1] <= '9');
    assert('0' <= s[0] <= '9');
    assert(proxy::value(s) == proxy::value(front) * 10 + d);
    if s.len() == 1 {
        assert(proxy::value(front) == 0);
        assert(text::digit(d) == s[0]);
        assert(s =~= seq![s[0]]);
    } else {
        assert forall|i: int| 0 <= i < front.len() implies '0' <= #[trigger] front[i] <= '9' by {
            assert(front[i] == s[i]);
        }
        assert(front[0] == s[0]);
        numerals_are_settled(front);
        let n = proxy::value(s);
        assert(n / 10 == proxy::value(front) && n % 10 == d);
        assert(text::digit(d) == s.last());
        assert(s =~= front.push(s.last()));
    }
}

/// A text spells an octet if it is the decimal numeral of the octet, and not otherwise.
pub proof fn octets_are_their_numerals(s: Seq<char>, b: u8)
    ensures
        literal::octet(s) == Some(b) <==> s == text::decimal(b as nat),
{
    literal::octets_read_back(b);
    if literal::octet(s) == Some(b) {
        numerals_are_settled(s);
    }
}

proof fn pieces_join_again(s: Seq<char>, c: char)
    ensures
        ({
            let parts = literal::split(s, c);
            &&& parts.len() > 0
            &&& parts.len() == 1 ==> s == parts[0]
            &&& parts.len() > 1 ==> exists|rest: Seq<char>|
                s == #[trigger] (parts[0] + seq![c] + rest) && literal::split(rest, c)
                    == parts.skip(1)
        }),
{
    let parts = literal::split(s, c);
    literal::cut_shortens(s, c);
    match text::cut(s, c) {
        None => {},
        Some((before, after)) => {
            cuts_join_again(s, c);
            assert(parts.skip(1) =~= literal::split(after, c));
            assert(parts[0] == before);
            assert(s == parts[0] + seq![c] + after);
        },
    }
}

proof fn cuts_join_again(s: Seq<char>, c: char)
    ensures
        text::cut(s, c) matches Some((before, after)) ==> s == before + seq![c] + after,
    decreases s.len(),
{
    if s.len() > 0 {
        if s[0] == c {
            assert(s =~= Seq::<char>::empty() + seq![c] + s.skip(1));
        } else {
            cuts_join_again(s.skip(1), c);
            if let Some((before, after)) = text::cut(s.skip(1), c) {
                assert(s =~= seq![s[0]] + s.skip(1));
                assert(s =~= (seq![s[0]] + before) + seq![c] + after);
            }
        }
    }
}

/// A text spells an IPv4 address if it is the text of that address, and not otherwise: there is no
/// other way to write one.
pub proof fn dotted_addresses_have_one_spelling(s: Seq<char>, octets: [u8; 4])
    ensures
        literal::spelled_by(s) == Some(Spelled::V4(octets@)) <==> s == address::ip_text(
            IpAddress::V4(octets),
        ),
{
    literal::addresses_read_back(IpAddress::V4(octets));
    if literal::spelled_by(s) == Some(Spelled::V4(octets@)) {
        quads_have_one_spelling(s, octets@);
    }
}

proof fn quads_have_one_spelling(s: Seq<char>, octets: Seq<u8>)
    requires
        octets.len() == 4,
    ensures
        literal::v4_octets(s) == Some(octets) <==> s == address::dotted(octets),
{
    literal::dotted_reads_back(octets);
    if literal::v4_octets(s) == Some(octets) {
        let parts = literal::split(s, '.');
        octets_are_their_numerals(parts[0], octets[0]);
        octets_are_their_numerals(parts[1], octets[1]);
        octets_are_their_numerals(parts[2], octets[2]);
        octets_are_their_numerals(parts[3], octets[3]);
        let spelled = literal::v4_octets(s)->0;
        assert(spelled[0] == octets[0] && spelled[1] == octets[1]);
        assert(spelled[2] == octets[2] && spelled[3] == octets[3]);
        pieces_join_again(s, '.');
        let r1 = choose|rest: Seq<char>|
            s == #[trigger] (parts[0] + seq!['.'] + rest) && literal::split(rest, '.')
                == parts.skip(1);
        pieces_join_again(r1, '.');
        let p1 = parts.skip(1);
        let r2 = choose|rest: Seq<char>|
            r1 == #[trigger] (p1[0] + seq!['.'] + rest) && literal::split(rest, '.') == p1.skip(1);
        pieces_join_again(r2, '.');
        let p2 = p1.skip(1);
        let r3 = choose|rest: Seq<char>|
            r2 == #[trigger] (p2[0] + seq!['.'] + rest) && literal::split(rest, '.') == p2.skip(1);
        pieces_join_again(r3, '.');
        assert(s =~= address::dotted(octets));
    }
}

/// The value of a hexadecimal digit, or a negative number.
pub open spec fn hex_digit_of(c: char) -> int {
    if 48 <= c as int <= 57 {
        c as int - 48
    } else if 97 <= c as int <= 102 {
        c as int - 87
    } else if 65 <= c as int <= 70 {
        c as int - 55
    } else {
        -1
    }
}

/// A text spells a group if it is one to four hexadecimal digits of either case, and then the
/// group that these come to.
pub proof fn groups_are_hexadecimal(s: Seq<char>)
    ensures
        literal::group(s) is Some <==> 1 <= s.len() <= 4 && forall|i: int|
            0 <= i < s.len() ==> hex_digit_of(#[trigger] s[i]) >= 0,
        literal::group(s) matches Some(w) ==> w == (if s.len() == 1 {
            hex_digit_of(s[0])
        } else if s.len() == 2 {
            hex_digit_of(s[0]) * 16 + hex_digit_of(s[1])
        } else if s.len() == 3 {
            hex_digit_of(s[0]) * 256 + hex_digit_of(s[1]) * 16 + hex_digit_of(s[2])
        } else {
            hex_digit_of(s[0]) * 4096 + hex_digit_of(s[1]) * 256 + hex_digit_of(s[2]) * 16
                + hex_digit_of(s[3])
        }),
{
    reveal_with_fuel(literal::hex_value, 5);
    assert forall|i: int| 0 <= i < s.len() implies (hex_digit_of(#[trigger] s[i]) >= 0)
        == (literal::hex_digit_value(s[i]) is Some) by {}
    if literal::all_hex(s) {
        assert forall|i: int| 0 <= i < s.len() implies hex_digit_of(#[trigger] s[i]) >= 0 by {
            assert(literal::hex_digit_value(s[i]) is Some);
        }
    } else {
        let i = choose|i: int|
            0 <= i < s.len() && literal::hex_digit_value(#[trigger] s[i]) is None;
        assert(hex_digit_of(s[i]) < 0);
    }
    if literal::group(s) is Some {
        assert(literal::hex_digit_value(s[0]) is Some);
        if s.len() > 1 {
            assert(literal::hex_digit_value(s[1]) is Some);
        }
        if s.len() > 2 {
            assert(literal::hex_digit_value(s[2]) is Some);
        }
        if s.len() > 3 {
            assert(literal::hex_digit_value(s[3]) is Some);
        }
    }
}

/// Numerals with colons between them.
pub open spec fn with_colons(parts: Seq<Seq<char>>) -> Seq<char>
    decreases parts.len(),
{
    if parts.len() == 0 {
        Seq::empty()
    } else if parts.len() == 1 {
        parts[0]
    } else {
        with_colons(parts.drop_last()) + seq![':'] + parts.last()
    }
}

/// Whether every text spells the group at its place.
pub open spec fn spell_groups(parts: Seq<Seq<char>>, words: Seq<u16>) -> bool {
    &&& parts.len() == words.len()
    &&& forall|i: int| 0 <= i < parts.len() ==> literal::group(#[trigger] parts[i]) == Some(words[i])
}

proof fn numerals_have_no_marks(s: Seq<char>)
    requires
        literal::group(s) is Some,
    ensures
        !s.contains(':'),
        !s.contains('.'),
        s.len() > 0,
{
    assert forall|i: int| 0 <= i < s.len() implies s[i] != ':' && s[i] != '.' by {
        assert(literal::hex_digit_value(s[i]) is Some);
    }
}

proof fn joined_numerals(parts: Seq<Seq<char>>, words: Seq<u16>)
    requires
        spell_groups(parts, words),
        parts.len() > 0,
    ensures
        ({
            let s = with_colons(parts);
            &&& literal::split(s, ':') == parts
            &&& s.len() > 0
            &&& s[0] != ':'
            &&& s.last() != ':'
            &&& !s.contains('.')
            &&& forall|i: int| i >= 0 ==> !#[trigger] literal::double_at(s, i)
        }),
    decreases parts.len(),
{
    let s = with_colons(parts);
    let last = parts.last();
    assert(literal::group(parts[parts.len() - 1]) is Some);
    numerals_have_no_marks(last);
    if parts.len() == 1 {
        literal::split_whole(s, ':');
        assert(parts =~= seq![s]);
        assert forall|i: int| i >= 0 implies !#[trigger] literal::double_at(s, i) by {
            if literal::double_at(s, i) {
                assert(s.contains(s[i]));
            }
        }
        assert(s.contains(s[0]));
        assert(s.contains(s.last()));
    } else {
        let fewer = parts.drop_last();
        let front = with_colons(fewer);
        assert forall|i: int| 0 <= i < fewer.len() implies literal::group(#[trigger] fewer[i])
            == Some(words.drop_last()[i]) by {
            assert(fewer[i] == parts[i]);
        }
        joined_numerals(fewer, words.drop_last());
        literal::split_last(front, ':', last);
        assert(parts =~= fewer.push(last));
        let n = front.len() as int;
        assert(s[0] == front[0]);
        assert(s.last() == last.last());
        assert(last.contains(last.last()));
        assert forall|i: int| i >= 0 implies !#[trigger] literal::double_at(s, i) by {
            if i + 1 < n {
                assert(!literal::double_at(front, i));
            } else if i + 1 == n {
                assert(s[i] == front.last());
            } else if i == n && i + 1 < s.len() {
                assert(s[i + 1] == last[0]);
                assert(last.contains(last[0]));
            } else if i > n && i + 1 < s.len() {
                assert(s[i] == last[i - n - 1]);
                assert(last.contains(last[i - n - 1]));
            }
        }
        if s.contains('.') {
            let k = s.index_of('.');
            assert(s[k] == '.');
            if k < n {
                assert(front.contains(front[k]));
            } else if k > n {
                assert(last.contains(last[k - n - 1]));
            }
        }
    }
}

proof fn sides_spell_groups(parts: Seq<Seq<char>>, words: Seq<u16>, at_end: bool)
    requires
        spell_groups(parts, words),
    ensures
        literal::side(with_colons(parts), at_end) == Some(words),
{
    if parts.len() == 0 {
        assert(words =~= Seq::<u16>::empty());
    } else {
        joined_numerals(parts, words);
        assert(literal::group(parts[parts.len() - 1]) is Some);
        numerals_have_no_marks(parts.last());
        literal::no_dot_no_v4(parts.last());
        assert(literal::groups_of(parts)->0 =~= words);
    }
}

/// The octets of eight groups, the high one of each first.
pub open spec fn has_octets(octets: Seq<u8>, words: Seq<u16>) -> bool {
    &&& octets.len() == 2 * words.len()
    &&& forall|i: int|
        0 <= i < words.len() ==> octets[2 * i] * 256 + octets[2 * i + 1] == #[trigger] words[i]
}

proof fn octets_of_groups(words: Seq<u16>)
    ensures
        has_octets(literal::group_octets(words), words),
{
    let octets = literal::group_octets(words);
    assert forall|i: int| 0 <= i < words.len() implies octets[2 * i] * 256 + octets[2 * i + 1]
        == #[trigger] words[i] by {
        assert((2 * i) % 2 == 0 && (2 * i) / 2 == i);
        assert((2 * i + 1) % 2 == 1 && (2 * i + 1) / 2 == i);
    }
}

/// Groups with colons between them spell an IPv6 address where there are eight, and none
/// otherwise.
pub proof fn eight_groups_spell_an_address(parts: Seq<Seq<char>>, words: Seq<u16>)
    requires
        spell_groups(parts, words),
        parts.len() > 0,
    ensures
        words.len() == 8 ==> (literal::spelled_by(with_colons(parts)) matches Some(
            Spelled::V6(octets),
        ) && has_octets(octets, words)),
        words.len() != 8 ==> literal::spelled_by(with_colons(parts)) is None,
{
    let s = with_colons(parts);
    joined_numerals(parts, words);
    sides_spell_groups(parts, words, true);
    assert forall|i: int| 0 <= i < s.len() implies !#[trigger] literal::double_at(s, i) by {}
    literal::cut_double_is_at_the_first(s, s.len() as int);
    literal::no_dot_no_v4(s);
    octets_of_groups(words);
}

/// A `::` stands for as many zero groups as are missing, of which there must be one.
pub proof fn missing_groups_are_zero(
    front: Seq<Seq<char>>,
    head: Seq<u16>,
    back: Seq<Seq<char>>,
    tail: Seq<u16>,
)
    requires
        spell_groups(front, head),
        spell_groups(back, tail),
    ensures
        ({
            let s = with_colons(front) + seq![':', ':'] + with_colons(back);
            let n = 8 - head.len() - tail.len();
            &&& n >= 1 ==> (literal::spelled_by(s) matches Some(Spelled::V6(octets)) && has_octets(
                octets,
                head + Seq::new(n as nat, |i: int| 0u16) + tail,
            ))
            &&& n < 1 ==> literal::spelled_by(s) is None
        }),
{
    let before = with_colons(front);
    let after = with_colons(back);
    let s = before + seq![':', ':'] + after;
    let n = before.len() as int;
    sides_spell_groups(front, head, false);
    sides_spell_groups(back, tail, true);
    if front.len() > 0 {
        joined_numerals(front, head);
    }
    if back.len() > 0 {
        joined_numerals(back, tail);
    }
    assert(literal::double_at(s, n));
    assert forall|i: int| 0 <= i < n implies !#[trigger] literal::double_at(s, i) by {
        if i + 1 < n {
            assert(!literal::double_at(before, i));
        } else {
            assert(s[i] == before.last());
        }
    }
    literal::cut_double_is_at_the_first(s, n);
    assert(s.take(n) =~= before);
    assert(s.skip(n + 2) =~= after);
    if s.contains('.') {
        let k = s.index_of('.');
        assert(s[k] == '.');
        if k < n {
            assert(before.contains(before[k]));
        } else if k >= n + 2 {
            assert(after.contains(after[k - n - 2]));
        }
    }
    literal::no_dot_no_v4(s);
    if head.len() + tail.len() <= 7 {
        octets_of_groups(
            head + Seq::new((8 - head.len() - tail.len()) as nat, |i: int| 0u16) + tail,
        );
    }
}

/// Whether texts spell groups, or all but the last do and that is an IPv4 address which spells the
/// last two.
pub open spec fn spell_tail(parts: Seq<Seq<char>>, words: Seq<u16>) -> bool {
    spell_groups(parts, words) || parts.len() > 0 && exists|octets: Seq<u8>|
        #[trigger] ends_in_quad(parts, words, octets)
}

/// Whether the last text is the IPv4 address of `octets`, which are the last two groups.
pub open spec fn ends_in_quad(parts: Seq<Seq<char>>, words: Seq<u16>, octets: Seq<u8>) -> bool {
    let n = words.len() - 2;
    &&& octets.len() == 4
    &&& n >= 0
    &&& parts.last() == address::dotted(octets)
    &&& spell_groups(parts.drop_last(), words.take(n))
    &&& words[n] == octets[0] * 256 + octets[1]
    &&& words[n + 1] == octets[2] * 256 + octets[3]
}

proof fn colons_rule_quads_out(s: Seq<char>)
    requires
        s.contains(':'),
    ensures
        literal::v4_octets(s) is None,
{
    if let Some(octets) = literal::v4_octets(s) {
        quads_have_one_spelling(s, octets);
        literal::dotted_reads_back(octets);
    }
}

proof fn tails_spell_groups(parts: Seq<Seq<char>>, words: Seq<u16>)
    requires
        spell_tail(parts, words),
    ensures
        literal::side(with_colons(parts), true) == Some(words),
        forall|i: int| i >= 0 ==> !#[trigger] literal::double_at(with_colons(parts), i),
        parts.len() > 0 ==> with_colons(parts).len() > 0 && with_colons(parts)[0] != ':',
        parts.len() > 1 ==> with_colons(parts).contains(':'),
{
    let s = with_colons(parts);
    if spell_groups(parts, words) {
        sides_spell_groups(parts, words, true);
        if parts.len() > 0 {
            joined_numerals(parts, words);
        }
    } else {
        let octets = choose|octets: Seq<u8>| #[trigger] ends_in_quad(parts, words, octets);
        let quad = address::dotted(octets);
        let fewer = parts.drop_last();
        let n = words.len() - 2;
        let front = with_colons(fewer);
        literal::dotted_reads_back(octets);
        literal::octets_read_back(octets[0]);
        assert(quad.len() > 0 && quad[0] != ':') by {
            assert(quad.contains(quad[0]));
        }
        if fewer.len() == 0 {
            literal::split_whole(quad, ':');
            assert(parts =~= seq![quad]);
            assert(s == quad);
        } else {
            joined_numerals(fewer, words.take(n));
            literal::split_last(front, ':', quad);
            assert(parts =~= fewer.push(quad));
            assert(s == front + seq![':'] + quad);
            assert(s[0] == front[0]);
        }
        assert(literal::split(s, ':') == parts);
        assert(parts.drop_last() =~= fewer);
        assert(literal::groups_of(fewer)->0 =~= words.take(n));
        assert(words.take(n) + literal::octet_groups(octets) =~= words);
        let m = front.len() as int;
        assert forall|i: int| i >= 0 implies !#[trigger] literal::double_at(s, i) by {
            if fewer.len() == 0 {
                if literal::double_at(s, i) {
                    assert(quad.contains(quad[i]));
                }
            } else if i + 1 < m {
                assert(!literal::double_at(front, i));
            } else if i + 1 == m {
                assert(s[i] == front.last());
            } else if i == m && i + 1 < s.len() {
                assert(s[i + 1] == quad[0]);
            } else if i > m && i + 1 < s.len() {
                assert(s[i] == quad[i - m - 1]);
                assert(quad.contains(quad[i - m - 1]));
            }
        }
    }
    if parts.len() > 1 {
        assert(s[with_colons(parts.drop_last()).len() as int] == ':');
    }
}

/// The last two groups of an IPv6 address may be written as an IPv4 address, with all groups
/// before it or with a `::`.
pub proof fn tails_may_be_dotted(
    front: Seq<Seq<char>>,
    head: Seq<u16>,
    back: Seq<Seq<char>>,
    tail: Seq<u16>,
)
    requires
        spell_groups(front, head),
        spell_tail(back, tail),
    ensures
        tail.len() == 8 ==> (literal::spelled_by(with_colons(back)) matches Some(
            Spelled::V6(octets),
        ) && has_octets(octets, tail)),
        ({
            let s = with_colons(front) + seq![':', ':'] + with_colons(back);
            let n = 8 - head.len() - tail.len();
            &&& n >= 1 ==> (literal::spelled_by(s) matches Some(Spelled::V6(octets)) && has_octets(
                octets,
                head + Seq::new(n as nat, |i: int| 0u16) + tail,
            ))
            &&& n < 1 ==> literal::spelled_by(s) is None
        }),
{
    let before = with_colons(front);
    let after = with_colons(back);
    let s = before + seq![':', ':'] + after;
    let n = before.len() as int;
    sides_spell_groups(front, head, false);
    tails_spell_groups(back, tail);
    if front.len() > 0 {
        joined_numerals(front, head);
    }
    assert(literal::double_at(s, n));
    assert forall|i: int| 0 <= i < n implies !#[trigger] literal::double_at(s, i) by {
        if i + 1 < n {
            assert(!literal::double_at(before, i));
        } else {
            assert(s[i] == before.last());
        }
    }
    literal::cut_double_is_at_the_first(s, n);
    assert(s.take(n) =~= before);
    assert(s.skip(n + 2) =~= after);
    assert(s[n] == ':');
    colons_rule_quads_out(s);
    if head.len() + tail.len() <= 7 {
        octets_of_groups(
            head + Seq::new((8 - head.len() - tail.len()) as nat, |i: int| 0u16) + tail,
        );
    }
    if tail.len() == 8 {
        assert(back.len() > 1);
        assert forall|i: int| 0 <= i < after.len() implies !#[trigger] literal::double_at(
            after,
            i,
        ) by {}
        literal::cut_double_is_at_the_first(after, after.len() as int);
        colons_rule_quads_out(after);
        octets_of_groups(tail);
    }
}

proof fn first_piece_then_others(first: Seq<char>, others: Seq<Seq<char>>)
    requires
        others.len() > 0,
    ensures
        with_colons(seq![first] + others) == first + seq![':'] + with_colons(others),
    decreases others.len(),
{
    let all = seq![first] + others;
    assert(all.last() == others.last());
    if others.len() == 1 {
        assert(all.drop_last() =~= seq![first]);
        assert(with_colons(seq![first]) == first);
        assert(with_colons(others) == others.last());
    } else {
        let fewer = others.drop_last();
        first_piece_then_others(first, fewer);
        assert(all.drop_last() =~= seq![first] + fewer);
        assert(first + seq![':'] + with_colons(fewer) + seq![':'] + others.last() =~= first + seq![
            ':',
        ] + with_colons(others));
    }
}

proof fn pieces_make_the_text(s: Seq<char>)
    ensures
        with_colons(literal::split(s, ':')) == s,
        literal::split(s, ':').len() > 0,
    decreases s.len(),
{
    literal::cut_shortens(s, ':');
    cuts_join_again(s, ':');
    if let Some((before, after)) = text::cut(s, ':') {
        pieces_make_the_text(after);
        first_piece_then_others(before, literal::split(after, ':'));
    }
}

proof fn sides_are_made_of_numerals(s: Seq<char>, words: Seq<u16>, at_end: bool) -> (parts: Seq<
    Seq<char>,
>)
    requires
        literal::side(s, at_end) == Some(words),
    ensures
        s == with_colons(parts),
        spell_tail(parts, words),
        !at_end ==> spell_groups(parts, words),
{
    if s.len() == 0 {
        let none = Seq::<Seq<char>>::empty();
        assert(s =~= with_colons(none));
        none
    } else {
        let parts = literal::split(s, ':');
        pieces_make_the_text(s);
        if at_end && literal::v4_octets(parts.last()) is Some {
            let octets = literal::v4_octets(parts.last())->0;
            let fewer = parts.drop_last();
            quads_have_one_spelling(parts.last(), octets);
            let front = literal::groups_of(fewer)->0;
            assert(words == front + literal::octet_groups(octets));
            assert(words.take(words.len() - 2) =~= front);
            assert forall|i: int| 0 <= i < fewer.len() implies literal::group(#[trigger] fewer[i])
                == Some(front[i]) by {}
            assert(ends_in_quad(parts, words, octets));
        } else {
            assert forall|i: int| 0 <= i < parts.len() implies literal::group(#[trigger] parts[i])
                == Some(words[i]) by {}
        }
        parts
    }
}

/// There is no other way to write an IPv6 address: a text that spells one is eight groups with
/// colons between them, or fewer around a `::`, the last two of them written as they are or as an
/// IPv4 address.
pub proof fn other_texts_spell_no_address(s: Seq<char>, octets: Seq<u8>) -> (r: (
    Seq<Seq<char>>,
    Seq<u16>,
    Seq<Seq<char>>,
    Seq<u16>,
))
    requires
        literal::spelled_by(s) == Some(Spelled::V6(octets)),
    ensures
        ({
            let (front, head, back, tail) = r;
            &&& spell_groups(front, head)
            &&& spell_tail(back, tail)
            &&& s == with_colons(back) && tail.len() == 8 && has_octets(octets, tail) || s
                == with_colons(front) + seq![':', ':'] + with_colons(back) && head.len()
                + tail.len() <= 7 && has_octets(
                octets,
                head + Seq::new((8 - head.len() - tail.len()) as nat, |i: int| 0u16) + tail,
            )
        }),
{
    let words = literal::v6_groups(s)->0;
    octets_of_groups(words);
    doubles_join_again(s);
    match literal::cut_double(s) {
        None => {
            let back = sides_are_made_of_numerals(s, words, true);
            (Seq::empty(), Seq::empty(), back, words)
        },
        Some((before, after)) => {
            let head = literal::side(before, false)->0;
            let tail = literal::side(after, true)->0;
            let front = sides_are_made_of_numerals(before, head, false);
            let back = sides_are_made_of_numerals(after, tail, true);
            (front, head, back, tail)
        },
    }
}

/// Whether a text is made of hexadecimal digits, dots and colons.
pub open spec fn only_address_characters(s: Seq<char>) -> bool {
    forall|i: int|
        0 <= i < s.len() ==> hex_digit_of(#[trigger] s[i]) >= 0 || s[i] == '.' || s[i] == ':'
}

proof fn pieces_tell_the_characters(s: Seq<char>, c: char)
    requires
        c == '.' || c == ':',
        forall|i: int|
            0 <= i < literal::split(s, c).len() ==> only_address_characters(
                #[trigger] literal::split(s, c)[i],
            ),
    ensures
        only_address_characters(s),
    decreases s.len(),
{
    let parts = literal::split(s, c);
    literal::cut_shortens(s, c);
    cuts_join_again(s, c);
    match text::cut(s, c) {
        None => {
            assert(parts[0] == s);
        },
        Some((before, after)) => {
            let others = literal::split(after, c);
            assert(parts[0] == before);
            assert forall|i: int| 0 <= i < others.len() implies only_address_characters(
                #[trigger] others[i],
            ) by {
                assert(others[i] == parts[i + 1]);
            }
            pieces_tell_the_characters(after, c);
            assert forall|i: int| 0 <= i < s.len() implies hex_digit_of(#[trigger] s[i]) >= 0
                || s[i] == '.' || s[i] == ':' by {
                if i < before.len() {
                    assert(s[i] == before[i]);
                } else if i > before.len() {
                    assert(s[i] == after[i - before.len() - 1]);
                }
            }
        },
    }
}

proof fn octet_characters(s: Seq<char>)
    requires
        literal::octet(s) is Some,
    ensures
        only_address_characters(s),
{
    assert forall|i: int| 0 <= i < s.len() implies hex_digit_of(#[trigger] s[i]) >= 0 by {
        assert('0' <= s[i] <= '9');
    }
}

proof fn dotted_characters(s: Seq<char>)
    requires
        literal::v4_octets(s) is Some,
    ensures
        only_address_characters(s),
{
    let parts = literal::split(s, '.');
    octet_characters(parts[0]);
    octet_characters(parts[1]);
    octet_characters(parts[2]);
    octet_characters(parts[3]);
    assert forall|i: int| 0 <= i < parts.len() implies only_address_characters(
        #[trigger] parts[i],
    ) by {
        assert(i == 0 || i == 1 || i == 2 || i == 3);
    }
    pieces_tell_the_characters(s, '.');
}

proof fn side_characters(s: Seq<char>, at_end: bool)
    requires
        literal::side(s, at_end) is Some,
    ensures
        only_address_characters(s),
{
    if s.len() > 0 {
        let parts = literal::split(s, ':');
        pieces_join_again(s, ':');
        let quad = at_end && literal::v4_octets(parts.last()) is Some;
        if quad {
            dotted_characters(parts.last());
        }
        assert forall|i: int| 0 <= i < parts.len() implies only_address_characters(
            #[trigger] parts[i],
        ) by {
            if !(quad && i == parts.len() - 1) {
                if quad {
                    assert(parts.drop_last()[i] == parts[i]);
                }
                assert(literal::group(parts[i]) is Some);
                groups_are_hexadecimal(parts[i]);
            }
        }
        pieces_tell_the_characters(s, ':');
    }
}

proof fn doubles_join_again(s: Seq<char>)
    ensures
        literal::cut_double(s) matches Some((before, after)) ==> s == before + seq![':', ':']
            + after,
    decreases s.len(),
{
    if s.len() >= 2 {
        if s[0] == ':' && s[1] == ':' {
            assert(s =~= Seq::<char>::empty() + seq![':', ':'] + s.skip(2));
        } else {
            doubles_join_again(s.skip(1));
            if let Some((before, after)) = literal::cut_double(s.skip(1)) {
                assert(s =~= seq![s[0]] + s.skip(1));
                assert(s =~= (seq![s[0]] + before) + seq![':', ':'] + after);
            }
        }
    }
}

/// A text with any other character than hexadecimal digits, dots and colons is no address, so a
/// host of such a name is never looked up.
pub proof fn other_characters_spell_no_address(s: Seq<char>)
    requires
        !only_address_characters(s),
    ensures
        literal::spelled_by(s) is None,
{
    if literal::v4_octets(s) is Some {
        dotted_characters(s);
    } else if literal::v6_groups(s) is Some {
        doubles_join_again(s);
        match literal::cut_double(s) {
            None => {
                side_characters(s, true);
            },
            Some((before, after)) => {
                side_characters(before, false);
                side_characters(after, true);
                let n = before.len() as int;
                assert forall|i: int| 0 <= i < s.len() implies hex_digit_of(#[trigger] s[i]) >= 0
                    || s[i] == '.' || s[i] == ':' by {
                    if i < n {
                        assert(s[i] == before[i]);
                    } else if i >= n + 2 {
                        assert(s[i] == after[i - n - 2]);
                    }
                }
            },
        }
    }
}

} // verus!
