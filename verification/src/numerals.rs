//! Laws of characters, numerals and columns: what printed texts show, character by character.

use vstd::arithmetic::div_mod::lemma_div_denominator;
use vstd::arithmetic::power::{lemma_pow0, lemma_pow1, lemma_pow_adds, lemma_pow_positive, pow};
use vstd::arithmetic::power2::{lemma2_to64, lemma_pow2_pos, lemma_pow2_strictly_increases, pow2};
use vstd::prelude::*;

use crate::report;
use crate::rounding;
use crate::text;

verus! {

/// Lower case moves the codes of `A` to `Z` up by thirty-two and leaves every other character
/// alone, one by one.
pub proof fn lower_case_moves_capitals(s: Seq<char>)
    ensures
        text::lowered(s).len() == s.len(),
        forall|i: int|
            0 <= i < s.len() ==> (#[trigger] text::lowered(s)[i]) as int == (if 65 <= s[i] as int
                <= 90 {
                s[i] as int + 32
            } else {
                s[i] as int
            }),
{
}

/// A text without its leading run of a character is the end of it, from the first character that
/// is another.
pub proof fn trimming_takes_the_leading_run(s: Seq<char>, c: char)
    ensures
        ({
            let kept = text::trim_start(s, c);
            let n = s.len() - kept.len();
            &&& n >= 0
            &&& kept == s.skip(n)
            &&& forall|i: int| 0 <= i < n ==> #[trigger] s[i] == c
            &&& kept.len() > 0 ==> kept[0] != c
        }),
    decreases s.len(),
{
    let kept = text::trim_start(s, c);
    let n = s.len() - kept.len();
    if s.len() > 0 && s[0] == c {
        let rest = s.skip(1);
        trimming_takes_the_leading_run(rest, c);
        assert(kept =~= s.skip(n));
        assert forall|i: int| 0 <= i < n implies #[trigger] s[i] == c by {
            if i > 0 {
                assert(rest[i - 1] == c);
            }
        }
    } else {
        assert(kept =~= s.skip(n));
    }
}

/// Of two texts that agree up to some position and no further, the one that ends there, or has
/// the smaller code there, comes first.
pub proof fn texts_are_ordered_by_their_first_difference(a: Seq<char>, b: Seq<char>, k: int)
    requires
        0 <= k <= a.len(),
        k <= b.len(),
        forall|i: int| 0 <= i < k ==> a[i] == b[i],
        k < a.len() && k < b.len() ==> a[k] != b[k],
    ensures
        text::lex_less(a, b) <==> k < b.len() && (k == a.len() || (a[k] as int) < (b[k] as int)),
    decreases k,
{
    if k > 0 {
        let x = a.skip(1);
        let y = b.skip(1);
        assert forall|i: int| 0 <= i < k - 1 implies x[i] == y[i] by {
            assert(a[i + 1] == b[i + 1]);
        }
        if k < a.len() && k < b.len() {
            assert(x[k - 1] == a[k] && y[k - 1] == b[k]);
        }
        assert(a[0] == b[0]);
        texts_are_ordered_by_their_first_difference(x, y, k - 1);
    }
}

/// A text ends with another where something stands before that, or nothing.
pub proof fn endings_stand_at_the_end(front: Seq<char>, end: Seq<char>, s: Seq<char>)
    ensures
        text::ends_with(front + end, end),
        text::ends_with(s, end) ==> s.len() >= end.len() && s == s.take(s.len() - end.len()) + end,
{
    assert((front + end).skip(front.len() as int) =~= end);
    if text::ends_with(s, end) {
        assert(s =~= s.take(s.len() - end.len()) + s.skip(s.len() - end.len()));
    }
}

/// A decimal numeral has a digit for every power of ten that its value reaches, and one for zero:
/// counted from the right, the digit at `k` is that of ten to the `k`.
pub proof fn numerals_show_their_digits(n: nat, k: nat)
    ensures
        ({
            let s = text::decimal(n);
            &&& s.len() > 0
            &&& n < pow(10, s.len())
            &&& s.len() > 1 ==> pow(10, (s.len() - 1) as nat) <= n
            &&& k < s.len() ==> s[s.len() - 1 - k] as int == 48 + (n as int / pow(10, k)) % 10
        }),
    decreases n,
{
    let s = text::decimal(n);
    lemma_pow0(10);
    lemma_pow1(10);
    if n >= 10 {
        let front = text::decimal(n / 10);
        assert(s == front.push(text::digit(n % 10)));
        lemma_pow_adds(10, 1, front.len());
        assert(pow(10, s.len()) == 10 * pow(10, front.len()));
        if front.len() > 1 {
            lemma_pow_adds(10, 1, (front.len() - 1) as nat);
        }
        if k == 0 {
            numerals_show_their_digits(n / 10, 0);
            assert(n as int / 1 == n);
        } else {
            let j = (k - 1) as nat;
            numerals_show_their_digits(n / 10, j);
            lemma_pow_adds(10, 1, j);
            lemma_pow_positive(10, j);
            lemma_div_denominator(n as int, 10, pow(10, j));
            if k < s.len() {
                assert(s[s.len() - 1 - k] == front[front.len() - 1 - j]);
            }
        }
    } else if k == 0 {
        assert(n as int / 1 == n);
    }
}

/// The numeral of a negative number is that of its amount behind a minus sign, and the numeral of
/// another number has no sign.
pub proof fn signs_stand_before_numerals(n: int)
    ensures
        n < 0 ==> text::signed_decimal(n).len() > 0 && text::signed_decimal(n)[0] == '-'
            && text::signed_decimal(n).skip(1) == text::decimal((-n) as nat),
        n >= 0 ==> text::signed_decimal(n) == text::decimal(n as nat),
{
    if n < 0 {
        assert(text::signed_decimal(n).skip(1) =~= text::decimal((-n) as nat));
    }
}

/// A hexadecimal numeral has a digit for every power of sixteen that its value reaches, and one
/// for zero; digits above nine are small letters.
pub proof fn hexadecimals_show_their_digits(n: nat, k: nat)
    ensures
        ({
            let s = text::hexadecimal(n);
            let d = (n as int / pow(16, k)) % 16;
            &&& s.len() > 0
            &&& n < pow(16, s.len())
            &&& s.len() > 1 ==> pow(16, (s.len() - 1) as nat) <= n
            &&& k < s.len() ==> s[s.len() - 1 - k] as int == (if d < 10 {
                48 + d
            } else {
                87 + d
            })
        }),
    decreases n,
{
    let s = text::hexadecimal(n);
    lemma_pow0(16);
    lemma_pow1(16);
    if n >= 16 {
        let front = text::hexadecimal(n / 16);
        assert(s == front.push(text::hex_digit(n % 16)));
        lemma_pow_adds(16, 1, front.len());
        assert(pow(16, s.len()) == 16 * pow(16, front.len()));
        if front.len() > 1 {
            lemma_pow_adds(16, 1, (front.len() - 1) as nat);
        }
        if k == 0 {
            hexadecimals_show_their_digits(n / 16, 0);
            assert(n as int / 1 == n);
        } else {
            let j = (k - 1) as nat;
            hexadecimals_show_their_digits(n / 16, j);
            lemma_pow_adds(16, 1, j);
            lemma_pow_positive(16, j);
            lemma_div_denominator(n as int, 16, pow(16, j));
            if k < s.len() {
                assert(s[s.len() - 1 - k] == front[front.len() - 1 - j]);
            }
        }
    } else if k == 0 {
        assert(n as int / 1 == n);
    }
}

/// A byte is shown as `0x` and two hexadecimal digits, the high one first.
pub proof fn bytes_show_their_digits(b: u8)
    ensures
        ({
            let s = text::hex_byte(b);
            let high = b as int / 16;
            let low = b as int % 16;
            &&& s.len() == 4
            &&& s[0] == '0' && s[1] == 'x'
            &&& s[2] as int == (if high < 10 {
                48 + high
            } else {
                87 + high
            })
            &&& s[3] as int == (if low < 10 {
                48 + low
            } else {
                87 + low
            })
        }),
{
}

/// A text in a column is kept whole, at the left, at the right or in the middle, with blanks up to
/// the width of the column; of an odd number of blanks, the middle leaves one more to the right.
#[verifier::spinoff_prover]
pub proof fn columns_are_filled_with_blanks(s: Seq<char>, width: nat)
    ensures
        ({
            let blanks = if s.len() < width {
                width - s.len()
            } else {
                0
            };
            let left = text::flush_left(s, width);
            let right = text::flush_right(s, width);
            let middle = text::centred(s, width);
            &&& left.len() == s.len() + blanks
            &&& left.take(s.len() as int) == s
            &&& forall|i: int| s.len() <= i < left.len() ==> #[trigger] left[i] == ' '
            &&& right.len() == s.len() + blanks
            &&& right.skip(blanks) == s
            &&& forall|i: int| 0 <= i < blanks ==> #[trigger] right[i] == ' '
            &&& middle.len() == s.len() + blanks
            &&& middle.subrange(blanks / 2, blanks / 2 + s.len()) == s
            &&& forall|i: int|
                0 <= i < blanks / 2 || blanks / 2 + s.len() <= i < middle.len()
                    ==> #[trigger] middle[i] == ' '
        }),
{
    let blanks = text::missing(s.len(), width) as int;
    assert(text::flush_left(s, width).take(s.len() as int) =~= s);
    assert(text::flush_right(s, width).skip(blanks) =~= s);
    assert(text::centred(s, width).subrange(blanks / 2, blanks / 2 + s.len()) =~= s);
}

/// A rule is as many of its character as it is wide.
pub proof fn rules_are_one_character(c: char, n: nat)
    ensures
        text::repeated(c, n).len() == n,
        forall|i: int| 0 <= i < n ==> #[trigger] text::repeated(c, n)[i] == c,
{
}

/// A text that is too long is cut so that it and an ellipsis fill the width.
pub proof fn cuts_are_marked(s: Seq<char>, max: nat)
    ensures
        s.len() <= max ==> report::elided(s, max) == s,
        s.len() > max && max > 0 ==> {
            &&& report::elided(s, max).len() == max
            &&& report::elided(s, max).take(max - 1) == s.take(max - 1)
            &&& report::elided(s, max)[max - 1] as int == 0x2026
        },
        s.len() > max && max == 0 ==> report::elided(s, max).len() == 1 && report::elided(
            s,
            max,
        )[0] as int == 0x2026,
{
    if s.len() > max && max > 0 {
        assert(report::elided(s, max).take(max - 1) =~= s.take(max - 1));
    }
}

/// A number of hundredths is shown as its whole part, a point, and two digits.
#[verifier::spinoff_prover]
pub proof fn hundredths_show_two_decimals(h: nat)
    ensures
        ({
            let s = rounding::two_decimals(h);
            let whole = text::decimal(h / 100);
            &&& s.len() == whole.len() + 3
            &&& s.take(whole.len() as int) == whole
            &&& s[whole.len() as int] == '.'
            &&& s[whole.len() as int + 1] as int == 48 + h as int / 10 % 10
            &&& s[whole.len() as int + 2] as int == 48 + h as int % 10
        }),
{
    let whole = text::decimal(h / 100);
    assert(rounding::two_decimals(h).take(whole.len() as int) =~= whole);
    assert(h % 100 / 10 == h / 10 % 10);
}

/// Rounding gives the nearest whole number, and of two that are equally near the even one.
pub proof fn rounding_is_to_the_nearest(n: nat, d: nat)
    requires
        d > 0,
    ensures
        is_nearest(rounding::nearest_even(n, d) as int, n as int, d as int),
{
    rounding::nearest_is_within_half(n, d);
    let q = n / d;
    let r = n % d;
    vstd::arithmetic::div_mod::lemma_fundamental_div_mod(n as int, d as int);
    assert(q * d == d * q) by (nonlinear_arith);
    assert((q + 1) * d == q * d + d) by (nonlinear_arith);
}

/// Whether `r` is the whole number nearest to `n / d`, the even one of two that are equally near.
pub open spec fn is_nearest(r: int, n: int, d: int) -> bool {
    &&& 2 * (r * d - n) <= d
    &&& 2 * (n - r * d) <= d
    &&& 2 * (r * d - n) == d || 2 * (n - r * d) == d ==> r % 2 == 0
}

/// There is only one nearest whole number.
pub proof fn nearest_is_settled(a: int, b: int, n: int, d: int)
    requires
        d > 0,
        is_nearest(a, n, d),
        is_nearest(b, n, d),
    ensures
        a == b,
{
    if a != b {
        let (lo, hi) = if a < b {
            (a, b)
        } else {
            (b, a)
        };
        assert((hi - lo) * d == hi * d - lo * d) by (nonlinear_arith);
        assert((hi - lo) * d >= d) by (nonlinear_arith)
            requires
                hi - lo >= 1,
                d > 0,
        ;
        assert((hi - lo) * d <= d);
        assert(hi - lo == 1) by (nonlinear_arith)
            requires
                (hi - lo) * d <= d,
                hi - lo >= 1,
                d > 0,
        ;
    }
}

/// Whether `k` is the number of low bits that an integer has beyond fifty-three.
pub open spec fn bits_beyond(n: int, k: nat) -> bool {
    &&& n < 0x20_0000_0000_0000 * pow2(k)
    &&& k > 0 ==> n >= 0x20_0000_0000_0000 * pow2((k - 1) as nat)
}

proof fn bits_beyond_are_settled(n: int, a: nat, b: nat)
    requires
        bits_beyond(n, a),
        bits_beyond(n, b),
    ensures
        a == b,
{
    lemma2_to64();
    if a < b {
        if a < b - 1 {
            lemma_pow2_strictly_increases(a, (b - 1) as nat);
        }
    } else if b < a {
        if b < a - 1 {
            lemma_pow2_strictly_increases(b, (a - 1) as nat);
        }
    }
}

proof fn excess_bits_lie_beyond(n: nat)
    ensures
        bits_beyond(n as int, rounding::excess_bits(n)),
    decreases n,
{
    lemma2_to64();
    if n >= 0x20_0000_0000_0000 {
        let k = rounding::excess_bits(n / 2);
        excess_bits_lie_beyond(n / 2);
        vstd::arithmetic::power2::lemma_pow2_unfold(k + 1);
        if k > 0 {
            vstd::arithmetic::power2::lemma_pow2_unfold(k);
        }
        assert(rounding::excess_bits(n) == k + 1);
    }
}

/// The double of an integer is the nearest multiple of the last bit that a double of that size
/// has; ties go to the even multiple.
pub proof fn doubles_have_fifty_three_bits(n: nat, k: nat) -> (significand: int)
    requires
        bits_beyond(n as int, k),
    ensures
        is_nearest(significand, n as int, pow2(k) as int),
        rounding::as_double(n) == significand * pow2(k),
        n < 0x20_0000_0000_0000 ==> rounding::as_double(n) == n,
{
    excess_bits_lie_beyond(n);
    bits_beyond_are_settled(n as int, k, rounding::excess_bits(n));
    lemma_pow2_pos(k);
    rounding_is_to_the_nearest(n, pow2(k));
    if n < 0x20_0000_0000_0000 {
        rounding::small_integers_are_doubles(n);
    }
    rounding::significand(n) as int
}

/// A byte count below a kilobyte is shown whole.
pub proof fn small_counts_are_shown_whole(bytes: u64)
    requires
        bytes < 1024,
    ensures
        report::bytes_text(bytes) == text::decimal(bytes as nat) + seq![' ', 'B'],
{
    reveal_strlit(" B");
    assert(" B"@ =~= seq![' ', 'B']);
}

/// A byte count from a kilobyte on is shown in the largest of the units that it reaches, rounded
/// to two decimals. Below two to the fifty-third that is the count itself; above, it is the
/// double of the count.
pub proof fn counts_are_shown_in_their_unit(bytes: u64) -> (hundredths: nat)
    requires
        bytes >= 1024,
    ensures
        ({
            let (size, letter) = if bytes < 1048576 {
                (1024int, 'K')
            } else if bytes < 1073741824 {
                (1048576int, 'M')
            } else if bytes < 1099511627776 {
                (1073741824int, 'G')
            } else if bytes < 1125899906842624 {
                (1099511627776int, 'T')
            } else {
                (1125899906842624int, 'P')
            };
            let amount = if bytes < 0x20_0000_0000_0000 {
                bytes as nat
            } else {
                rounding::as_double(bytes as nat)
            };
            &&& report::bytes_text(bytes) == rounding::two_decimals(hundredths) + seq![
                ' ',
                letter,
                'B',
            ]
            &&& is_nearest(hundredths as int, 100 * amount as int, size)
        }),
{
    reveal_strlit(" ");
    reveal_strlit("KB");
    reveal_strlit("MB");
    reveal_strlit("GB");
    reveal_strlit("TB");
    reveal_strlit("PB");
    let n = bytes as nat;
    let m = rounding::as_double(n);
    if n < 0x20_0000_0000_0000 {
        rounding::small_integers_are_doubles(n);
    } else {
        doubles_of_large_counts_are_large(n);
    }
    let (size, name) = report::unit(m);
    let h = rounding::nearest_even(100 * m, size);
    rounding_is_to_the_nearest(100 * m, size);
    let letter = name[0];
    assert(rounding::two_decimals(h) + " "@ + name =~= rounding::two_decimals(h) + seq![
        ' ',
        letter,
        'B',
    ]);
    h
}

proof fn doubles_of_large_counts_are_large(n: nat)
    requires
        n >= 0x20_0000_0000_0000,
    ensures
        rounding::as_double(n) >= 0x4_0000_0000_0000,
{
    let k = rounding::excess_bits(n);
    rounding::doubles_are_nearest(n);
    lemma2_to64();
    assert(k > 0);
    vstd::arithmetic::power2::lemma_pow2_unfold(k);
    lemma_pow2_pos((k - 1) as nat);
    let half = pow2((k - 1) as nat) as int;
    assert(rounding::as_double(n) >= n - half);
    assert(0x20_0000_0000_0000 * half - half >= 0x4_0000_0000_0000) by (nonlinear_arith)
        requires
            half >= 1,
    ;
}

proof fn widening_doubles(m: nat, steps: nat)
    requires
        m < 1000 * 0x20_0000_0000_0000,
    ensures
        ({
            let (wide, end) = rounding::widened(m, steps);
            &&& end >= steps
            &&& wide == m * pow2((end - steps) as nat)
            &&& m > 0 ==> 2 * wide >= 1000 * 0x20_0000_0000_0000
            &&& wide < 1000 * 0x20_0000_0000_0000
        }),
    decreases 1000 * 0x20_0000_0000_0000 - m,
{
    lemma2_to64();
    if m > 0 && 2 * m < 1000 * 0x20_0000_0000_0000 {
        widening_doubles(2 * m, steps + 1);
        let (wide, end) = rounding::widened(2 * m, steps + 1);
        let less = (end - (steps + 1)) as nat;
        vstd::arithmetic::power2::lemma_pow2_unfold(less + 1);
        assert((2 * m) * pow2(less) == m * (2 * pow2(less))) by (nonlinear_arith);
    } else {
        assert(m * 1 == m) by (nonlinear_arith);
    }
}

/// A duration in milliseconds is shown as seconds rounded as doubles are: the milliseconds to
/// fifty-three bits (`m`, times two to the `k`), the seconds to fifty-three bits (`q`, times two
/// to the `k - s`), and those to two decimals.
pub proof fn durations_are_rounded_as_doubles(ms: nat, k: nat) -> (r: (int, int, nat))
    requires
        ms > 0,
        bits_beyond(ms as int, k),
    ensures
        ({
            let (m, q, s) = r;
            let h = rounding::thousandths_to_hundredths(ms) as int;
            &&& is_nearest(m, ms as int, pow2(k) as int)
            &&& 500 * 0x20_0000_0000_0000 <= m * pow2(s) < 1000 * 0x20_0000_0000_0000
            &&& is_nearest(q, m * pow2(s), 1000)
            &&& k >= s ==> h == 100 * q * pow2((k - s) as nat)
            &&& k < s ==> is_nearest(h, 100 * q, pow2((s - k) as nat) as int)
        }),
{
    excess_bits_lie_beyond(ms);
    bits_beyond_are_settled(ms as int, k, rounding::excess_bits(ms));
    lemma_pow2_pos(k);
    rounding_is_to_the_nearest(ms, pow2(k));
    rounding::doubles_are_nearest(ms);
    let m = rounding::significand(ms);
    assert(m > 0) by {
        lemma2_to64();
        if k == 0 {
            assert(m * 1 == m) by (nonlinear_arith);
        } else {
            vstd::arithmetic::power2::lemma_pow2_unfold(k);
            lemma_pow2_pos((k - 1) as nat);
            if m == 0 {
                assert(m * pow2(k) == 0) by (nonlinear_arith)
                    requires
                        m == 0,
                ;
            }
        }
    }
    widening_doubles(m, 0);
    let (wide, s) = rounding::widened(m, 0);
    let q = rounding::nearest_even(wide, 1000);
    rounding_is_to_the_nearest(wide, 1000);
    if k < s {
        lemma_pow2_pos((s - k) as nat);
        rounding_is_to_the_nearest(100 * q, pow2((s - k) as nat));
    }
    (m as int, q as int, s)
}

/// A duration of fewer than fifty-three bits of milliseconds is rounded twice: the seconds to
/// fifty-three bits, and those to two decimals.
pub proof fn durations_are_rounded_twice(ms: nat) -> (r: (int, nat))
    requires
        0 < ms < 0x20_0000_0000_0000,
    ensures
        ({
            let (q, s) = r;
            &&& 500 * 0x20_0000_0000_0000 <= ms * pow2(s) < 1000 * 0x20_0000_0000_0000
            &&& is_nearest(q, (ms * pow2(s)) as int, 1000)
            &&& is_nearest(
                rounding::thousandths_to_hundredths(ms) as int,
                100 * q,
                pow2(s) as int,
            )
        }),
{
    lemma2_to64();
    let (m, q, s) = durations_are_rounded_as_doubles(ms, 0);
    assert(m == ms) by {
        assert(is_nearest(ms as int, ms as int, 1));
        nearest_is_settled(m, ms as int, ms as int, 1);
    }
    if s == 0 {
        assert(ms * 1 == ms) by (nonlinear_arith);
    }
    (q, s)
}

/// What is shown of a duration is within half of a hundredth of a second.
pub proof fn durations_are_shown_to_the_hundredth(ms: nat)
    requires
        ms < 0x20_0000_0000_0000,
    ensures
        ms <= 10 * rounding::thousandths_to_hundredths(ms) + 5,
        10 * rounding::thousandths_to_hundredths(ms) <= ms + 5,
{
    let h = rounding::thousandths_to_hundredths(ms) as int;
    if ms == 0 {
        rounding::small_integers_are_doubles(0);
        lemma2_to64();
        assert(rounding::widened(0, 0) == (0nat, 0nat));
        assert(rounding::significand(0) == 0) by {
            assert(rounding::significand(0) * 1 == rounding::significand(0)) by (nonlinear_arith);
        }
        assert(100 * 0 * pow2(0) == 0);
    } else {
        let (q, s) = durations_are_rounded_twice(ms);
        let p = pow2(s) as int;
        let m = ms as int;
        assert(p >= 500) by (nonlinear_arith)
            requires
                500 * 0x20_0000_0000_0000 <= m * p,
                m < 0x20_0000_0000_0000,
                m > 0,
        ;
        assert(p > 500) by {
            lemma2_to64();
            if s < 9 {
                if s < 8 {
                    lemma_pow2_strictly_increases(s, 8);
                }
            } else if s > 9 {
                lemma_pow2_strictly_increases(9, s);
            }
        }
        let w = m * p;
        assert((10 * h - m) * p == 10 * (h * p) - w) by (nonlinear_arith)
            requires
                w == m * p,
        ;
        assert(2 * (h * p - 100 * q) <= p && 2 * (100 * q - h * p) <= p);
        assert((10 * h - m) * p < 6 * p && (10 * h - m) * p > -6 * p);
        assert(10 * h - m < 6 && 10 * h - m > -6) by (nonlinear_arith)
            requires
                (10 * h - m) * p < 6 * p,
                (10 * h - m) * p > -6 * p,
                p > 0,
        ;
    }
}

} // verus!
