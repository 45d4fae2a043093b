//! Character-level text operations with exact contracts.
//!
//! Texts are modelled as sequences of characters. The functions here are the vocabulary in
//! which the rest of the crate states what it prints and how it compares names.

use vstd::prelude::*;

verus! {

/// `String::push` appends one character to the end of the text.
pub assume_specification[ String::push ](string: &mut String, ch: char)
    ensures
        final(string)@ == old(string)@.push(ch),
;

/// The characters of an optional text.
pub open spec fn of_str(s: Option<&str>) -> Option<Seq<char>> {
    match s {
        Some(s) => Some(s@),
        None => None,
    }
}

/// The characters of an optional string.
pub open spec fn of_string(s: Option<String>) -> Option<Seq<char>> {
    match s {
        Some(s) => Some(s@),
        None => None,
    }
}

/// The ASCII lower-case form of a character; every other character is left alone.
pub open spec fn lower(c: char) -> char {
    if 'A' <= c && c <= 'Z' {
        ((c as u32) + 32) as char
    } else {
        c
    }
}

/// Every character of `text` in ASCII lower case.
pub open spec fn lowered(text: Seq<char>) -> Seq<char> {
    Seq::new(text.len(), |i: int| lower(text[i]))
}

/// `text` without the run of `c` at its end.
pub open spec fn trim_end(text: Seq<char>, c: char) -> Seq<char>
    decreases text.len(),
{
    if text.len() > 0 && text.last() == c {
        trim_end(text.drop_last(), c)
    } else {
        text
    }
}

/// `text` without the run of `c` at its start.
pub open spec fn trim_start(text: Seq<char>, c: char) -> Seq<char>
    decreases text.len(),
{
    if text.len() > 0 && text[0] == c {
        trim_start(text.skip(1), c)
    } else {
        text
    }
}

/// The decimal digit of a value below ten.
pub open spec fn digit(n: nat) -> char {
    (48 + n) as char
}

/// The shortest decimal numeral of `n`.
pub open spec fn decimal(n: nat) -> Seq<char>
    decreases n,
{
    if n < 10 {
        seq![digit(n)]
    } else {
        decimal(n / 10).push(digit(n % 10))
    }
}

/// The decimal numeral of a signed value.
pub open spec fn signed_decimal(n: int) -> Seq<char> {
    if n < 0 {
        seq!['-'] + decimal((-n) as nat)
    } else {
        decimal(n as nat)
    }
}

/// The lower-case hexadecimal digit of a value below sixteen.
pub open spec fn hex_digit(n: nat) -> char {
    if n < 10 {
        (48 + n) as char
    } else {
        (87 + n) as char
    }
}

/// The shortest lower-case hexadecimal numeral of `n`.
pub open spec fn hexadecimal(n: nat) -> Seq<char>
    decreases n,
{
    if n < 16 {
        seq![hex_digit(n)]
    } else {
        hexadecimal(n / 16).push(hex_digit(n % 16))
    }
}

/// A byte as `0x` and exactly two hexadecimal digits.
pub open spec fn hex_byte(b: u8) -> Seq<char> {
    seq!['0', 'x', hex_digit((b / 16) as nat), hex_digit((b % 16) as nat)]
}

/// `n` copies of `c`.
pub open spec fn repeated(c: char, n: nat) -> Seq<char> {
    Seq::new(n, |i: int| c)
}

/// How many characters of padding bring a text of length `len` up to `width`.
pub open spec fn missing(len: nat, width: nat) -> nat {
    if len < width {
        (width - len) as nat
    } else {
        0
    }
}

/// `text` flush left in a column of `width` characters; a longer text is kept whole.
pub open spec fn flush_left(text: Seq<char>, width: nat) -> Seq<char> {
    text + repeated(' ', missing(text.len(), width))
}

/// `text` flush right in a column of `width` characters; a longer text is kept whole.
pub open spec fn flush_right(text: Seq<char>, width: nat) -> Seq<char> {
    repeated(' ', missing(text.len(), width)) + text
}

/// `text` centred in a column of `width` characters, an odd blank going to the right.
pub open spec fn centred(text: Seq<char>, width: nat) -> Seq<char> {
    let blanks = missing(text.len(), width);
    repeated(' ', blanks / 2) + text + repeated(' ', (blanks - blanks / 2) as nat)
}

/// `s` cut at the first `c`: what stands before it and what stands behind it.
pub open spec fn cut(s: Seq<char>, c: char) -> Option<(Seq<char>, Seq<char>)>
    decreases s.len(),
{
    if s.len() == 0 {
        None
    } else if s[0] == c {
        Some((Seq::empty(), s.skip(1)))
    } else {
        match cut(s.skip(1), c) {
            Some((before, after)) => Some((seq![s[0]] + before, after)),
            None => None,
        }
    }
}

/// Whether `a` comes strictly before `b` in the order of code points.
pub open spec fn lex_less(a: Seq<char>, b: Seq<char>) -> bool
    decreases a.len(),
{
    if b.len() == 0 {
        false
    } else if a.len() == 0 {
        true
    } else if a[0] != b[0] {
        a[0] < b[0]
    } else {
        lex_less(a.skip(1), b.skip(1))
    }
}

/// Whether `text` ends with `suffix`.
pub open spec fn ends_with(text: Seq<char>, suffix: Seq<char>) -> bool {
    suffix.len() <= text.len() && text.skip(text.len() - suffix.len()) == suffix
}

/// The characters of `text`, in order.
pub fn chars_of(text: &str) -> (r: Vec<char>)
    ensures
        r@ == text@,
{
    let mut out: Vec<char> = Vec::new();
    for c in iter: text.chars()
        invariant
            iter.seq() == text@,
            out@ == iter.seq().take(iter.index()),
    {
        out.push(c);
    }
    out
}

/// The text made of `chars`.
pub fn text_of(chars: &[char]) -> (r: String)
    ensures
        r@ == chars@,
{
    let mut out = String::new();
    let mut i: usize = 0;
    while i < chars.len()
        invariant
            i <= chars.len(),
            out@ == chars@.take(i as int),
        decreases chars.len() - i,
    {
        out.push(chars[i]);
        i += 1;
    }
    assert(chars@.take(i as int) == chars@);
    out
}

/// The ASCII lower-case form of one character.
pub fn lower_char(c: char) -> (r: char)
    ensures
        r == lower(c),
{
    if 'A' <= c && c <= 'Z' {
        let code: u8 = c as u8;
        (code + 32) as char
    } else {
        c
    }
}

/// The ASCII lower-case form of a run of characters.
pub fn lower_chars(chars: &[char]) -> (r: Vec<char>)
    ensures
        r@ == lowered(chars@),
{
    let mut out: Vec<char> = Vec::new();
    let mut i: usize = 0;
    while i < chars.len()
        invariant
            i <= chars.len(),
            out@.len() == i,
            forall|j: int| 0 <= j < i ==> out@[j] == lower(chars@[j]),
        decreases chars.len() - i,
    {
        out.push(lower_char(chars[i]));
        i += 1;
    }
    assert(out@ =~= lowered(chars@));
    out
}

/// How many characters of `chars` remain once the run of `c` at its end is removed.
pub fn trimmed_len(chars: &[char], c: char) -> (n: usize)
    ensures
        n <= chars@.len(),
        chars@.take(n as int) == trim_end(chars@, c),
{
    let mut n: usize = chars.len();
    assert(chars@.take(n as int) == chars@);
    while n > 0 && chars[n - 1] == c
        invariant
            n <= chars@.len(),
            trim_end(chars@.take(n as int), c) == trim_end(chars@, c),
        decreases n,
    {
        assert(chars@.take(n as int).drop_last() == chars@.take(n - 1));
        n -= 1;
    }
    n
}

/// How many characters the run of `c` at the start of `chars` holds.
pub fn leading_run(chars: &[char], c: char) -> (n: usize)
    ensures
        n <= chars@.len(),
        chars@.skip(n as int) == trim_start(chars@, c),
{
    let mut n: usize = 0;
    assert(chars@.skip(0) == chars@);
    while n < chars.len() && chars[n] == c
        invariant
            n <= chars@.len(),
            trim_start(chars@.skip(n as int), c) == trim_start(chars@, c),
        decreases chars@.len() - n,
    {
        assert(chars@.skip(n as int).skip(1) == chars@.skip(n + 1));
        n += 1;
    }
    n
}

/// Whether two runs of characters are equal.
pub fn same_chars(a: &[char], b: &[char]) -> (r: bool)
    ensures
        r == (a@ == b@),
{
    if a.len() != b.len() {
        return false;
    }
    let mut i: usize = 0;
    while i < a.len()
        invariant
            a@.len() == b@.len(),
            i <= a@.len(),
            forall|j: int| 0 <= j < i ==> a@[j] == b@[j],
        decreases a@.len() - i,
    {
        if a[i] != b[i] {
            return false;
        }
        i += 1;
    }
    assert(a@ =~= b@);
    true
}

/// The first position from `start` on at which `c` stands, or the end.
pub fn find_char(chars: &[char], c: char, start: usize) -> (n: usize)
    requires
        start <= chars@.len(),
    ensures
        start <= n <= chars@.len(),
        forall|i: int| start <= i < n ==> chars@[i] != c,
        n < chars@.len() ==> chars@[n as int] == c,
{
    let mut n: usize = start;
    while n < chars.len() && chars[n] != c
        invariant
            start <= n <= chars@.len(),
            forall|i: int| start <= i < n ==> chars@[i] != c,
        decreases chars@.len() - n,
    {
        n += 1;
    }
    n
}

/// Whether two texts are equal.
pub fn same_text(a: &str, b: &str) -> (r: bool)
    ensures
        r == (a@ == b@),
{
    let left = chars_of(a);
    let right = chars_of(b);
    same_chars(left.as_slice(), right.as_slice())
}

/// Whether `a` comes strictly before `b` in the order of code points.
pub fn text_less(a: &str, b: &str) -> (r: bool)
    ensures
        r == lex_less(a@, b@),
{
    let left = chars_of(a);
    let right = chars_of(b);
    let mut i: usize = 0;
    proof {
        assert(left@.skip(0) == left@);
        assert(right@.skip(0) == right@);
    }
    while i < left.len() && i < right.len()
        invariant
            left@ == a@,
            right@ == b@,
            i <= left@.len(),
            i <= right@.len(),
            lex_less(a@, b@) == lex_less(left@.skip(i as int), right@.skip(i as int)),
        decreases left@.len() - i,
    {
        proof {
            assert(left@.skip(i as int).skip(1) == left@.skip(i + 1));
            assert(right@.skip(i as int).skip(1) == right@.skip(i + 1));
        }
        if left[i] != right[i] {
            return left[i] < right[i];
        }
        i += 1;
    }
    i < right.len()
}

/// Appends the decimal numeral of `n`.
pub fn push_decimal(out: &mut String, n: u128)
    ensures
        final(out)@ == old(out)@ + decimal(n as nat),
    decreases n,
{
    if n >= 10 {
        push_decimal(out, n / 10);
    }
    let d: u8 = (n % 10) as u8;
    out.push((48 + d) as char);
}

/// Appends the lower-case hexadecimal numeral of `n`.
pub fn push_hexadecimal(out: &mut String, n: u16)
    ensures
        final(out)@ == old(out)@ + hexadecimal(n as nat),
    decreases n,
{
    if n >= 16 {
        push_hexadecimal(out, n / 16);
    }
    out.push(hex_char((n % 16) as u8));
}

fn hex_char(n: u8) -> (c: char)
    requires
        n < 16,
    ensures
        c == hex_digit(n as nat),
{
    if n < 10 {
        (48 + n) as char
    } else {
        (87 + n) as char
    }
}

/// Appends `0x` and the two hexadecimal digits of `b`.
pub fn push_hex_byte(out: &mut String, b: u8)
    ensures
        final(out)@ == old(out)@ + hex_byte(b),
{
    out.push('0');
    out.push('x');
    out.push(hex_char(b / 16));
    out.push(hex_char(b % 16));
}

/// The decimal numeral of `n`.
pub fn decimal_text(n: u128) -> (r: String)
    ensures
        r@ == decimal(n as nat),
{
    let mut out = String::new();
    push_decimal(&mut out, n);
    out
}

/// Appends the decimal numeral of a signed value.
pub fn push_signed(out: &mut String, n: i32)
    ensures
        final(out)@ == old(out)@ + signed_decimal(n as int),
{
    let wide: i64 = n as i64;
    if wide < 0 {
        out.push('-');
        push_decimal(out, (-wide) as u128);
    } else {
        push_decimal(out, wide as u128);
    }
}

/// Appends `n` copies of `c`.
pub fn push_repeated(out: &mut String, c: char, n: usize)
    ensures
        final(out)@ == old(out)@ + repeated(c, n as nat),
{
    let mut i: usize = 0;
    while i < n
        invariant
            i <= n,
            out@ == old(out)@ + repeated(c, i as nat),
        decreases n - i,
    {
        out.push(c);
        i += 1;
        assert(repeated(c, i as nat) =~= repeated(c, (i - 1) as nat).push(c));
    }
}

fn blanks_for(text: &str, width: usize) -> (n: usize)
    ensures
        n == missing(text@.len(), width as nat),
{
    let len: usize = text.unicode_len();
    if len < width {
        width - len
    } else {
        0
    }
}

/// Appends `text` flush left in a column of `width` characters.
pub fn push_flush_left(out: &mut String, text: &str, width: usize)
    ensures
        final(out)@ == old(out)@ + flush_left(text@, width as nat),
{
    let blanks: usize = blanks_for(text, width);
    out.append(text);
    push_repeated(out, ' ', blanks);
}

/// Appends `text` flush right in a column of `width` characters.
pub fn push_flush_right(out: &mut String, text: &str, width: usize)
    ensures
        final(out)@ == old(out)@ + flush_right(text@, width as nat),
{
    let blanks: usize = blanks_for(text, width);
    push_repeated(out, ' ', blanks);
    out.append(text);
}

/// Appends `text` centred in a column of `width` characters.
pub fn push_centred(out: &mut String, text: &str, width: usize)
    ensures
        final(out)@ == old(out)@ + centred(text@, width as nat),
{
    let blanks: usize = blanks_for(text, width);
    push_repeated(out, ' ', blanks / 2);
    out.append(text);
    push_repeated(out, ' ', blanks - blanks / 2);
}

/// Lower-casing twice is lower-casing once.
pub proof fn lowered_is_stable(text: Seq<char>)
    ensures
        lowered(lowered(text)) == lowered(text),
{
    assert(lowered(lowered(text)) =~= lowered(text));
}

/// A text is never before itself, and of two different texts exactly one is before the other.
pub proof fn lex_less_is_total(a: Seq<char>, b: Seq<char>)
    ensures
        !lex_less(a, a),
        a == b || lex_less(a, b) || lex_less(b, a),
        !(lex_less(a, b) && lex_less(b, a)),
    decreases a.len(),
{
    if a.len() > 0 && b.len() > 0 {
        lex_less_is_total(a.skip(1), b.skip(1));
        if a.skip(1) == b.skip(1) && a[0] == b[0] {
            assert(a =~= seq![a[0]] + a.skip(1));
            assert(b =~= seq![b[0]] + b.skip(1));
        }
        lex_less_is_total(a.skip(1), a.skip(1));
    } else if a.len() > 0 {
        lex_less_is_total(a.skip(1), a.skip(1));
    } else {
        assert(b.len() == 0 ==> a =~= b);
    }
}

/// The order of texts is transitive.
pub proof fn lex_less_is_transitive(a: Seq<char>, b: Seq<char>, c: Seq<char>)
    requires
        lex_less(a, b),
        lex_less(b, c),
    ensures
        lex_less(a, c),
    decreases a.len(),
{
    if a.len() > 0 && b.len() > 0 && c.len() > 0 && a[0] == b[0] && b[0] == c[0] {
        lex_less_is_transitive(a.skip(1), b.skip(1), c.skip(1));
    }
}

/// A trimmed text does not end in what was trimmed.
pub proof fn trimmed_ends_otherwise(text: Seq<char>, c: char)
    ensures
        trim_end(text, c).len() > 0 ==> trim_end(text, c).last() != c,
    decreases text.len(),
{
    if text.len() > 0 && text.last() == c {
        trimmed_ends_otherwise(text.drop_last(), c);
    }
}

/// Cutting at a character finds its first occurrence.
pub proof fn cut_is_at_the_first(s: Seq<char>, c: char, n: int)
    requires
        0 <= n <= s.len(),
        forall|i: int| 0 <= i < n ==> s[i] != c,
    ensures
        n < s.len() && s[n] == c ==> cut(s, c) == Some((s.take(n), s.skip(n + 1))),
        n == s.len() ==> cut(s, c) is None,
    decreases n,
{
    if n == 0 {
        if s.len() > 0 && s[0] == c {
            assert(s.take(0) =~= Seq::<char>::empty());
        }
    } else {
        let rest = s.skip(1);
        assert forall|i: int| 0 <= i < n - 1 implies rest[i] != c by {
            assert(rest[i] == s[i + 1]);
        }
        cut_is_at_the_first(rest, c, n - 1);
        if n < s.len() && s[n] == c {
            assert(rest[n - 1] == s[n]);
            assert(seq![s[0]] + rest.take(n - 1) =~= s.take(n));
            assert(rest.skip(n) =~= s.skip(n + 1));
        }
    }
}

} // verus!
