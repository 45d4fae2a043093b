//! Laws of domain filters.

use vstd::prelude::*;

use crate::stats;
use crate::text;

verus! {

proof fn lower_keeps_punctuation(c: char)
    ensures
        text::lower(c) == '.' <==> c == '.',
        text::lower(c) == '*' <==> c == '*',
        text::lower(text::lower(c)) == text::lower(c),
{
}

proof fn lower_then_trim_end(text: Seq<char>)
    ensures
        text::trim_end(text::lowered(text), '.') == text::lowered(text::trim_end(text, '.')),
    decreases text.len(),
{
    if text.len() > 0 {
        lower_keeps_punctuation(text.last());
        assert(text::lowered(text).drop_last() =~= text::lowered(text.drop_last()));
        lower_then_trim_end(text.drop_last());
    }
}

proof fn lower_then_trim_start(text: Seq<char>)
    ensures
        text::trim_start(text::lowered(text), '.') == text::lowered(text::trim_start(text, '.')),
    decreases text.len(),
{
    if text.len() > 0 {
        lower_keeps_punctuation(text[0]);
        assert(text::lowered(text).skip(1) =~= text::lowered(text.skip(1)));
        lower_then_trim_start(text.skip(1));
    }
}

proof fn lower_then_drop_wildcards(text: Seq<char>)
    ensures
        stats::without_wildcards(text::lowered(text)) == text::lowered(stats::without_wildcards(text)),
    decreases text.len(),
{
    if text.len() >= 2 {
        lower_keeps_punctuation(text[0]);
        lower_keeps_punctuation(text[1]);
        assert(text::lowered(text).skip(2) =~= text::lowered(text.skip(2)));
        lower_then_drop_wildcards(text.skip(2));
    }
}

/// A filter name is in lower case and does not end in a dot.
proof fn filter_name_is_plain(filter: Seq<char>)
    ensures
        text::lowered(stats::filter_name(filter)) == stats::filter_name(filter),
        stats::filter_name(filter).len() > 0 ==> stats::filter_name(filter).last() != '.',
{
    let kept = text::trim_end(text::trim_start(stats::without_wildcards(filter), '.'), '.');
    text::lowered_is_stable(kept);
    text::trimmed_ends_otherwise(text::trim_start(stats::without_wildcards(filter), '.'), '.');
    if kept.len() > 0 {
        lower_keeps_punctuation(kept.last());
    }
}

/// Letter case never decides whether a domain falls under a filter.
pub proof fn filters_ignore_case(domain: Seq<char>, filter: Seq<char>)
    ensures
        stats::falls_under(text::lowered(domain), Some(filter)) == stats::falls_under(domain, Some(filter)),
        stats::falls_under(domain, Some(text::lowered(filter))) == stats::falls_under(domain, Some(filter)),
{
    lower_then_trim_end(domain);
    text::lowered_is_stable(text::trim_end(domain, '.'));
    lower_then_drop_wildcards(filter);
    lower_then_trim_start(stats::without_wildcards(filter));
    lower_then_trim_end(text::trim_start(stats::without_wildcards(filter), '.'));
    text::lowered_is_stable(text::trim_end(text::trim_start(stats::without_wildcards(filter), '.'), '.'));
}

/// A filter that asks for a name covers that name and what stands below it, and breaks names at
/// dots only: something put in front of the name is covered exactly when it is empty or ends in
/// a dot.
pub proof fn filters_break_at_labels(front: Seq<char>, filter: Seq<char>)
    requires
        stats::filter_name(filter).len() > 0,
    ensures
        stats::falls_under(front + stats::filter_name(filter), Some(filter)) <==> front.len() == 0
            || front.last() == '.',
{
    let wanted = stats::filter_name(filter);
    let domain = front + wanted;
    filter_name_is_plain(filter);
    assert(domain.last() == wanted.last());
    assert(stats::domain_name(domain) =~= text::lowered(front) + wanted) by {
        assert forall|i: int| 0 <= i < wanted.len() implies text::lower(wanted[i]) == wanted[i] by {
            assert(text::lowered(wanted)[i] == wanted[i]);
        }
    }
    let name = stats::domain_name(domain);
    let suffix = seq!['.'] + wanted;
    if front.len() == 0 {
        assert(name =~= wanted);
    } else {
        assert(name.len() != wanted.len());
        lower_keeps_punctuation(front.last());
        let end = name.skip(name.len() - suffix.len());
        assert(end[0] == text::lower(front.last()));
        assert(suffix[0] == '.');
        if front.last() == '.' {
            assert(end =~= suffix);
        }
    }
}

/// Whatever a filter covers ends in the name that it asks for, after a dot or nothing.
pub proof fn covered_names_end_in_the_filter(domain: Seq<char>, filter: Seq<char>) -> (front: Seq<
    char,
>)
    requires
        stats::falls_under(domain, Some(filter)),
        stats::filter_name(filter).len() > 0,
    ensures
        stats::domain_name(domain) == front + stats::filter_name(filter),
        front.len() == 0 || front.last() == '.',
{
    let name = stats::domain_name(domain);
    let wanted = stats::filter_name(filter);
    if name == wanted {
        assert(Seq::<char>::empty() + wanted =~= name);
        Seq::empty()
    } else {
        let suffix = seq!['.'] + wanted;
        let front = name.take(name.len() - wanted.len());
        let end = name.skip(name.len() - suffix.len());
        assert(end =~= suffix);
        assert(end[0] == front.last());
        assert(end.skip(1) =~= name.skip(name.len() - wanted.len()));
        assert(suffix.skip(1) =~= wanted);
        assert(front + wanted =~= name);
        front
    }
}

/// A final dot on the domain, and a leading `*.` on the filter, change nothing.
pub proof fn filters_ignore_decoration(domain: Seq<char>, filter: Seq<char>)
    ensures
        stats::falls_under(domain.push('.'), Some(filter)) == stats::falls_under(domain, Some(filter)),
        stats::falls_under(domain, Some(seq!['*', '.'] + filter)) == stats::falls_under(domain, Some(filter)),
{
    assert(domain.push('.').drop_last() =~= domain);
    assert((seq!['*', '.'] + filter).skip(2) =~= filter);
}

/// A leading dot on a filter that starts with no `*.` changes nothing.
pub proof fn filters_ignore_leading_dot(domain: Seq<char>, filter: Seq<char>)
    requires
        stats::without_wildcards(filter) == filter,
    ensures
        stats::falls_under(domain, Some(seq!['.'] + filter)) == stats::falls_under(domain, Some(filter)),
{
    assert((seq!['.'] + filter).skip(1) =~= filter);
}

/// No filter, and a filter that asks for no name, cover every domain alike.
pub proof fn empty_filters_cover_everything(domain: Seq<char>, filter: Seq<char>)
    requires
        stats::filter_name(filter).len() == 0,
    ensures
        stats::falls_under(domain, None),
        stats::falls_under(domain, Some(filter)),
{
}

/// As many dots as said.
pub open spec fn dots(n: nat) -> Seq<char> {
    Seq::new(n, |i: int| '.')
}

/// As many `*.` as said.
pub open spec fn stars(n: nat) -> Seq<char> {
    Seq::new(2 * n, |i: int| if i % 2 == 0 {
        '*'
    } else {
        '.'
    })
}

/// Whether two texts are the same but for the case of the letters `a` to `z`.
pub open spec fn same_but_case(a: Seq<char>, b: Seq<char>) -> bool {
    &&& a.len() == b.len()
    &&& forall|i: int|
        0 <= i < a.len() ==> (if 65 <= (#[trigger] a[i]) as int <= 90 {
            a[i] as int + 32
        } else {
            a[i] as int
        }) == (if 65 <= b[i] as int <= 90 {
            b[i] as int + 32
        } else {
            b[i] as int
        })
}

proof fn same_but_case_is_same_lowered(a: Seq<char>, b: Seq<char>)
    ensures
        same_but_case(a, b) <==> text::lowered(a) == text::lowered(b),
{
    let x = text::lowered(a);
    let y = text::lowered(b);
    if same_but_case(a, b) {
        assert forall|i: int| 0 <= i < x.len() implies x[i] == y[i] by {
            assert(x[i] as int == y[i] as int);
        }
        assert(x =~= y);
    }
    if x == y {
        assert(x.len() == a.len() && y.len() == b.len());
        assert forall|i: int| 0 <= i < a.len() implies (if 65 <= (#[trigger] a[i]) as int <= 90 {
            a[i] as int + 32
        } else {
            a[i] as int
        }) == (if 65 <= b[i] as int <= 90 {
            b[i] as int + 32
        } else {
            b[i] as int
        }) by {
            assert(x[i] == y[i]);
        }
    }
}

proof fn final_dots_go(s: Seq<char>, n: nat)
    requires
        s.len() > 0 ==> s.last() != '.',
    ensures
        text::trim_end(s + dots(n), '.') == s,
    decreases n,
{
    if n == 0 {
        assert(s + dots(0) =~= s);
    } else {
        final_dots_go(s, (n - 1) as nat);
        assert((s + dots(n)).drop_last() =~= s + dots((n - 1) as nat));
        assert((s + dots(n)).last() == '.');
    }
}

proof fn leading_dots_go(n: nat, s: Seq<char>)
    requires
        s.len() > 0 ==> s[0] != '.',
    ensures
        text::trim_start(dots(n) + s, '.') == s,
    decreases n,
{
    if n == 0 {
        assert(dots(0) + s =~= s);
    } else {
        leading_dots_go((n - 1) as nat, s);
        assert((dots(n) + s).skip(1) =~= dots((n - 1) as nat) + s);
        assert((dots(n) + s)[0] == '.');
    }
}

proof fn leading_stars_go(n: nat, s: Seq<char>)
    requires
        !(s.len() >= 2 && s[0] == '*' && s[1] == '.'),
    ensures
        stats::without_wildcards(stars(n) + s) == s,
    decreases n,
{
    if n == 0 {
        assert(stars(0) + s =~= s);
    } else {
        leading_stars_go((n - 1) as nat, s);
        let all = stars(n) + s;
        assert(all[0] == '*' && all[1] == '.');
        assert(all.skip(2) =~= stars((n - 1) as nat) + s);
    }
}

/// A filter covers the name that it asks for and what stands below it, and nothing else. The name
/// is what is left of the filter without `*.` and dots before it and dots behind it, all of it;
/// case makes no difference, nor do final dots of the domain. What looks like one more `*.` is one.
pub proof fn filters_cover_their_name_and_below(
    covered: bool,
    domain: &str,
    filter: &str,
    name: Seq<char>,
    wanted: Seq<char>,
    wildcards: nat,
    before: nat,
    behind: nat,
    trailing: nat,
)
    requires
        call_ensures(stats::matches_domain, (domain, Some(filter)), covered),
        domain@ == name + dots(trailing),
        name.len() > 0 ==> name.last() != '.',
        filter@ == stars(wildcards) + (dots(before) + (wanted + dots(behind))),
        wanted.len() > 0,
        wanted[0] != '.',
        wanted.last() != '.',
        before > 0 || wanted[0] != '*' || (if wanted.len() == 1 {
            behind == 0
        } else {
            wanted[1] != '.'
        }),
    ensures
        covered <==> same_but_case(name, wanted) || name.len() > wanted.len() && name[name.len()
            - wanted.len() - 1] == '.' && same_but_case(
            name.skip(name.len() - wanted.len()),
            wanted,
        ),
{
    let tail = wanted + dots(behind);
    let inner = dots(before) + tail;
    if before > 0 {
        assert(inner[0] == '.');
    } else {
        assert(inner =~= tail);
        assert(tail[0] == wanted[0]);
        if wanted.len() >= 2 {
            assert(tail[1] == wanted[1]);
        }
    }
    leading_stars_go(wildcards, inner);
    assert(tail[0] == wanted[0]);
    leading_dots_go(before, tail);
    final_dots_go(wanted, behind);
    final_dots_go(name, trailing);
    let x = text::lowered(name);
    let y = text::lowered(wanted);
    same_but_case_is_same_lowered(name, wanted);
    let suffix = seq!['.'] + y;
    if name.len() > wanted.len() {
        let n = name.len() - wanted.len();
        same_but_case_is_same_lowered(name.skip(n), wanted);
        assert(text::lowered(name.skip(n)) =~= x.skip(n));
        lower_keeps_punctuation(name[n - 1]);
        let end = x.skip(x.len() - suffix.len());
        assert(end[0] == x[n - 1]);
        assert(end.skip(1) =~= x.skip(n));
        assert(suffix.skip(1) =~= y);
        if x[n - 1] == '.' && x.skip(n) == y {
            assert(end =~= suffix);
        }
    }
}

/// A filter that is plain asks for itself: a plain domain falls under it if it is the filter, or
/// ends in a dot and the filter, all of it.
pub proof fn plain_filters_ask_for_themselves(covered: bool, domain: &str, filter: &str)
    requires
        call_ensures(stats::matches_domain, (domain, Some(filter)), covered),
        filter@.len() > 0,
        filter@[0] != '.',
        filter@.last() != '.',
        !(filter@.len() >= 2 && filter@[0] == '*' && filter@[1] == '.'),
        forall|i: int| 0 <= i < filter@.len() ==> !(65 <= (#[trigger] filter@[i]) as int <= 90),
        domain@.len() > 0 ==> domain@.last() != '.',
        forall|i: int| 0 <= i < domain@.len() ==> !(65 <= (#[trigger] domain@[i]) as int <= 90),
    ensures
        covered <==> domain@ == filter@ || domain@.len() > filter@.len() && domain@[domain@.len()
            - filter@.len() - 1] == '.' && domain@.skip(domain@.len() - filter@.len()) == filter@,
{
    let d = domain@;
    let f = filter@;
    assert(d + dots(0) =~= d);
    assert(stars(0) + (dots(0) + (f + dots(0))) =~= f);
    filters_cover_their_name_and_below(covered, domain, filter, d, f, 0, 0, 0, 0);
    if same_but_case(d, f) {
        assert forall|i: int| 0 <= i < d.len() implies d[i] == f[i] by {
            assert(d[i] as int == f[i] as int);
        }
        assert(d =~= f);
    }
    if d.len() > f.len() {
        let end = d.skip(d.len() - f.len());
        if same_but_case(end, f) {
            assert forall|i: int| 0 <= i < end.len() implies end[i] == f[i] by {
                assert(end[i] == d[d.len() - f.len() + i]);
                assert(end[i] as int == f[i] as int);
            }
            assert(end =~= f);
        }
    }
}

/// No filter covers every domain, and so does a filter of nothing but `*.` and dots.
pub proof fn bare_filters_cover_everything(
    domain: &str,
    filter: Option<&str>,
    covered: bool,
    wildcards: nat,
    before: nat,
)
    requires
        filter matches Some(f) ==> f@ == stars(wildcards) + dots(before),
        call_ensures(stats::matches_domain, (domain, filter), covered),
    ensures
        covered,
{
    leading_stars_go(wildcards, dots(before));
    assert(dots(before) + Seq::<char>::empty() =~= dots(before));
    leading_dots_go(before, Seq::empty());
}

} // verus!
