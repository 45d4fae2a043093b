//! Final summary rendering.

use vstd::arithmetic::power2::{lemma2_to64, lemma_pow2_strictly_increases, pow2};
use vstd::prelude::*;

use crate::conservation;
use crate::rounding;
use crate::rounding::{divide_nearest, hundredths_of_thousandths, push_two_decimals, to_double};
use crate::stats;
use crate::stats::{Endpoint, Row};
use crate::sums;
use crate::text;
use crate::text::{
    chars_of, decimal_text, push_centred, push_decimal, push_flush_left, push_flush_right,
    push_repeated, push_signed, text_of,
};

verus! {

/// Width of the rules in the text report.
pub const RULE: usize = 80;

/// Width of the endpoint column; longer names are elided.
pub const DOMAIN_COL: usize = 34;

/// Width of the column of bytes received.
pub const INGRESS_COL: usize = 14;

/// Width of the column of bytes sent.
pub const EGRESS_COL: usize = 17;

/// Width of the column of connections.
pub const CONNS_COL: usize = 8;

/// Aggregate byte and connection counts for a group of endpoints.
#[derive(Debug, Clone, Copy, PartialEq, Eq, Structural)]
pub struct Totals {
    /// Bytes received across the group.
    pub ingress_bytes: u64,
    /// Bytes sent across the group.
    pub egress_bytes: u64,
    /// Connections opened across the group.
    pub connections: u64,
}

impl Default for Totals {
    fn default() -> (r: Self)
        ensures
            r == (Totals { ingress_bytes: 0, egress_bytes: 0, connections: 0 }),
    {
        Totals { ingress_bytes: 0, egress_bytes: 0, connections: 0 }
    }
}

/// Both totals rows of the report.
#[derive(Debug, Clone, Copy, PartialEq, Eq, Structural)]
pub struct TotalsBreakdown {
    /// Totals restricted to endpoints matching the domain filter.
    pub matching_filter: Totals,
    /// Totals across every endpoint the child touched.
    pub all_destinations: Totals,
}

impl Default for TotalsBreakdown {
    fn default() -> (r: Self)
        ensures
            r.matching_filter == (Totals { ingress_bytes: 0, egress_bytes: 0, connections: 0 }),
            r.all_destinations == r.matching_filter,
    {
        TotalsBreakdown {
            matching_filter: Totals::default(),
            all_destinations: Totals::default(),
        }
    }
}

/// A unit of byte counts: how many bytes it stands for, and its name.
pub open spec fn unit(m: nat) -> (nat, Seq<char>) {
    if m < 0x10_0000 {
        (0x400, "KB"@)
    } else if m < 0x4000_0000 {
        (0x10_0000, "MB"@)
    } else if m < 0x100_0000_0000 {
        (0x4000_0000, "GB"@)
    } else if m < 0x4_0000_0000_0000 {
        (0x100_0000_0000, "TB"@)
    } else {
        (0x4_0000_0000_0000, "PB"@)
    }
}

/// A byte count as it is printed: whole bytes below a kilobyte, and above it two decimals of the
/// largest unit that the count reaches, taken in double precision.
pub open spec fn bytes_text(bytes: u64) -> Seq<char> {
    if bytes < 1024 {
        text::decimal(bytes as nat) + " B"@
    } else {
        let m = rounding::as_double(bytes as nat);
        let (size, name) = unit(m);
        rounding::two_decimals(rounding::nearest_even(100 * m, size)) + " "@ + name
    }
}

/// Formats a byte count with binary units, two decimals above the kilobyte.
pub fn format_bytes(bytes: u64) -> (r: String)
    ensures
        r@ == bytes_text(bytes),
{
    let mut out = String::new();
    if bytes < 1024 {
        push_decimal(&mut out, bytes as u128);
        out.append(" B");
        assert(out@ =~= bytes_text(bytes));
        return out;
    }
    let double = to_double(bytes as u128);
    proof {
        lemma2_to64();
        if double.excess > 12 {
            lemma_pow2_strictly_increases(12, (double.excess - 1) as nat + 1);
            if double.excess > 13 {
                lemma_pow2_strictly_increases(12, (double.excess - 1) as nat);
            }
            assert(false);
        }
        if double.excess < 12 {
            lemma_pow2_strictly_increases(double.excess as nat, 12);
        }
        assert(double.significand * double.unit <= 0x20_0000_0000_0000 * 0x1000) by (nonlinear_arith)
            requires
                double.significand <= 0x20_0000_0000_0000,
                double.unit <= 0x1000,
        ;
    }
    let m: u128 = double.significand * double.unit;
    let mut size: u128 = 0x400;
    let mut name: &str = "KB";
    if m >= 0x10_0000 {
        size = 0x10_0000;
        name = "MB";
    }
    if m >= 0x4000_0000 {
        size = 0x4000_0000;
        name = "GB";
    }
    if m >= 0x100_0000_0000 {
        size = 0x100_0000_0000;
        name = "TB";
    }
    if m >= 0x4_0000_0000_0000 {
        size = 0x4_0000_0000_0000;
        name = "PB";
    }
    push_two_decimals(&mut out, divide_nearest(100 * m, size));
    out.append(" ");
    out.append(name);
    assert(out@ =~= bytes_text(bytes));
    out
}

/// `text` cut down to `max` characters, the last of them an ellipsis where something was cut.
pub open spec fn elided(text: Seq<char>, max: nat) -> Seq<char> {
    if text.len() <= max {
        text
    } else if max == 0 {
        seq!['\u{2026}']
    } else {
        text.take(max - 1).push('\u{2026}')
    }
}

/// Truncates `text` to `max` characters, marking the cut with an ellipsis.
pub fn elide(text: &str, max: usize) -> (r: String)
    ensures
        r@ == elided(text@, max as nat),
{
    let chars = chars_of(text);
    if chars.len() <= max {
        return text.to_owned();
    }
    let kept: usize = if max == 0 {
        0
    } else {
        max - 1
    };
    let mut out = text_of(&chars.as_slice()[0..kept]);
    out.push('\u{2026}');
    assert(out@ =~= elided(text@, max as nat));
    out
}

/// Elision keeps the width of a column, and texts that fit.
pub proof fn elision_keeps_width(text: Seq<char>, max: nat)
    requires
        max > 0,
    ensures
        elided(text, max).len() <= max,
        text.len() >= max ==> elided(text, max).len() == max,
        text.len() <= max ==> elided(text, max) == text,
{
}

/// What a list of borrowed endpoints reports.
pub open spec fn rows_of_refs(endpoints: Seq<&Endpoint>) -> Seq<Row> {
    Seq::new(endpoints.len(), |i: int| endpoints[i]@)
}

/// Whether totals are the sums over rows.
pub open spec fn adds_up(totals: Totals, rows: Seq<Row>) -> bool {
    &&& totals.ingress_bytes == conservation::ingress_sum(rows)
    &&& totals.egress_bytes == conservation::egress_sum(rows)
    &&& totals.connections == conservation::connection_sum(rows)
}

/// Whether the sums over rows fit 64-bit totals.
pub open spec fn sums_fit(rows: Seq<Row>) -> bool {
    &&& conservation::ingress_sum(rows) <= u64::MAX
    &&& conservation::egress_sum(rows) <= u64::MAX
    &&& conservation::connection_sum(rows) <= u64::MAX
}

/// The rows that the filter covers, in their order.
pub open spec fn shown(rows: Seq<Row>) -> Seq<Row> {
    rows.filter(|r: Row| r.matches_filter)
}

proof fn sums_of_next(rows: Seq<Row>, n: int)
    requires
        0 <= n < rows.len(),
    ensures
        conservation::ingress_sum(rows.take(n + 1)) == conservation::ingress_sum(
            rows.take(n),
        ) + rows[n].ingress_bytes,
        conservation::egress_sum(rows.take(n + 1)) == conservation::egress_sum(
            rows.take(n),
        ) + rows[n].egress_bytes,
        conservation::connection_sum(rows.take(n + 1))
            == conservation::connection_sum(rows.take(n)) + rows[n].connections,
{
    column_of_next(rows, n, |r: Row| r.ingress_bytes as int);
    column_of_next(rows, n, |r: Row| r.egress_bytes as int);
    column_of_next(rows, n, |r: Row| r.connections as int);
}

proof fn column_of_next(rows: Seq<Row>, n: int, field: spec_fn(Row) -> int)
    requires
        0 <= n < rows.len(),
    ensures
        sums::sum(conservation::column(rows.take(n + 1), field)) == sums::sum(
            conservation::column(rows.take(n), field),
        ) + field(rows[n]),
{
    assert(conservation::column(rows.take(n + 1), field) =~= conservation::column(rows.take(n), field).push(field(rows[n])));
    sums::sum_of_push(conservation::column(rows.take(n), field), field(rows[n]));
}

proof fn sums_of_prefix(rows: Seq<Row>, n: int)
    requires
        0 <= n <= rows.len(),
    ensures
        0 <= conservation::ingress_sum(rows.take(n)) <= conservation::ingress_sum(
            rows,
        ),
        0 <= conservation::egress_sum(rows.take(n)) <= conservation::egress_sum(rows),
        0 <= conservation::connection_sum(rows.take(n))
            <= conservation::connection_sum(rows),
{
    let ingress = |r: Row| r.ingress_bytes as int;
    let egress = |r: Row| r.egress_bytes as int;
    let connections = |r: Row| r.connections as int;
    sums::sum_of_prefix(conservation::column(rows, ingress), n);
    sums::sum_of_prefix(conservation::column(rows, egress), n);
    sums::sum_of_prefix(conservation::column(rows, connections), n);
    assert(conservation::column(rows, ingress).take(n) =~= conservation::column(rows.take(n), ingress));
    assert(conservation::column(rows, egress).take(n) =~= conservation::column(rows.take(n), egress));
    assert(conservation::column(rows, connections).take(n) =~= conservation::column(rows.take(n), connections));
}

impl Totals {
    /// Sums the counters of every endpoint in `endpoints`.
    pub fn of(endpoints: &[&Endpoint]) -> (r: Self)
        requires
            sums_fit(rows_of_refs(endpoints@)),
        ensures
            adds_up(r, rows_of_refs(endpoints@)),
    {
        let ghost rows = rows_of_refs(endpoints@);
        let mut acc = Totals::default();
        let mut i: usize = 0;
        assert(rows.take(0) =~= Seq::<Row>::empty());
        while i < endpoints.len()
            invariant
                rows == rows_of_refs(endpoints@),
                sums_fit(rows),
                i <= rows.len(),
                adds_up(acc, rows.take(i as int)),
            decreases rows.len() - i,
        {
            proof {
                sums_of_next(rows, i as int);
                sums_of_prefix(rows, i + 1);
            }
            acc.ingress_bytes += endpoints[i].ingress_bytes;
            acc.egress_bytes += endpoints[i].egress_bytes;
            acc.connections += endpoints[i].connections;
            i += 1;
        }
        assert(rows.take(i as int) =~= rows);
        acc
    }

    /// Whether the counters of `endpoints` add up to totals that fit.
    pub fn fit(endpoints: &[Endpoint]) -> (r: bool)
        ensures
            r == sums_fit(stats::rows_of(endpoints@)),
    {
        let ghost rows = stats::rows_of(endpoints@);
        let mut acc = Totals::default();
        let mut i: usize = 0;
        assert(rows.take(0) =~= Seq::<Row>::empty());
        while i < endpoints.len()
            invariant
                rows == stats::rows_of(endpoints@),
                i <= rows.len(),
                adds_up(acc, rows.take(i as int)),
            decreases rows.len() - i,
        {
            let endpoint: &Endpoint = &endpoints[i];
            proof {
                sums_of_next(rows, i as int);
                sums_of_prefix(rows, i + 1);
            }
            match (
                acc.ingress_bytes.checked_add(endpoint.ingress_bytes),
                acc.egress_bytes.checked_add(endpoint.egress_bytes),
                acc.connections.checked_add(endpoint.connections),
            ) {
                (Some(ingress_bytes), Some(egress_bytes), Some(connections)) => {
                    acc = Totals { ingress_bytes, egress_bytes, connections };
                },
                _ => {
                    return false;
                },
            }
            i += 1;
        }
        assert(rows.take(i as int) =~= rows);
        true
    }
}

fn every(endpoints: &[Endpoint]) -> (r: Vec<&Endpoint>)
    ensures
        rows_of_refs(r@) == stats::rows_of(endpoints@),
{
    let mut out: Vec<&Endpoint> = Vec::new();
    let mut i: usize = 0;
    while i < endpoints.len()
        invariant
            i <= endpoints@.len(),
            out@.len() == i,
            forall|j: int| 0 <= j < i ==> *(#[trigger] out@[j]) == endpoints@[j],
        decreases endpoints@.len() - i,
    {
        out.push(&endpoints[i]);
        i += 1;
    }
    assert(rows_of_refs(out@) =~= stats::rows_of(endpoints@));
    out
}

fn matching(endpoints: &[Endpoint]) -> (r: Vec<&Endpoint>)
    ensures
        rows_of_refs(r@) == shown(stats::rows_of(endpoints@)),
{
    let ghost rows = stats::rows_of(endpoints@);
    let mut out: Vec<&Endpoint> = Vec::new();
    let mut i: usize = 0;
    proof {
        reveal(Seq::filter);
        assert(rows_of_refs(out@) =~= shown(rows.take(0)));
    }
    while i < endpoints.len()
        invariant
            rows == stats::rows_of(endpoints@),
            i <= rows.len(),
            rows_of_refs(out@) == shown(rows.take(i as int)),
        decreases rows.len() - i,
    {
        let ghost before = rows_of_refs(out@);
        if endpoints[i].matches_filter {
            out.push(&endpoints[i]);
        }
        proof {
            reveal(Seq::filter);
            assert(rows.take(i + 1).drop_last() =~= rows.take(i as int));
            if rows[i as int].matches_filter {
                assert(rows_of_refs(out@) =~= before.push(rows[i as int]));
            }
        }
        i += 1;
    }
    assert(rows.take(i as int) =~= rows);
    out
}

/// Rows that a filter covers add up to no more than all rows.
pub proof fn matching_is_a_part(rows: Seq<Row>)
    ensures
        0 <= conservation::ingress_sum(shown(rows)) <= conservation::ingress_sum(rows),
        0 <= conservation::egress_sum(shown(rows)) <= conservation::egress_sum(rows),
        0 <= conservation::connection_sum(shown(rows))
            <= conservation::connection_sum(rows),
    decreases rows.len(),
{
    reveal(Seq::filter);
    if rows.len() > 0 {
        let n = rows.len() - 1;
        matching_is_a_part(rows.drop_last());
        assert(rows.take(n) =~= rows.drop_last());
        assert(rows.take(n + 1) =~= rows);
        sums_of_next(rows, n);
        if rows.last().matches_filter {
            let part = shown(rows);
            let m = part.len() - 1;
            assert(part == shown(rows.drop_last()).push(rows.last()));
            assert(part.take(m) =~= shown(rows.drop_last()));
            assert(part.take(m + 1) =~= part);
            sums_of_next(part, m);
        }
    }
}

/// Without a filter, or with one that covers everything, both totals are the same.
pub proof fn matching_everything_is_all(rows: Seq<Row>)
    requires
        forall|i: int| 0 <= i < rows.len() ==> (#[trigger] rows[i]).matches_filter,
    ensures
        shown(rows) == rows,
    decreases rows.len(),
{
    reveal(Seq::filter);
    if rows.len() > 0 {
        matching_everything_is_all(rows.drop_last());
        assert(rows.drop_last().push(rows.last()) =~= rows);
    } else {
        assert(shown(rows) =~= rows);
    }
}

/// A complete run summary, ready to render.
#[derive(Debug, Clone, PartialEq, Eq)]
pub struct Report {
    /// The child command line as invoked.
    pub command: String,
    /// The domain filter, if one was given.
    pub domain_prefix_filter: Option<String>,
    /// Wall-clock duration of the child process.
    pub execution_time_ms: u128,
    /// Exit status of the child process.
    pub exit_code: i32,
    /// Filtered and unfiltered totals.
    pub totals: TotalsBreakdown,
    /// Per-endpoint detail, ordered by ingress bytes descending.
    pub endpoints: Vec<Endpoint>,
}

/// A line of text.
pub open spec fn line(content: Seq<char>) -> Seq<char> {
    content.push('\n')
}

/// A line of the table, in its four columns.
pub open spec fn table_line(
    label: Seq<char>,
    ingress: Seq<char>,
    egress: Seq<char>,
    connections: Seq<char>,
) -> Seq<char> {
    line(
        text::flush_left(label, DOMAIN_COL as nat) + text::flush_right(ingress, INGRESS_COL as nat)
            + text::flush_right(egress, EGRESS_COL as nat) + text::flush_right(
            connections,
            CONNS_COL as nat,
        ),
    )
}

/// The line of the table for one endpoint.
pub open spec fn row_line(row: Row) -> Seq<char> {
    table_line(
        elided(row.domain, (DOMAIN_COL - 1) as nat),
        bytes_text(row.ingress_bytes),
        bytes_text(row.egress_bytes),
        text::decimal(row.connections as nat),
    )
}

/// The lines of the table for a list of endpoints, in their order.
pub open spec fn row_lines(rows: Seq<Row>) -> Seq<char>
    decreases rows.len(),
{
    if rows.len() == 0 {
        Seq::empty()
    } else {
        row_lines(rows.drop_last()) + row_line(rows.last())
    }
}

/// The line of the table for a sum.
pub open spec fn totals_line(label: Seq<char>, totals: Totals) -> Seq<char> {
    table_line(
        label,
        bytes_text(totals.ingress_bytes),
        bytes_text(totals.egress_bytes),
        text::decimal(totals.connections as nat),
    )
}

/// What the report says of the filter.
pub open spec fn filter_description(filter: Option<String>) -> Seq<char> {
    match filter {
        Some(prefix) => "*."@ + prefix@ + " (Prefix Match)"@,
        None => "none (all destinations)"@,
    }
}

impl Report {
    /// What the report says of every endpoint.
    pub open spec fn rows(&self) -> Seq<Row> {
        stats::rows_of(self.endpoints@)
    }

    /// The text of the report. Of the endpoints, only those that the filter covers have a line;
    /// the last two lines sum up these and all of them.
    pub open spec fn text(&self) -> Seq<char> {
        let rule = line(text::repeated('=', RULE as nat));
        let thin = line(text::repeated('-', RULE as nat));
        let rows = shown(self.rows());
        rule + line(text::centred("WIRETALLY TRAFFIC SUMMARY"@, RULE as nat)) + rule + line(
            "Command:          "@ + self.command@,
        ) + line("Target Filter:    "@ + filter_description(self.domain_prefix_filter)) + line(
            "Execution Time:   "@ + rounding::two_decimals(
                rounding::thousandths_to_hundredths(self.execution_time_ms as nat),
            ) + "s"@,
        ) + line("Exit Code:        "@ + text::signed_decimal(self.exit_code as int)) + line(
            Seq::empty(),
        ) + line("DOMAIN / ENDPOINT SUMMARY:"@) + thin + table_line(
            "ENDPOINT / DOMAIN"@,
            "INGRESS (Rx)"@,
            "EGRESS (Tx)"@,
            "CONNS"@,
        ) + thin + (if rows.len() == 0 {
            line("(no matching traffic observed)"@)
        } else {
            row_lines(rows)
        }) + thin + totals_line("TOTAL (Matching Filter):"@, self.totals.matching_filter)
            + totals_line("TOTAL (All Destinations):"@, self.totals.all_destinations) + rule
    }

    /// Builds a report from a registry snapshot.
    pub fn new(
        command: String,
        domain_prefix_filter: Option<String>,
        execution_time_ms: u128,
        exit_code: i32,
        endpoints: Vec<Endpoint>,
    ) -> (r: Self)
        requires
            sums_fit(stats::rows_of(endpoints@)),
        ensures
            r.command == command,
            r.domain_prefix_filter == domain_prefix_filter,
            r.execution_time_ms == execution_time_ms,
            r.exit_code == exit_code,
            r.endpoints == endpoints,
            adds_up(r.totals.matching_filter, shown(stats::rows_of(endpoints@))),
            adds_up(r.totals.all_destinations, stats::rows_of(endpoints@)),
    {
        proof {
            matching_is_a_part(stats::rows_of(endpoints@));
        }
        let matching_filter = Totals::of(matching(endpoints.as_slice()).as_slice());
        let all_destinations = Totals::of(every(endpoints.as_slice()).as_slice());
        Report {
            command,
            domain_prefix_filter,
            execution_time_ms,
            exit_code,
            totals: TotalsBreakdown { matching_filter, all_destinations },
            endpoints,
        }
    }

    /// Renders the human-readable summary table.
    ///
    /// Endpoints that do not match the domain filter are omitted from the table but still
    /// contribute to the "all destinations" totals, so filtering never hides traffic entirely.
    pub fn to_text(&self) -> (r: String)
        ensures
            r@ == self.text(),
    {
        let mut out = String::new();
        push_rule(&mut out, '=');
        push_centred(&mut out, "WIRETALLY TRAFFIC SUMMARY", RULE);
        out.push('\n');
        push_rule(&mut out, '=');
        push_field(&mut out, "Command:          ", self.command.as_str());
        let filter: String = describe_filter(&self.domain_prefix_filter);
        push_field(&mut out, "Target Filter:    ", filter.as_str());
        let mut elapsed = String::new();
        push_two_decimals(&mut elapsed, hundredths_of_thousandths(self.execution_time_ms));
        elapsed.append("s");
        push_field(&mut out, "Execution Time:   ", elapsed.as_str());
        let mut code = String::new();
        push_signed(&mut code, self.exit_code);
        push_field(&mut out, "Exit Code:        ", code.as_str());
        out.push('\n');
        out.append("DOMAIN / ENDPOINT SUMMARY:");
        out.push('\n');
        push_rule(&mut out, '-');
        push_table_line(&mut out, "ENDPOINT / DOMAIN", "INGRESS (Rx)", "EGRESS (Tx)", "CONNS");
        push_rule(&mut out, '-');
        let rows = matching(self.endpoints.as_slice());
        if rows.len() == 0 {
            out.append("(no matching traffic observed)");
            out.push('\n');
        } else {
            push_rows(&mut out, rows.as_slice());
        }
        push_rule(&mut out, '-');
        push_totals(&mut out, "TOTAL (Matching Filter):", &self.totals.matching_filter);
        push_totals(&mut out, "TOTAL (All Destinations):", &self.totals.all_destinations);
        push_rule(&mut out, '=');
        out
    }
}

fn push_rule(out: &mut String, c: char)
    ensures
        final(out)@ == old(out)@ + line(text::repeated(c, RULE as nat)),
{
    push_repeated(out, c, RULE);
    out.push('\n');
}

fn push_field(out: &mut String, label: &str, content: &str)
    ensures
        final(out)@ == old(out)@ + line(label@ + content@),
{
    out.append(label);
    out.append(content);
    out.push('\n');
}

fn describe_filter(filter: &Option<String>) -> (r: String)
    ensures
        r@ == filter_description(*filter),
{
    match filter {
        Some(prefix) => {
            let mut out = String::new();
            out.append("*.");
            out.append(prefix.as_str());
            out.append(" (Prefix Match)");
            out
        },
        None => "none (all destinations)".to_owned(),
    }
}

fn push_table_line(out: &mut String, label: &str, ingress: &str, egress: &str, connections: &str)
    ensures
        final(out)@ == old(out)@ + table_line(label@, ingress@, egress@, connections@),
{
    push_flush_left(out, label, DOMAIN_COL);
    push_flush_right(out, ingress, INGRESS_COL);
    push_flush_right(out, egress, EGRESS_COL);
    push_flush_right(out, connections, CONNS_COL);
    out.push('\n');
}

fn push_row(out: &mut String, endpoint: &Endpoint)
    ensures
        final(out)@ == old(out)@ + row_line(endpoint@),
{
    push_table_line(
        out,
        elide(endpoint.domain.as_str(), DOMAIN_COL - 1).as_str(),
        format_bytes(endpoint.ingress_bytes).as_str(),
        format_bytes(endpoint.egress_bytes).as_str(),
        decimal_text(endpoint.connections as u128).as_str(),
    );
}

fn push_rows(out: &mut String, endpoints: &[&Endpoint])
    ensures
        final(out)@ == old(out)@ + row_lines(rows_of_refs(endpoints@)),
{
    let ghost rows = rows_of_refs(endpoints@);
    let ghost start = out@;
    let mut i: usize = 0;
    while i < endpoints.len()
        invariant
            rows == rows_of_refs(endpoints@),
            i <= rows.len(),
            out@ == start + row_lines(rows.take(i as int)),
        decreases rows.len() - i,
    {
        push_row(out, endpoints[i]);
        assert(rows.take(i + 1).drop_last() =~= rows.take(i as int));
        assert(out@ =~= start + row_lines(rows.take(i + 1)));
        i += 1;
    }
    assert(rows.take(i as int) =~= rows);
}

fn push_totals(out: &mut String, label: &str, totals: &Totals)
    ensures
        final(out)@ == old(out)@ + totals_line(label@, *totals),
{
    push_table_line(
        out,
        label,
        format_bytes(totals.ingress_bytes).as_str(),
        format_bytes(totals.egress_bytes).as_str(),
        decimal_text(totals.connections as u128).as_str(),
    );
}

/// Endpoints that the filter does not cover leave no trace in the text but the totals over all
/// destinations: two reports that agree on the rest have the same text.
pub proof fn hidden_rows_do_not_show(a: Report, b: Report)
    requires
        a.command == b.command,
        a.domain_prefix_filter == b.domain_prefix_filter,
        a.execution_time_ms == b.execution_time_ms,
        a.exit_code == b.exit_code,
        a.totals == b.totals,
        shown(a.rows()) == shown(b.rows()),
    ensures
        a.text() == b.text(),
{
}

/// A report on a snapshot counts all traffic of the registry towards all destinations, whatever
/// the filter, and counts no more than that towards the filter.
pub proof fn reports_count_all_traffic(
    reg: stats::Registry,
    filter: Option<Seq<char>>,
    rows: Seq<Row>,
    totals: TotalsBreakdown,
)
    requires
        rows.to_multiset() == reg.rows(filter).to_multiset(),
        adds_up(totals.matching_filter, shown(rows)),
        adds_up(totals.all_destinations, rows),
    ensures
        totals.all_destinations.ingress_bytes == conservation::total(
            reg,
            conservation::ingress_counter(),
        ),
        totals.all_destinations.egress_bytes == conservation::total(
            reg,
            conservation::egress_counter(),
        ),
        totals.all_destinations.connections == conservation::total(
            reg,
            conservation::connection_counter(),
        ),
        totals.matching_filter.ingress_bytes <= totals.all_destinations.ingress_bytes,
        totals.matching_filter.egress_bytes <= totals.all_destinations.egress_bytes,
        totals.matching_filter.connections <= totals.all_destinations.connections,
{
    conservation::snapshot_keeps_totals(reg, rows, filter);
    matching_is_a_part(rows);
}

/// Without a filter, or with one that asks for no name, a snapshot shows every row, so that both
/// totals of a report on it agree.
pub proof fn no_filter_shows_everything(
    reg: stats::Registry,
    filter: Option<Seq<char>>,
    rows: Seq<Row>,
)
    requires
        filter matches Some(f) ==> stats::filter_name(f).len() == 0,
        rows.to_multiset() == reg.rows(filter).to_multiset(),
    ensures
        shown(rows) == rows,
{
    broadcast use vstd::seq_lib::group_to_multiset_ensures;

    let all = reg.rows(filter);
    assert forall|i: int| 0 <= i < rows.len() implies (#[trigger] rows[i]).matches_filter by {
        assert(rows.contains(rows[i]));
        assert(rows.to_multiset().count(rows[i]) > 0);
        assert(all.contains(rows[i]));
        let j = choose|j: int| 0 <= j < all.len() && all[j] == rows[i];
        assert(all[j].matches_filter);
    }
    matching_everything_is_all(rows);
}

/// A filter that covers every host is reported like no filter at all.
pub proof fn covering_filters_report_alike(reg: stats::Registry, filter: Option<Seq<char>>)
    requires
        forall|i: int|
            0 <= i < reg.names().len() ==> stats::falls_under(#[trigger] reg.names()[i], filter),
    ensures
        reg.rows(filter) == reg.rows(None),
{
    assert(reg.rows(filter) =~= reg.rows(None));
}

proof fn numeral_width(n: nat, bound: nat, width: nat)
    requires
        n < bound,
        bound == vstd::arithmetic::power::pow(10, width),
        width > 0,
    ensures
        text::decimal(n).len() <= width,
    decreases n,
{
    if n >= 10 {
        assert(width > 1) by {
            if width == 1 {
                vstd::arithmetic::power::lemma_pow1(10);
            }
        }
        vstd::arithmetic::power::lemma_pow_adds(10, 1, (width - 1) as nat);
        vstd::arithmetic::power::lemma_pow1(10);
        vstd::arithmetic::power::lemma_pow_positive(10, (width - 1) as nat);
        numeral_width(
            n / 10,
            vstd::arithmetic::power::pow(10, (width - 1) as nat) as nat,
            (width - 1) as nat,
        );
    }
}

proof fn byte_counts_stay_small(bytes: u64)
    requires
        bytes >= 1024,
    ensures
        ({
            let m = rounding::as_double(bytes as nat);
            rounding::nearest_even(100 * m, unit(m).0) < 10_000_000
        }),
{
    let n = bytes as nat;
    let k = rounding::excess_bits(n);
    let m = rounding::as_double(n);
    rounding::doubles_are_nearest(n);
    lemma2_to64();
    assert(pow2(k) <= 0x800) by {
        if k > 11 {
            if k > 12 {
                lemma_pow2_strictly_increases(11, (k - 1) as nat);
            }
            assert(false);
        } else if k < 11 {
            lemma_pow2_strictly_increases(k, 11);
        }
    }
    assert(m <= 0x1_0000_0000_0000_0000 + 0x400);
    let size = unit(m).0;
    assert(100 * m < 0x19_0001 * size);
    assert(100 * m / size < 0x19_0001) by (nonlinear_arith)
        requires
            100 * m < 0x19_0001 * size,
            size > 0,
            m >= 0,
    ;
}

/// A byte count takes at most eleven characters.
pub proof fn byte_counts_fit_their_columns(bytes: u64)
    ensures
        bytes_text(bytes).len() <= 11,
{
    reveal_strlit(" B");
    reveal_strlit(" ");
    reveal_strlit("KB");
    reveal_strlit("MB");
    reveal_strlit("GB");
    reveal_strlit("TB");
    reveal_strlit("PB");
    assert(vstd::arithmetic::power::pow(10, 5) == 100_000) by {
        reveal_with_fuel(vstd::arithmetic::power::pow, 6);
    }
    if bytes < 1024 {
        numeral_width(bytes as nat, 100_000, 5);
    } else {
        let m = rounding::as_double(bytes as nat);
        byte_counts_stay_small(bytes);
        numeral_width(rounding::nearest_even(100 * m, unit(m).0) / 100, 100_000, 5);
    }
}

/// The columns of the table line up: as long as the connections of an endpoint have no more than
/// eight digits, its line is as wide as every other.
pub proof fn rows_line_up(row: Row)
    requires
        row.connections < 100_000_000,
    ensures
        row_line(row).len() == DOMAIN_COL + INGRESS_COL + EGRESS_COL + CONNS_COL + 1,
{
    byte_counts_fit_their_columns(row.ingress_bytes);
    byte_counts_fit_their_columns(row.egress_bytes);
    assert(vstd::arithmetic::power::pow(10, 8) == 100_000_000) by {
        reveal_with_fuel(vstd::arithmetic::power::pow, 9);
    }
    numeral_width(row.connections as nat, 100_000_000, 8);
    elision_keeps_width(row.domain, (DOMAIN_COL - 1) as nat);
}

} // verus!
