//! Laws of the text report: which lines it has, what stands in them, and what the totals sum up.

use vstd::prelude::*;

use crate::conservation;
use crate::report;
use crate::report::{Report, Totals};
use crate::rounding;
use crate::stats;
use crate::stats::{Endpoint, Row};
use crate::sums;
use crate::text;

verus! {

/// Lines, one after the other, each with its end.
pub open spec fn flowed(lines: Seq<Seq<char>>) -> Seq<char>
    decreases lines.len(),
{
    if lines.len() == 0 {
        Seq::empty()
    } else {
        flowed(lines.drop_last()) + lines.last() + seq!['\n']
    }
}

/// The four columns of the table: the first flush left, the others flush right.
pub open spec fn columns(
    label: Seq<char>,
    ingress: Seq<char>,
    egress: Seq<char>,
    connections: Seq<char>,
) -> Seq<char> {
    text::flush_left(label, 34) + text::flush_right(ingress, 14) + text::flush_right(egress, 17)
        + text::flush_right(connections, 8)
}

/// The line of an endpoint.
pub open spec fn endpoint_line(row: Row) -> Seq<char> {
    columns(
        report::elided(row.domain, 33),
        report::bytes_text(row.ingress_bytes),
        report::bytes_text(row.egress_bytes),
        text::decimal(row.connections as nat),
    )
}

proof fn flowed_goes_on(lines: Seq<Seq<char>>, line: Seq<char>)
    ensures
        flowed(lines.push(line)) == flowed(lines) + report::line(line),
{
    assert(lines.push(line).drop_last() =~= lines);
    assert(flowed(lines) + line + seq!['\n'] =~= flowed(lines) + report::line(line));
}

proof fn flowed_joins(a: Seq<Seq<char>>, b: Seq<Seq<char>>)
    ensures
        flowed(a + b) == flowed(a) + flowed(b),
    decreases b.len(),
{
    if b.len() == 0 {
        assert(a + b =~= a);
        assert(flowed(a) + flowed(b) =~= flowed(a));
    } else {
        let fewer = b.drop_last();
        flowed_joins(a, fewer);
        assert((a + b).drop_last() =~= a + fewer);
        assert(flowed(a) + (flowed(fewer) + b.last() + seq!['\n']) =~= flowed(a) + flowed(fewer)
            + b.last() + seq!['\n']);
    }
}

proof fn rows_flow(rows: Seq<Row>)
    ensures
        report::row_lines(rows) == flowed(Seq::new(rows.len(), |i: int| endpoint_line(rows[i]))),
    decreases rows.len(),
{
    let lines = Seq::new(rows.len(), |i: int| endpoint_line(rows[i]));
    if rows.len() > 0 {
        let fewer = rows.drop_last();
        rows_flow(fewer);
        let before = Seq::new(fewer.len(), |i: int| endpoint_line(fewer[i]));
        assert(lines =~= before.push(endpoint_line(rows.last())));
        flowed_goes_on(before, endpoint_line(rows.last()));
    }
}

/// The lines of rows are the lines of the first of them followed by those of the others, and the
/// line of a single row is made of its own name and counters.
pub proof fn tables_go_row_by_row(a: Seq<Row>, b: Seq<Row>, row: Row)
    ensures
        report::row_lines(Seq::<Row>::empty()) == Seq::<char>::empty(),
        report::row_lines(a + b) == report::row_lines(a) + report::row_lines(b),
        report::row_lines(seq![row]) == endpoint_line(row) + seq!['\n'],
{
    rows_flow(a);
    rows_flow(b);
    rows_flow(a + b);
    rows_flow(seq![row]);
    let x = Seq::new(a.len(), |i: int| endpoint_line(a[i]));
    let y = Seq::new(b.len(), |i: int| endpoint_line(b[i]));
    assert(Seq::new((a + b).len(), |i: int| endpoint_line((a + b)[i])) =~= x + y);
    flowed_joins(x, y);
    assert(seq![row].drop_last() =~= Seq::<Row>::empty());
    assert(report::row_lines(Seq::<Row>::empty()) + report::row_line(row) =~= endpoint_line(row)
        + seq!['\n']);
}

/// Every row stands in the table, behind the lines of the rows before it.
pub proof fn every_row_has_its_line(rows: Seq<Row>, i: int)
    requires
        0 <= i < rows.len(),
    ensures
        ({
            let line = endpoint_line(rows[i]) + seq!['\n'];
            let at = report::row_lines(rows.take(i)).len() as int;
            &&& at + line.len() <= report::row_lines(rows).len()
            &&& report::row_lines(rows).subrange(at, at + line.len()) == line
            &&& at == sums::sum(Seq::new(i as nat, |j: int| endpoint_line(rows[j]).len() as int + 1))
        }),
{
    let front = rows.take(i);
    let back = rows.skip(i + 1);
    let line = endpoint_line(rows[i]) + seq!['\n'];
    let at = report::row_lines(front).len() as int;
    assert(rows =~= front + (seq![rows[i]] + back));
    tables_go_row_by_row(front, seq![rows[i]] + back, rows[i]);
    tables_go_row_by_row(seq![rows[i]], back, rows[i]);
    assert(report::row_lines(rows) == report::row_lines(front) + (line + report::row_lines(back)));
    assert(report::row_lines(rows).subrange(at, at + line.len()) =~= line);
    table_lengths(rows, i);
}

proof fn table_lengths(rows: Seq<Row>, i: int)
    requires
        0 <= i <= rows.len(),
    ensures
        report::row_lines(rows.take(i)).len() == sums::sum(
            Seq::new(i as nat, |j: int| endpoint_line(rows[j]).len() as int + 1),
        ),
    decreases i,
{
    let lens = Seq::new(i as nat, |j: int| endpoint_line(rows[j]).len() as int + 1);
    if i > 0 {
        table_lengths(rows, i - 1);
        assert(rows.take(i).drop_last() =~= rows.take(i - 1));
        assert(lens.drop_last() =~= Seq::new(
            (i - 1) as nat,
            |j: int| endpoint_line(rows[j]).len() as int + 1,
        ));
    }
}

/// Rows are shown one by one: those that the filter covers, and no others, in their order.
pub proof fn covered_rows_are_shown(a: Seq<Row>, b: Seq<Row>, row: Row)
    ensures
        report::shown(a + b) == report::shown(a) + report::shown(b),
        row.matches_filter ==> report::shown(seq![row]) == seq![row],
        !row.matches_filter ==> report::shown(seq![row]).len() == 0,
        report::shown(Seq::<Row>::empty()).len() == 0,
    decreases b.len(),
{
    reveal(Seq::filter);
    assert(seq![row].drop_last() =~= Seq::<Row>::empty());
    assert(report::shown(Seq::<Row>::empty()) =~= Seq::<Row>::empty());
    assert(Seq::<Row>::empty().push(row) =~= seq![row]);
    if b.len() == 0 {
        assert(a + b =~= a);
        assert(report::shown(a) + report::shown(b) =~= report::shown(a));
    } else {
        let fewer = b.drop_last();
        covered_rows_are_shown(a, fewer, row);
        assert((a + b).drop_last() =~= a + fewer);
        assert(report::shown(a) + report::shown(fewer).push(b.last()) =~= (report::shown(a)
            + report::shown(fewer)).push(b.last()));
    }
}

/// What an endpoint reports is its own name, address, counters and mark.
pub proof fn rows_are_those_of_the_endpoints(endpoints: Seq<Endpoint>, refs: Seq<&Endpoint>, i: int)
    ensures
        stats::rows_of(endpoints).len() == endpoints.len(),
        0 <= i < endpoints.len() ==> {
            let row = stats::rows_of(endpoints)[i];
            &&& row.domain == endpoints[i].domain@
            &&& row.ip_address == endpoints[i].ip_address
            &&& row.ingress_bytes == endpoints[i].ingress_bytes
            &&& row.egress_bytes == endpoints[i].egress_bytes
            &&& row.connections == endpoints[i].connections
            &&& row.matches_filter == endpoints[i].matches_filter
        },
        report::rows_of_refs(refs).len() == refs.len(),
        0 <= i < refs.len() ==> {
            let row = report::rows_of_refs(refs)[i];
            &&& row.domain == refs[i].domain@
            &&& row.ip_address == refs[i].ip_address
            &&& row.ingress_bytes == refs[i].ingress_bytes
            &&& row.egress_bytes == refs[i].egress_bytes
            &&& row.connections == refs[i].connections
            &&& row.matches_filter == refs[i].matches_filter
        },
{
}

/// The text of a report is made of these lines: the head, one line for every endpoint that the
/// filter covers or one that says that there is none, and the two totals.
pub proof fn reports_are_made_of_their_lines(r: &Report, printed: String) -> (lines: Seq<
    Seq<char>,
>)
    requires
        call_ensures(Report::to_text, (r,), printed),
    ensures
        printed@ == flowed(lines),
        ({
            let rows = report::shown(stats::rows_of(r.endpoints@));
            let n = if rows.len() == 0 {
                1
            } else {
                rows.len() as int
            };
            let matching = r.totals.matching_filter;
            let all = r.totals.all_destinations;
            let rule = Seq::new(80, |i: int| '=');
            let thin = Seq::new(80, |i: int| '-');
            &&& lines.len() == n + 16
            &&& lines[0] == rule && lines[2] == rule && lines[n + 15] == rule
            &&& lines[1] == text::centred("WIRETALLY TRAFFIC SUMMARY"@, 80)
            &&& lines[3] == "Command:          "@ + r.command@
            &&& lines[4] == "Target Filter:    "@ + (match r.domain_prefix_filter {
                Some(prefix) => "*."@ + prefix@ + " (Prefix Match)"@,
                None => "none (all destinations)"@,
            })
            &&& lines[5] == "Execution Time:   "@ + rounding::two_decimals(
                rounding::thousandths_to_hundredths(r.execution_time_ms as nat),
            ) + "s"@
            &&& lines[6] == "Exit Code:        "@ + text::signed_decimal(r.exit_code as int)
            &&& lines[7].len() == 0
            &&& lines[8] == "DOMAIN / ENDPOINT SUMMARY:"@
            &&& lines[9] == thin && lines[11] == thin && lines[n + 12] == thin
            &&& lines[10] == columns(
                "ENDPOINT / DOMAIN"@,
                "INGRESS (Rx)"@,
                "EGRESS (Tx)"@,
                "CONNS"@,
            )
            &&& rows.len() == 0 ==> lines[12] == "(no matching traffic observed)"@
            &&& forall|i: int| 0 <= i < rows.len() ==> #[trigger] lines[12 + i] == endpoint_line(
                rows[i],
            )
            &&& lines[n + 13] == columns(
                "TOTAL (Matching Filter):"@,
                report::bytes_text(matching.ingress_bytes),
                report::bytes_text(matching.egress_bytes),
                text::decimal(matching.connections as nat),
            )
            &&& lines[n + 14] == columns(
                "TOTAL (All Destinations):"@,
                report::bytes_text(all.ingress_bytes),
                report::bytes_text(all.egress_bytes),
                text::decimal(all.connections as nat),
            )
        }),
{
    let rows = report::shown(r.rows());
    let rule = text::repeated('=', 80);
    let thin = text::repeated('-', 80);
    assert(rule =~= Seq::new(80, |i: int| '='));
    assert(thin =~= Seq::new(80, |i: int| '-'));
    let title = text::centred("WIRETALLY TRAFFIC SUMMARY"@, 80);
    let command = "Command:          "@ + r.command@;
    let filter = "Target Filter:    "@ + report::filter_description(r.domain_prefix_filter);
    let time = "Execution Time:   "@ + rounding::two_decimals(
        rounding::thousandths_to_hundredths(r.execution_time_ms as nat),
    ) + "s"@;
    let code = "Exit Code:        "@ + text::signed_decimal(r.exit_code as int);
    let heads = columns("ENDPOINT / DOMAIN"@, "INGRESS (Rx)"@, "EGRESS (Tx)"@, "CONNS"@);
    let l0 = Seq::<Seq<char>>::empty();
    let l1 = l0.push(rule);
    let l2 = l1.push(title);
    let l3 = l2.push(rule);
    let l4 = l3.push(command);
    let l5 = l4.push(filter);
    let l6 = l5.push(time);
    let l7 = l6.push(code);
    let l8 = l7.push(Seq::empty());
    let l9 = l8.push("DOMAIN / ENDPOINT SUMMARY:"@);
    let l10 = l9.push(thin);
    let l11 = l10.push(heads);
    let l12 = l11.push(thin);
    flowed_goes_on(l0, rule);
    assert(flowed(l0) + report::line(rule) =~= report::line(rule));
    flowed_goes_on(l1, title);
    flowed_goes_on(l2, rule);
    flowed_goes_on(l3, command);
    flowed_goes_on(l4, filter);
    flowed_goes_on(l5, time);
    flowed_goes_on(l6, code);
    flowed_goes_on(l7, Seq::empty());
    flowed_goes_on(l8, "DOMAIN / ENDPOINT SUMMARY:"@);
    flowed_goes_on(l9, thin);
    flowed_goes_on(l10, heads);
    flowed_goes_on(l11, thin);
    let none = "(no matching traffic observed)"@;
    let body = if rows.len() == 0 {
        l0.push(none)
    } else {
        Seq::new(rows.len(), |i: int| endpoint_line(rows[i]))
    };
    flowed_goes_on(l0, none);
    assert(flowed(l0) + report::line(none) =~= report::line(none));
    rows_flow(rows);
    flowed_joins(l12, body);
    let matching = r.totals.matching_filter;
    let all = r.totals.all_destinations;
    let some = columns(
        "TOTAL (Matching Filter):"@,
        report::bytes_text(matching.ingress_bytes),
        report::bytes_text(matching.egress_bytes),
        text::decimal(matching.connections as nat),
    );
    let every = columns(
        "TOTAL (All Destinations):"@,
        report::bytes_text(all.ingress_bytes),
        report::bytes_text(all.egress_bytes),
        text::decimal(all.connections as nat),
    );
    let m0 = l12 + body;
    let m1 = m0.push(thin);
    let m2 = m1.push(some);
    let m3 = m2.push(every);
    flowed_goes_on(m0, thin);
    flowed_goes_on(m1, some);
    flowed_goes_on(m2, every);
    flowed_goes_on(m3, rule);
    m3.push(rule)
}

/// Totals are sums: of no rows they are zero, of one row they are its counters, and of two groups
/// of rows they are the totals of both added up.
pub proof fn totals_sum_up(
    sum: Totals,
    left: Totals,
    right: Totals,
    a: Seq<Row>,
    b: Seq<Row>,
    row: Row,
)
    ensures
        report::adds_up(sum, Seq::<Row>::empty()) ==> sum.ingress_bytes == 0 && sum.egress_bytes
            == 0 && sum.connections == 0,
        report::adds_up(sum, seq![row]) ==> sum.ingress_bytes == row.ingress_bytes
            && sum.egress_bytes == row.egress_bytes && sum.connections == row.connections,
        report::adds_up(sum, a + b) && report::adds_up(left, a) && report::adds_up(right, b) ==> {
            &&& sum.ingress_bytes == left.ingress_bytes + right.ingress_bytes
            &&& sum.egress_bytes == left.egress_bytes + right.egress_bytes
            &&& sum.connections == left.connections + right.connections
        },
{
    let ingress = |r: Row| r.ingress_bytes as int;
    let egress = |r: Row| r.egress_bytes as int;
    let connections = |r: Row| r.connections as int;
    columns_join(a, b, ingress);
    columns_join(a, b, egress);
    columns_join(a, b, connections);
    reveal_with_fuel(sums::sum, 2);
}

proof fn columns_join(a: Seq<Row>, b: Seq<Row>, field: spec_fn(Row) -> int)
    ensures
        sums::sum(conservation::column(a + b, field)) == sums::sum(conservation::column(a, field))
            + sums::sum(conservation::column(b, field)),
    decreases b.len(),
{
    if b.len() == 0 {
        assert(a + b =~= a);
    } else {
        let fewer = b.drop_last();
        columns_join(a, fewer, field);
        let whole = conservation::column(a + b, field);
        assert(whole.drop_last() =~= conservation::column(a + fewer, field));
        assert(conservation::column(b, field).drop_last() =~= conservation::column(fewer, field));
    }
}

} // verus!
