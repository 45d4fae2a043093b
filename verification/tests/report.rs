use wiretally::address::IpAddress;
use wiretally::report::{elide, format_bytes, Report, Totals, RULE};
use wiretally::rounding::{divide_nearest, hundredths_of_thousandths, push_two_decimals};
use wiretally::stats::Endpoint;

fn endpoint(domain: &str, rx: u64, tx: u64, conns: u64, matches: bool) -> Endpoint {
    Endpoint {
        domain: domain.to_owned(),
        ip_address: Some(IpAddress::V4([10, 0, 0, 1])),
        ingress_bytes: rx,
        egress_bytes: tx,
        connections: conns,
        matches_filter: matches,
    }
}

#[test]
fn byte_formatting_matches_spec_examples() {
    assert_eq!(format_bytes(0), "0 B");
    assert_eq!(format_bytes(1023), "1023 B");
    assert_eq!(format_bytes(1024), "1.00 KB");
    assert_eq!(format_bytes(4311), "4.21 KB");
    assert_eq!(format_bytes(149_760_000), "142.82 MB");
    assert_eq!(format_bytes(2 * 1024 * 1024 * 1024), "2.00 GB");
}

fn with_doubles(bytes: u64) -> String {
    let units = ["KB", "MB", "GB", "TB", "PB"];
    if bytes < 1024 {
        return format!("{bytes} B");
    }
    let mut value = bytes as f64 / 1024.0;
    let mut unit = 0;
    while value >= 1024.0 && unit < 4 {
        value /= 1024.0;
        unit += 1;
    }
    format!("{value:.2} {}", units[unit])
}

#[test]
fn bytes_print_as_double_precision_prints_them() {
    let mut samples = vec![
        512,
        1536,
        1024 * 1024 - 1,
        1024 * 1024,
        1152921504606846976,
        u64::MAX,
        u64::MAX - 1024,
        u64::MAX - 1025,
        (1 << 53) - 1,
        1 << 53,
        (1 << 53) + 1,
        (1 << 53) + 3,
        9_147_936_743_096_320,
    ];
    for k in 0..64 {
        for d in 0..40u64 {
            let base = 1u64 << k;
            samples.push(base.wrapping_add(d * (base >> 5) + d));
            samples.push(base.wrapping_sub(d));
            samples.push(base.wrapping_add(base >> 3).wrapping_add(d * (base >> 9)));
        }
    }
    for bytes in samples {
        assert_eq!(format_bytes(bytes), with_doubles(bytes), "{bytes}");
    }
    assert_eq!(format_bytes(u64::MAX), "16384.00 PB");
    assert_eq!(format_bytes(1152), "1.12 KB");
    assert_eq!(format_bytes(1408), "1.38 KB");
}

#[test]
fn seconds_print_as_double_precision_prints_them() {
    let mut samples: Vec<u128> = (0..5000).collect();
    for k in 0..128 {
        let base = 1u128 << k;
        for d in 0..30 {
            samples.push(base.wrapping_add(d));
            samples.push(base.wrapping_sub(d));
            samples.push(base.wrapping_add(d.wrapping_mul(base / 7)));
        }
    }
    samples.push(u128::MAX);
    for ms in samples {
        let mut text = String::new();
        push_two_decimals(&mut text, hundredths_of_thousandths(ms));
        assert_eq!(text, format!("{:.2}", ms as f64 / 1000.0), "{ms}");
    }
}

#[test]
fn division_rounds_half_to_even() {
    assert_eq!(divide_nearest(5, 2), 2);
    assert_eq!(divide_nearest(7, 2), 4);
    assert_eq!(divide_nearest(7, 3), 2);
    assert_eq!(divide_nearest(8, 3), 3);
    assert_eq!(divide_nearest(u128::MAX, 1), u128::MAX);
    assert_eq!(divide_nearest(u128::MAX, u128::MAX), 1);
}

#[test]
fn totals_split_filtered_from_all() {
    let report = Report::new(
        "curl x".to_owned(),
        Some("example.com".to_owned()),
        1840,
        0,
        vec![
            endpoint("a.example.com", 100, 10, 2, true),
            endpoint("other.dev", 5, 1, 1, false),
        ],
    );
    assert_eq!(report.totals.matching_filter.ingress_bytes, 100);
    assert_eq!(report.totals.all_destinations.ingress_bytes, 105);
    assert_eq!(report.totals.all_destinations.connections, 3);
}

#[test]
fn totals_are_sums() {
    assert_eq!(
        Totals::of(&[]),
        Totals { ingress_bytes: 0, egress_bytes: 0, connections: 0 }
    );
    let a = endpoint("a", 1, 2, 3, true);
    let b = endpoint("b", 10, 20, 30, false);
    assert_eq!(
        Totals::of(&[&a, &b]),
        Totals { ingress_bytes: 11, egress_bytes: 22, connections: 33 }
    );
}

#[test]
fn totals_that_do_not_fit_are_noticed() {
    let full = endpoint("a", u64::MAX, 0, 0, true);
    assert!(Totals::fit(&[full.clone(), endpoint("b", 0, u64::MAX, 1, true)]));
    assert!(!Totals::fit(&[full, endpoint("b", 1, 0, 0, false)]));
    assert!(Totals::fit(&[]));
}

#[test]
fn text_report_hides_nonmatching_rows_but_keeps_them_in_totals() {
    let report = Report::new(
        "curl x".to_owned(),
        Some("example.com".to_owned()),
        1000,
        0,
        vec![
            endpoint("a.example.com", 100, 10, 1, true),
            endpoint("other.dev", 5, 1, 1, false),
        ],
    );
    let text = report.to_text();
    assert!(text.contains("a.example.com"));
    assert!(!text.contains("other.dev"));
    assert!(text.contains("TOTAL (All Destinations):"));
    assert!(text.lines().all(|line| line.chars().count() <= RULE + 4));
}

#[test]
fn the_whole_text_is_laid_out_in_columns() {
    let report = Report::new(
        "curl -s -o /dev/null https://example.com/".to_owned(),
        Some("example.com".to_owned()),
        89,
        0,
        vec![
            endpoint("example.com", 4823, 585, 1, true),
            endpoint("elsewhere.dev", 1, 1, 1, false),
        ],
    );
    let rule = "=".repeat(80);
    let thin = "-".repeat(80);
    let expected = [
        rule.as_str(),
        "                           WIRETALLY TRAFFIC SUMMARY                            ",
        rule.as_str(),
        "Command:          curl -s -o /dev/null https://example.com/",
        "Target Filter:    *.example.com (Prefix Match)",
        "Execution Time:   0.09s",
        "Exit Code:        0",
        "",
        "DOMAIN / ENDPOINT SUMMARY:",
        thin.as_str(),
        "ENDPOINT / DOMAIN                   INGRESS (Rx)      EGRESS (Tx)   CONNS",
        thin.as_str(),
        "example.com                              4.71 KB            585 B       1",
        thin.as_str(),
        "TOTAL (Matching Filter):                 4.71 KB            585 B       1",
        "TOTAL (All Destinations):                4.71 KB            586 B       2",
        rule.as_str(),
        "",
    ]
    .join("\n");
    assert_eq!(report.to_text(), expected);
}

#[test]
fn an_empty_report_says_so() {
    let report = Report::new("true".to_owned(), None, 1500, -1, vec![]);
    let text = report.to_text();
    assert!(text.contains("(no matching traffic observed)\n"));
    assert!(text.contains("Target Filter:    none (all destinations)\n"));
    assert!(text.contains("Execution Time:   1.50s\n"));
    assert!(text.contains("Exit Code:        -1\n"));
    let hidden =
        Report::new("true".to_owned(), None, 1500, -1, vec![endpoint("x", 0, 0, 0, false)]);
    assert_eq!(hidden.to_text(), text);
}

#[test]
fn elide_keeps_column_width() {
    let long = "a".repeat(60);
    assert_eq!(elide(&long, 10).chars().count(), 10);
    assert_eq!(elide("short", 10), "short");
}

#[test]
fn elision_is_marked() {
    assert_eq!(elide("abcdef", 4), "abc…");
    assert_eq!(elide("abcdef", 6), "abcdef");
    assert_eq!(elide("äöüß", 3), "äö…");
    assert_eq!(elide("ab", 1), "…");
    assert_eq!(elide("ab", 0), "…");
    assert_eq!(elide("", 0), "");
}

#[test]
fn long_names_do_not_break_the_columns() {
    let name = "n".repeat(90);
    let report = Report::new(
        "x".to_owned(),
        None,
        0,
        0,
        vec![endpoint(&name, u64::MAX, 1, 12_345_678, true)],
    );
    let text = report.to_text();
    let row = text.lines().find(|line| line.starts_with('n')).unwrap();
    assert_eq!(row.chars().count(), 73);
    assert!(row.ends_with("16384.00 PB              1 B12345678"), "{row}");
}
