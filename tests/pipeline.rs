use marketcap::decimal::{parse_decimal, Decimal, DecimalError};
use marketcap::json::{JsonDocument, JsonEntry, JsonField};
use marketcap::snapshot::{parse_snapshot, record_from_fields, snapshot_from_document, MarketRecord, SnapshotError};
use marketcap::style::{classify, Emphasis, RowStyle, Tone};
use marketcap::table::{format_row, header, market_rows, market_table, sort_rows, DisplayRow};
use marketcap::text::format_fixed;

fn dec(mantissa: i128, scale: u32) -> Decimal {
    Decimal { mantissa, scale }
}

fn record(last: Decimal, percent_change: Decimal) -> MarketRecord {
    MarketRecord {
        avg24hr: "6325".to_string(),
        base_volume: dec(27633587786259542, 17),
        high24hr: "6550".to_string(),
        highest_bid: "6150".to_string(),
        last,
        low24hr: "6100".to_string(),
        lowest_ask: "6549.99".to_string(),
        percent_change,
        quote_volume: dec(1720000000000000001, 15),
    }
}

const BCH_PAYLOAD: &str = r#"{"BCH_THB": {"avg24hr": "6325", "baseVolume": "0.27633587786259542", "high24hr": "6550", "highestBid": "6150", "last": "6100", "low24hr": "6100", "lowestAsk": "6549.99", "percentChange": "-3.557312252964426877", "quoteVolume": "1720.000000000000001"}}"#;

fn cells(row: &DisplayRow) -> Vec<&str> {
    row.cells.iter().map(|c| c.as_str()).collect()
}

#[test]
fn parse_decimal_keeps_every_digit() {
    assert_eq!(parse_decimal("-3.557312252964426877"), Ok(dec(-3557312252964426877, 18)));
    assert_eq!(parse_decimal("6100"), Ok(dec(6100, 0)));
    assert_eq!(parse_decimal("0.27633587786259542"), Ok(dec(27633587786259542, 17)));
}

#[test]
fn parse_decimal_rejects_non_numbers() {
    assert_eq!(parse_decimal("abc"), Err(DecimalError::InvalidNumber));
    assert_eq!(parse_decimal(""), Err(DecimalError::InvalidNumber));
    assert_eq!(parse_decimal("1.2.3"), Err(DecimalError::InvalidNumber));
}

#[test]
fn rounding_goes_half_away_from_zero() {
    assert_eq!(dec(2345, 3).round_dp(2), dec(235, 2));
    assert_eq!(dec(-2345, 3).round_dp(2), dec(-235, 2));
    assert_eq!(dec(2344, 3).round_dp(2), dec(234, 2));
    assert_eq!(dec(-3557312252964426877, 18).round_dp(2), dec(-356, 2));
}

#[test]
fn rounding_keeps_short_decimals() {
    assert_eq!(dec(6100, 0).round_dp(2), dec(6100, 0));
    assert_eq!(dec(15, 1).round_dp(2), dec(15, 1));
}

#[test]
fn rounding_twice_changes_nothing() {
    for (m, s) in [(2345i128, 3u32), (-3557312252964426877, 18), (27633587786259542, 17), (5, 1), (-5, 3)] {
        let once = dec(m, s).round_dp(2);
        assert_eq!(once.round_dp(2), once);
    }
}

#[test]
fn parse_then_format_keeps_value_to_two_digits() {
    let d = parse_decimal("1720.000000000000001").unwrap();
    assert_eq!(format_fixed(d, 2, 0), "1720.00");
    let d = parse_decimal("0.005").unwrap();
    assert_eq!(format_fixed(d, 2, 0), "0.01");
    let d = parse_decimal("-0.004").unwrap();
    assert_eq!(format_fixed(d, 2, 0), "0.00");
}

#[test]
fn format_fixed_pads_and_keeps_trailing_zeros() {
    assert_eq!(format_fixed(dec(6100, 0), 2, 10), "   6100.00");
    assert_eq!(format_fixed(dec(15, 1), 2, 5), " 1.50");
    assert_eq!(format_fixed(dec(-356, 2), 2, 5), "-3.56");
    assert_eq!(format_fixed(dec(7, 3), 2, 6), "  0.01");
    assert_eq!(format_fixed(dec(12, 0), 0, 3), " 12");
}

#[test]
fn format_fixed_does_not_truncate_wide_values() {
    assert_eq!(format_fixed(dec(123456789123, 3), 2, 10), "123456789.12");
}

#[test]
fn classify_thresholds() {
    assert_eq!(classify(dec(-301, 2)), RowStyle::StrongNegative);
    assert_eq!(classify(dec(-3, 0)), RowStyle::MildNegative);
    assert_eq!(classify(dec(-101, 2)), RowStyle::MildNegative);
    assert_eq!(classify(dec(-1, 0)), RowStyle::Neutral);
    assert_eq!(classify(dec(0, 0)), RowStyle::Neutral);
    assert_eq!(classify(dec(101, 2)), RowStyle::MildPositive);
    assert_eq!(classify(dec(301, 2)), RowStyle::StrongPositive);
    assert_eq!(classify(dec(-3557312252964426877, 18)), RowStyle::StrongNegative);
}

#[test]
fn classify_upper_bounds_are_inclusive() {
    assert_eq!(classify(dec(100, 2)), RowStyle::Neutral);
    assert_eq!(classify(dec(300, 2)), RowStyle::MildPositive);
    assert_eq!(classify(dec(1, 0)), RowStyle::Neutral);
    assert_eq!(classify(dec(3, 0)), RowStyle::MildPositive);
}

#[test]
fn every_percent_change_gets_one_style() {
    for m in -500i128..=500 {
        let p = dec(m, 2);
        let expected = if m < -300 {
            RowStyle::StrongNegative
        } else if m < -100 {
            RowStyle::MildNegative
        } else if m > 300 {
            RowStyle::StrongPositive
        } else if m > 100 {
            RowStyle::MildPositive
        } else {
            RowStyle::Neutral
        };
        assert_eq!(classify(p), expected);
    }
}

#[test]
fn styles_have_tones_and_emphasis() {
    assert_eq!(RowStyle::StrongNegative.tone(), Tone::Red);
    assert_eq!(RowStyle::MildNegative.tone(), Tone::LightRed);
    assert_eq!(RowStyle::StrongPositive.tone(), Tone::Green);
    assert_eq!(RowStyle::MildPositive.tone(), Tone::LightGreen);
    assert_eq!(RowStyle::Neutral.tone(), Tone::White);
    assert_eq!(RowStyle::StrongNegative.emphasis(), Emphasis::Bold);
    assert_eq!(RowStyle::MildPositive.emphasis(), Emphasis::Plain);
    assert_eq!(RowStyle::Neutral.emphasis(), Emphasis::Blink);
}

#[test]
fn header_row() {
    assert_eq!(header(), vec!["Pair", "Price", "%", "Vol.", "Value"]);
}

#[test]
fn format_row_of_example_pair() {
    let row = format_row(&"BCH_THB".to_string(), &record(dec(6100, 0), dec(-3557312252964426877, 18)));
    assert_eq!(row.style, RowStyle::StrongNegative);
    assert_eq!(cells(&row), vec!["BCH_THB", "   6100.00", "-3.56", "      0.28", "   1720.00"]);
}

#[test]
fn rows_are_ordered_by_pair() {
    let snapshot = vec![
        ("ETH_THB".to_string(), record(dec(1, 0), dec(0, 0))),
        ("BCH_THB".to_string(), record(dec(2, 0), dec(0, 0))),
        ("BTC_THB".to_string(), record(dec(3, 0), dec(0, 0))),
    ];
    let rows = market_rows(&snapshot);
    let pairs: Vec<&str> = rows.iter().map(|r| r.cells[0].as_str()).collect();
    assert_eq!(pairs, vec!["BCH_THB", "BTC_THB", "ETH_THB"]);
    assert_eq!(rows[0].cells[1], "      2.00");
}

#[test]
fn sort_rows_uses_byte_order_and_is_stable() {
    let row = |pair: &str, style: RowStyle| DisplayRow { style, cells: vec![pair.to_string()] };
    let mut rows = vec![
        row("b", RowStyle::Neutral),
        row("B", RowStyle::Neutral),
        row("a", RowStyle::StrongNegative),
        row("ab", RowStyle::Neutral),
        row("a", RowStyle::StrongPositive),
    ];
    sort_rows(&mut rows);
    let got: Vec<(&str, RowStyle)> = rows.iter().map(|r| (r.cells[0].as_str(), r.style)).collect();
    assert_eq!(
        got,
        vec![
            ("B", RowStyle::Neutral),
            ("a", RowStyle::StrongNegative),
            ("a", RowStyle::StrongPositive),
            ("ab", RowStyle::Neutral),
            ("b", RowStyle::Neutral),
        ]
    );
}

#[test]
fn sort_rows_on_empty() {
    let mut rows: Vec<DisplayRow> = Vec::new();
    sort_rows(&mut rows);
    assert!(rows.is_empty());
}

#[test]
fn example_payload_end_to_end() {
    let rows = market_table(BCH_PAYLOAD.as_bytes()).unwrap();
    assert_eq!(rows.len(), 1);
    assert_eq!(rows[0].style, RowStyle::StrongNegative);
    assert_eq!(cells(&rows[0]), vec!["BCH_THB", "   6100.00", "-3.56", "      0.28", "   1720.00"]);
}

#[test]
fn parse_snapshot_reads_records() {
    let snapshot = parse_snapshot(BCH_PAYLOAD.as_bytes()).unwrap();
    assert_eq!(snapshot.len(), 1);
    assert_eq!(snapshot[0].0, "BCH_THB");
    assert_eq!(snapshot[0].1, record(dec(6100, 0), dec(-3557312252964426877, 18)));
}

#[test]
fn missing_last_is_malformed() {
    let payload = BCH_PAYLOAD.replace(r#""last": "6100", "#, "");
    assert_eq!(market_table(payload.as_bytes()), Err(SnapshotError::MalformedPayload));
    assert_eq!(parse_snapshot(payload.as_bytes()), Err(SnapshotError::MalformedPayload));
}

#[test]
fn one_bad_record_rejects_all() {
    let payload = r#"{"ETH_THB": {"avg24hr": "1", "baseVolume": "1", "high24hr": "1", "highestBid": "1", "last": "1", "low24hr": "1", "lowestAsk": "1", "percentChange": "0", "quoteVolume": "1"}, "BCH_THB": {"avg24hr": "1"}}"#;
    assert_eq!(market_table(payload.as_bytes()), Err(SnapshotError::MalformedPayload));
}

#[test]
fn non_object_payloads_are_malformed() {
    assert_eq!(market_table(b"[1, 2]"), Err(SnapshotError::MalformedPayload));
    assert_eq!(market_table(b"not json"), Err(SnapshotError::MalformedPayload));
    assert_eq!(market_table(br#"{"BCH_THB": 5}"#), Err(SnapshotError::MalformedPayload));
}

#[test]
fn numbers_must_be_strings_that_parse() {
    let as_number = BCH_PAYLOAD.replace(r#""last": "6100""#, r#""last": 6100"#);
    assert_eq!(market_table(as_number.as_bytes()), Err(SnapshotError::MalformedPayload));
    let not_decimal = BCH_PAYLOAD.replace(r#""last": "6100""#, r#""last": "six""#);
    assert_eq!(market_table(not_decimal.as_bytes()), Err(SnapshotError::MalformedPayload));
}

#[test]
fn empty_object_gives_no_rows() {
    assert_eq!(market_table(b"{}"), Ok(Vec::new()));
}

#[test]
fn snapshot_from_document_checks_each_field() {
    let fields = |last: JsonField| {
        vec![
            ("avg24hr".to_string(), JsonField::Text("1".to_string())),
            ("baseVolume".to_string(), JsonField::Text("2".to_string())),
            ("high24hr".to_string(), JsonField::Text("3".to_string())),
            ("highestBid".to_string(), JsonField::Text("4".to_string())),
            ("last".to_string(), last),
            ("low24hr".to_string(), JsonField::Text("6".to_string())),
            ("lowestAsk".to_string(), JsonField::Text("7".to_string())),
            ("percentChange".to_string(), JsonField::Text("1.00".to_string())),
            ("quoteVolume".to_string(), JsonField::Text("9".to_string())),
        ]
    };
    let good = record_from_fields(&fields(JsonField::Text("5.5".to_string()))).unwrap();
    assert_eq!(good.last, dec(55, 1));
    assert_eq!(good.percent_change, dec(100, 2));
    assert_eq!(good.lowest_ask, "7");
    assert_eq!(record_from_fields(&fields(JsonField::Other)), None);
    let doc = JsonDocument::Object(vec![
        ("X_Y".to_string(), JsonEntry::Object(fields(JsonField::Text("5".to_string())))),
        ("Z_Y".to_string(), JsonEntry::Other),
    ]);
    assert_eq!(snapshot_from_document(&doc), Err(SnapshotError::MalformedPayload));
    assert_eq!(snapshot_from_document(&JsonDocument::Other), Err(SnapshotError::MalformedPayload));
    assert_eq!(snapshot_from_document(&JsonDocument::Invalid), Err(SnapshotError::MalformedPayload));
}
