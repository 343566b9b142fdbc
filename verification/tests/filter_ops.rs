//! Typed filters: the filter bar's shortcuts, the operators per kind, and
//! the value list.

#![allow(clippy::unwrap_used, clippy::indexing_slicing)]

use chrono::{Datelike, NaiveDate};
use datagrid_core::{
    compute_view, contains_ignore_case, distinct_values, Cell, CellValue, ColumnFilter, ColumnId, ColumnSpec, Condition,
    FilterOp, FilterValue, GridState, ValueKind,
};

#[derive(Clone, Debug)]
struct Row {
    number: Option<i64>,
    text: Option<String>,
    flag: Option<bool>,
}

fn columns() -> Vec<ColumnSpec> {
    vec![
        ColumnSpec::new("number".into()).with_value(),
        ColumnSpec::new("text".into()).with_value(),
        ColumnSpec::new("flag".into()).with_value(),
    ]
}

fn cells(rows: &[Row]) -> Vec<Vec<Cell<'_>>> {
    rows.iter()
        .map(|row| {
            vec![
                Cell { value: row.number.map_or(CellValue::Empty, CellValue::Int), text: None },
                Cell { value: row.text.as_deref().map_or(CellValue::Empty, CellValue::Text), text: None },
                Cell { value: row.flag.map_or(CellValue::Empty, CellValue::Bool), text: None },
            ]
        })
        .collect()
}

#[test]
fn the_bar_reads_operators_ranges_and_plain_text() {
    let parse = |text: &str| Condition::from_text(text).map(|c| (c.op, c.values));

    assert_eq!(
        parse(">100"),
        Some((FilterOp::Greater, vec![FilterValue::from("100")]))
    );
    assert_eq!(
        parse(" >= 5 "),
        Some((FilterOp::GreaterOrEqual, vec![FilterValue::from("5")]))
    );
    assert_eq!(
        parse("!=Berlin"),
        Some((FilterOp::NotEquals, vec![FilterValue::from("Berlin")]))
    );
    assert_eq!(
        parse("10..20"),
        Some((
            FilterOp::Between,
            vec![FilterValue::from("10"), FilterValue::from("20")]
        ))
    );
    assert_eq!(
        parse("ber"),
        Some((FilterOp::Contains, vec![FilterValue::from("ber")]))
    );
    // Half-typed input filters nothing rather than everything away.
    assert_eq!(parse(">"), None);
    assert_eq!(parse("   "), None);
}

#[test]
fn the_bar_compares_numbers_and_leaves_text_as_substring() {
    let rows = vec![
        Row {
            number: Some(5),
            text: Some("Berlin".into()),
            flag: None,
        },
        Row {
            number: Some(150),
            text: Some("Bern".into()),
            flag: None,
        },
    ];
    let count = |column: &'static str, text: &str| {
        let mut state = GridState::new();
        state.set_filter(column, text);
        compute_view(&cells(&rows), &columns(), &state).filtered_len
    };

    assert_eq!(count("number", ">100"), 1);
    assert_eq!(
        count("number", "5"),
        1,
        "plain text on a number means equals"
    );
    assert_eq!(count("number", "1..200"), 2);
    assert_eq!(count("text", "ber"), 2);
    assert_eq!(count("text", "=berlin"), 1);
    // Not a number: compares nothing, so nothing passes.
    assert_eq!(count("number", ">abc"), 0);
}

#[test]
fn operators_follow_the_kind() {
    assert!(ValueKind::Text.operators().contains(&FilterOp::StartsWith));
    assert!(!ValueKind::Number.operators().contains(&FilterOp::Contains));
    assert!(ValueKind::Number.operators().contains(&FilterOp::Between));
    for op in ValueKind::Number.operators() {
        assert_eq!(FilterOp::from_name(op.as_str()), Some(op));
    }
}

#[test]
fn the_kind_comes_from_the_rows_unless_declared() {
    let rows = vec![
        Row {
            number: None,
            text: None,
            flag: None,
        },
        Row {
            number: Some(1),
            text: None,
            flag: None,
        },
    ];
    let table = cells(&rows);
    let column_values = |c: usize| -> Vec<CellValue> { table.iter().map(|row| row[c].value).collect() };
    let columns = columns();

    assert_eq!(columns[0].value_kind(&column_values(0)), Some(ValueKind::Number));
    assert_eq!(columns[1].value_kind(&column_values(1)), None);
    assert_eq!(
        columns[1].clone().kind(ValueKind::Text).value_kind(&column_values(1)),
        Some(ValueKind::Text)
    );
}

#[test]
fn a_long_value_list_is_truncated_in_sort_order() {
    let rows: Vec<Row> = (0..10)
        .map(|n| Row {
            number: Some(9 - n),
            text: None,
            flag: None,
        })
        .collect();
    let list = distinct_values(
        &cells(&rows),
        &columns(),
        &GridState::new(),
        &ColumnId::from("number"),
        3,
    )
    .unwrap();

    assert_eq!(
        list.values,
        vec![
            (FilterValue::Int(0), 1),
            (FilterValue::Int(1), 1),
            (FilterValue::Int(2), 1)
        ]
    );
    assert!(list.truncated);
}

fn day(d: u32) -> i32 {
    NaiveDate::from_ymd_opt(2026, 9, d).unwrap().num_days_from_ce()
}

#[test]
fn dates_compare_and_read_german_and_iso_text() {
    let days: Vec<i32> = (1..=30).map(day).collect();
    let table: Vec<Vec<Cell>> = days
        .iter()
        .map(|on| vec![Cell { value: CellValue::Date(*on), text: None }])
        .collect();
    let columns = vec![ColumnSpec::new("on".into()).with_value()];
    let count = |filter: ColumnFilter| {
        let mut state = GridState::new();
        state.set_column_filter("on", filter);
        compute_view(&table, &columns, &state).filtered_len
    };

    assert_eq!(count(Condition::less("10.09.2026").into()), 9);
    assert_eq!(count(Condition::greater_or_equal("2026-09-25").into()), 6);
    assert_eq!(
        count(Condition::between(FilterValue::Date(day(10)), FilterValue::Date(day(12))).into()),
        3
    );
    assert_eq!(count(Condition::equals("09/18/2026").into()), 1);

    let mut state = GridState::new();
    state.set_filter("on", "<05.09.2026");
    assert_eq!(compute_view(&table, &columns, &state).filtered_len, 4);
}

#[test]
fn the_value_list_leaves_out_the_columns_own_filter() {
    let rows: Vec<Row> = ["b", "a", "b", "c"]
        .iter()
        .map(|t| Row { number: None, text: Some((*t).to_owned()), flag: None })
        .chain(std::iter::once(Row { number: None, text: None, flag: None }))
        .collect();
    let mut state = GridState::new();
    state.set_filter("text", "=b");
    let list = distinct_values(&cells(&rows), &columns(), &state, &ColumnId::from("text"), 10).unwrap();
    assert_eq!(
        list.values,
        vec![
            (FilterValue::from("a"), 1),
            (FilterValue::from("b"), 2),
            (FilterValue::from("c"), 1)
        ]
    );
    assert_eq!(list.empty, 1);
    assert!(!list.truncated);
    assert!(distinct_values(&cells(&rows), &columns(), &state, &ColumnId::from("nope"), 10).is_none());
}

#[test]
fn contains_ignoring_case_lowercases_before_comparing_lengths() {
    // "ẞ" takes three bytes and "ß" two; lowercased, both are "ß".
    assert!(contains_ignore_case("ß", "ẞ"));
    assert!(contains_ignore_case("Straße", "STRAẞE"));
    assert!(contains_ignore_case("Hello", "LL"));
    assert!(contains_ignore_case("abc", ""));
    assert!(!contains_ignore_case("ab", "abc"));
    assert!(!contains_ignore_case("ß", "ss"));
}

#[test]
fn a_contains_condition_finds_a_longer_capital_in_a_shorter_text() {
    let c = Condition::new(FilterOp::Contains, vec![FilterValue::from("ẞ")]);
    assert!(c.matches(&CellValue::Text("ß"), None));
}

#[test]
fn blank_text_is_any_unicode_white_space() {
    let is_empty = Condition::new(FilterOp::IsEmpty, vec![]);
    assert!(is_empty.matches(&CellValue::Text("\u{2003}\u{3000}\n\u{85}"), None));
    // A zero-width space is not white space.
    assert!(!is_empty.matches(&CellValue::Text("\u{200B}"), None));
    for c in ['\u{9}', '\u{a0}', '\u{1680}', '\u{200a}', '\u{2029}', '\u{202f}', '\u{205f}'] {
        assert!(c.is_whitespace());
        assert!(is_empty.matches(&CellValue::Text(&c.to_string()), None));
    }
}
