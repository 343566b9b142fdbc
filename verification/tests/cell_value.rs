//! The typed cell value: sorting through it, and formatting it per locale.

#![allow(clippy::unwrap_used, clippy::indexing_slicing)]

use chrono::{Datelike, NaiveDate};
use datagrid_core::{
    compute_view, Cell, CellAlign, CellFormat, CellValue, ColumnSpec, GridLocale, GridState,
    SortState, Timestamp, Value, ValueKind,
};

fn format(locale: &GridLocale, value: CellValue<'_>, format: &CellFormat) -> String {
    locale.format(&value, format)
}

fn cell(value: CellValue<'_>) -> Cell<'_> {
    Cell { value, text: None }
}

#[test]
fn the_sort_shortcuts_set_the_value() {
    let name = ColumnSpec::new("name".into()).with_value();
    let age = ColumnSpec::new("age".into()).with_value();

    assert_eq!(name.read(&cell(CellValue::Text("Ada"))), CellValue::Text("Ada"));
    assert_eq!(age.read(&cell(CellValue::from(36_u32))), CellValue::Int(36));
    assert!(name.is_sortable() && age.is_sortable());
}

#[test]
fn a_value_can_be_kept_out_of_sorting() {
    let column = ColumnSpec::new("n".into()).with_value().sortable(false);
    let state = GridState {
        sort: vec![SortState::asc("n")],
        ..GridState::new()
    };

    assert!(!column.is_sortable());
    let rows = vec![3_i64, 1, 2];
    let cells: Vec<Vec<Cell>> = rows.iter().map(|n| vec![cell(CellValue::Int(*n))]).collect();
    assert_eq!(compute_view(&cells, &[column], &state).indices, [0, 1, 2]);
}

#[test]
fn a_column_without_value_reads_none() {
    let column = ColumnSpec::new("empty".into());
    let one = cell(CellValue::Int(1));
    assert!(column.read(&one).is_none());
    assert_eq!(column.display_text(&one, &GridLocale::english()), None);
}

#[test]
fn numbers_are_grouped_and_rounded_per_locale() {
    let en = GridLocale::english();
    let two = CellFormat::number(2);

    assert_eq!(
        format(&en, CellValue::Int(-1_234_567), &two),
        "-1,234,567.00"
    );
    assert_eq!(
        format(&en, CellValue::Int(999), &CellFormat::number(0)),
        "999"
    );
}

#[test]
fn plain_keeps_the_value_and_localizes_only_the_decimal_separator() {
    let (en, de) = (GridLocale::english(), GridLocale::german());

    assert_eq!(
        format(&en, CellValue::Int(12345), &CellFormat::Plain),
        "12345"
    );
    assert_eq!(format(&de, CellValue::Bool(true), &CellFormat::Plain), "Ja");
    assert_eq!(
        format(&en, CellValue::Bool(false), &CellFormat::Plain),
        "No"
    );
    assert_eq!(format(&en, CellValue::Empty, &CellFormat::number(2)), "");
    // Text under a number format stays text.
    assert_eq!(
        format(&en, CellValue::Text("n/a"), &CellFormat::number(2)),
        "n/a"
    );
}

#[test]
fn currency_and_percent_follow_the_locale() {
    let en = GridLocale::english();
    assert_eq!(
        format(&en, CellValue::Int(5), &CellFormat::currency("CHF", 0)),
        "CHF\u{a0}5"
    );
}

#[test]
fn numeric_formats_align_at_the_end() {
    let plain = ColumnSpec::new("a".into());
    let money = ColumnSpec::new("b".into()).format(CellFormat::currency("€", 2));
    let centered = ColumnSpec::new("c".into())
        .format(CellFormat::number(0))
        .align(CellAlign::Center);

    assert_eq!(plain.effective_align(), CellAlign::Start);
    assert_eq!(money.effective_align(), CellAlign::End);
    assert_eq!(centered.effective_align(), CellAlign::Center);
}

#[test]
fn texts_fill_their_placeholders() {
    let (en, de) = (GridLocale::english(), GridLocale::german());

    assert_eq!(en.page_of(2, 5), "Page 2 of 5");
    assert_eq!(de.page_of(1, 1200), "Seite 1 von 1.200");
    assert_eq!(en.row_count(1), "1 row");
    assert_eq!(en.row_count(100_000), "100,000 rows");
    assert_eq!(de.row_count(0), "0 Zeilen");
    assert_eq!(de.selected_count(3), "3 ausgewählt");
    assert_eq!(de.filter_column("Name"), "Name filtern");
}

/// 18 September 2026 as a day number.
fn date() -> i32 {
    NaiveDate::from_ymd_opt(2026, 9, 18).unwrap().num_days_from_ce()
}

/// 18 September 2026, 14:05.
fn date_time() -> Timestamp {
    Timestamp { days: date(), seconds: 14 * 3600 + 5 * 60, nanos: 0 }
}

#[test]
fn dates_use_the_locale_pattern() {
    let (en, de) = (GridLocale::english(), GridLocale::german());

    assert_eq!(
        format(&en, CellValue::Date(date()), &CellFormat::Plain),
        "09/18/2026"
    );
    assert_eq!(
        format(&de, CellValue::Date(date()), &CellFormat::Plain),
        "18.09.2026"
    );
    assert_eq!(
        format(&de, CellValue::DateTime(date_time()), &CellFormat::Plain),
        "18.09.2026 14:05"
    );
    assert_eq!(
        format(&de, CellValue::DateTime(date_time()), &CellFormat::Date),
        "18.09.2026"
    );
    assert_eq!(
        format(
            &en,
            CellValue::Date(date()),
            &CellFormat::date_pattern("%Y-%m-%d")
        ),
        "2026-09-18"
    );
}

#[test]
fn an_invalid_pattern_falls_back_to_iso() {
    let en = GridLocale::english();
    assert_eq!(
        format(
            &en,
            CellValue::Date(date()),
            &CellFormat::date_pattern("%Q")
        ),
        "2026-09-18"
    );
}

#[test]
fn dates_and_date_times_order_chronologically() {
    let midnight = Timestamp::midnight(date());
    assert_eq!(CellValue::Date(date()), CellValue::DateTime(midnight));
    assert_eq!(
        CellValue::Date(date()).cmp(&CellValue::DateTime(date_time())),
        std::cmp::Ordering::Less
    );
    assert_eq!(
        CellValue::DateTime(date_time()).cmp(&CellValue::Text("a")),
        std::cmp::Ordering::Less
    );
    assert_eq!(
        CellValue::Int(i64::MAX).cmp(&CellValue::Date(date())),
        std::cmp::Ordering::Less
    );
}

#[test]
fn whole_numbers_read_as_percentages() {
    let (en, de) = (GridLocale::english(), GridLocale::german());
    assert_eq!(format(&en, CellValue::Int(1), &CellFormat::percent(0)), "100%");
    assert_eq!(format(&de, CellValue::Int(-3), &CellFormat::percent(1)), "-300,0\u{a0}%");
}

#[test]
fn currency_goes_before_or_after_the_amount() {
    let (en, de) = (GridLocale::english(), GridLocale::german());
    assert_eq!(format(&en, CellValue::Int(-3), &CellFormat::currency("$", 2)), "-$3.00");
    assert_eq!(format(&de, CellValue::Int(1234), &CellFormat::currency("€", 2)), "1.234,00\u{a0}€");
}

#[test]
fn a_column_formats_its_own_value() {
    let column = ColumnSpec::new("n".into()).with_value().format(CellFormat::number(1));
    assert_eq!(
        column.display_text(&cell(CellValue::Int(1500)), &GridLocale::german()),
        Some("1.500,0".to_owned())
    );
}

#[test]
fn dates_are_read_in_iso_and_local_forms() {
    assert_eq!(Value::parse(ValueKind::Date, "2026-09-18"), Some(Value::Date(date())));
    assert_eq!(Value::parse(ValueKind::Date, " 18.09.2026 "), Some(Value::Date(date())));
    assert_eq!(Value::parse(ValueKind::Date, "someday"), None);
    assert_eq!(
        Value::parse(ValueKind::DateTime, "2026-09-18T14:05"),
        Some(Value::DateTime(date_time()))
    );
    // What an editor starts with reads back.
    assert_eq!(Value::Date(date()).edit_text(), "2026-09-18");
    assert_eq!(Value::DateTime(date_time()).edit_text(), "2026-09-18T14:05");
}
