//! Unit tests for the total order of values and for multi-column sorting.

#![allow(clippy::unwrap_used, clippy::indexing_slicing)]

use datagrid_core::{
    compute_view, Cell, CellValue, ColumnSpec, GridState, GridView, SortDirection, SortState,
    SortValue, TextCollation,
};
use std::cmp::Ordering;

/// A row with one field per interesting column kind.
#[derive(Clone, Debug, PartialEq)]
struct User {
    id: u32,
    name: String,
    email: String,
    age: u32,
    nickname: Option<String>,
}

impl User {
    fn new(id: u32, name: &str, age: u32) -> Self {
        Self {
            id,
            name: name.to_owned(),
            email: format!("{}@example.com", name.to_lowercase()),
            age,
            nickname: None,
        }
    }

    fn with_nickname(mut self, nickname: &str) -> Self {
        self.nickname = Some(nickname.to_owned());
        self
    }
}

/// Five users in a deliberately unsorted order, with ties on `age`.
fn sample_rows() -> Vec<User> {
    vec![
        User::new(1, "Zoe", 30),
        User::new(2, "adam", 25),
        User::new(3, "Mia", 30),
        User::new(4, "Carol", 41),
        User::new(5, "bob", 41),
    ]
}

/// One cell per column, read by `read` from each row.
fn table<'a>(rows: &'a [User], read: &[for<'b> fn(&'b User) -> Cell<'b>]) -> Vec<Vec<Cell<'a>>> {
    rows.iter()
        .map(|row| read.iter().map(|f| f(row)).collect())
        .collect()
}

fn age(user: &User) -> Cell<'_> {
    Cell { value: CellValue::from(user.age), text: None }
}

fn name(user: &User) -> Cell<'_> {
    Cell { value: CellValue::Text(user.name.as_str()), text: None }
}

fn email_text(user: &User) -> Cell<'_> {
    Cell { value: CellValue::Empty, text: Some(user.email.clone()) }
}

fn nickname(user: &User) -> Cell<'_> {
    Cell { value: CellValue::from(user.nickname.as_deref()), text: None }
}

/// The names of the rows a view selected, in display order.
fn names_of<'a>(rows: &'a [User], view: &GridView) -> Vec<&'a str> {
    view.indices
        .iter()
        .filter_map(|&index| rows.get(index))
        .map(|user| user.name.as_str())
        .collect()
}

#[test]
fn text_is_case_insensitive_by_default() {
    let lower = SortValue::Text("adam");
    let upper = SortValue::Text("Zoe");
    assert_eq!(lower.cmp(&upper), Ordering::Less);

    // Case-sensitive collation orders uppercase first instead.
    assert_eq!(
        lower.cmp_with(&upper, TextCollation::CaseSensitive),
        Ordering::Greater
    );
}

#[test]
fn none_sorts_after_every_other_value() {
    let values = [
        SortValue::Bool(true),
        SortValue::Int(i64::MAX),
        SortValue::Text("zzz"),
    ];
    for value in values {
        assert_eq!(
            value.cmp(&SortValue::Empty),
            Ordering::Less,
            "{value:?} should sort before None"
        );
    }
    assert_eq!(SortValue::Empty.cmp(&SortValue::Empty), Ordering::Equal);
}

#[test]
fn ord_and_eq_agree() {
    let values = [
        SortValue::Empty,
        SortValue::Bool(false),
        SortValue::Int(1),
        SortValue::Text("a"),
        SortValue::Text("A"),
    ];
    for left in &values {
        for right in &values {
            assert_eq!(
                left.cmp(right) == Ordering::Equal,
                left == right,
                "{left:?} vs {right:?}"
            );
            assert_eq!(left.partial_cmp(right), Some(left.cmp(right)));
        }
    }
}

#[test]
fn values_differing_only_in_case_are_ordered_not_equal() {
    let lower = SortValue::Text("abc");
    let upper = SortValue::Text("ABC");

    // They must not compare Equal, otherwise Ord and PartialEq would disagree
    // with each other and the order would stop being total.
    assert_ne!(lower.cmp(&upper), Ordering::Equal);
    assert_ne!(lower, upper);
}

#[test]
fn option_maps_none_to_sort_value_none() {
    assert_eq!(SortValue::from(None::<u32>), SortValue::Empty);
    assert_eq!(SortValue::from(Some(7_u32)), SortValue::Int(7));
}

#[test]
fn sorting_is_stable_for_equal_keys() {
    // Every row has the same age, so the sort must preserve the input order.
    let rows: Vec<User> = (0..10)
        .map(|i| User::new(i, &format!("user{i}"), 40))
        .collect();
    let cells = table(&rows, &[age]);
    let columns = vec![ColumnSpec::new("age".into()).with_value()];

    let mut state = GridState::new();
    state.sort = vec![SortState::asc("age")];

    let view = compute_view(&cells, &columns, &state);
    assert_eq!(view.indices, (0..10).collect::<Vec<_>>());
}

#[test]
fn multi_sort_follows_priority_order() {
    let rows = sample_rows();
    let cells = table(&rows, &[age, name]);
    let columns = vec![
        ColumnSpec::new("age".into()).with_value(),
        ColumnSpec::new("name".into()).with_value(),
    ];

    let mut state = GridState::new();
    state.sort = vec![SortState::asc("age"), SortState::asc("name")];

    let view = compute_view(&cells, &columns, &state);
    let ordered: Vec<(u32, &str)> = view
        .indices
        .iter()
        .map(|&i| (rows[i].age, rows[i].name.as_str()))
        .collect();

    assert_eq!(
        ordered,
        [
            (25, "adam"),
            (30, "Mia"),
            (30, "Zoe"),
            (41, "bob"),
            (41, "Carol"),
        ]
    );
}

#[test]
fn reversing_the_primary_column_keeps_the_secondary_ascending() {
    let rows = sample_rows();
    let cells = table(&rows, &[age, name]);
    let columns = vec![
        ColumnSpec::new("age".into()).with_value(),
        ColumnSpec::new("name".into()).with_value(),
    ];

    let mut state = GridState::new();
    state.sort = vec![
        SortState::new("age", SortDirection::Desc),
        SortState::asc("name"),
    ];

    let view = compute_view(&cells, &columns, &state);
    let ordered: Vec<(u32, &str)> = view
        .indices
        .iter()
        .map(|&i| (rows[i].age, rows[i].name.as_str()))
        .collect();

    assert_eq!(
        ordered,
        [
            (41, "bob"),
            (41, "Carol"),
            (30, "Mia"),
            (30, "Zoe"),
            (25, "adam"),
        ]
    );
}

#[test]
fn sort_entries_for_unknown_or_unsortable_columns_are_skipped() {
    let rows = sample_rows();
    let cells = table(&rows, &[email_text, name]);
    let columns = vec![
        // Deliberately has no sort key.
        ColumnSpec::new("email".into()).with_filter_text(),
        ColumnSpec::new("name".into()).with_value(),
    ];

    let mut state = GridState::new();
    state.sort = vec![
        SortState::asc("does-not-exist"),
        SortState::asc("email"),
        SortState::asc("name"),
    ];

    let view = compute_view(&cells, &columns, &state);
    assert_eq!(
        names_of(&rows, &view),
        ["adam", "bob", "Carol", "Mia", "Zoe"]
    );
}

#[test]
fn descending_puts_missing_values_first() {
    let rows = vec![
        User::new(1, "has", 10).with_nickname("nick"),
        User::new(2, "missing", 20),
        User::new(3, "also", 30).with_nickname("other"),
    ];
    let cells = table(&rows, &[nickname]);
    let columns = vec![ColumnSpec::new("nickname".into()).with_value()];

    // Ascending: nicknames in order, then the row that has none.
    let mut state = GridState::new();
    state.sort = vec![SortState::asc("nickname")];
    let ascending = compute_view(&cells, &columns, &state);
    assert_eq!(names_of(&rows, &ascending), ["has", "also", "missing"]);

    // Descending reverses the whole order, so the missing value leads.
    state.sort = vec![SortState::new("nickname", SortDirection::Desc)];
    let descending = compute_view(&cells, &columns, &state);
    assert_eq!(names_of(&rows, &descending), ["missing", "also", "has"]);
}

#[test]
fn an_unsortable_column_is_not_sorted_by() {
    let rows = sample_rows();
    let cells = table(&rows, &[name]);
    let columns = vec![ColumnSpec::new("name".into()).with_value().sortable(false)];
    let mut state = GridState::new();
    state.sort = vec![SortState::asc("name")];
    let view = compute_view(&cells, &columns, &state);
    assert_eq!(view.indices, vec![0, 1, 2, 3, 4]);
    assert_eq!(rows[0].id, 1);
}

#[test]
fn case_folding_covers_letters_beyond_ascii() {
    let lower = SortValue::Text("äb");
    let upper = SortValue::Text("ÄC");
    assert_eq!(lower.cmp(&upper), Ordering::Less);
    assert_eq!(lower.cmp_with(&upper, TextCollation::CaseSensitive), Ordering::Greater);
}
