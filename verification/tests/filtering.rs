//! Unit tests for column filters, global search and paging.

#![allow(clippy::unwrap_used, clippy::indexing_slicing)]

use datagrid_core::{compute_view, Cell, CellValue, ColumnSpec, GridState, GridView, PageState};

/// A row with one field per interesting column kind.
#[derive(Clone, Debug, PartialEq)]
struct User {
    id: u32,
    name: String,
    email: String,
    age: u32,
}

impl User {
    fn new(id: u32, name: &str, age: u32) -> Self {
        Self {
            id,
            name: name.to_owned(),
            email: format!("{}@example.com", name.to_lowercase()),
            age,
        }
    }
}

/// Five users in a deliberately unsorted order, with ties on `age`.
fn sample_rows() -> Vec<User> {
    vec![
        User::new(1, "Zoe", 30),
        User::new(2, "adam", 25),
        User::new(3, "Mia", 30),
        User::new(4, "Carol", 41),
        User::new(5, "bob", 41),
    ]
}

/// The standard column set: name is sortable and filterable, age is
/// sortable, email is filterable only.
fn sample_columns() -> Vec<ColumnSpec> {
    vec![
        ColumnSpec::new("name".into()).with_value().with_filter_text(),
        ColumnSpec::new("age".into()).with_value(),
        ColumnSpec::new("email".into()).with_filter_text(),
    ]
}

/// The cells of the standard column set, and of `extra` columns without
/// a value or text, for every row.
fn sample_cells(rows: &[User], extra: usize) -> Vec<Vec<Cell<'_>>> {
    rows.iter()
        .map(|user| {
            let mut cells = vec![
                Cell { value: CellValue::Text(user.name.as_str()), text: Some(user.name.clone()) },
                Cell { value: CellValue::from(user.age), text: None },
                Cell { value: CellValue::Empty, text: Some(user.email.clone()) },
            ];
            for _ in 0..extra {
                cells.push(Cell { value: CellValue::Empty, text: None });
            }
            cells
        })
        .collect()
}

/// The names of the rows a view selected, in display order.
fn names_of<'a>(rows: &'a [User], view: &GridView) -> Vec<&'a str> {
    view.indices
        .iter()
        .filter_map(|&index| rows.get(index))
        .map(|user| user.name.as_str())
        .collect()
}

/// The ids of the rows a view selected, in display order.
fn ids_of(rows: &[User], view: &GridView) -> Vec<u32> {
    view.indices
        .iter()
        .filter_map(|&index| rows.get(index))
        .map(|user| user.id)
        .collect()
}

#[test]
fn no_filters_keeps_every_row_in_input_order() {
    let rows = sample_rows();
    let view = compute_view(&sample_cells(&rows, 0), &sample_columns(), &GridState::new());

    assert_eq!(view.filtered_len, 5);
    assert_eq!(view.indices, [0, 1, 2, 3, 4]);
    assert_eq!(view.page_count, 0, "paging is disabled");
}

#[test]
fn column_filter_matches_case_insensitively_on_substrings() {
    let rows = sample_rows();
    let mut state = GridState::new();
    state.set_filter("name", "o");

    let view = compute_view(&sample_cells(&rows, 0), &sample_columns(), &state);
    // Zoe, Carol and bob all contain an "o" in some case.
    assert_eq!(names_of(&rows, &view), ["Zoe", "Carol", "bob"]);
}

#[test]
fn column_filters_combine_with_and() {
    let rows = sample_rows();
    let mut state = GridState::new();
    state.set_filter("name", "a");
    state.set_filter("email", "carol");

    let view = compute_view(&sample_cells(&rows, 0), &sample_columns(), &state);
    assert_eq!(names_of(&rows, &view), ["Carol"]);
}

#[test]
fn an_empty_filter_string_removes_the_filter() {
    let rows = sample_rows();
    let mut state = GridState::new();

    state.set_filter("name", "zzz");
    assert_eq!(
        compute_view(&sample_cells(&rows, 0), &sample_columns(), &state).filtered_len,
        0
    );

    state.set_filter("name", "");
    assert_eq!(
        compute_view(&sample_cells(&rows, 0), &sample_columns(), &state).filtered_len,
        5
    );
    assert!(state.filter(&"name".into()).is_none());
}

#[test]
fn filters_on_unknown_columns_are_ignored() {
    let rows = sample_rows();
    let mut state = GridState::new();
    // Persisted state can outlive the column it referred to.
    state.set_filter("column-that-was-removed", "anything");

    let view = compute_view(&sample_cells(&rows, 0), &sample_columns(), &state);
    assert_eq!(view.filtered_len, 5);
}

#[test]
fn filters_on_unfilterable_columns_are_ignored() {
    let rows = sample_rows();
    // Neither a value nor filter text: nothing to filter by.
    let mut columns = sample_columns();
    columns.push(ColumnSpec::new("decoration".into()));
    let mut state = GridState::new();
    state.set_filter("decoration", "anything");

    let view = compute_view(&sample_cells(&rows, 1), &columns, &state);
    assert_eq!(view.filtered_len, 5);
}

/// A column with a value is filterable without filter text, and plain text
/// in the filter bar of a number column means "equals".
#[test]
fn the_bar_filters_a_value_column_by_equality() {
    let rows = sample_rows();
    let mut state = GridState::new();
    state.set_filter("age", "30");

    let view = compute_view(&sample_cells(&rows, 0), &sample_columns(), &state);
    assert_eq!(names_of(&rows, &view), ["Zoe", "Mia"]);

    state.set_filter("age", "3");
    assert_eq!(
        compute_view(&sample_cells(&rows, 0), &sample_columns(), &state).filtered_len,
        0
    );
}

#[test]
fn search_spans_every_filterable_column() {
    let rows = sample_rows();
    let mut state = GridState::new();
    // Matches nobody by name, but "mia@example.com" by email.
    state.set_search("mia@");

    let view = compute_view(&sample_cells(&rows, 0), &sample_columns(), &state);
    assert_eq!(names_of(&rows, &view), ["Mia"]);
}

#[test]
fn search_skips_hidden_columns() {
    let rows = sample_rows();
    let mut state = GridState::new();
    state.set_search("example.com");
    assert_eq!(
        compute_view(&sample_cells(&rows, 0), &sample_columns(), &state).filtered_len,
        5,
        "every email matches while the column is visible"
    );

    // Hiding the only column that matches must hide the rows too — a hit the
    // user cannot see is worse than no hit.
    state.set_column_hidden("email", true);
    assert_eq!(
        compute_view(&sample_cells(&rows, 0), &sample_columns(), &state).filtered_len,
        0
    );
}

#[test]
fn column_filters_still_apply_to_hidden_columns() {
    let rows = sample_rows();
    let mut state = GridState::new();
    state.set_filter("email", "carol");
    state.set_column_hidden("email", true);

    // The user set this filter deliberately; hiding the column must not
    // silently widen the result.
    let view = compute_view(&sample_cells(&rows, 0), &sample_columns(), &state);
    assert_eq!(names_of(&rows, &view), ["Carol"]);
}

#[test]
fn search_is_ignored_when_no_column_is_searchable() {
    let rows = sample_rows();
    let columns = vec![ColumnSpec::new("age".into()).with_value()];
    let cells: Vec<Vec<Cell>> = rows
        .iter()
        .map(|user| vec![Cell { value: CellValue::from(user.age), text: None }])
        .collect();
    let mut state = GridState::new();
    state.set_search("anything");

    // Hiding every row would look broken; ignoring an unusable term does not.
    let view = compute_view(&cells, &columns, &state);
    assert_eq!(view.filtered_len, 5);
}

#[test]
fn search_and_column_filters_both_have_to_match() {
    let rows = sample_rows();
    let mut state = GridState::new();
    state.set_filter("name", "o");
    state.set_search("bob");

    let view = compute_view(&sample_cells(&rows, 0), &sample_columns(), &state);
    assert_eq!(names_of(&rows, &view), ["bob"]);
}

#[test]
fn non_ascii_text_matches_case_insensitively() {
    let rows = vec![
        User::new(1, "Ärger", 30),
        User::new(2, "Zoe", 31),
        User::new(3, "straße", 32),
    ];
    let columns = vec![ColumnSpec::new("name".into()).with_filter_text()];
    let cells: Vec<Vec<Cell>> = rows
        .iter()
        .map(|user| vec![Cell { value: CellValue::Empty, text: Some(user.name.clone()) }])
        .collect();

    let mut state = GridState::new();
    state.set_filter("name", "ÄRG");
    assert_eq!(
        names_of(&rows, &compute_view(&cells, &columns, &state)),
        ["Ärger"]
    );

    state.set_filter("name", "STRAßE");
    assert_eq!(
        names_of(&rows, &compute_view(&cells, &columns, &state)),
        ["straße"]
    );
}

#[test]
fn paging_slices_the_filtered_rows() {
    let rows: Vec<User> = (0..10).map(|i| User::new(i, &format!("u{i}"), i)).collect();
    let columns = sample_columns();
    let cells = sample_cells(&rows, 0);
    let mut state = GridState::paged(3);

    let first = compute_view(&cells, &columns, &state);
    assert_eq!(ids_of(&rows, &first), [0, 1, 2]);
    assert_eq!(first.filtered_len, 10, "filtered_len spans every page");
    assert_eq!(first.page_count, 4, "10 rows in pages of 3");

    state.set_page(1);
    assert_eq!(
        ids_of(&rows, &compute_view(&cells, &columns, &state)),
        [3, 4, 5]
    );

    // The last page is partial.
    state.set_page(3);
    assert_eq!(ids_of(&rows, &compute_view(&cells, &columns, &state)), [9]);
}

#[test]
fn a_page_index_past_the_end_is_clamped_to_the_last_page() {
    let rows: Vec<User> = (0..10).map(|i| User::new(i, &format!("u{i}"), i)).collect();
    let mut state = GridState::paged(3);
    state.set_page(999);

    // A stale index should show the last page, not an empty grid.
    let view = compute_view(&sample_cells(&rows, 0), &sample_columns(), &state);
    assert_eq!(ids_of(&rows, &view), [9]);
}

#[test]
fn a_page_size_of_zero_disables_paging_instead_of_dividing_by_zero() {
    let rows = sample_rows();
    let state = GridState {
        page: Some(PageState { index: 2, size: 0 }),
        ..GridState::new()
    };

    let view = compute_view(&sample_cells(&rows, 0), &sample_columns(), &state);
    assert_eq!(view.filtered_len, 5);
    assert_eq!(view.len(), 5);
    assert_eq!(view.page_count, 0);
}

#[test]
fn filtering_to_nothing_yields_an_empty_view() {
    let rows = sample_rows();
    let mut state = GridState::paged(3);
    state.set_filter("name", "no-such-user");

    let view = compute_view(&sample_cells(&rows, 0), &sample_columns(), &state);
    assert!(view.is_empty());
    assert_eq!(view.filtered_len, 0);
    assert_eq!(view.page_count, 0);
}

#[test]
fn an_empty_row_set_is_handled() {
    let rows: Vec<User> = Vec::new();
    let mut state = GridState::paged(25);
    state.set_search("anything");

    let view = compute_view(&sample_cells(&rows, 0), &sample_columns(), &state);
    assert!(view.is_empty());
    assert_eq!(view.page_count, 0);
}

#[test]
fn changing_a_filter_returns_to_the_first_page() {
    let mut state = GridState::paged(3);
    state.set_page(2);
    assert_eq!(state.page.map(|page| page.index), Some(2));

    // Staying on page 3 of a result set that just shrank would look empty.
    state.set_filter("name", "a");
    assert_eq!(state.page.map(|page| page.index), Some(0));

    state.set_page(2);
    state.set_search("b");
    assert_eq!(state.page.map(|page| page.index), Some(0));

    state.set_page(2);
    state.toggle_sort("name", false);
    assert_eq!(state.page.map(|page| page.index), Some(0));
}

#[test]
fn filter_sort_page_compose_in_that_order() {
    let rows = sample_rows();
    let mut state = GridState::paged(2);
    // Matches adam, Carol, Mia (a in name) — then sorted by name, then paged.
    state.set_filter("name", "a");
    state.toggle_sort("name", false);

    let first = compute_view(&sample_cells(&rows, 0), &sample_columns(), &state);
    assert_eq!(first.filtered_len, 3);
    assert_eq!(first.page_count, 2);
    assert_eq!(names_of(&rows, &first), ["adam", "Carol"]);

    state.set_page(1);
    let second = compute_view(&sample_cells(&rows, 0), &sample_columns(), &state);
    assert_eq!(names_of(&rows, &second), ["Mia"]);
}

#[test]
fn pages_cover_the_sorted_rows_once_in_order() {
    let rows: Vec<User> = (0..11).map(|i| User::new(i, &format!("u{}", i % 4), i % 3)).collect();
    let cells = sample_cells(&rows, 0);
    let mut state = GridState::new();
    state.toggle_sort("age", false);
    state.toggle_sort("name", true);
    let all = compute_view(&cells, &sample_columns(), &state);
    assert_eq!(all.len(), 11);

    let mut paged = state.clone();
    paged.set_page_size(Some(4));
    let first = compute_view(&cells, &sample_columns(), &paged);
    assert_eq!(first.page_count, 3);
    let mut joined = Vec::new();
    for page in 0..first.page_count {
        paged.set_page(page);
        joined.extend(compute_view(&cells, &sample_columns(), &paged).indices);
    }
    assert_eq!(joined, all.indices);
}
