//! Unit tests for [`GridState`]'s mutation helpers.

#![allow(clippy::unwrap_used, clippy::indexing_slicing)]

use datagrid_core::{
    ColumnId, ColumnSpec, GridOptions, GridState, PageState, SelectionMode, SortDirection,
};

#[test]
fn toggle_sort_cycles_ascending_descending_unsorted() {
    let mut state = GridState::new();
    let name = "name".into();

    state.toggle_sort("name", false);
    assert_eq!(state.sort_direction(&name), Some(SortDirection::Asc));

    state.toggle_sort("name", false);
    assert_eq!(state.sort_direction(&name), Some(SortDirection::Desc));

    state.toggle_sort("name", false);
    assert_eq!(state.sort_direction(&name), None);
    assert!(state.sort.is_empty());
}

#[test]
fn a_non_additive_toggle_replaces_the_whole_sort() {
    let mut state = GridState::new();
    state.toggle_sort("name", true);
    state.toggle_sort("age", true);
    assert_eq!(state.sort.len(), 2);

    state.toggle_sort("email", false);
    assert_eq!(state.sort.len(), 1);
    assert_eq!(state.sort_priority(&"email".into()), Some(0));
}

#[test]
fn an_additive_toggle_appends_a_new_column() {
    let mut state = GridState::new();
    state.toggle_sort("name", true);
    state.toggle_sort("age", true);

    assert_eq!(state.sort_priority(&"name".into()), Some(0));
    assert_eq!(state.sort_priority(&"age".into()), Some(1));
}

#[test]
fn an_additive_toggle_keeps_a_columns_priority_when_reversing_it() {
    let mut state = GridState::new();
    state.toggle_sort("name", true);
    state.toggle_sort("age", true);

    // Reversing the primary column must not demote it behind "age".
    state.toggle_sort("name", true);

    assert_eq!(
        state.sort_direction(&"name".into()),
        Some(SortDirection::Desc)
    );
    assert_eq!(state.sort_priority(&"name".into()), Some(0));
    assert_eq!(state.sort_priority(&"age".into()), Some(1));
}

#[test]
fn an_additive_toggle_removes_only_that_column() {
    let mut state = GridState::new();
    state.toggle_sort("name", true);
    state.toggle_sort("age", true);

    state.toggle_sort("name", true); // -> Desc
    state.toggle_sort("name", true); // -> removed

    assert_eq!(state.sort.len(), 1);
    assert_eq!(state.sort_priority(&"age".into()), Some(0));
}

#[test]
fn set_filter_replaces_an_existing_filter_for_the_same_column() {
    let mut state = GridState::new();
    state.set_filter("name", "a");
    state.set_filter("name", "b");

    assert_eq!(state.column_filters.len(), 1);
    assert_eq!(state.filter(&"name".into()), Some("b"));
}

#[test]
fn set_search_clears_on_an_empty_string() {
    let mut state = GridState::new();
    state.set_search("hello");
    assert_eq!(state.search.as_deref(), Some("hello"));

    state.set_search("");
    assert!(state.search.is_none());
}

#[test]
fn hiding_a_column_is_idempotent() {
    let mut state = GridState::new();
    state.set_column_hidden("email", true);
    state.set_column_hidden("email", true);
    assert_eq!(state.hidden_columns.len(), 1);

    state.set_column_hidden("email", false);
    assert!(state.hidden_columns.is_empty());
}

#[test]
fn column_widths_are_replaced_not_appended() {
    let mut state = GridState::new();
    state.set_column_width("name", 120.0_f32.to_bits());
    state.set_column_width("name", 200.0_f32.to_bits());

    assert_eq!(state.column_widths.len(), 1);
    assert_eq!(
        state.column_width(&"name".into()).map(f32::from_bits),
        Some(200.0)
    );
}

#[test]
fn set_page_size_turns_paging_on_off_and_resets_the_page() {
    let mut state = GridState::new();

    state.set_page_size(Some(10));
    assert_eq!(state.page.map(|page| page.size), Some(10));

    state.set_page(3);
    // A different size makes the old index meaningless.
    state.set_page_size(Some(25));
    assert_eq!(
        state.page.map(|page| (page.index, page.size)),
        Some((0, 25))
    );

    // The same size is not a change and keeps the current page.
    state.set_page(2);
    state.set_page_size(Some(25));
    assert_eq!(state.page.map(|page| page.index), Some(2));

    state.set_page_size(None);
    assert!(state.page.is_none());
}

#[test]
fn set_page_on_unpaged_state_is_a_no_op() {
    let mut state = GridState::new();
    state.set_page(5);
    assert!(state.page.is_none());
}

#[test]
fn options_start_a_grid_in_their_state() {
    let paged = GridOptions::paged(25).selection(SelectionMode::Multi);
    assert_eq!(paged.selection, SelectionMode::Multi);
    assert_eq!(paged.into_state().page, Some(PageState { index: 0, size: 25 }));

    assert_eq!(GridOptions::default().into_state(), GridState::new());

    let mut saved = GridState::paged(10);
    saved.set_search("ada");
    let restored = GridOptions::paged(25).initial_state(saved.clone()).into_state();
    assert_eq!(restored, saved, "a persisted state wins over the page size");
}

#[test]
fn changing_the_grouping_expands_everything_and_returns_to_the_first_page() {
    let mut state = GridState::paged(2);
    state.set_group_by(vec!["city".into()]);
    state.set_all_groups_expanded(false);
    state.set_page(1);
    state.group_by_column("team", Some(0));
    assert_eq!(
        state.group_by,
        [ColumnId::from("team"), ColumnId::from("city")]
    );
    assert!(!state.groups_collapsed);
    assert_eq!(state.page.unwrap().index, 0);
    state.ungroup_column(&"team".into());
    assert_eq!(state.group_by, [ColumnId::from("city")]);
}

#[test]
fn next_and_previous_page_stop_at_the_ends() {
    let mut state = GridState::paged(10);
    state.next_page(3);
    state.next_page(3);
    state.next_page(3);
    assert_eq!(state.page.unwrap().index, 2);
    state.previous_page();
    state.previous_page();
    state.previous_page();
    assert_eq!(state.page.unwrap().index, 0);

    let mut unpaged = GridState::new();
    unpaged.next_page(3);
    assert_eq!(unpaged.page, None);
}

#[test]
fn the_last_column_shown_cannot_be_hidden() {
    let columns = vec![
        ColumnSpec::new("name".into()),
        ColumnSpec::new("age".into()),
        ColumnSpec::new("secret".into()).hidden(),
    ];
    let mut state = GridState::new();
    assert_eq!(state.visible_columns(&columns), vec![0, 1]);
    state.set_column_shown(&columns, "name".into(), true);
    assert_eq!(state.visible_columns(&columns), vec![1]);
    state.set_column_shown(&columns, "age".into(), true);
    assert_eq!(state.visible_column_count(&columns), 1, "age stays");
    assert!(state.is_column_visible(&columns, &"age".into()));
    assert!(!state.is_column_visible(&columns, &"secret".into()));
    assert!(!state.is_column_visible(&columns, &"unknown".into()));

    state.set_column_shown(&columns, "name".into(), false);
    assert_eq!(state.visible_columns(&columns), vec![0, 1]);
}

#[test]
fn a_non_finite_width_is_not_recorded() {
    let mut state = GridState::new();
    state.set_column_width("name", 200.0_f32.to_bits());
    state.set_column_width("name", f32::NAN.to_bits());
    assert_eq!(
        state.column_width(&"name".into()).map(f32::from_bits),
        Some(200.0)
    );
}

#[test]
fn columns_are_resizable_unless_opted_out() {
    let column = ColumnSpec::new("name".into());
    assert!(column.resizable);
    assert!(!column.resizable(false).resizable);
}
