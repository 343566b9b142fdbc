//! Key presses: on the grid as a whole, and in a cell editor.

use datagrid_core::{
    editor_key_action, root_key_action, CellFocus, EditMode, EditMove, EditorAction, EditorKey,
    GridKey, NavKey, RootKeyAction, SelectionMode,
};

fn sortable() -> Vec<bool> {
    vec![true, false, true]
}

#[test]
fn arrows_move_and_shift_extends_a_multi_selection_on_body_rows() {
    let body = CellFocus::new(2, 1);
    let header = CellFocus::new(0, 1);
    let s = sortable();
    assert_eq!(
        root_key_action(GridKey::Nav(NavKey::Down), false, body, SelectionMode::Multi, &s),
        RootKeyAction::Move(NavKey::Down)
    );
    assert_eq!(
        root_key_action(GridKey::Nav(NavKey::Down), true, body, SelectionMode::Multi, &s),
        RootKeyAction::MoveAndExtend(NavKey::Down)
    );
    // Not on the header, and not unless several rows may be selected.
    assert_eq!(
        root_key_action(GridKey::Nav(NavKey::Down), true, header, SelectionMode::Multi, &s),
        RootKeyAction::Move(NavKey::Down)
    );
    assert_eq!(
        root_key_action(GridKey::Nav(NavKey::Up), true, body, SelectionMode::Single, &s),
        RootKeyAction::Move(NavKey::Up)
    );
}

#[test]
fn enter_and_space_sort_a_sortable_header() {
    let s = sortable();
    assert_eq!(
        root_key_action(GridKey::Enter, false, CellFocus::new(0, 0), SelectionMode::Multi, &s),
        RootKeyAction::ToggleSort { column: 0, additive: false }
    );
    assert_eq!(
        root_key_action(GridKey::Space, true, CellFocus::new(0, 2), SelectionMode::Disabled, &s),
        RootKeyAction::ToggleSort { column: 2, additive: true }
    );
    assert_eq!(
        root_key_action(GridKey::Enter, false, CellFocus::new(0, 1), SelectionMode::Multi, &s),
        RootKeyAction::Ignore
    );
    assert_eq!(
        root_key_action(GridKey::Enter, false, CellFocus::new(0, 7), SelectionMode::Multi, &s),
        RootKeyAction::Ignore
    );
    assert_eq!(
        root_key_action(GridKey::Other, false, CellFocus::new(0, 0), SelectionMode::Multi, &s),
        RootKeyAction::Ignore
    );
}

#[test]
fn space_selects_a_body_row_and_shift_space_extends() {
    let s = sortable();
    let focus = CellFocus::new(3, 1);
    assert_eq!(
        root_key_action(GridKey::Space, false, focus, SelectionMode::Single, &s),
        RootKeyAction::ToggleSelect { row: 2 }
    );
    assert_eq!(
        root_key_action(GridKey::Space, true, focus, SelectionMode::Multi, &s),
        RootKeyAction::ExtendSelect { row: 2 }
    );
    assert_eq!(
        root_key_action(GridKey::Space, false, focus, SelectionMode::Disabled, &s),
        RootKeyAction::Ignore
    );
    assert_eq!(
        root_key_action(GridKey::Enter, false, focus, SelectionMode::Multi, &s),
        RootKeyAction::Ignore
    );
}

#[test]
fn enter_commits_and_moves_down_in_a_cell() {
    assert_eq!(
        editor_key_action(EditorKey::Enter, false, EditMode::Cell),
        EditorAction::Commit(EditMove::Down)
    );
    assert_eq!(
        editor_key_action(EditorKey::Enter, false, EditMode::Row),
        EditorAction::Commit(EditMove::Stay)
    );
    assert_eq!(
        editor_key_action(EditorKey::Enter, true, EditMode::Dialog),
        EditorAction::Commit(EditMove::Stay)
    );
    assert_eq!(editor_key_action(EditorKey::Escape, true, EditMode::Dialog), EditorAction::Cancel);
    assert_eq!(editor_key_action(EditorKey::Other, false, EditMode::Cell), EditorAction::Ignore);
}

#[test]
fn tab_moves_between_cells_or_editors_and_is_left_alone_in_a_form() {
    assert_eq!(
        editor_key_action(EditorKey::Tab, false, EditMode::Batch),
        EditorAction::Commit(EditMove::Next)
    );
    assert_eq!(
        editor_key_action(EditorKey::ShiftTab, false, EditMode::Cell),
        EditorAction::Commit(EditMove::Previous)
    );
    assert_eq!(
        editor_key_action(EditorKey::Tab, false, EditMode::Row),
        EditorAction::NextEditor { forward: true }
    );
    assert_eq!(
        editor_key_action(EditorKey::ShiftTab, false, EditMode::Row),
        EditorAction::NextEditor { forward: false }
    );
    assert_eq!(editor_key_action(EditorKey::Tab, true, EditMode::Dialog), EditorAction::Ignore);
}
