//! An edit in progress: which cells show an editor, where `Tab` moves an
//! edit, and which rows a delete stands for.

use datagrid_core::{
    edit_toolbar, EditToolbar, editors_to_read, focus_after_edit, next_editable, next_editor, plan_create, plan_edit, CellFocus, ColumnId,
    EditMode, EditMove, EditPlan, EditStatus, EditTarget, FocusAfterEdit, Selection,
    SelectionMode,
};

#[test]
fn tab_moves_to_the_next_editable_cell_across_rows() {
    // Four columns, of which the second and the fourth can be edited.
    let editable = vec![false, true, false, true];
    assert_eq!(next_editable(&editable, 3, 0, 1, true), Some((0, 3)));
    assert_eq!(next_editable(&editable, 3, 0, 3, true), Some((1, 1)));
    assert_eq!(next_editable(&editable, 3, 2, 3, true), None);
    assert_eq!(next_editable(&editable, 3, 1, 1, false), Some((0, 3)));
    assert_eq!(next_editable(&editable, 3, 0, 1, false), None);
    // From a cell that cannot be edited itself.
    assert_eq!(next_editable(&editable, 3, 1, 2, true), Some((1, 3)));
    assert_eq!(next_editable(&editable, 3, 1, 2, false), Some((1, 1)));
    // No editable column at all.
    assert_eq!(next_editable(&[false, false].to_vec(), 5, 0, 0, true), None);
}

#[test]
fn tab_wraps_between_the_editors_of_a_row() {
    assert_eq!(next_editor(0, 3, true), 1);
    assert_eq!(next_editor(2, 3, true), 0);
    assert_eq!(next_editor(0, 3, false), 2);
    assert_eq!(next_editor(1, 3, false), 0);
    assert_eq!(next_editor(0, 1, true), 0);
}

#[test]
fn an_edit_shows_in_its_cells() {
    let cell = EditTarget { row_index: Some(2), column: Some(ColumnId::from("age")), form: false };
    assert!(cell.edits_cell(2, &ColumnId::from("age")));
    assert!(!cell.edits_cell(2, &ColumnId::from("name")));
    assert!(!cell.edits_cell(1, &ColumnId::from("age")));

    let row = EditTarget { row_index: Some(2), column: None, form: false };
    assert!(row.edits_cell(2, &ColumnId::from("name")));

    let form = EditTarget { row_index: Some(2), column: None, form: true };
    assert!(!form.edits_cell(2, &ColumnId::from("name")));

    let new_row = EditTarget { row_index: None, column: None, form: false };
    assert!(!new_row.edits_cell(0, &ColumnId::from("name")));

    assert_eq!(EditMode::default(), EditMode::Cell);
    assert_eq!(EditStatus::default(), EditStatus::Idle);
}

#[test]
fn a_delete_stands_for_the_selection_or_the_focused_row() {
    let mut selection: Selection<u32> = Selection::new();
    selection.select(4, SelectionMode::Multi);
    selection.select(2, SelectionMode::Multi);
    assert_eq!(selection.delete_candidates(Some(&2)), vec![4, 2]);
    assert_eq!(selection.delete_candidates(Some(&7)), vec![7]);
    assert_eq!(selection.delete_candidates(None), vec![4, 2]);
}

#[test]
fn tab_then_shift_tab_comes_back() {
    let editable = vec![true, false, true, true];
    for row in 0..3 {
        for column in [0, 2, 3] {
            if let Some((next_row, next_column)) = next_editable(&editable, 3, row, column, true) {
                assert_eq!(
                    next_editable(&editable, 3, next_row, next_column, false),
                    Some((row, column))
                );
            }
        }
    }
}

#[test]
fn an_edit_opens_one_cell_or_the_whole_row() {
    let editable = vec![false, true, true];
    assert_eq!(
        plan_edit(EditMode::Cell, &editable, 2),
        Some(EditPlan { columns: vec![2], single: true, form: false, focus: 2 })
    );
    assert_eq!(plan_edit(EditMode::Batch, &editable, 0), None);
    assert_eq!(
        plan_edit(EditMode::Row, &editable, 0),
        Some(EditPlan { columns: vec![1, 2], single: false, form: false, focus: 1 })
    );
    assert_eq!(
        plan_edit(EditMode::Dialog, &editable, 2),
        Some(EditPlan { columns: vec![1, 2], single: false, form: true, focus: 2 })
    );
    assert_eq!(plan_edit(EditMode::Row, &vec![false, false], 0), None);
    assert_eq!(plan_edit(EditMode::Cell, &editable, 3), None);
    assert_eq!(
        plan_create(&editable),
        Some(EditPlan { columns: vec![1, 2], single: false, form: true, focus: 1 })
    );
    assert_eq!(plan_create(&vec![false]), None);
}

#[test]
fn focus_follows_the_key_that_ended_the_edit() {
    let editable = vec![false, true, true];
    assert_eq!(
        focus_after_edit(None, 1, 3, &editable, EditMove::Down),
        FocusAfterEdit::Return
    );
    assert_eq!(
        focus_after_edit(Some(0), 1, 3, &editable, EditMove::Down),
        FocusAfterEdit::Cell(CellFocus::new(2, 1))
    );
    assert_eq!(
        focus_after_edit(Some(2), 1, 3, &editable, EditMove::Down),
        FocusAfterEdit::Cell(CellFocus::new(3, 1))
    );
    assert_eq!(
        focus_after_edit(Some(0), 2, 3, &editable, EditMove::Next),
        FocusAfterEdit::Edit { row: 1, column: 1, otherwise: CellFocus::new(1, 2) }
    );
    assert_eq!(
        focus_after_edit(Some(0), 1, 3, &editable, EditMove::Previous),
        FocusAfterEdit::Cell(CellFocus::new(1, 1))
    );
    assert_eq!(
        focus_after_edit(Some(1), 2, 3, &editable, EditMove::Stay),
        FocusAfterEdit::Cell(CellFocus::new(2, 2))
    );
}

#[test]
fn a_commit_reads_the_touched_editors_of_an_existing_row() {
    let texts = vec![
        (ColumnId::from("name"), "Ada".to_owned(), "Ada".to_owned()),
        (ColumnId::from("age"), "30".to_owned(), "31".to_owned()),
        (ColumnId::from("team"), String::new(), String::new()),
    ];
    assert_eq!(editors_to_read(&texts, false), vec![1]);
    assert_eq!(editors_to_read(&texts, true), vec![0, 1, 2]);
}

#[test]
fn the_toolbar_shows_what_editing_allows() {
    let t = edit_toolbar(EditMode::Cell, true, true, true, 3, false, 0, 0);
    assert_eq!(
        t,
        EditToolbar {
            add: true,
            finish_row: false,
            edit: true,
            delete: true,
            delete_enabled: false,
            batch: false,
            batch_enabled: false,
        }
    );
    // While a row is edited inline, Save and Cancel take Edit's place.
    let t = edit_toolbar(EditMode::Row, false, false, true, 3, true, 1, 0);
    assert!(t.finish_row && !t.edit && !t.add && !t.delete);
    // No rows, nothing to edit; a batch with changes can be saved.
    let t = edit_toolbar(EditMode::Batch, false, true, true, 0, false, 2, 4);
    assert!(!t.edit && t.delete_enabled && t.batch && t.batch_enabled);
    assert!(!edit_toolbar(EditMode::Batch, false, false, false, 1, false, 0, 0).batch_enabled);
}
