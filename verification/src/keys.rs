//! What a key press does: on the grid as a whole, and in a cell editor.
//! The caller resolves the raw keyboard event into one of these keys and
//! carries out the action that comes back.

use crate::navigate::{CellFocus, NavKey};
use crate::selection::SelectionMode;
use crate::session::{EditMode, EditMove};
use vstd::prelude::*;

verus! {

/// A key press on the grid, outside any editor.
#[derive(Clone, Copy, Debug, PartialEq, Eq)]
pub enum GridKey {
    /// A navigation key: an arrow, Home, End, Page Up or Page Down.
    Nav(NavKey),
    /// `Enter`.
    Enter,
    /// The space bar.
    Space,
    /// Any other key, which the grid leaves alone.
    Other,
}

/// What the grid does with a key press.
#[derive(Clone, Copy, Debug, PartialEq, Eq)]
pub enum RootKeyAction {
    /// Moves the focus.
    Move(NavKey),
    /// Moves the focus, then extends the selection to the row it lands on.
    MoveAndExtend(NavKey),
    /// Toggles the sort on a visible column; `additive` keeps the other
    /// sorted columns.
    ToggleSort { column: usize, additive: bool },
    /// Toggles the selection of a data row, by its position in the view.
    ToggleSelect { row: usize },
    /// Extends the selection from its anchor to a data row.
    ExtendSelect { row: usize },
    /// Nothing: the key is left to the browser.
    Ignore,
}

/// What the grid does with `key`, pressed with Shift held or not, while
/// `focus` is on a cell (row 0 is the header), under selection `mode`;
/// `sortable` tells, per visible column, whether it can be sorted.
///
/// Navigation keys move the focus; in a multi-row selection, Shift on a
/// body row extends the selection as the focus moves. On the header,
/// `Enter` and Space sort the focused column if it is sortable, keeping
/// the other sorted columns with Shift. On a body row, Space toggles the
/// row's selection, or extends the selection to it with Shift, unless
/// selection is disabled.
pub open spec fn root_key_spec(
    key: GridKey,
    shift: bool,
    focus: CellFocus,
    mode: SelectionMode,
    sortable: Seq<bool>,
) -> RootKeyAction {
    match key {
        GridKey::Nav(k) => if shift && mode == SelectionMode::Multi && focus.row != 0 {
            RootKeyAction::MoveAndExtend(k)
        } else {
            RootKeyAction::Move(k)
        },
        GridKey::Enter => if focus.row == 0 {
            header_key_spec(shift, focus, sortable)
        } else {
            RootKeyAction::Ignore
        },
        GridKey::Space => if focus.row == 0 {
            header_key_spec(shift, focus, sortable)
        } else if mode == SelectionMode::Disabled {
            RootKeyAction::Ignore
        } else if shift {
            RootKeyAction::ExtendSelect { row: (focus.row - 1) as usize }
        } else {
            RootKeyAction::ToggleSelect { row: (focus.row - 1) as usize }
        },
        GridKey::Other => RootKeyAction::Ignore,
    }
}

/// What `Enter` or Space does on the header: sorts the focused column if it
/// can be sorted, keeping the other sorted columns with Shift.
pub open spec fn header_key_spec(shift: bool, focus: CellFocus, sortable: Seq<bool>) -> RootKeyAction {
    if focus.col < sortable.len() && sortable[focus.col as int] {
        RootKeyAction::ToggleSort { column: focus.col, additive: shift }
    } else {
        RootKeyAction::Ignore
    }
}

/// What the grid does with a key press; see [`root_key_spec`].
pub fn root_key_action(
    key: GridKey,
    shift: bool,
    focus: CellFocus,
    mode: SelectionMode,
    sortable: &Vec<bool>,
) -> (r: RootKeyAction)
    ensures
        r == root_key_spec(key, shift, focus, mode, sortable@),
{
    let multi = match mode {
        SelectionMode::Multi => true,
        _ => false,
    };
    let disabled = match mode {
        SelectionMode::Disabled => true,
        _ => false,
    };
    match key {
        GridKey::Nav(k) => {
            if shift && multi && focus.row != 0 {
                RootKeyAction::MoveAndExtend(k)
            } else {
                RootKeyAction::Move(k)
            }
        },
        GridKey::Enter => {
            if focus.row == 0 {
                header_key_action(shift, focus, sortable)
            } else {
                RootKeyAction::Ignore
            }
        },
        GridKey::Space => {
            if focus.row == 0 {
                header_key_action(shift, focus, sortable)
            } else if disabled {
                RootKeyAction::Ignore
            } else if shift {
                RootKeyAction::ExtendSelect { row: focus.row - 1 }
            } else {
                RootKeyAction::ToggleSelect { row: focus.row - 1 }
            }
        },
        GridKey::Other => RootKeyAction::Ignore,
    }
}

/// What `Enter` or Space does on the header; see [`header_key_spec`].
fn header_key_action(shift: bool, focus: CellFocus, sortable: &Vec<bool>) -> (r: RootKeyAction)
    ensures
        r == header_key_spec(shift, focus, sortable@),
{
    if focus.col < sortable.len() && sortable[focus.col] {
        RootKeyAction::ToggleSort { column: focus.col, additive: shift }
    } else {
        RootKeyAction::Ignore
    }
}

/// A key press in a cell editor.
#[derive(Clone, Copy, Debug, PartialEq, Eq)]
pub enum EditorKey {
    /// `Enter`.
    Enter,
    /// `Escape`.
    Escape,
    /// `Tab`.
    Tab,
    /// `Shift+Tab`.
    ShiftTab,
    /// Any other key, which goes to the input.
    Other,
}

/// What an editor does with a key press.
#[derive(Clone, Copy, Debug, PartialEq, Eq)]
pub enum EditorAction {
    /// Commits the edit, then moves as given.
    Commit(EditMove),
    /// Cancels the edit.
    Cancel,
    /// Moves to the next (or, if not `forward`, the previous) editor of the
    /// row being edited.
    NextEditor { forward: bool },
    /// Nothing: the key is left to the input or the browser.
    Ignore,
}

/// What an editor does with `key`, in a form or in a cell, while the grid
/// edits in `mode`.
///
/// `Enter` commits; in a cell it then moves down, except when a whole row
/// is edited. `Escape` cancels. In a cell, `Tab` and `Shift+Tab` commit and
/// edit the next or previous editable cell; when a whole row is edited
/// they move between its editors. In a form, `Tab` is left to the browser.
pub open spec fn editor_key_spec(key: EditorKey, in_form: bool, mode: EditMode) -> EditorAction {
    match key {
        EditorKey::Enter => EditorAction::Commit(
            if in_form || mode == EditMode::Row {
                EditMove::Stay
            } else {
                EditMove::Down
            },
        ),
        EditorKey::Escape => EditorAction::Cancel,
        EditorKey::Tab | EditorKey::ShiftTab => {
            let forward = key == EditorKey::Tab;
            if in_form {
                EditorAction::Ignore
            } else if mode == EditMode::Row {
                EditorAction::NextEditor { forward }
            } else {
                EditorAction::Commit(if forward { EditMove::Next } else { EditMove::Previous })
            }
        },
        EditorKey::Other => EditorAction::Ignore,
    }
}

/// What an editor does with a key press; see [`editor_key_spec`].
pub fn editor_key_action(key: EditorKey, in_form: bool, mode: EditMode) -> (r: EditorAction)
    ensures
        r == editor_key_spec(key, in_form, mode),
{
    let row_mode = mode == EditMode::Row;
    match key {
        EditorKey::Enter => {
            if in_form || row_mode {
                EditorAction::Commit(EditMove::Stay)
            } else {
                EditorAction::Commit(EditMove::Down)
            }
        },
        EditorKey::Escape => EditorAction::Cancel,
        EditorKey::Tab | EditorKey::ShiftTab => {
            let forward = match key {
                EditorKey::Tab => true,
                _ => false,
            };
            if in_form {
                EditorAction::Ignore
            } else if row_mode {
                EditorAction::NextEditor { forward }
            } else if forward {
                EditorAction::Commit(EditMove::Next)
            } else {
                EditorAction::Commit(EditMove::Previous)
            }
        },
        EditorKey::Other => EditorAction::Ignore,
    }
}

} // verus!
