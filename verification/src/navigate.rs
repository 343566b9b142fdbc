//! Keyboard navigation as a pure state machine.

use vstd::prelude::*;

verus! {

/// Which cell currently holds focus, in view coordinates.
#[derive(Clone, Copy, Debug, Default, PartialEq, Eq, Hash, PartialOrd, Ord)]
pub struct CellFocus {
    /// Zero-based row within the current view.
    pub row: usize,
    /// Zero-based column within the visible columns.
    pub col: usize,
}

impl CellFocus {
    /// Creates a focus position.
    pub fn new(row: usize, col: usize) -> (focus: Self)
        ensures
            focus.row == row,
            focus.col == col,
    {
        Self { row, col }
    }
}

/// A navigation key press, already resolved from the raw keyboard event.
#[derive(Clone, Copy, Debug, PartialEq, Eq, Hash)]
pub enum NavKey {
    /// One row up.
    Up,
    /// One row down.
    Down,
    /// One column left.
    Left,
    /// One column right.
    Right,
    /// First column of the current row.
    Home,
    /// Last column of the current row.
    End,
    /// First cell of the grid.
    CtrlHome,
    /// Last cell of the grid.
    CtrlEnd,
    /// One viewport up.
    PageUp,
    /// One viewport down.
    PageDown,
}

/// `min(a, b)` on integers.
pub open spec fn min_int(a: int, b: int) -> int {
    if a <= b { a } else { b }
}

/// `max(a, b)` on integers.
pub open spec fn max_int(a: int, b: int) -> int {
    if a >= b { a } else { b }
}

/// Where `navigate` puts the focus, as `(row, col)`.
pub open spec fn navigate_spec(row: int, col: int, key: NavKey, rows: int, cols: int, page_rows: int) -> (int, int) {
    if rows == 0 || cols == 0 {
        (0, 0)
    } else {
        let last_row = rows - 1;
        let last_col = cols - 1;
        let r = min_int(row, last_row);
        let c = min_int(col, last_col);
        match key {
            NavKey::Up => (max_int(r - 1, 0), c),
            NavKey::Down => (min_int(r + 1, last_row), c),
            NavKey::Left => (r, max_int(c - 1, 0)),
            NavKey::Right => (r, min_int(c + 1, last_col)),
            NavKey::Home => (r, 0),
            NavKey::End => (r, last_col),
            NavKey::CtrlHome => (0, 0),
            NavKey::CtrlEnd => (last_row, last_col),
            NavKey::PageUp => (max_int(r - page_rows, 0), c),
            NavKey::PageDown => (min_int(r + page_rows, last_row), c),
        }
    }
}

/// Moves the focus according to the ARIA grid pattern, clamping at the edges
/// rather than wrapping. `page_rows` is how far `PageUp`/`PageDown` travel.
/// With no rows or no columns the result is `(0, 0)`.
pub fn navigate(focus: CellFocus, key: NavKey, rows: usize, cols: usize, page_rows: usize) -> (next: CellFocus)
    ensures
        (next.row as int, next.col as int) == navigate_spec(focus.row as int, focus.col as int, key, rows as int, cols as int, page_rows as int),
        rows > 0 && cols > 0 ==> next.row < rows && next.col < cols,
{
    if rows == 0 || cols == 0 {
        return CellFocus::new(0, 0);
    }
    let last_row = rows - 1;
    let last_col = cols - 1;
    let row = if focus.row < last_row { focus.row } else { last_row };
    let col = if focus.col < last_col { focus.col } else { last_col };
    match key {
        NavKey::Up => CellFocus::new(row.saturating_sub(1), col),
        NavKey::Down => CellFocus::new(if row < last_row { row + 1 } else { last_row }, col),
        NavKey::Left => CellFocus::new(row, col.saturating_sub(1)),
        NavKey::Right => CellFocus::new(row, if col < last_col { col + 1 } else { last_col }),
        NavKey::Home => CellFocus::new(row, 0),
        NavKey::End => CellFocus::new(row, last_col),
        NavKey::CtrlHome => CellFocus::new(0, 0),
        NavKey::CtrlEnd => CellFocus::new(last_row, last_col),
        NavKey::PageUp => CellFocus::new(row.saturating_sub(page_rows), col),
        NavKey::PageDown => {
            let target = row.saturating_add(page_rows);
            CellFocus::new(if target < last_row { target } else { last_row }, col)
        }
    }
}

/// Moving the focus inside the grid: a step down from a row that has one
/// below goes to the next row and stays in the column, and a step up from
/// there comes back; likewise right then left. Home and End keep the row
/// and go to the first and last column; Ctrl+Home and Ctrl+End go to the
/// first and last cell. No key leaves the grid, and a step at the edge
/// stays where it is.
pub proof fn lemma_moves_inside_the_grid(row: int, col: int, rows: int, cols: int, page_rows: int, key: NavKey)
    requires
        0 <= row < rows,
        0 <= col < cols,
        page_rows >= 0,
    ensures
        row + 1 < rows ==> navigate_spec(row, col, NavKey::Down, rows, cols, page_rows) == (row + 1, col),
        row + 1 < rows ==> navigate_spec(row + 1, col, NavKey::Up, rows, cols, page_rows) == (row, col),
        col + 1 < cols ==> navigate_spec(row, col, NavKey::Right, rows, cols, page_rows) == (row, col + 1),
        col + 1 < cols ==> navigate_spec(row, col + 1, NavKey::Left, rows, cols, page_rows) == (row, col),
        navigate_spec(0, col, NavKey::Up, rows, cols, page_rows) == (0int, col),
        navigate_spec(rows - 1, col, NavKey::Down, rows, cols, page_rows) == (rows - 1, col),
        navigate_spec(row, 0, NavKey::Left, rows, cols, page_rows) == (row, 0int),
        navigate_spec(row, cols - 1, NavKey::Right, rows, cols, page_rows) == (row, cols - 1),
        navigate_spec(row, col, NavKey::Home, rows, cols, page_rows) == (row, 0int),
        navigate_spec(row, col, NavKey::End, rows, cols, page_rows) == (row, cols - 1),
        navigate_spec(row, col, NavKey::CtrlHome, rows, cols, page_rows) == (0int, 0int),
        navigate_spec(row, col, NavKey::CtrlEnd, rows, cols, page_rows) == (rows - 1, cols - 1),
        row + page_rows < rows ==> navigate_spec(row, col, NavKey::PageDown, rows, cols, page_rows) == (row + page_rows, col),
        row - page_rows >= 0 ==> navigate_spec(row, col, NavKey::PageUp, rows, cols, page_rows) == (row - page_rows, col),
        0 <= navigate_spec(row, col, key, rows, cols, page_rows).0 < rows,
        0 <= navigate_spec(row, col, key, rows, cols, page_rows).1 < cols,
{
}

} // verus!
