//! An edit in progress, as the cells and the keyboard see it: how rows are
//! edited, what is being edited, and where focus goes when an edit ends.

use crate::column::ColumnId;
use crate::filter::text_equals;
use crate::navigate::CellFocus;
use vstd::prelude::*;

verus! {

/// How rows are edited.
#[derive(Clone, Copy, Debug, PartialEq, Eq, Structural)]
pub enum EditMode {
    /// One cell at a time, saved as soon as the cell is committed.
    Cell,
    /// Every editable cell of a row at once, inline, saved together.
    Row,
    /// Every editable cell of a row in a form dialog.
    Dialog,
    /// One cell at a time, collected until the user saves or discards the
    /// whole batch.
    Batch,
}

impl Default for EditMode {
    fn default() -> (r: Self)
        ensures
            r == EditMode::Cell,
    {
        EditMode::Cell
    }
}

/// Where focus goes after an edit is committed.
#[derive(Clone, Copy, Debug, PartialEq, Eq, Structural)]
pub enum EditMove {
    /// Stays on the edited cell.
    Stay,
    /// Moves to the cell below, as `Enter` does.
    Down,
    /// Edits the next editable cell, as `Tab` does.
    Next,
    /// Edits the previous editable cell, as `Shift+Tab` does.
    Previous,
}

/// Where saving stands, for a status message.
#[derive(Clone, Debug, PartialEq, Eq)]
pub enum EditStatus {
    /// Nothing saved yet, or the last message was cleared.
    Idle,
    /// A save is in progress.
    Saving,
    /// The last save succeeded.
    Saved,
    /// The last save failed, with the message to show.
    Failed(String),
}

impl Default for EditStatus {
    fn default() -> (r: Self)
        ensures
            r == EditStatus::Idle,
    {
        EditStatus::Idle
    }
}

/// What is being edited, as the cells and the form need to know it.
#[derive(Clone, Debug, PartialEq, Eq)]
pub struct EditTarget {
    /// The row's position on the current page; `None` for a new row.
    pub row_index: Option<usize>,
    /// The one cell being edited, or `None` for every editable cell of the
    /// row.
    pub column: Option<ColumnId>,
    /// Whether the edit happens in a form rather than in the cells.
    pub form: bool,
}

impl EditTarget {
    /// Whether the cell at `row_index` in `column` shows an editor: the
    /// edit is in the cells, of that row, and of that cell or the whole row.
    pub fn edits_cell(&self, row_index: usize, column: &ColumnId) -> (r: bool)
        ensures
            r == (!self.form && self.row_index == Some(row_index) && (self.column matches Some(c) ==> c@
                == column@)),
    {
        if self.form {
            return false;
        }
        match self.row_index {
            Some(i) => if i != row_index {
                return false;
            },
            None => return false,
        }
        match &self.column {
            Some(c) => c.same(column),
            None => true,
        }
    }
}

/// Where cell (`row`, `column`) is in reading order, on a page `width`
/// columns wide.
pub open spec fn cell_position(row: int, column: int, width: int) -> int {
    row * width + column
}

/// Whether (`row`, `column`) is an editable cell on a page of `rows` rows,
/// given which columns are editable.
pub open spec fn is_editable_cell(editable: Seq<bool>, rows: int, row: int, column: int) -> bool {
    0 <= row < rows && 0 <= column < editable.len() && editable[column]
}

/// Whether a cell lies beyond position `here` in reading order: after it
/// going forward, before it going backward.
pub open spec fn beyond(position: int, here: int, forward: bool) -> bool {
    if forward {
        position > here
    } else {
        position < here
    }
}

/// Whether `cell` is the editable cell nearest to position `here` in
/// reading order, after it going forward or before it going backward.
pub open spec fn is_next_editable(editable: Seq<bool>, rows: int, here: int, forward: bool, cell: (usize, usize)) -> bool {
    let w = editable.len() as int;
    let p = cell_position(cell.0 as int, cell.1 as int, w);
    &&& is_editable_cell(editable, rows, cell.0 as int, cell.1 as int)
    &&& beyond(p, here, forward)
    &&& forall|r: int, c: int|
        #![trigger is_editable_cell(editable, rows, r, c)]
        is_editable_cell(editable, rows, r, c) && beyond(cell_position(r, c, w), here, forward) ==> if forward {
            p <= cell_position(r, c, w)
        } else {
            cell_position(r, c, w) <= p
        }
}

/// Cells in reading order: a cell on a later row comes after every cell of
/// an earlier one.
proof fn lemma_row_major(r1: int, c1: int, r2: int, c2: int, w: int)
    requires
        0 <= r1 < r2,
        0 <= c1 < w,
        0 <= c2,
    ensures
        cell_position(r1, c1, w) < cell_position(r2, c2, w),
{
    assert(r1 * w + c1 < r2 * w + c2) by (nonlinear_arith)
        requires
            0 <= r1 < r2,
            0 <= c1 < w,
            0 <= c2,
    ;
}

/// A cell's position as a wide integer.
fn position_of(row: usize, column: usize, width: usize) -> (p: u128)
    ensures
        p == cell_position(row as int, column as int, width as int),
{
    assert((row as u128) * (width as u128) <= 0xffff_ffff_ffff_ffffu128 * 0xffff_ffff_ffff_ffffu128) by (nonlinear_arith)
        requires
            row <= 0xffff_ffff_ffff_ffffu64,
            width <= 0xffff_ffff_ffff_ffffu64,
    ;
    (row as u128) * (width as u128) + (column as u128)
}

/// The editable cell after (or before) cell (`row_index`, `column_index`)
/// in reading order on a page of `rows` rows, given which of its columns
/// are editable: where `Tab` (or `Shift+Tab`) moves an edit to. `None` at
/// either end of the page.
pub fn next_editable(editable: &Vec<bool>, rows: usize, row_index: usize, column_index: usize, forward: bool) -> (r:
    Option<(usize, usize)>)
    ensures
        match r {
            Some(cell) => is_next_editable(
                editable@,
                rows as int,
                cell_position(row_index as int, column_index as int, editable@.len() as int),
                forward,
                cell,
            ),
            None => forall|r: int, c: int|
                #![trigger is_editable_cell(editable@, rows as int, r, c)]
                is_editable_cell(editable@, rows as int, r, c) ==> !beyond(
                    cell_position(r, c, editable@.len() as int),
                    cell_position(row_index as int, column_index as int, editable@.len() as int),
                    forward,
                ),
        },
{
    let width = editable.len();
    let here = position_of(row_index, column_index, width);
    let ghost w = width as int;
    if forward {
        let mut row: usize = 0;
        while row < rows
            invariant
                forward,
                row <= rows,
                width == editable@.len(),
                w == editable@.len(),
                here == cell_position(row_index as int, column_index as int, w),
                forall|r: int, c: int|
                    #![trigger is_editable_cell(editable@, rows as int, r, c)]
                    is_editable_cell(editable@, rows as int, r, c) && r < row ==> cell_position(r, c, w) <= here,
            decreases rows - row,
        {
            let mut col: usize = 0;
            while col < width
                invariant
                    forward,
                    row < rows,
                    col <= width,
                    width == editable@.len(),
                    w == editable@.len(),
                    here == cell_position(row_index as int, column_index as int, w),
                    forall|r: int, c: int|
                        #![trigger is_editable_cell(editable@, rows as int, r, c)]
                        is_editable_cell(editable@, rows as int, r, c) && (r < row || (r == row && c < col))
                            ==> cell_position(r, c, w) <= here,
                decreases width - col,
            {
                if editable[col] && position_of(row, col, width) > here {
                    proof {
                        assert forall|r: int, c: int|
                            #![trigger is_editable_cell(editable@, rows as int, r, c)]
                            is_editable_cell(editable@, rows as int, r, c) && beyond(cell_position(r, c, w), here as int, true)
                                implies cell_position(row as int, col as int, w) <= cell_position(r, c, w) by {
                            if r > row {
                                lemma_row_major(row as int, col as int, r, c, w);
                            }
                        }
                    }
                    return Some((row, col));
                }
                col = col + 1;
            }
            row = row + 1;
        }
        None
    } else {
        let mut row: usize = rows;
        while row > 0
            invariant
                !forward,
                row <= rows,
                width == editable@.len(),
                w == editable@.len(),
                here == cell_position(row_index as int, column_index as int, w),
                forall|r: int, c: int|
                    #![trigger is_editable_cell(editable@, rows as int, r, c)]
                    is_editable_cell(editable@, rows as int, r, c) && r >= row ==> cell_position(r, c, w) >= here,
            decreases row,
        {
            let current = row - 1;
            let mut col: usize = width;
            while col > 0
                invariant
                    !forward,
                    current < rows,
                    current + 1 == row,
                    col <= width,
                    width == editable@.len(),
                    w == editable@.len(),
                    here == cell_position(row_index as int, column_index as int, w),
                    forall|r: int, c: int|
                        #![trigger is_editable_cell(editable@, rows as int, r, c)]
                        is_editable_cell(editable@, rows as int, r, c) && (r > current || (r == current && c >= col))
                            ==> cell_position(r, c, w) >= here,
                decreases col,
            {
                let c0 = col - 1;
                if editable[c0] && position_of(current, c0, width) < here {
                    proof {
                        assert forall|r: int, c: int|
                            #![trigger is_editable_cell(editable@, rows as int, r, c)]
                            is_editable_cell(editable@, rows as int, r, c) && beyond(cell_position(r, c, w), here as int, false)
                                implies cell_position(r, c, w) <= cell_position(current as int, c0 as int, w) by {
                            if r < current {
                                lemma_row_major(r, c, current as int, c0 as int, w);
                            }
                        }
                    }
                    return Some((current, c0));
                }
                col = c0;
            }
            row = current;
        }
        None
    }
}

/// The editor focus moves to from the one at `position` among `count`,
/// wrapping at either end, as `Tab` and `Shift+Tab` do between the editors
/// of a row edited inline.
pub fn next_editor(position: usize, count: usize, forward: bool) -> (r: usize)
    requires
        position < count,
    ensures
        r < count,
        r == if forward {
            if position + 1 == count {
                0
            } else {
                position + 1
            }
        } else {
            if position == 0 {
                count - 1
            } else {
                position - 1
            }
        },
{
    if forward {
        if position + 1 == count {
            0
        } else {
            position + 1
        }
    } else {
        if position == 0 {
            count - 1
        } else {
            position - 1
        }
    }
}

/// Two cells of a page that are in the same place in reading order are the
/// same cell.
proof fn lemma_position_injective(r1: int, c1: int, r2: int, c2: int, w: int)
    requires
        0 <= r1,
        0 <= r2,
        0 <= c1 < w,
        0 <= c2 < w,
        cell_position(r1, c1, w) == cell_position(r2, c2, w),
    ensures
        r1 == r2,
        c1 == c2,
{
    if r1 < r2 {
        lemma_row_major(r1, c1, r2, c2, w);
    } else if r2 < r1 {
        lemma_row_major(r2, c2, r1, c1, w);
    }
}

/// `Tab` then `Shift+Tab` comes back: from an editable cell, the editable
/// cell before the next one is the cell started from.
pub proof fn lemma_tab_then_back(editable: Seq<bool>, rows: int, start: (usize, usize), next: (usize, usize), back: (usize, usize))
    requires
        is_editable_cell(editable, rows, start.0 as int, start.1 as int),
        is_next_editable(editable, rows, cell_position(start.0 as int, start.1 as int, editable.len() as int), true, next),
        is_next_editable(editable, rows, cell_position(next.0 as int, next.1 as int, editable.len() as int), false, back),
    ensures
        back == start,
{
    let w = editable.len() as int;
    let ps = cell_position(start.0 as int, start.1 as int, w);
    let pn = cell_position(next.0 as int, next.1 as int, w);
    let pb = cell_position(back.0 as int, back.1 as int, w);
    assert(is_editable_cell(editable, rows, start.0 as int, start.1 as int));
    assert(is_editable_cell(editable, rows, back.0 as int, back.1 as int));
    assert(ps <= pb);
    if pb > ps {
        assert(pn <= pb);
    }
    lemma_position_injective(start.0 as int, start.1 as int, back.0 as int, back.1 as int, w);
}

/// The positions of the editable columns, in order.
pub open spec fn editable_columns(editable: Seq<bool>) -> Seq<usize>
    decreases editable.len(),
{
    if editable.len() == 0 {
        Seq::empty()
    } else {
        let rest = editable_columns(editable.drop_last());
        if editable.last() {
            rest.push((editable.len() - 1) as usize)
        } else {
            rest
        }
    }
}

/// Which editors an edit opens, where, and which takes focus.
#[derive(Clone, Debug, PartialEq, Eq)]
pub struct EditPlan {
    /// The visible columns that get an editor, in order.
    pub columns: Vec<usize>,
    /// Whether the edit is of one cell alone.
    pub single: bool,
    /// Whether the edit happens in a form rather than in the cells.
    pub form: bool,
    /// The column whose editor takes focus.
    pub focus: usize,
}

/// Whether `p` is the plan for an edit started in visible column `column`
/// under `mode`: that cell alone in the cell and batch modes, refused on a
/// column that cannot be edited; every editable column of the row otherwise,
/// in a form for the dialog mode, with focus on the column started in if it
/// can be edited and on the first editable one if not. `None` when nothing
/// could be edited.
pub open spec fn edit_plan_spec(mode: EditMode, editable: Seq<bool>, column: int) -> Option<(Seq<usize>, bool, bool, int)> {
    if !(0 <= column < editable.len()) {
        None
    } else if mode == EditMode::Cell || mode == EditMode::Batch {
        if editable[column] {
            Some((seq![column as usize], true, false, column))
        } else {
            None
        }
    } else {
        let all = editable_columns(editable);
        if all.len() == 0 {
            None
        } else {
            Some((all, false, mode == EditMode::Dialog, if editable[column] { column } else { all[0] as int }))
        }
    }
}

/// The model of a plan.
pub open spec fn plan_model(p: Option<EditPlan>) -> Option<(Seq<usize>, bool, bool, int)> {
    match p {
        Some(p) => Some((p.columns@, p.single, p.form, p.focus as int)),
        None => None,
    }
}

/// The positions of the editable columns.
fn editable_positions(editable: &Vec<bool>) -> (r: Vec<usize>)
    ensures
        r@ == editable_columns(editable@),
{
    let mut r: Vec<usize> = Vec::new();
    let mut i: usize = 0;
    while i < editable.len()
        invariant
            i <= editable@.len(),
            r@ == editable_columns(editable@.take(i as int)),
        decreases editable.len() - i,
    {
        proof {
            assert(editable@.take(i + 1).drop_last() =~= editable@.take(i as int));
        }
        if editable[i] {
            r.push(i);
        }
        i = i + 1;
    }
    assert(editable@.take(i as int) =~= editable@);
    r
}

/// Plans an edit started in visible column `column` under `mode`, given
/// which visible columns can be edited; see [`edit_plan_spec`].
pub fn plan_edit(mode: EditMode, editable: &Vec<bool>, column: usize) -> (r: Option<EditPlan>)
    ensures
        plan_model(r) == edit_plan_spec(mode, editable@, column as int),
{
    if column >= editable.len() {
        return None;
    }
    match mode {
        EditMode::Cell | EditMode::Batch => {
            if editable[column] {
                Some(EditPlan { columns: vec![column], single: true, form: false, focus: column })
            } else {
                None
            }
        },
        EditMode::Row | EditMode::Dialog => {
            let all = editable_positions(editable);
            if all.len() == 0 {
                return None;
            }
            let focus = if editable[column] {
                column
            } else {
                all[0]
            };
            let form = match mode {
                EditMode::Dialog => true,
                _ => false,
            };
            Some(EditPlan { columns: all, single: false, form, focus })
        },
    }
}

/// Plans the form for a new row: every editable column, focus on the
/// first. `None` when no column can be edited.
pub fn plan_create(editable: &Vec<bool>) -> (r: Option<EditPlan>)
    ensures
        plan_model(r) == if editable_columns(editable@).len() == 0 {
            None
        } else {
            Some((editable_columns(editable@), false, true, editable_columns(editable@)[0] as int))
        },
{
    let all = editable_positions(editable);
    if all.len() == 0 {
        return None;
    }
    let focus = all[0];
    Some(EditPlan { columns: all, single: false, form: true, focus })
}

/// Where focus goes when an edit ends.
#[derive(Clone, Copy, Debug, PartialEq, Eq)]
pub enum FocusAfterEdit {
    /// Back to wherever the grid's focus was: the edit was of a new row.
    Return,
    /// To this cell, counting the header as row 0.
    Cell(CellFocus),
    /// Start editing this cell of the page, and if that fails, focus
    /// `otherwise`.
    Edit {
        /// The row on the page.
        row: usize,
        /// The visible column.
        column: usize,
        /// Where focus goes if the edit does not start.
        otherwise: CellFocus,
    },
}

/// Where focus goes when an edit of the row at `row_index` on a page of
/// `rows` rows ends, the edited cell in visible column `column`, under
/// `then`: nowhere new for a new row; the cell below for `Down`, where there
/// is one; the next or previous editable cell for `Next` and `Previous`,
/// where there is one; otherwise the edited cell itself. Rows count the
/// header as row 0.
pub fn focus_after_edit(
    row_index: Option<usize>,
    column: usize,
    rows: usize,
    editable: &Vec<bool>,
    then: EditMove,
) -> (r: FocusAfterEdit)
    requires
        row_index matches Some(i) ==> i + 2 <= usize::MAX,
    ensures
        match row_index {
            None => r == FocusAfterEdit::Return,
            Some(i) => {
                let here = CellFocus { row: (i + 1) as usize, col: column };
                match then {
                    EditMove::Down => r == if i + 1 < rows {
                        FocusAfterEdit::Cell(CellFocus { row: (i + 2) as usize, col: column })
                    } else {
                        FocusAfterEdit::Cell(here)
                    },
                    EditMove::Stay => r == FocusAfterEdit::Cell(here),
                    _ => match r {
                        FocusAfterEdit::Edit { row, column: c, otherwise } => otherwise == here && is_next_editable(
                            editable@,
                            rows as int,
                            cell_position(i as int, column as int, editable@.len() as int),
                            then == EditMove::Next,
                            (row, c),
                        ),
                        FocusAfterEdit::Cell(f) => f == here && forall|r2: int, c2: int|
                            #![trigger is_editable_cell(editable@, rows as int, r2, c2)]
                            is_editable_cell(editable@, rows as int, r2, c2) ==> !beyond(
                                cell_position(r2, c2, editable@.len() as int),
                                cell_position(i as int, column as int, editable@.len() as int),
                                then == EditMove::Next,
                            ),
                        FocusAfterEdit::Return => false,
                    },
                }
            },
        },
{
    let i = match row_index {
        Some(i) => i,
        None => return FocusAfterEdit::Return,
    };
    let here = CellFocus::new(i + 1, column);
    match then {
        EditMove::Stay => FocusAfterEdit::Cell(here),
        EditMove::Down => if i + 1 < rows {
            FocusAfterEdit::Cell(CellFocus::new(i + 2, column))
        } else {
            FocusAfterEdit::Cell(here)
        },
        EditMove::Next | EditMove::Previous => {
            let forward = match then {
                EditMove::Next => true,
                _ => false,
            };
            match next_editable(editable, rows, i, column, forward) {
                Some((row, c)) => FocusAfterEdit::Edit { row, column: c, otherwise: here },
                None => FocusAfterEdit::Cell(here),
            }
        },
    }
}

/// Whether an editor's text is read when its edit is committed: every
/// editor of a new row, and only the touched ones of an existing row.
pub open spec fn is_read(text: (Seq<char>, Seq<char>), creating: bool) -> bool {
    creating || text.0 != text.1
}

/// The editors a commit reads, given each editor's text as first shown and
/// as typed now: all of them for a new row, which is checked in full; for
/// an existing row only those whose text changed, so that a row keeps what
/// was not touched even where it would not pass today's validation.
pub fn editors_to_read(texts: &Vec<(ColumnId, String, String)>, creating: bool) -> (r: Vec<usize>)
    ensures
        forall|k: int| 0 <= k < r@.len() ==> (#[trigger] r@[k]) < texts@.len() && is_read(
            (texts@[r@[k] as int].1@, texts@[r@[k] as int].2@),
            creating,
        ),
        forall|k: int, l: int| 0 <= k < l < r@.len() ==> #[trigger] r@[k] < #[trigger] r@[l],
        forall|i: int|
            0 <= i < texts@.len() && is_read((texts@[i].1@, texts@[i].2@), creating) ==> #[trigger] r@.contains(i as usize),
{
    let mut r: Vec<usize> = Vec::new();
    let mut i: usize = 0;
    while i < texts.len()
        invariant
            i <= texts@.len(),
            forall|k: int| 0 <= k < r@.len() ==> (#[trigger] r@[k]) < i && is_read(
                (texts@[r@[k] as int].1@, texts@[r@[k] as int].2@),
                creating,
            ),
            forall|k: int, l: int| 0 <= k < l < r@.len() ==> #[trigger] r@[k] < #[trigger] r@[l],
            forall|j: int| 0 <= j < i && is_read((texts@[j].1@, texts@[j].2@), creating) ==> #[trigger] r@.contains(j as usize),
        decreases texts.len() - i,
    {
        let changed = !text_equals(texts[i].1.as_str(), texts[i].2.as_str());
        if creating || changed {
            let ghost before = r@;
            r.push(i);
            proof {
                assert forall|j: int| 0 <= j <= i && is_read((texts@[j].1@, texts@[j].2@), creating) implies #[trigger] r@.contains(j as usize) by {
                    if j < i {
                        assert(before.contains(j as usize));
                        let w = choose|w: int| 0 <= w < before.len() && before[w] == j as usize;
                        assert(r@[w] == j as usize);
                    } else {
                        assert(r@[r@.len() - 1] == i);
                    }
                }
            }
        }
        i = i + 1;
    }
    r
}

/// Which buttons an editing toolbar shows, and which of them can be
/// pressed.
#[derive(Clone, Copy, Debug, PartialEq, Eq, Structural)]
pub struct EditToolbar {
    /// *Add*, when the grid can make new rows.
    pub add: bool,
    /// *Save* and *Cancel*, while a row is edited inline.
    pub finish_row: bool,
    /// *Edit*, when some column is editable and the view has rows, unless a
    /// row is edited inline.
    pub edit: bool,
    /// *Delete*, when the grid can delete rows.
    pub delete: bool,
    /// Whether *Delete* can be pressed: there is a row to delete.
    pub delete_enabled: bool,
    /// *Save* and *Discard* for the batch, when edits are collected.
    pub batch: bool,
    /// Whether the batch buttons can be pressed: there are changes.
    pub batch_enabled: bool,
}

/// The toolbar of a grid editing in `mode`: *Add* if it `can_create`;
/// while a row is edited inline, *Save* and *Cancel*; otherwise *Edit* if
/// it `has_editable_columns` and shows at least one row; *Delete* if it
/// `can_delete`, pressable with at least one `delete_candidates`; and in
/// batch mode *Save* and *Discard*, pressable with `pending` changes.
pub fn edit_toolbar(
    mode: EditMode,
    can_create: bool,
    can_delete: bool,
    has_editable_columns: bool,
    rows: usize,
    row_editing: bool,
    delete_candidates: usize,
    pending: usize,
) -> (r: EditToolbar)
    ensures
        r == (EditToolbar {
            add: can_create,
            finish_row: row_editing,
            edit: !row_editing && has_editable_columns && rows > 0,
            delete: can_delete,
            delete_enabled: delete_candidates > 0,
            batch: mode == EditMode::Batch,
            batch_enabled: pending > 0,
        }),
{
    EditToolbar {
        add: can_create,
        finish_row: row_editing,
        edit: !row_editing && has_editable_columns && rows > 0,
        delete: can_delete,
        delete_enabled: delete_candidates > 0,
        batch: mode == EditMode::Batch,
        batch_enabled: pending > 0,
    }
}

} // verus!
