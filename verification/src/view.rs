//! Turning rows plus state into the indices the renderer should draw.

use crate::column::{is_visible_spec, value_kind_spec, ColumnId, ColumnSpec};
use crate::filter::{
    contains_ci, contains_ignore_case, filter_matches, from_bar_text_spec, from_text_spec,
    prepared_filter, opt_text, ColumnFilter, Condition, ConditionModel, FilterModel,
};
use crate::group::{aggregates_model, AggregateValue, Group};
use crate::grouping::{
    aggregates_for, aggregates_over, data_indices, data_of, group_columns, group_plan,
    group_plan_for, group_rows, grouped_display, groups_model, lemma_data_of_data_rows,
    lemma_display_ignores_paging,
    lemma_ungrouped_display, rows_between,
};
use crate::remote::{pages_for, pages_of, ViewRow};
use crate::rowsort::{in_sort_order, plan_fits, slice_of, sort_rows, Cell, SortKey};
use crate::sort::SortState;
use crate::state::{first_position, lemma_first_position, GridState, PageState};
use crate::value::{CellModel, CellValue};
use vstd::prelude::*;

verus! {

broadcast use vstd::seq_lib::group_to_multiset_ensures;

/// The result of [`compute_view`]: indices into the rows rather than
/// copies of them.
#[derive(Clone, Debug, Default, PartialEq, Eq)]
pub struct GridView {
    /// Indices into the original rows, in display order, for the current
    /// page.
    pub indices: Vec<usize>,
    /// How many rows survived filtering, across every page.
    pub filtered_len: usize,
    /// How many pages the filtered rows span; `0` when paging is disabled
    /// or nothing matched.
    pub page_count: usize,
    /// The current page in display order: data rows, by their index into
    /// the rows, and groups' headers and footers, by their position in
    /// `groups`.
    pub rows: Vec<ViewRow>,
    /// The groups the display rows of every page show, in the order their
    /// headers come; `rows` names them by position here.
    pub groups: Vec<Group>,
    /// How many columns the rows are grouped by; `0` when they are not.
    pub group_levels: usize,
    /// How many rows of every kind the view spans across every page.
    pub row_count: usize,
    /// Where the current page starts among the display rows of every page.
    pub row_offset: usize,
    /// The aggregates over every matching row.
    pub totals: Vec<AggregateValue>,
}

/// The display rows of an ungrouped page: one data row per index.
pub open spec fn data_rows(indices: Seq<usize>) -> Seq<ViewRow> {
    indices.map_values(|i: usize| ViewRow::Data(i))
}

/// One data row per index, in order.
fn data_rows_of(indices: &Vec<usize>) -> (r: Vec<ViewRow>)
    ensures
        r@ == data_rows(indices@),
{
    let mut r: Vec<ViewRow> = Vec::new();
    let mut i: usize = 0;
    while i < indices.len()
        invariant
            i <= indices@.len(),
            r@ == data_rows(indices@.take(i as int)),
        decreases indices.len() - i,
    {
        r.push(ViewRow::Data(indices[i]));
        assert(data_rows(indices@.take(i + 1)) =~= data_rows(indices@.take(i as int)).push(ViewRow::Data(indices@[i as int])));
        i = i + 1;
    }
    assert(indices@.take(i as int) =~= indices@);
    r
}

impl GridView {
    /// Whether the current page has no rows.
    pub fn is_empty(&self) -> (r: bool)
        ensures
            r == (self.indices@.len() == 0),
    {
        self.indices.len() == 0
    }

    /// How many rows the current page holds.
    pub fn len(&self) -> (r: usize)
        ensures
            r == self.indices@.len(),
    {
        self.indices.len()
    }

    /// The view of a page a server sent, which already filtered, sorted
    /// and paged: its `received` rows in the order they came, with the
    /// server's `total` standing in for the filtered length, paged at the
    /// state's page size or else `default_page_size`, and at least one.
    pub fn remote(received: usize, total: usize, page: Option<PageState>, default_page_size: usize) -> (r: Self)
        ensures
            r.indices@ == Seq::new(received as nat, |i: int| i as usize),
            r.filtered_len == total,
            r.page_count == pages_for(total as int, remote_page_size(page, default_page_size)),
            r.rows@ == data_rows(r.indices@),
            r.groups@.len() == 0,
            r.group_levels == 0,
            r.row_count == total,
            r.row_offset == 0,
            r.totals@.len() == 0,
    {
        let size = match page {
            Some(p) => p.size,
            None => default_page_size,
        };
        let size = if size == 0 {
            1
        } else {
            size
        };
        let mut indices: Vec<usize> = Vec::new();
        let mut i: usize = 0;
        while i < received
            invariant
                i <= received,
                indices@ == Seq::new(i as nat, |k: int| k as usize),
            decreases received - i,
        {
            indices.push(i);
            assert(indices@ =~= Seq::new((i + 1) as nat, |k: int| k as usize));
            i = i + 1;
        }
        let rows = data_rows_of(&indices);
        GridView {
            indices,
            filtered_len: total,
            page_count: pages_of(total, size),
            rows,
            groups: Vec::new(),
            group_levels: 0,
            row_count: total,
            row_offset: 0,
            totals: Vec::new(),
        }
    }
}

/// The page size a remote grid's view counts pages at: the state's, or
/// else the default, and at least one.
pub open spec fn remote_page_size(page: Option<PageState>, default_page_size: usize) -> int {
    let size = match page {
        Some(p) => p.size,
        None => default_page_size,
    };
    if size == 0 {
        1
    } else {
        size as int
    }
}

/// Whether every row holds one cell per column.
pub open spec fn table_fits(rows: Seq<Vec<Cell>>, columns: Seq<ColumnSpec>) -> bool {
    forall|r: int| 0 <= r < rows.len() ==> (#[trigger] rows[r])@.len() == columns.len()
}

/// The ids of the columns, in order.
pub open spec fn column_ids(columns: Seq<ColumnSpec>) -> Seq<Seq<char>> {
    columns.map_values(|c: ColumnSpec| c.id@)
}

/// The values of column `c` in every row.
pub open spec fn column_values(rows: Seq<Vec<Cell>>, c: int) -> Seq<CellModel> {
    Seq::new(rows.len(), |r: int| rows[r]@[c].value@)
}

/// The value a column reads from row `r`: empty for a column without one.
pub open spec fn seen_value(columns: Seq<ColumnSpec>, rows: Seq<Vec<Cell>>, r: int, c: int) -> CellModel {
    if columns[c].has_value {
        rows[r]@[c].value@
    } else {
        CellModel::Empty
    }
}

/// The filter text a column reads from row `r`: none for a column without
/// filter text.
pub open spec fn seen_text(columns: Seq<ColumnSpec>, rows: Seq<Vec<Cell>>, r: int, c: int) -> Option<Seq<char>> {
    if columns[c].has_filter_text {
        match rows[r]@[c].text {
            Some(t) => Some(t@),
            None => None,
        }
    } else {
        None
    }
}

/// The column a filter on `id` applies to: the first column with that id,
/// if it can be filtered and is not the one left out.
pub open spec fn filter_column(columns: Seq<ColumnSpec>, id: Seq<char>, except: Option<Seq<char>>) -> Option<int> {
    match first_position(column_ids(columns), id) {
        Some(c) => if (columns[c].has_filter_text || columns[c].has_value) && except != Some(id) {
            Some(c)
        } else {
            None
        },
        None => None,
    }
}

/// What the filter bar's text on one column means: read for the column's
/// kind where it has one, as plain condition text where it has none.
pub open spec fn bar_entry(
    rows: Seq<Vec<Cell>>,
    columns: Seq<ColumnSpec>,
    entry: (ColumnId, String),
    except: Option<Seq<char>>,
) -> Option<(int, FilterModel)> {
    match filter_column(columns, entry.0@, except) {
        None => None,
        Some(c) => match value_kind_spec(columns[c], column_values(rows, c)) {
            Some(kind) => match from_bar_text_spec(entry.1@, kind) {
                Some(f) => Some((c, prepared_filter(f, kind))),
                None => None,
            },
            None => match from_text_spec(entry.1@) {
                Some(cm) => Some((c, FilterModel { conditions: seq![cm], any: false })),
                None => None,
            },
        },
    }
}

/// A typed filter on one column, read for the column's kind where it has
/// one. Empty filters are left out.
pub open spec fn typed_entry(
    rows: Seq<Vec<Cell>>,
    columns: Seq<ColumnSpec>,
    entry: (ColumnId, ColumnFilter),
    except: Option<Seq<char>>,
) -> Option<(int, FilterModel)> {
    if entry.1.conditions@.len() == 0 {
        None
    } else {
        match filter_column(columns, entry.0@, except) {
            None => None,
            Some(c) => match value_kind_spec(columns[c], column_values(rows, c)) {
                Some(kind) => Some((c, prepared_filter(entry.1@, kind))),
                None => Some((c, entry.1@)),
            },
        }
    }
}

/// The filter bar entries in effect, in order.
pub open spec fn bar_filters(
    rows: Seq<Vec<Cell>>,
    columns: Seq<ColumnSpec>,
    entries: Seq<(ColumnId, String)>,
    except: Option<Seq<char>>,
) -> Seq<(int, FilterModel)>
    decreases entries.len(),
{
    if entries.len() == 0 {
        Seq::empty()
    } else {
        let rest = bar_filters(rows, columns, entries.drop_last(), except);
        match bar_entry(rows, columns, entries.last(), except) {
            Some(e) => rest.push(e),
            None => rest,
        }
    }
}

/// The typed filters in effect, in order.
pub open spec fn typed_filters(
    rows: Seq<Vec<Cell>>,
    columns: Seq<ColumnSpec>,
    entries: Seq<(ColumnId, ColumnFilter)>,
    except: Option<Seq<char>>,
) -> Seq<(int, FilterModel)>
    decreases entries.len(),
{
    if entries.len() == 0 {
        Seq::empty()
    } else {
        let rest = typed_filters(rows, columns, entries.drop_last(), except);
        match typed_entry(rows, columns, entries.last(), except) {
            Some(e) => rest.push(e),
            None => rest,
        }
    }
}

/// Every filter in effect, each with its column: the filter bar's first,
/// then the typed ones. `except` leaves one column's filters out.
pub open spec fn active_spec(
    rows: Seq<Vec<Cell>>,
    columns: Seq<ColumnSpec>,
    state: GridState,
    except: Option<Seq<char>>,
) -> Seq<(int, FilterModel)> {
    bar_filters(rows, columns, state.column_filters@, except) + typed_filters(rows, columns, state.filters@, except)
}

/// The filters in effect as the library holds them.
pub open spec fn held_filters(v: Seq<(usize, ColumnFilter)>) -> Seq<(int, FilterModel)> {
    v.map_values(|e: (usize, ColumnFilter)| (e.0 as int, e.1@))
}

/// The id left out, as characters.
pub open spec fn except_model(except: Option<&ColumnId>) -> Option<Seq<char>> {
    match except {
        Some(id) => Some(id@),
        None => None,
    }
}

/// The position of the first column with id `id`.
pub(crate) fn find_column(columns: &[ColumnSpec], id: &ColumnId) -> (r: Option<usize>)
    ensures
        match first_position(column_ids(columns@), id@) {
            Some(i) => r == Some(i as usize) && 0 <= i < columns@.len(),
            None => r is None,
        },
{
    let ghost ids = column_ids(columns@);
    let mut i: usize = 0;
    while i < columns.len()
        invariant
            i <= columns@.len(),
            ids == column_ids(columns@),
            forall|j: int| 0 <= j < i ==> ids[j] != id@,
        decreases columns.len() - i,
    {
        if columns[i].id.same(id) {
            proof {
                lemma_first_position(ids, id@, i as int);
            }
            return Some(i);
        }
        i = i + 1;
    }
    proof {
        lemma_first_position(ids, id@, i as int);
    }
    None
}

/// The column a filter on `id` applies to.
fn find_filter_column(columns: &[ColumnSpec], id: &ColumnId, except: Option<&ColumnId>) -> (r: Option<usize>)
    ensures
        match filter_column(columns@, id@, except_model(except)) {
            Some(c) => r == Some(c as usize) && 0 <= c < columns@.len(),
            None => r is None,
        },
{
    match find_column(columns, id) {
        Some(c) => {
            let left_out = match except {
                Some(e) => e.same(id),
                None => false,
            };
            if columns[c].is_filterable() && !left_out {
                Some(c)
            } else {
                None
            }
        },
        None => None,
    }
}

/// The values of column `c` in every row.
fn column_cells<'a>(rows: &[Vec<Cell<'a>>], c: usize) -> (r: Vec<CellValue<'a>>)
    requires
        forall|i: int| 0 <= i < rows@.len() ==> c < (#[trigger] rows@[i])@.len(),
    ensures
        r@.map_values(|v: CellValue| v@) == column_values(rows@, c as int),
{
    let mut out: Vec<CellValue<'a>> = Vec::new();
    let mut i: usize = 0;
    while i < rows.len()
        invariant
            i <= rows@.len(),
            forall|k: int| 0 <= k < rows@.len() ==> c < (#[trigger] rows@[k])@.len(),
            out@.len() == i,
            forall|k: int| 0 <= k < i ==> (#[trigger] out@[k])@ == rows@[k]@[c as int].value@,
        decreases rows.len() - i,
    {
        assert(c < rows@[i as int]@.len());
        out.push(rows[i][c].value);
        i = i + 1;
    }
    assert(out@.map_values(|v: CellValue| v@) =~= column_values(rows@, c as int));
    out
}

/// The filters in effect, each with the position of its column.
fn active_filters(
    rows: &[Vec<Cell>],
    columns: &[ColumnSpec],
    state: &GridState,
    except: Option<&ColumnId>,
) -> (r: Vec<(usize, ColumnFilter)>)
    requires
        table_fits(rows@, columns@),
    ensures
        held_filters(r@) == active_spec(rows@, columns@, *state, except_model(except)),
        forall|i: int| 0 <= i < r@.len() ==> (#[trigger] r@[i]).0 < columns@.len(),
{
    let ghost ex = except_model(except);
    let mut out: Vec<(usize, ColumnFilter)> = Vec::new();
    let mut i: usize = 0;
    while i < state.column_filters.len()
        invariant
            i <= state.column_filters@.len(),
            table_fits(rows@, columns@),
            ex == except_model(except),
            held_filters(out@) == bar_filters(rows@, columns@, state.column_filters@.take(i as int), ex),
            forall|k: int| 0 <= k < out@.len() ==> (#[trigger] out@[k]).0 < columns@.len(),
        decreases state.column_filters.len() - i,
    {
        let ghost entries = state.column_filters@.take(i + 1);
        assert(entries.drop_last() =~= state.column_filters@.take(i as int));
        assert(entries.last() == state.column_filters@[i as int]);
        let (id, text) = &state.column_filters[i];
        if let Some(c) = find_filter_column(columns, id, except) {
            proof {
                assert forall|k: int| 0 <= k < rows@.len() implies c < (#[trigger] rows@[k])@.len() by {
                    assert(rows@[k]@.len() == columns@.len());
                }
            }
            let cells = column_cells(rows, c);
            match columns[c].value_kind(&cells) {
                Some(kind) => {
                    if let Some(f) = ColumnFilter::from_bar_text(text.as_str(), kind) {
                        let f = f.prepared(kind);
                        let ghost before = out@;
                        out.push((c, f));
                        assert(held_filters(out@) =~= held_filters(before).push((c as int, f@)));
                    }
                },
                None => {
                    if let Some(cond) = Condition::from_text(text.as_str()) {
                        let ghost cm = cond@;
                        let f = ColumnFilter::new(cond);
                        assert(f@.conditions =~= seq![cm]);
                        let ghost before = out@;
                        out.push((c, f));
                        assert(held_filters(out@) =~= held_filters(before).push((c as int, f@)));
                    }
                },
            }
        }
        i = i + 1;
    }
    assert(state.column_filters@.take(i as int) =~= state.column_filters@);
    let ghost bars = held_filters(out@);
    let mut j: usize = 0;
    while j < state.filters.len()
        invariant
            j <= state.filters@.len(),
            table_fits(rows@, columns@),
            ex == except_model(except),
            bars == bar_filters(rows@, columns@, state.column_filters@, ex),
            held_filters(out@) == bars + typed_filters(rows@, columns@, state.filters@.take(j as int), ex),
            forall|k: int| 0 <= k < out@.len() ==> (#[trigger] out@[k]).0 < columns@.len(),
        decreases state.filters.len() - j,
    {
        let ghost entries = state.filters@.take(j + 1);
        assert(entries.drop_last() =~= state.filters@.take(j as int));
        assert(entries.last() == state.filters@[j as int]);
        let (id, filter) = &state.filters[j];
        if !filter.is_empty() {
            if let Some(c) = find_filter_column(columns, id, except) {
                proof {
                    assert forall|k: int| 0 <= k < rows@.len() implies c < (#[trigger] rows@[k])@.len() by {
                        assert(rows@[k]@.len() == columns@.len());
                    }
                }
                let cells = column_cells(rows, c);
                let f = match columns[c].value_kind(&cells) {
                    Some(kind) => filter.prepared(kind),
                    None => filter.duplicate(),
                };
                let ghost before = out@;
                out.push((c, f));
                assert(held_filters(out@) =~= held_filters(before).push((c as int, f@)));
            }
        }
        j = j + 1;
    }
    assert(state.filters@.take(j as int) =~= state.filters@);
    out
}

/// Whether row `r` passes every filter in `active`.
pub open spec fn passes_filters(
    rows: Seq<Vec<Cell>>,
    columns: Seq<ColumnSpec>,
    active: Seq<(int, FilterModel)>,
    r: int,
) -> bool {
    forall|i: int|
        0 <= i < active.len() ==> filter_matches(
            (#[trigger] active[i]).1,
            seen_value(columns, rows, r, active[i].0),
            seen_text(columns, rows, r, active[i].0),
        )
}

/// The search term, unless it is empty.
pub open spec fn search_term(state: GridState) -> Option<Seq<char>> {
    match state.search {
        Some(s) => if s@.len() > 0 {
            Some(s@)
        } else {
            None
        },
        None => None,
    }
}

/// Whether the search looks at column `c`: it is visible and has filter
/// text.
pub open spec fn is_searchable(columns: Seq<ColumnSpec>, hidden: Seq<ColumnId>, c: int) -> bool {
    is_visible_spec(columns[c], hidden) && columns[c].has_filter_text
}

/// Whether the search applies: there is a term and a column to look in.
pub open spec fn search_applies(columns: Seq<ColumnSpec>, state: GridState) -> bool {
    &&& search_term(state) is Some
    &&& exists|c: int| 0 <= c < columns.len() && is_searchable(columns, state.hidden_columns@, c)
}

/// Whether the search term occurs, ignoring case, in the filter text of
/// row `r` in column `c`, a column the search looks at.
pub open spec fn search_hit(rows: Seq<Vec<Cell>>, columns: Seq<ColumnSpec>, state: GridState, r: int, c: int) -> bool {
    &&& is_searchable(columns, state.hidden_columns@, c)
    &&& match seen_text(columns, rows, r, c) {
        Some(t) => contains_ci(t, search_term(state)->0),
        None => false,
    }
}

/// Whether row `r` passes the search.
pub open spec fn passes_search(rows: Seq<Vec<Cell>>, columns: Seq<ColumnSpec>, state: GridState, r: int) -> bool {
    search_applies(columns, state) ==> exists|c: int| 0 <= c < columns.len() && #[trigger] search_hit(rows, columns, state, r, c)
}

/// Whether row `r` passes the filters (but those on `except`) and the
/// search.
pub open spec fn row_passes(
    rows: Seq<Vec<Cell>>,
    columns: Seq<ColumnSpec>,
    state: GridState,
    except: Option<Seq<char>>,
    r: int,
) -> bool {
    passes_filters(rows, columns, active_spec(rows, columns, state, except), r) && passes_search(rows, columns, state, r)
}

/// The rows among the first `n` that pass, in their original order.
pub open spec fn passing(
    rows: Seq<Vec<Cell>>,
    columns: Seq<ColumnSpec>,
    state: GridState,
    except: Option<Seq<char>>,
    n: int,
) -> Seq<usize>
    decreases n,
{
    if n <= 0 {
        Seq::empty()
    } else {
        let rest = passing(rows, columns, state, except, n - 1);
        if row_passes(rows, columns, state, except, n - 1) {
            rest.push((n - 1) as usize)
        } else {
            rest
        }
    }
}

/// The text a cell is filtered by, as the filter reads it.
fn cell_text<'b>(columns: &[ColumnSpec], row: &'b Vec<Cell>, c: usize) -> (t: Option<&'b str>)
    requires
        c < columns@.len(),
        c < row@.len(),
    ensures
        opt_text(t) == if columns@[c as int].has_filter_text {
            match row@[c as int].text {
                Some(s) => Some(s@),
                None => None,
            }
        } else {
            None
        },
{
    if columns[c].has_filter_text {
        match &row[c].text {
            Some(s) => Some(s.as_str()),
            None => None,
        }
    } else {
        None
    }
}

/// The positions of the columns the search looks at.
fn searchable_columns(columns: &[ColumnSpec], state: &GridState) -> (r: Vec<usize>)
    ensures
        forall|k: int| 0 <= k < r@.len() ==> (#[trigger] r@[k]) < columns@.len() && is_searchable(columns@, state.hidden_columns@, r@[k] as int),
        forall|c: int| 0 <= c < columns@.len() && #[trigger] is_searchable(columns@, state.hidden_columns@, c) ==> exists|k: int| 0 <= k < r@.len() && r@[k] as int == c,
{
    let mut out: Vec<usize> = Vec::new();
    let mut i: usize = 0;
    while i < columns.len()
        invariant
            i <= columns@.len(),
            forall|k: int| 0 <= k < out@.len() ==> (#[trigger] out@[k]) < columns@.len() && is_searchable(columns@, state.hidden_columns@, out@[k] as int),
            forall|c: int| 0 <= c < i && #[trigger] is_searchable(columns@, state.hidden_columns@, c) ==> exists|k: int| 0 <= k < out@.len() && out@[k] as int == c,
        decreases columns.len() - i,
    {
        if columns[i].is_visible(&state.hidden_columns) && columns[i].has_filter_text {
            let ghost before = out@;
            out.push(i);
            proof {
                assert(out@[before.len() as int] == i);
                assert forall|c: int| 0 <= c < i + 1 && is_searchable(columns@, state.hidden_columns@, c) implies exists|k: int| 0 <= k < out@.len() && out@[k] as int == c by {
                    if c < i {
                        let k = choose|k: int| 0 <= k < before.len() && before[k] as int == c;
                        assert(out@[k] == before[k]);
                    } else {
                        assert(out@[before.len() as int] as int == c);
                    }
                }
            }
        }
        i = i + 1;
    }
    out
}

/// Whether one row passes the prepared filters.
fn passes_filters_exec(
    rows: &[Vec<Cell>],
    columns: &[ColumnSpec],
    active: &Vec<(usize, ColumnFilter)>,
    r: usize,
) -> (b: bool)
    requires
        table_fits(rows@, columns@),
        r < rows@.len(),
        forall|i: int| 0 <= i < active@.len() ==> (#[trigger] active@[i]).0 < columns@.len(),
    ensures
        b == passes_filters(rows@, columns@, held_filters(active@), r as int),
{
    let ghost spec = held_filters(active@);
    let row = &rows[r];
    assert(row@.len() == columns@.len());
    let mut i: usize = 0;
    while i < active.len()
        invariant
            i <= active@.len(),
            r < rows@.len(),
            *row == rows@[r as int],
            row@.len() == columns@.len(),
            spec == held_filters(active@),
            forall|k: int| 0 <= k < active@.len() ==> (#[trigger] active@[k]).0 < columns@.len(),
            forall|k: int|
                0 <= k < i ==> filter_matches(
                    (#[trigger] spec[k]).1,
                    seen_value(columns@, rows@, r as int, spec[k].0),
                    seen_text(columns@, rows@, r as int, spec[k].0),
                ),
        decreases active.len() - i,
    {
        let (c, f) = &active[i];
        let c = *c;
        assert(spec[i as int] == (c as int, f@));
        let value = if columns[c].has_value {
            row[c].value
        } else {
            CellValue::Empty
        };
        let text = cell_text(columns, row, c);
        if !f.matches(&value, text) {
            assert(!filter_matches(
                spec[i as int].1,
                seen_value(columns@, rows@, r as int, spec[i as int].0),
                seen_text(columns@, rows@, r as int, spec[i as int].0),
            ));
            return false;
        }
        i = i + 1;
    }
    true
}

/// Whether one row passes the search.
fn passes_search_exec(
    rows: &[Vec<Cell>],
    columns: &[ColumnSpec],
    state: &GridState,
    searchable: &Vec<usize>,
    r: usize,
) -> (b: bool)
    requires
        table_fits(rows@, columns@),
        r < rows@.len(),
        forall|k: int| 0 <= k < searchable@.len() ==> (#[trigger] searchable@[k]) < columns@.len() && is_searchable(columns@, state.hidden_columns@, searchable@[k] as int),
        forall|c: int| 0 <= c < columns@.len() && #[trigger] is_searchable(columns@, state.hidden_columns@, c) ==> exists|k: int| 0 <= k < searchable@.len() && searchable@[k] as int == c,
    ensures
        b == passes_search(rows@, columns@, *state, r as int),
{
    let row = &rows[r];
    assert(row@.len() == columns@.len());
    let term = match &state.search {
        Some(s) => if s.as_str().is_empty() {
            None
        } else {
            Some(s.as_str())
        },
        None => None,
    };
    let term = match term {
        Some(t) => t,
        None => {
            return true;
        },
    };
    if searchable.len() == 0 {
        proof {
            assert forall|c: int| 0 <= c < columns@.len() implies !is_searchable(columns@, state.hidden_columns@, c) by {
                if is_searchable(columns@, state.hidden_columns@, c) {
                    assert(exists|k: int| 0 <= k < searchable@.len() && searchable@[k] as int == c);
                }
            }
        }
        return true;
    }
    assert(searchable@[0] < columns@.len());
    assert(search_applies(columns@, *state));
    let mut k: usize = 0;
    while k < searchable.len()
        invariant
            k <= searchable@.len(),
            r < rows@.len(),
            *row == rows@[r as int],
            row@.len() == columns@.len(),
            search_term(*state) == Some(term@),
            forall|j: int| 0 <= j < searchable@.len() ==> (#[trigger] searchable@[j]) < columns@.len() && is_searchable(columns@, state.hidden_columns@, searchable@[j] as int),
            forall|j: int| 0 <= j < k ==> !search_hit(rows@, columns@, *state, r as int, (#[trigger] searchable@[j]) as int),
        decreases searchable.len() - k,
    {
        let c = searchable[k];
        let hit = match cell_text(columns, row, c) {
            Some(t) => contains_ignore_case(t, term),
            None => false,
        };
        if hit {
            assert(search_hit(rows@, columns@, *state, r as int, c as int));
            return true;
        }
        k = k + 1;
    }
    proof {
        assert forall|c: int| 0 <= c < columns@.len() implies !search_hit(rows@, columns@, *state, r as int, c) by {
            if search_hit(rows@, columns@, *state, r as int, c) {
                assert(is_searchable(columns@, state.hidden_columns@, c));
                let j = choose|j: int| 0 <= j < searchable@.len() && searchable@[j] as int == c;
                assert(searchable@[j] as int == c);
                assert(!search_hit(rows@, columns@, *state, r as int, searchable@[j] as int));
                assert(false);
            }
        }
    }
    false
}

/// The rows that pass every filter but those on `except`, and the search,
/// in their original order.
pub(crate) fn filter_indices_except(
    rows: &[Vec<Cell>],
    columns: &[ColumnSpec],
    state: &GridState,
    except: Option<&ColumnId>,
) -> (r: Vec<usize>)
    requires
        table_fits(rows@, columns@),
    ensures
        r@ == passing(rows@, columns@, *state, except_model(except), rows@.len() as int),
{
    let ghost ex = except_model(except);
    let active = active_filters(rows, columns, state, except);
    let searchable = searchable_columns(columns, state);
    let mut out: Vec<usize> = Vec::new();
    let mut r: usize = 0;
    while r < rows.len()
        invariant
            r <= rows@.len(),
            table_fits(rows@, columns@),
            held_filters(active@) == active_spec(rows@, columns@, *state, ex),
            forall|i: int| 0 <= i < active@.len() ==> (#[trigger] active@[i]).0 < columns@.len(),
            forall|k: int| 0 <= k < searchable@.len() ==> (#[trigger] searchable@[k]) < columns@.len() && is_searchable(columns@, state.hidden_columns@, searchable@[k] as int),
            forall|c: int| 0 <= c < columns@.len() && #[trigger] is_searchable(columns@, state.hidden_columns@, c) ==> exists|k: int| 0 <= k < searchable@.len() && searchable@[k] as int == c,
            out@ == passing(rows@, columns@, *state, ex, r as int),
        decreases rows.len() - r,
    {
        if passes_filters_exec(rows, columns, &active, r) && passes_search_exec(rows, columns, state, &searchable, r) {
            out.push(r);
        }
        r = r + 1;
    }
    out
}

/// One sort entry as a plan step: the first column with its id, if that
/// column has a value and may be sorted.
pub open spec fn plan_entry(columns: Seq<ColumnSpec>, entry: SortState) -> Option<SortKey> {
    match first_position(column_ids(columns), entry.column@) {
        Some(c) => if columns[c].has_value && columns[c].sortable {
            Some((c as usize, entry.direction, columns[c].collation))
        } else {
            None
        },
        None => None,
    }
}

/// The sort entries as plan steps, in order of priority; entries naming
/// an unknown or unsortable column are skipped.
pub open spec fn sort_plan(columns: Seq<ColumnSpec>, sort: Seq<SortState>) -> Seq<SortKey>
    decreases sort.len(),
{
    if sort.len() == 0 {
        Seq::empty()
    } else {
        let rest = sort_plan(columns, sort.drop_last());
        match plan_entry(columns, sort.last()) {
            Some(k) => rest.push(k),
            None => rest,
        }
    }
}

/// How many pages `len` rows span: none when paging is off.
pub open spec fn page_count_spec(len: int, page: Option<PageState>) -> int {
    match page {
        Some(p) => if p.size > 0 {
            len / (p.size as int) + if len % (p.size as int) == 0 {
                0int
            } else {
                1int
            }
        } else {
            0
        },
        None => 0,
    }
}

/// The smaller of two integers.
pub open spec fn min_of(a: int, b: int) -> int {
    if a < b {
        a
    } else {
        b
    }
}

/// Where the current page starts and ends among `len` sorted rows: the
/// page index is clamped to the last page; without paging, everything.
pub open spec fn page_range(len: int, page: Option<PageState>) -> (int, int) {
    match page {
        Some(p) => if p.size > 0 {
            let count = page_count_spec(len, page);
            let last = if count > 0 {
                count - 1
            } else {
                0
            };
            let index = min_of(p.index as int, last);
            let start = min_of(index * p.size, len);
            (start, min_of(start + p.size, len))
        } else {
            (0, len)
        },
        None => (0, len),
    }
}

/// The sort plan for the state's sort entries.
fn plan_for(columns: &[ColumnSpec], sort: &Vec<SortState>) -> (plan: Vec<SortKey>)
    ensures
        plan@ == sort_plan(columns@, sort@),
        forall|k: int| 0 <= k < plan@.len() ==> (#[trigger] plan@[k]).0 < columns@.len(),
{
    let mut plan: Vec<SortKey> = Vec::new();
    let mut i: usize = 0;
    while i < sort.len()
        invariant
            i <= sort@.len(),
            plan@ == sort_plan(columns@, sort@.take(i as int)),
            forall|k: int| 0 <= k < plan@.len() ==> (#[trigger] plan@[k]).0 < columns@.len(),
        decreases sort.len() - i,
    {
        let ghost entries = sort@.take(i + 1);
        assert(entries.drop_last() =~= sort@.take(i as int));
        assert(entries.last() == sort@[i as int]);
        let entry = &sort[i];
        if let Some(c) = find_column(columns, &entry.column) {
            if columns[c].has_value && columns[c].sortable {
                plan.push((c, entry.direction, columns[c].collation));
            }
        }
        i = i + 1;
    }
    assert(sort@.take(i as int) =~= sort@);
    plan
}

/// The sort a view follows: the grouping columns first, in their groups'
/// directions, then the state's sort entries.
pub open spec fn view_plan(columns: Seq<ColumnSpec>, state: GridState) -> Seq<SortKey> {
    group_plan(columns, state) + sort_plan(columns, state.sort@)
}

/// Filters, sorts, groups and pages `rows`, in that order.
///
/// A row must pass every filter in effect, on the filter bar and typed,
/// and the search where it applies. Filter bar text is read for the
/// column's kind; a filter naming an unknown or unfilterable column is
/// ignored, and filters apply whether or not their column is visible. The
/// search looks, ignoring case, in the filter text of the visible columns
/// that have some; with no such column the term is ignored.
///
/// Sorting is stable and follows the grouping columns first, each in the
/// direction of the first sort entry naming it (ascending without one),
/// then the state's sort entries in order of priority, skipping those
/// naming an unknown or unsortable column.
///
/// Grouping columns naming an unknown column or one without a value are
/// ignored. The display rows give each group its header, then, if it is
/// expanded, its rows (grouped by the next column) and a footer when a
/// column aggregates; see [`grouped_display`]. Without grouping columns
/// the display rows are the data rows.
///
/// Paging cuts the display rows: a page index past the last page is
/// clamped; a page size of `0` turns paging off. The totals aggregate every
/// filtered row.
pub fn compute_view(rows: &[Vec<Cell>], columns: &[ColumnSpec], state: &GridState) -> (view: GridView)
    requires
        table_fits(rows@, columns@),
    ensures
        view.filtered_len == passing(rows@, columns@, *state, None, rows@.len() as int).len(),
        view.group_levels == group_columns(columns@, state.group_by@).len(),
        view.page_count == page_count_spec(view.row_count as int, state.page),
        view.row_offset == page_range(view.row_count as int, state.page).0,
        view.indices@ == data_of(view.rows@),
        view.group_levels == 0 ==> view.row_count == view.filtered_len,
        exists|sorted: Seq<usize>|
            #![trigger in_sort_order(rows@, view_plan(columns@, *state), sorted)]
            sorted.to_multiset() == passing(rows@, columns@, *state, None, rows@.len() as int).to_multiset()
                && in_sort_order(rows@, view_plan(columns@, *state), sorted)
                && view.row_count == grouped_display(rows@, columns@, *state, sorted).rows.len()
                && view.rows@ == grouped_display(rows@, columns@, *state, sorted).rows.subrange(
                page_range(view.row_count as int, state.page).0,
                page_range(view.row_count as int, state.page).1,
            ) && groups_model(view.groups@) == grouped_display(rows@, columns@, *state, sorted).groups
                && aggregates_model(view.totals@) == aggregates_over(columns@, rows@, sorted)
                && (view.group_levels == 0 ==> view.indices@ == sorted.subrange(
                page_range(view.filtered_len as int, state.page).0,
                page_range(view.filtered_len as int, state.page).1,
            )),
{
    let row_count = rows.len();
    let indices = filter_indices_except(rows, columns, state, None);
    let ghost matching = indices@;
    let filtered_len = indices.len();
    let mut plan = group_plan_for(columns, state);
    let mut rest = plan_for(columns, &state.sort);
    plan.append(&mut rest);
    assert(plan@ =~= view_plan(columns@, *state));
    proof {
        assert forall|i: int| 0 <= i < indices@.len() implies (#[trigger] indices@[i]) < rows@.len() by {
            lemma_passing_in_range(rows@, columns@, *state, None, row_count as int);
        }
        assert forall|k: int, r: int| 0 <= k < plan@.len() && 0 <= r < rows@.len() implies (#[trigger] plan@[k]).0 < (
        #[trigger] rows@[r])@.len() by {
            assert(rows@[r]@.len() == columns@.len());
        }
    }
    let sorted = sort_rows(rows, &plan, indices);
    proof {
        assert(sorted@.to_multiset().len() == sorted@.len());
        assert(matching.to_multiset().len() == matching.len());
    }
    let (display, groups, group_levels) = group_rows(rows, columns, state, &sorted);
    let totals = aggregates_for(rows, columns, &sorted);
    let display_len = display.len();
    let mut page_count: usize = 0;
    let mut start: usize = 0;
    let mut end: usize = display_len;
    if let Some(page) = state.page {
        if page.size > 0 {
            let size = page.size;
            proof {
                lemma_page_count_fits(display_len, size);
            }
            page_count = display_len / size + if display_len % size != 0 {
                1
            } else {
                0
            };
            let last = page_count.saturating_sub(1);
            let index = if page.index < last {
                page.index
            } else {
                last
            };
            start = match index.checked_mul(size) {
                Some(v) => if v < display_len {
                    v
                } else {
                    display_len
                },
                None => display_len,
            };
            end = if start.saturating_add(size) < display_len {
                start + size
            } else {
                display_len
            };
        }
    }
    let shown = rows_between(&display, start, end);
    let data = data_indices(&shown);
    proof {
        if group_levels == 0 {
            lemma_ungrouped_display(rows@, columns@, *state, sorted@);
            assert(display@.subrange(start as int, end as int) =~= data_rows(sorted@.subrange(start as int, end as int)));
            lemma_data_of_data_rows(sorted@.subrange(start as int, end as int));
        }
    }
    GridView {
        indices: data,
        filtered_len,
        page_count,
        rows: shown,
        groups,
        group_levels,
        row_count: display_len,
        row_offset: start,
        totals,
    }
}

/// Every row that passes is a row of the table.
pub proof fn lemma_passing_in_range(
    rows: Seq<Vec<Cell>>,
    columns: Seq<ColumnSpec>,
    state: GridState,
    except: Option<Seq<char>>,
    n: int,
)
    requires
        n <= rows.len(),
        n <= usize::MAX,
    ensures
        forall|i: int| 0 <= i < passing(rows, columns, state, except, n).len() ==> #[trigger] passing(rows, columns, state, except, n)[i] < n,
    decreases n,
{
    if n > 0 {
        lemma_passing_in_range(rows, columns, state, except, n - 1);
        let rest = passing(rows, columns, state, except, n - 1);
        let all = passing(rows, columns, state, except, n);
        assert forall|i: int| 0 <= i < all.len() implies #[trigger] all[i] < n by {
            if i < rest.len() {
                assert(all[i] == rest[i]);
            }
        }
    }
}

/// The page count of `len` rows fits.
proof fn lemma_page_count_fits(len: usize, size: usize)
    requires
        size > 0,
    ensures
        len / size + 1 <= usize::MAX || len % size == 0,
        len / size <= len,
{
    assert(len / size <= len) by (nonlinear_arith)
        requires
            size > 0,
    ;
    if size == 1 {
        assert(len % size == 0);
    } else {
        assert(len / size <= len / 2) by (nonlinear_arith)
            requires
                size >= 2,
        ;
    }
}

/// The rows that pass come in increasing order, so none comes twice, and
/// the sorted rows of a view are therefore determined by the rows, the
/// columns and the state alone.
pub proof fn lemma_passing_increasing(
    rows: Seq<Vec<Cell>>,
    columns: Seq<ColumnSpec>,
    state: GridState,
    except: Option<Seq<char>>,
    n: int,
)
    requires
        n <= rows.len(),
        n <= usize::MAX,
    ensures
        forall|i: int, j: int|
            0 <= i < j < passing(rows, columns, state, except, n).len() ==> #[trigger] passing(rows, columns, state, except, n)[i]
                < #[trigger] passing(rows, columns, state, except, n)[j],
        passing(rows, columns, state, except, n).no_duplicates(),
    decreases n,
{
    lemma_passing_in_range(rows, columns, state, except, n);
    if n > 0 {
        lemma_passing_increasing(rows, columns, state, except, n - 1);
        lemma_passing_in_range(rows, columns, state, except, n - 1);
        let rest = passing(rows, columns, state, except, n - 1);
        let all = passing(rows, columns, state, except, n);
        assert forall|i: int, j: int| 0 <= i < j < all.len() implies #[trigger] all[i] < #[trigger] all[j] by {
            assert(all[i] == rest[i]);
            if j < rest.len() {
                assert(all[j] == rest[j]);
            }
        }
    }
    let all = passing(rows, columns, state, except, n);
    assert forall|i: int, j: int| 0 <= i < all.len() && 0 <= j < all.len() && i != j implies all[i] != all[j] by {
        if i < j {
            assert(all[i] < all[j]);
        } else {
            assert(all[j] < all[i]);
        }
    }
}

/// Walking the pages covers the filtered rows without gaps or overlap:
/// page `p` starts where page `p - 1` ends, every page but the last is
/// full, and the last one ends with the rows.
pub proof fn lemma_pages_partition(len: usize, size: usize, p: usize)
    requires
        size > 0,
        p < page_count_spec(len as int, Some(PageState { index: 0, size })),
    ensures
        page_range(len as int, Some(PageState { index: p, size })).0 == p * size,
        page_range(len as int, Some(PageState { index: p, size })).1 == min_of((p + 1) * size, len as int),
        p + 1 < page_count_spec(len as int, Some(PageState { index: 0, size })) ==> page_range(
            len as int,
            Some(PageState { index: p, size }),
        ).1 - page_range(len as int, Some(PageState { index: p, size })).0 == size,
        p + 1 == page_count_spec(len as int, Some(PageState { index: 0, size })) ==> page_range(
            len as int,
            Some(PageState { index: p, size }),
        ).1 == len,
{
    let q = len as int / size as int;
    let r = len as int % size as int;
    vstd::arithmetic::div_mod::lemma_fundamental_div_mod(len as int, size as int);
    assert(size * q == q * size) by (nonlinear_arith);
    assert(len == q * size + r);
    assert(0 <= r < size);
    let count = page_count_spec(len as int, Some(PageState { index: 0, size }));
    assert(count == q + if r == 0 {
        0int
    } else {
        1int
    });
    assert(p <= q);
    assert(p * size <= q * size) by (nonlinear_arith)
        requires
            p <= q,
            size > 0,
    ;
    if p < q {
        assert(p * size + size <= q * size) by (nonlinear_arith)
            requires
                p < q,
                size > 0,
        ;
    } else {
        assert(r > 0);
        assert(p * size == q * size);
    }
    assert((p + 1) * size == p * size + size) by (nonlinear_arith);
    assert(p * size < len);
    assert(page_count_spec(len as int, Some(PageState { index: p, size })) == count);
    assert(min_of(p as int, count - 1) == p);
    if p + 1 < count {
        assert(p < q || r == 0);
        assert(p + 1 <= q);
        assert((p + 1) * size <= q * size) by (nonlinear_arith)
            requires
                p + 1 <= q,
                size > 0,
        ;
    }
    if p + 1 == count {
        if r == 0 {
            assert(p + 1 == q);
            assert((p + 1) * size == q * size);
        } else {
            assert(p == q);
        }
    }
}

/// A page index past the last page still shows rows when any match: the
/// page is clamped to the last one, which holds at least one row and at
/// most a page of them.
pub proof fn lemma_clamped_page_shows_rows(len: usize, page: PageState)
    requires
        page.size > 0,
        len > 0,
    ensures
        page_range(len as int, Some(page)).0 < page_range(len as int, Some(page)).1,
        page_range(len as int, Some(page)).1 - page_range(len as int, Some(page)).0 <= page.size,
{
    let size = page.size;
    let count = page_count_spec(len as int, Some(page));
    let q = len as int / size as int;
    let r = len as int % size as int;
    vstd::arithmetic::div_mod::lemma_fundamental_div_mod(len as int, size as int);
    assert(size * q == q * size) by (nonlinear_arith);
    assert(len == q * size + r);
    assert(count == page_count_spec(len as int, Some(PageState { index: 0, size })));
    assert(count >= 1) by {
        if q == 0 {
            assert(r > 0);
        }
    }
    let index = min_of(page.index as int, count - 1);
    assert(0 <= index < count);
    lemma_pages_partition(len, size, index as usize);
    assert(page_range(len as int, Some(page)) == page_range(len as int, Some(PageState { index: index as usize, size })));
    assert(index * size < len) by (nonlinear_arith)
        requires
            index < count,
            count == q + if r == 0 {
                0int
            } else {
                1int
            },
            len == q * size + r,
            0 <= r < size,
            0 <= index,
            size > 0,
    ;
}

/// Paging does not change which rows pass.
proof fn lemma_passing_ignores_paging(
    rows: Seq<Vec<Cell>>,
    columns: Seq<ColumnSpec>,
    state: GridState,
    page: Option<PageState>,
    except: Option<Seq<char>>,
    n: int,
)
    ensures
        passing(rows, columns, GridState { page, ..state }, except, n) == passing(rows, columns, state, except, n),
    decreases n,
{
    let other = GridState { page, ..state };
    assert(active_spec(rows, columns, other, except) == active_spec(rows, columns, state, except));
    if n > 0 {
        lemma_passing_ignores_paging(rows, columns, state, page, except, n - 1);
        assert(other.hidden_columns == state.hidden_columns);
        assert(other.search == state.search);
        assert(search_term(other) == search_term(state));
        assert(search_applies(columns, other) == search_applies(columns, state));
        assert forall|c: int|
            #![trigger search_hit(rows, columns, other, n - 1, c)]
            #![trigger search_hit(rows, columns, state, n - 1, c)]
            search_hit(rows, columns, other, n - 1, c) == search_hit(rows, columns, state, n - 1, c) by {}
        assert(passes_search(rows, columns, other, n - 1) == passes_search(rows, columns, state, n - 1));
    }
}

/// Every page shows a stretch of one and the same order of the matching
/// rows: an order of them sorted for a paged state is the order sorted for
/// the same state with any other paging, or none.
pub proof fn lemma_pages_share_one_order(
    rows: Seq<Vec<Cell>>,
    columns: Seq<ColumnSpec>,
    state: GridState,
    page: Option<PageState>,
    sorted: Seq<usize>,
    other_sorted: Seq<usize>,
)
    requires
        rows.len() <= usize::MAX,
        sorted.to_multiset() == passing(rows, columns, state, None, rows.len() as int).to_multiset(),
        in_sort_order(rows, view_plan(columns, state), sorted),
        other_sorted.to_multiset() == passing(rows, columns, GridState { page, ..state }, None, rows.len() as int).to_multiset(),
        in_sort_order(rows, view_plan(columns, GridState { page, ..state }), other_sorted),
    ensures
        sorted == other_sorted,
{
    let all = passing(rows, columns, state, None, rows.len() as int);
    lemma_passing_ignores_paging(rows, columns, state, page, None, rows.len() as int);
    lemma_passing_increasing(rows, columns, state, None, rows.len() as int);
    all.lemma_multiset_has_no_duplicates();
    sorted.lemma_multiset_has_no_duplicates_conv();
    assert(view_plan(columns, GridState { page, ..state }) == view_plan(columns, state));
    crate::rowsort::lemma_sort_order_unique(rows, view_plan(columns, state), sorted, other_sorted);
}

/// Every page of a view, grouped or not, cuts one and the same list of
/// display rows: the display rows an order sorted for a paged state gives
/// are those an order sorted for the same state with any other paging, or
/// none, gives. With [`lemma_pages_partition`] over the row count, walking
/// the pages yields the unpaged display rows once each.
pub proof fn lemma_paged_views_share_display(
    rows: Seq<Vec<Cell>>,
    columns: Seq<ColumnSpec>,
    state: GridState,
    page: Option<PageState>,
    sorted: Seq<usize>,
    other_sorted: Seq<usize>,
)
    requires
        rows.len() <= usize::MAX,
        sorted.to_multiset() == passing(rows, columns, state, None, rows.len() as int).to_multiset(),
        in_sort_order(rows, view_plan(columns, state), sorted),
        other_sorted.to_multiset() == passing(rows, columns, GridState { page, ..state }, None, rows.len() as int).to_multiset(),
        in_sort_order(rows, view_plan(columns, GridState { page, ..state }), other_sorted),
    ensures
        grouped_display(rows, columns, state, sorted) == grouped_display(rows, columns, GridState { page, ..state }, other_sorted),
{
    lemma_pages_share_one_order(rows, columns, state, page, sorted, other_sorted);
    lemma_display_ignores_paging(rows, columns, state, page, sorted);
}

/// Paging on the view's rows counts the fewest pages that hold them: none
/// when paging is off, or for no rows; otherwise every row fits in that
/// many pages of the state's size, and one page fewer would leave rows out.
pub proof fn lemma_page_count_is_fewest(len: nat, page: Option<PageState>)
    ensures
        (page is None || page.unwrap().size == 0 || len == 0) ==> page_count_spec(len as int, page) == 0,
        page is Some && page.unwrap().size > 0 ==> len <= page_count_spec(len as int, page) * page.unwrap().size,
        page is Some && page.unwrap().size > 0 && len > 0 ==> (page_count_spec(len as int, page) - 1) * page.unwrap().size
            < len,
{
    if let Some(p) = page {
        if p.size > 0 {
            crate::remote::lemma_pages_for_is_fewest(len, p.size as nat);
            assert(page_count_spec(len as int, page) == pages_for(len as int, p.size as int));
        }
    }
}

} // verus!
