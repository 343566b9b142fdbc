//! Grouping a view's sorted rows by column values: each group's header,
//! its rows and its footer as display rows, the groups themselves, and the
//! aggregates shown for a group and for the whole grid.

use crate::aggregate::{cell_models, extreme, extreme_upto, int_sum, int_sum_upto, number_count};
use crate::column::{ColumnId, ColumnSpec};
use crate::filter::{FilterValue, Value};
use crate::group::{
    aggregates_model, duplicate_opt, kind_of_aggregate, opt_model, Aggregate, AggregateValue,
    AggregateValueModel, Group, GroupKey, GroupModel,
};
use crate::remote::ViewRow;
use crate::rowsort::{slice_of, value_at, Cell, SortKey};
use crate::sort::{SortDirection, SortState, TextCollation};
use crate::state::{first_position, group_expanded, GridState};
use crate::value::{cells_equal, CellModel, CellValue};
use crate::view::{column_ids, data_rows, find_column, table_fits};
use vstd::prelude::*;

verus! {

/// The values of column `c` in the rows `s` names, in order.
pub open spec fn values_in(rows: Seq<Vec<Cell>>, s: Seq<usize>, c: usize) -> Seq<CellModel> {
    s.map_values(|r: usize| value_at(rows, r, c))
}

/// How many of the first `n` values are not empty.
pub open spec fn present_count(vals: Seq<CellModel>, n: int) -> int
    decreases n,
{
    if n <= 0 {
        0
    } else {
        present_count(vals, n - 1) + if vals[n - 1] is Empty {
            0int
        } else {
            1int
        }
    }
}

/// What aggregate `a` computes over `vals`, in a column of `collation`, as
/// far as an integer or a cell's value can hold it: the sum of the numbers
/// while it stays within `i64` (nothing without numbers), the smallest or
/// largest value in the column's order, and how many values there are.
/// A mean, a sum past `i64` and a custom aggregate are fractional or the
/// application's, and come out as `None` here.
pub open spec fn aggregate_result(a: Aggregate, vals: Seq<CellModel>, collation: TextCollation) -> Option<CellModel> {
    let n = vals.len() as int;
    match a {
        Aggregate::Sum => if number_count(vals, n) == 0 {
            None
        } else {
            match int_sum_upto(vals, n) {
                Some(x) => Some(CellModel::Int(x)),
                None => None,
            }
        },
        Aggregate::Average => None,
        Aggregate::Min => extreme_upto(vals, collation, false, n),
        Aggregate::Max => extreme_upto(vals, collation, true, n),
        Aggregate::Count => Some(
            CellModel::Int(
                if present_count(vals, n) > i64::MAX {
                    i64::MAX as int
                } else {
                    present_count(vals, n)
                },
            ),
        ),
        Aggregate::Custom { .. } => None,
    }
}

/// The results of column `c`'s aggregates over the rows `s` names.
pub open spec fn column_aggregates(columns: Seq<ColumnSpec>, rows: Seq<Vec<Cell>>, s: Seq<usize>, c: int) -> Seq<AggregateValueModel> {
    columns[c].aggregates@.map_values(
        |a: Aggregate|
            AggregateValueModel {
                column: columns[c].id@,
                kind: kind_of_aggregate(a),
                value: aggregate_result(a, values_in(rows, s, c as usize), columns[c].collation),
            },
    )
}

/// The aggregates of the first `n` columns over the rows `s` names, column
/// by column.
pub open spec fn aggregates_upto(columns: Seq<ColumnSpec>, rows: Seq<Vec<Cell>>, s: Seq<usize>, n: int) -> Seq<AggregateValueModel>
    decreases n,
{
    if n <= 0 {
        Seq::empty()
    } else {
        aggregates_upto(columns, rows, s, n - 1) + column_aggregates(columns, rows, s, n - 1)
    }
}

/// Every column's aggregates over the rows `s` names, in column order.
pub open spec fn aggregates_over(columns: Seq<ColumnSpec>, rows: Seq<Vec<Cell>>, s: Seq<usize>) -> Seq<AggregateValueModel> {
    aggregates_upto(columns, rows, s, columns.len() as int)
}

/// Whether any column has an aggregate, so that groups get footers.
pub open spec fn has_aggregates(columns: Seq<ColumnSpec>) -> bool {
    exists|c: int| 0 <= c < columns.len() && (#[trigger] columns[c]).aggregates@.len() > 0
}

/// Whether any column has an aggregate.
pub fn any_aggregates(columns: &[ColumnSpec]) -> (r: bool)
    ensures
        r == has_aggregates(columns@),
{
    let mut c: usize = 0;
    while c < columns.len()
        invariant
            c <= columns@.len(),
            forall|j: int| 0 <= j < c ==> (#[trigger] columns@[j]).aggregates@.len() == 0,
        decreases columns.len() - c,
    {
        if columns[c].aggregates.len() > 0 {
            assert(columns@[c as int].aggregates@.len() > 0);
            return true;
        }
        c = c + 1;
    }
    false
}

/// The values of column `c` in the rows `s` names.
fn column_values_of<'a>(rows: &[Vec<Cell<'a>>], s: &Vec<usize>, c: usize) -> (r: Vec<CellValue<'a>>)
    requires
        forall|i: int| 0 <= i < s@.len() ==> (#[trigger] s@[i]) < rows@.len(),
        forall|r: int| 0 <= r < rows@.len() ==> c < (#[trigger] rows@[r])@.len(),
    ensures
        cell_models(r@) == values_in(rows@, s@, c),
{
    let mut r: Vec<CellValue<'a>> = Vec::new();
    let mut i: usize = 0;
    while i < s.len()
        invariant
            i <= s@.len(),
            r@.len() == i,
            forall|j: int| 0 <= j < i ==> (#[trigger] r@[j])@ == value_at(rows@, s@[j], c),
            forall|j: int| 0 <= j < s@.len() ==> (#[trigger] s@[j]) < rows@.len(),
            forall|q: int| 0 <= q < rows@.len() ==> c < (#[trigger] rows@[q])@.len(),
        decreases s.len() - i,
    {
        let row = s[i];
        assert(s@[i as int] < rows@.len());
        let v = rows[row][c].value;
        r.push(v);
        i = i + 1;
    }
    assert(cell_models(r@) =~= values_in(rows@, s@, c));
    r
}

/// How many of `values` are not empty.
fn count_present(values: &Vec<CellValue>) -> (r: usize)
    ensures
        r as int == present_count(cell_models(values@), values@.len() as int),
{
    let ghost vals = cell_models(values@);
    let mut n: usize = 0;
    let mut i: usize = 0;
    while i < values.len()
        invariant
            i <= values@.len(),
            vals == cell_models(values@),
            n as int == present_count(vals, i as int),
            n <= i,
        decreases values.len() - i,
    {
        assert(vals[i as int] == values@[i as int]@);
        if !values[i].is_none() {
            n = n + 1;
        }
        i = i + 1;
    }
    n
}

/// What aggregate `a` computes over `values`; see [`aggregate_result`].
fn aggregate_value(a: &Aggregate, values: &Vec<CellValue>, collation: TextCollation) -> (r: Option<Value>)
    ensures
        opt_model(r) == aggregate_result(*a, cell_models(values@), collation),
{
    match a {
        Aggregate::Sum => {
            let (sum, count) = int_sum(values);
            if count == 0 {
                None
            } else {
                match sum {
                    Some(x) => Some(FilterValue::Int(x)),
                    None => None,
                }
            }
        },
        Aggregate::Average => None,
        Aggregate::Min => extreme(values, collation, false),
        Aggregate::Max => extreme(values, collation, true),
        Aggregate::Count => {
            let n: u64 = count_present(values) as u64;
            if n > 0x7fff_ffff_ffff_ffffu64 {
                Some(FilterValue::Int(i64::MAX))
            } else {
                Some(FilterValue::Int(n as i64))
            }
        },
        Aggregate::Custom { .. } => None,
    }
}

/// Every column's aggregates over the rows `s` names; see
/// [`aggregates_over`].
pub fn aggregates_for(rows: &[Vec<Cell>], columns: &[ColumnSpec], s: &Vec<usize>) -> (r: Vec<AggregateValue>)
    requires
        table_fits(rows@, columns@),
        forall|i: int| 0 <= i < s@.len() ==> (#[trigger] s@[i]) < rows@.len(),
    ensures
        aggregates_model(r@) == aggregates_over(columns@, rows@, s@),
{
    let mut r: Vec<AggregateValue> = Vec::new();
    let mut c: usize = 0;
    while c < columns.len()
        invariant
            c <= columns@.len(),
            table_fits(rows@, columns@),
            forall|i: int| 0 <= i < s@.len() ==> (#[trigger] s@[i]) < rows@.len(),
            aggregates_model(r@) == aggregates_upto(columns@, rows@, s@, c as int),
        decreases columns.len() - c,
    {
        let column = &columns[c];
        let ghost before = r@;
        let ghost wanted = column_aggregates(columns@, rows@, s@, c as int);
        if column.aggregates.len() > 0 {
            proof {
                assert forall|q: int| 0 <= q < rows@.len() implies c < (#[trigger] rows@[q])@.len() by {
                    assert(rows@[q]@.len() == columns@.len());
                }
            }
            let values = column_values_of(rows, s, c);
            let mut k: usize = 0;
            while k < column.aggregates.len()
                invariant
                    k <= column.aggregates@.len(),
                    column == columns@[c as int],
                    wanted == column_aggregates(columns@, rows@, s@, c as int),
                    cell_models(values@) == values_in(rows@, s@, c),
                    aggregates_model(r@) == aggregates_model(before) + wanted.take(k as int),
                decreases column.aggregates.len() - k,
            {
                let a = &column.aggregates[k];
                let item = AggregateValue {
                    column: column.id.duplicate(),
                    kind: a.kind(),
                    value: aggregate_value(a, &values, column.collation),
                };
                let ghost prev = r@;
                r.push(item);
                assert(aggregates_model(r@) =~= aggregates_model(prev).push(item@));
                assert(wanted.take(k + 1) =~= wanted.take(k as int).push(wanted[k as int]));
                k = k + 1;
            }
            assert(wanted.take(k as int) =~= wanted);
        } else {
            assert(wanted =~= Seq::<AggregateValueModel>::empty());
            assert(aggregates_model(r@) + wanted =~= aggregates_model(r@));
        }
        c = c + 1;
    }
    r
}

/// The grouping columns, outermost first: for each entry of `group_by`,
/// the first column with that id, if that column has a value. Entries
/// naming an unknown column, or one without a value, are left out.
pub open spec fn group_columns(columns: Seq<ColumnSpec>, group_by: Seq<ColumnId>) -> Seq<usize>
    decreases group_by.len(),
{
    if group_by.len() == 0 {
        Seq::empty()
    } else {
        let rest = group_columns(columns, group_by.drop_last());
        match first_position(column_ids(columns), group_by.last()@) {
            Some(c) => if columns[c].has_value {
                rest.push(c as usize)
            } else {
                rest
            },
            None => rest,
        }
    }
}

/// The direction the groups of column `c` follow: that of the first sort
/// entry naming the column, ascending if none does.
pub open spec fn group_direction(columns: Seq<ColumnSpec>, sort: Seq<SortState>, c: usize) -> SortDirection {
    match first_position(sort.map_values(|e: SortState| e.column@), columns[c as int].id@) {
        Some(i) => sort[i].direction,
        None => SortDirection::Asc,
    }
}

/// The sort steps grouping puts first: each grouping column, in its
/// groups' direction and with its collation.
pub open spec fn group_plan(columns: Seq<ColumnSpec>, state: GridState) -> Seq<SortKey> {
    group_columns(columns, state.group_by@).map_values(
        |c: usize| (c, group_direction(columns, state.sort@, c), columns[c as int].collation),
    )
}

/// The grouping columns of `state`.
pub fn group_columns_of(columns: &[ColumnSpec], group_by: &Vec<ColumnId>) -> (r: Vec<usize>)
    ensures
        r@ == group_columns(columns@, group_by@),
        forall|k: int| 0 <= k < r@.len() ==> (#[trigger] r@[k]) < columns@.len(),
{
    let mut r: Vec<usize> = Vec::new();
    let mut i: usize = 0;
    while i < group_by.len()
        invariant
            i <= group_by@.len(),
            r@ == group_columns(columns@, group_by@.take(i as int)),
            forall|k: int| 0 <= k < r@.len() ==> (#[trigger] r@[k]) < columns@.len(),
        decreases group_by.len() - i,
    {
        let ghost taken = group_by@.take(i + 1);
        assert(taken.drop_last() =~= group_by@.take(i as int));
        assert(taken.last() == group_by@[i as int]);
        if let Some(c) = find_column(columns, &group_by[i]) {
            if columns[c].has_value {
                r.push(c);
            }
        }
        i = i + 1;
    }
    assert(group_by@.take(i as int) =~= group_by@);
    r
}

/// The direction the groups of column `c` follow; see [`group_direction`].
fn group_direction_of(columns: &[ColumnSpec], sort: &Vec<SortState>, c: usize) -> (r: SortDirection)
    requires
        c < columns@.len(),
    ensures
        r == group_direction(columns@, sort@, c),
{
    let ghost ids = sort@.map_values(|e: SortState| e.column@);
    let mut i: usize = 0;
    while i < sort.len()
        invariant
            i <= sort@.len(),
            c < columns@.len(),
            ids == sort@.map_values(|e: SortState| e.column@),
            forall|j: int| 0 <= j < i ==> ids[j] != columns@[c as int].id@,
        decreases sort.len() - i,
    {
        if sort[i].column.same(&columns[c].id) {
            proof {
                crate::state::lemma_first_position(ids, columns@[c as int].id@, i as int);
            }
            return sort[i].direction;
        }
        i = i + 1;
    }
    proof {
        crate::state::lemma_first_position(ids, columns@[c as int].id@, i as int);
    }
    SortDirection::Asc
}

/// The sort steps grouping puts first; see [`group_plan`].
pub fn group_plan_for(columns: &[ColumnSpec], state: &GridState) -> (r: Vec<SortKey>)
    ensures
        r@ == group_plan(columns@, *state),
        forall|k: int| 0 <= k < r@.len() ==> (#[trigger] r@[k]).0 < columns@.len(),
{
    let cols = group_columns_of(columns, &state.group_by);
    let mut r: Vec<SortKey> = Vec::new();
    let mut i: usize = 0;
    while i < cols.len()
        invariant
            i <= cols@.len(),
            cols@ == group_columns(columns@, state.group_by@),
            forall|k: int| 0 <= k < cols@.len() ==> (#[trigger] cols@[k]) < columns@.len(),
            r@ == group_plan(columns@, *state).take(i as int),
        decreases cols.len() - i,
    {
        let c = cols[i];
        let direction = group_direction_of(columns, &state.sort, c);
        r.push((c, direction, columns[c].collation));
        assert(group_plan(columns@, *state).take(i + 1) =~= group_plan(columns@, *state).take(i as int).push(
            (c, direction, columns@[c as int].collation),
        ));
        i = i + 1;
    }
    assert(group_plan(columns@, *state).take(i as int) =~= group_plan(columns@, *state));
    r
}

/// A group's value: that of its rows' cell, `None` for rows without one.
pub open spec fn group_value(v: CellModel) -> Option<CellModel> {
    if v is Empty {
        None
    } else {
        Some(v)
    }
}

/// Where the run of rows that starts at `lo` and shares its value in
/// column `c` ends, looking from `j` on and stopping at `hi`.
pub open spec fn run_end(rows: Seq<Vec<Cell>>, s: Seq<usize>, c: usize, lo: int, hi: int, j: int) -> int
    decreases hi - j,
{
    if j >= hi {
        hi
    } else if !cells_equal(value_at(rows, s[j], c), value_at(rows, s[lo], c)) {
        j
    } else {
        run_end(rows, s, c, lo, hi, j + 1)
    }
}

/// How many runs of equal values in column `c` the rows `s` names from
/// `lo` to `hi` fall into.
pub open spec fn run_count(rows: Seq<Vec<Cell>>, s: Seq<usize>, c: usize, lo: int, hi: int) -> nat
    decreases hi - lo,
{
    if lo >= hi {
        0
    } else {
        let e = run_end(rows, s, c, lo, hi, lo + 1);
        if e <= lo || e > hi {
            0
        } else {
            1 + run_count(rows, s, c, e, hi)
        }
    }
}

/// The contents of a list of groups.
pub open spec fn groups_model(v: Seq<Group>) -> Seq<GroupModel> {
    v.map_values(|g: Group| g@)
}

/// Display rows and the groups they name.
pub struct GroupedRows {
    /// Data rows, by index into the rows, and groups' headers and footers,
    /// by position in `groups`.
    pub rows: Seq<ViewRow>,
    /// The groups, in the order their headers come.
    pub groups: Seq<GroupModel>,
}

/// How many groups of grouping level `l` the rows `s` names from `lo` to
/// `hi` fall into.
pub open spec fn level_runs(rows: Seq<Vec<Cell>>, columns: Seq<ColumnSpec>, state: GridState, s: Seq<usize>, l: nat, lo: int, hi: int) -> nat {
    let g = group_columns(columns, state.group_by@);
    if l < g.len() {
        run_count(rows, s, g[l as int], lo, hi)
    } else {
        0
    }
}

/// The display rows of the sorted rows `s` from `lo` to `hi`, grouped from
/// grouping level `l` on, inside the group `key`; the first group is
/// numbered `gbase` and is the `pos`th of `sibs` siblings.
///
/// Past the last grouping level every row is a data row. Otherwise the rows
/// fall into runs sharing their value in the level's column; each run is a
/// group, shown as its header, then, when it is expanded, its rows grouped
/// by the next level, and a footer if any column aggregates. A collapsed
/// group is its header alone, and the groups inside it are not shown.
pub open spec fn level_display(
    rows: Seq<Vec<Cell>>,
    columns: Seq<ColumnSpec>,
    state: GridState,
    s: Seq<usize>,
    l: nat,
    lo: int,
    hi: int,
    key: Seq<Option<CellModel>>,
    gbase: nat,
    pos: nat,
    sibs: nat,
) -> GroupedRows
    decreases group_columns(columns, state.group_by@).len() - l, hi - lo,
{
    let g = group_columns(columns, state.group_by@);
    if l >= g.len() {
        GroupedRows { rows: data_rows(s.subrange(lo, hi)), groups: Seq::empty() }
    } else if lo >= hi {
        GroupedRows { rows: Seq::empty(), groups: Seq::empty() }
    } else {
        let c = g[l as int];
        let e = run_end(rows, s, c, lo, hi, lo + 1);
        if e <= lo || e > hi {
            GroupedRows { rows: Seq::empty(), groups: Seq::empty() }
        } else {
            let k = key.push(group_value(value_at(rows, s[lo], c)));
            let expanded = group_expanded(state.groups_collapsed, state.toggled_groups@, k);
            let group = GroupModel {
                key: k,
                column: columns[c as int].id@,
                value: group_value(value_at(rows, s[lo], c)),
                level: l as usize,
                count: (e - lo) as usize,
                expanded,
                position: pos as usize,
                siblings: sibs as usize,
                aggregates: aggregates_over(columns, rows, s.subrange(lo, e)),
            };
            let head = if expanded {
                let inner = level_display(
                    rows,
                    columns,
                    state,
                    s,
                    l + 1,
                    lo,
                    e,
                    k,
                    gbase + 1,
                    1,
                    level_runs(rows, columns, state, s, l + 1, lo, e),
                );
                GroupedRows {
                    rows: seq![ViewRow::GroupHeader(gbase as usize)] + inner.rows + if has_aggregates(columns) {
                        seq![ViewRow::GroupFooter(gbase as usize)]
                    } else {
                        Seq::empty()
                    },
                    groups: seq![group] + inner.groups,
                }
            } else {
                GroupedRows { rows: seq![ViewRow::GroupHeader(gbase as usize)], groups: seq![group] }
            };
            let rest = level_display(rows, columns, state, s, l, e, hi, key, gbase + head.groups.len(), pos + 1, sibs);
            GroupedRows { rows: head.rows + rest.rows, groups: head.groups + rest.groups }
        }
    }
}

/// The display rows of the sorted rows `s` and the groups they show.
pub open spec fn grouped_display(rows: Seq<Vec<Cell>>, columns: Seq<ColumnSpec>, state: GridState, s: Seq<usize>) -> GroupedRows {
    level_display(
        rows,
        columns,
        state,
        s,
        0,
        0,
        s.len() as int,
        Seq::empty(),
        0,
        1,
        level_runs(rows, columns, state, s, 0, 0, s.len() as int),
    )
}

/// Whether every index of `s` names a row, and every row has column `c`.
pub open spec fn column_fits(rows: Seq<Vec<Cell>>, s: Seq<usize>, c: usize) -> bool {
    &&& forall|i: int| 0 <= i < s.len() ==> (#[trigger] s[i]) < rows.len()
    &&& forall|r: int| 0 <= r < rows.len() ==> c < (#[trigger] rows[r])@.len()
}

/// Where the run of equal values in column `c` that starts at `lo` ends;
/// see [`run_end`].
fn run_end_of(rows: &[Vec<Cell>], s: &Vec<usize>, c: usize, lo: usize, hi: usize) -> (e: usize)
    requires
        lo < hi <= s@.len(),
        column_fits(rows@, s@, c),
    ensures
        e as int == run_end(rows@, s@, c, lo as int, hi as int, lo + 1),
        lo < e <= hi,
{
    let first = rows[s[lo]][c].value;
    assert(first@ == value_at(rows@, s@[lo as int], c));
    let mut j: usize = lo + 1;
    loop
        invariant
            lo < j <= hi,
            hi <= s@.len(),
            column_fits(rows@, s@, c),
            first@ == value_at(rows@, s@[lo as int], c),
            run_end(rows@, s@, c, lo as int, hi as int, j as int) == run_end(rows@, s@, c, lo as int, hi as int, lo + 1),
        decreases hi - j,
    {
        if j >= hi {
            return j;
        }
        assert(s@[j as int] < rows@.len());
        let v = rows[s[j]][c].value;
        assert(v@ == value_at(rows@, s@[j as int], c));
        if !(v == first) {
            return j;
        }
        j = j + 1;
    }
}

/// How many runs of equal values in column `c` the rows `s` names from
/// `lo` to `hi` fall into; see [`run_count`].
fn count_runs(rows: &[Vec<Cell>], s: &Vec<usize>, c: usize, lo: usize, hi: usize) -> (n: usize)
    requires
        lo <= hi <= s@.len(),
        column_fits(rows@, s@, c),
    ensures
        n as int == run_count(rows@, s@, c, lo as int, hi as int),
{
    let mut n: usize = 0;
    let mut cur: usize = lo;
    while cur < hi
        invariant
            lo <= cur <= hi,
            hi <= s@.len(),
            column_fits(rows@, s@, c),
            n <= cur - lo,
            n + run_count(rows@, s@, c, cur as int, hi as int) == run_count(rows@, s@, c, lo as int, hi as int),
        decreases hi - cur,
    {
        let e = run_end_of(rows, s, c, cur, hi);
        n = n + 1;
        cur = e;
    }
    n
}

/// Appends the display rows and groups of [`level_display`] from level `l`,
/// for the sorted rows `s` from `lo` to `hi` inside the group `key`, to
/// `out_rows` and `out_groups`; the groups are numbered on from those
/// already in `out_groups`.
#[verifier::rlimit(50)]
fn group_level(
    rows: &[Vec<Cell>],
    columns: &[ColumnSpec],
    state: &GridState,
    s: &Vec<usize>,
    gcols: &Vec<usize>,
    footers: bool,
    l: usize,
    lo: usize,
    hi: usize,
    key: &GroupKey,
    sibs: usize,
    out_rows: &mut Vec<ViewRow>,
    out_groups: &mut Vec<Group>,
)
    requires
        table_fits(rows@, columns@),
        gcols@ == group_columns(columns@, state.group_by@),
        forall|k: int| 0 <= k < gcols@.len() ==> (#[trigger] gcols@[k]) < columns@.len(),
        footers == has_aggregates(columns@),
        forall|i: int| 0 <= i < s@.len() ==> (#[trigger] s@[i]) < rows@.len(),
        l <= gcols@.len(),
        lo <= hi <= s@.len(),
    ensures
        final(out_rows)@ == old(out_rows)@ + level_display(rows@, columns@, *state, s@, l as nat, lo as int, hi as int, key@, old(out_groups)@.len(), 1, sibs as nat).rows,
        groups_model(final(out_groups)@) == groups_model(old(out_groups)@) + level_display(rows@, columns@, *state, s@, l as nat, lo as int, hi as int, key@, old(out_groups)@.len(), 1, sibs as nat).groups,
    decreases gcols@.len() - l,
{
    if l == gcols.len() {
        let mut j: usize = lo;
        while j < hi
            invariant
                lo <= j <= hi,
                hi <= s@.len(),
                out_rows@ == old(out_rows)@ + data_rows(s@.subrange(lo as int, j as int)),
                out_groups@ == old(out_groups)@,
            decreases hi - j,
        {
            let ghost before = out_rows@;
            out_rows.push(ViewRow::Data(s[j]));
            assert(data_rows(s@.subrange(lo as int, j + 1)) =~= data_rows(s@.subrange(lo as int, j as int)).push(
                ViewRow::Data(s@[j as int]),
            ));
            assert(out_rows@ =~= old(out_rows)@ + data_rows(s@.subrange(lo as int, j + 1)));
            j = j + 1;
        }
        assert(groups_model(out_groups@) + Seq::<GroupModel>::empty() =~= groups_model(out_groups@));
        return;
    }
    let c = gcols[l];
    assert forall|r: int| 0 <= r < rows@.len() implies c < (#[trigger] rows@[r])@.len() by {
        assert(rows@[r]@.len() == columns@.len());
    }
    let ghost gb0 = old(out_groups)@.len();
    let ghost start = old(out_rows)@;
    let ghost gstart = groups_model(old(out_groups)@);
    let mut cur: usize = lo;
    let mut pos: usize = 1;
    while cur < hi
        invariant
            table_fits(rows@, columns@),
            gcols@ == group_columns(columns@, state.group_by@),
            forall|k: int| 0 <= k < gcols@.len() ==> (#[trigger] gcols@[k]) < columns@.len(),
            footers == has_aggregates(columns@),
            forall|i: int| 0 <= i < s@.len() ==> (#[trigger] s@[i]) < rows@.len(),
            l < gcols@.len(),
            c == gcols@[l as int],
            column_fits(rows@, s@, c),
            lo <= cur <= hi,
            hi <= s@.len(),
            1 <= pos,
            cur < hi ==> pos <= cur - lo + 1,
            start + level_display(rows@, columns@, *state, s@, l as nat, lo as int, hi as int, key@, gb0, 1, sibs as nat).rows == out_rows@ + level_display(rows@, columns@, *state, s@, l as nat, cur as int, hi as int, key@, out_groups@.len() as nat, pos as nat, sibs as nat).rows,
            gstart + level_display(rows@, columns@, *state, s@, l as nat, lo as int, hi as int, key@, gb0, 1, sibs as nat).groups == groups_model(out_groups@) + level_display(rows@, columns@, *state, s@, l as nat, cur as int, hi as int, key@, out_groups@.len() as nat, pos as nat, sibs as nat).groups,
        decreases hi - cur,
    {
        let e = run_end_of(rows, s, c, cur, hi);
        assert(s@[cur as int] < rows@.len());
        let cell = rows[s[cur]][c].value;
        assert(cell@ == value_at(rows@, s@[cur as int], c));
        let value = FilterValue::from_cell(&cell);
        let k = key.child(duplicate_opt(&value));
        let expanded = state.is_group_expanded(&k);
        let sub = slice_of(s, cur, e);
        assert forall|i: int| 0 <= i < sub@.len() implies (#[trigger] sub@[i]) < rows@.len() by {
            assert(sub@[i] == s@[cur + i]);
        }
        let aggregates = aggregates_for(rows, columns, &sub);
        let gi = out_groups.len();
        let ghost rows_before = out_rows@;
        let ghost groups_before = groups_model(out_groups@);
        let group = Group {
            key: k.duplicate(),
            column: columns[c].id.duplicate(),
            value,
            level: l,
            count: e - cur,
            expanded,
            position: pos,
            siblings: sibs,
            aggregates,
        };
        out_groups.push(group);
        out_rows.push(ViewRow::GroupHeader(gi));
        assert(groups_model(out_groups@) =~= groups_before.push(group@));
        let ghost d = level_display(rows@, columns@, *state, s@, l as nat, cur as int, hi as int, key@, gi as nat, pos as nat, sibs as nat);
        let ghost inner = level_display(
            rows@,
            columns@,
            *state,
            s@,
            (l + 1) as nat,
            cur as int,
            e as int,
            k@,
            (gi + 1) as nat,
            1,
            level_runs(rows@, columns@, *state, s@, (l + 1) as nat, cur as int, e as int),
        );
        if expanded {
            let inner_sibs = if l < gcols.len() - 1 {
                assert forall|r: int| 0 <= r < rows@.len() implies gcols@[l + 1] < (#[trigger] rows@[r])@.len() by {
                    assert(rows@[r]@.len() == columns@.len());
                }
                count_runs(rows, s, gcols[l + 1], cur, e)
            } else {
                0
            };
            group_level(rows, columns, state, s, gcols, footers, l + 1, cur, e, &k, inner_sibs, out_rows, out_groups);
            if footers {
                out_rows.push(ViewRow::GroupFooter(gi));
            }
            proof {
                let foot = if footers {
                    seq![ViewRow::GroupFooter(gi)]
                } else {
                    Seq::<ViewRow>::empty()
                };
                assert(out_rows@ =~= rows_before + (seq![ViewRow::GroupHeader(gi)] + inner.rows + foot));
                assert(groups_model(out_groups@) =~= groups_before + (seq![group@] + inner.groups));
            }
        } else {
            assert(out_rows@ =~= rows_before + seq![ViewRow::GroupHeader(gi)]);
            assert(groups_model(out_groups@) =~= groups_before + seq![group@]);
        }
        let ghost rest = level_display(rows@, columns@, *state, s@, l as nat, e as int, hi as int, key@, out_groups@.len() as nat, (pos + 1) as nat, sibs as nat);
        proof {
            assert(d.rows =~= (out_rows@.subrange(rows_before.len() as int, out_rows@.len() as int)) + rest.rows);
            assert(start + level_display(rows@, columns@, *state, s@, l as nat, lo as int, hi as int, key@, gb0, 1, sibs as nat).rows =~= out_rows@ + rest.rows);
            assert(gstart + level_display(rows@, columns@, *state, s@, l as nat, lo as int, hi as int, key@, gb0, 1, sibs as nat).groups =~= groups_model(out_groups@) + rest.groups);
        }
        cur = e;
        if cur < hi {
            pos = pos + 1;
        }
    }
}

/// The display rows of the sorted rows `s`, the groups they show, and how
/// many grouping levels there are; see [`grouped_display`].
pub fn group_rows(rows: &[Vec<Cell>], columns: &[ColumnSpec], state: &GridState, s: &Vec<usize>) -> (r: (
    Vec<ViewRow>,
    Vec<Group>,
    usize,
))
    requires
        table_fits(rows@, columns@),
        forall|i: int| 0 <= i < s@.len() ==> (#[trigger] s@[i]) < rows@.len(),
    ensures
        r.0@ == grouped_display(rows@, columns@, *state, s@).rows,
        groups_model(r.1@) == grouped_display(rows@, columns@, *state, s@).groups,
        r.2 == group_columns(columns@, state.group_by@).len(),
{
    let gcols = group_columns_of(columns, &state.group_by);
    let footers = any_aggregates(columns);
    let sibs = if gcols.len() > 0 {
        assert forall|r: int| 0 <= r < rows@.len() implies gcols@[0] < (#[trigger] rows@[r])@.len() by {
            assert(rows@[r]@.len() == columns@.len());
        }
        count_runs(rows, s, gcols[0], 0, s.len())
    } else {
        0
    };
    let top = GroupKey(Vec::new());
    assert(top@ =~= Seq::<Option<CellModel>>::empty());
    let mut out_rows: Vec<ViewRow> = Vec::new();
    let mut out_groups: Vec<Group> = Vec::new();
    group_level(rows, columns, state, s, &gcols, footers, 0, 0, s.len(), &top, sibs, &mut out_rows, &mut out_groups);
    let ghost d = grouped_display(rows@, columns@, *state, s@);
    assert(out_rows@ =~= d.rows);
    assert(groups_model(out_groups@) =~= d.groups);
    (out_rows, out_groups, gcols.len())
}

/// The data rows among `rows`, as indices into the rows, in order.
pub open spec fn data_of(rows: Seq<ViewRow>) -> Seq<usize>
    decreases rows.len(),
{
    if rows.len() == 0 {
        Seq::empty()
    } else {
        let before = data_of(rows.drop_last());
        match rows.last() {
            ViewRow::Data(i) => before.push(i),
            _ => before,
        }
    }
}

/// The data rows among `rows`; see [`data_of`].
pub fn data_indices(rows: &Vec<ViewRow>) -> (r: Vec<usize>)
    ensures
        r@ == data_of(rows@),
{
    let mut r: Vec<usize> = Vec::new();
    let mut i: usize = 0;
    while i < rows.len()
        invariant
            i <= rows@.len(),
            r@ == data_of(rows@.take(i as int)),
        decreases rows.len() - i,
    {
        assert(rows@.take(i + 1).drop_last() =~= rows@.take(i as int));
        if let ViewRow::Data(k) = rows[i] {
            r.push(k);
        }
        i = i + 1;
    }
    assert(rows@.take(i as int) =~= rows@);
    r
}

/// The display rows from `from` up to `to`.
pub fn rows_between(v: &Vec<ViewRow>, from: usize, to: usize) -> (r: Vec<ViewRow>)
    requires
        from <= to <= v@.len(),
    ensures
        r@ == v@.subrange(from as int, to as int),
{
    let mut r: Vec<ViewRow> = Vec::new();
    let mut k: usize = from;
    while k < to
        invariant
            from <= k <= to,
            to <= v@.len(),
            r@ == v@.subrange(from as int, k as int),
        decreases to - k,
    {
        r.push(v[k]);
        assert(v@.subrange(from as int, k + 1) =~= v@.subrange(from as int, k as int).push(v@[k as int]));
        k = k + 1;
    }
    r
}

/// The data rows of one data row per index are those indices.
pub proof fn lemma_data_of_data_rows(s: Seq<usize>)
    ensures
        data_of(data_rows(s)) == s,
    decreases s.len(),
{
    if s.len() > 0 {
        assert(data_rows(s).drop_last() =~= data_rows(s.drop_last()));
        lemma_data_of_data_rows(s.drop_last());
        assert(s.drop_last().push(s.last()) =~= s);
    }
}

/// Without grouping columns, the display rows are one data row per sorted
/// row, and no groups are shown.
pub proof fn lemma_ungrouped_display(rows: Seq<Vec<Cell>>, columns: Seq<ColumnSpec>, state: GridState, s: Seq<usize>)
    requires
        group_columns(columns, state.group_by@).len() == 0,
    ensures
        grouped_display(rows, columns, state, s).rows == data_rows(s),
        grouped_display(rows, columns, state, s).groups.len() == 0,
{
    assert(s.subrange(0, s.len() as int) =~= s);
}

/// The data rows of two stretches of display rows are those of the first,
/// then those of the second.
proof fn lemma_data_of_concat(a: Seq<ViewRow>, b: Seq<ViewRow>)
    ensures
        data_of(a + b) == data_of(a) + data_of(b),
    decreases b.len(),
{
    if b.len() == 0 {
        assert(a + b =~= a);
        assert(data_of(a) + data_of(b) =~= data_of(a));
    } else {
        lemma_data_of_concat(a, b.drop_last());
        assert((a + b).drop_last() =~= a + b.drop_last());
        assert((a + b).last() == b.last());
        match b.last() {
            ViewRow::Data(i) => {
                assert(data_of(a) + data_of(b) =~= (data_of(a) + data_of(b.drop_last())).push(i));
            },
            _ => {
                assert(data_of(a) + data_of(b) =~= data_of(a) + data_of(b.drop_last()));
            },
        }
    }
}

/// A run ends after its first row and no later than `hi`.
proof fn lemma_run_end_bounds(rows: Seq<Vec<Cell>>, s: Seq<usize>, c: usize, lo: int, hi: int, j: int)
    requires
        j <= hi,
    ensures
        j <= run_end(rows, s, c, lo, hi, j) <= hi,
    decreases hi - j,
{
    if j < hi {
        lemma_run_end_bounds(rows, s, c, lo, hi, j + 1);
    }
}

/// With every group expanded, the display rows from level `l` show each of
/// the rows `s` names from `lo` to `hi` once, in order.
proof fn lemma_expanded_level_shows_every_row(
    rows: Seq<Vec<Cell>>,
    columns: Seq<ColumnSpec>,
    state: GridState,
    s: Seq<usize>,
    l: nat,
    lo: int,
    hi: int,
    key: Seq<Option<CellModel>>,
    gbase: nat,
    pos: nat,
    sibs: nat,
)
    requires
        !state.groups_collapsed,
        state.toggled_groups@.len() == 0,
        0 <= lo <= hi <= s.len(),
    ensures
        data_of(level_display(rows, columns, state, s, l, lo, hi, key, gbase, pos, sibs).rows) == s.subrange(lo, hi),
    decreases group_columns(columns, state.group_by@).len() - l, hi - lo,
{
    let g = group_columns(columns, state.group_by@);
    if l >= g.len() {
        lemma_data_of_data_rows(s.subrange(lo, hi));
    } else if lo < hi {
        let c = g[l as int];
        let e = run_end(rows, s, c, lo, hi, lo + 1);
        lemma_run_end_bounds(rows, s, c, lo, hi, lo + 1);
        let k = key.push(group_value(value_at(rows, s[lo], c)));
        assert(crate::state::group_keys(state.toggled_groups@).len() == 0);
        assert(!crate::state::group_keys(state.toggled_groups@).contains(k));
        assert(group_expanded(state.groups_collapsed, state.toggled_groups@, k));
        let inner_sibs = level_runs(rows, columns, state, s, l + 1, lo, e);
        let inner = level_display(rows, columns, state, s, l + 1, lo, e, k, gbase + 1, 1, inner_sibs);
        lemma_expanded_level_shows_every_row(rows, columns, state, s, l + 1, lo, e, k, gbase + 1, 1, inner_sibs);
        let foot = if has_aggregates(columns) {
            seq![ViewRow::GroupFooter(gbase as usize)]
        } else {
            Seq::<ViewRow>::empty()
        };
        let header = seq![ViewRow::GroupHeader(gbase as usize)];
        let head_rows = header + inner.rows + foot;
        let head_groups = 1 + inner.groups.len();
        let rest = level_display(rows, columns, state, s, l, e, hi, key, gbase + head_groups, pos + 1, sibs);
        lemma_expanded_level_shows_every_row(rows, columns, state, s, l, e, hi, key, gbase + head_groups, pos + 1, sibs);
        assert(data_of(Seq::<ViewRow>::empty()) == Seq::<usize>::empty());
        assert(data_of(header) =~= Seq::<usize>::empty()) by {
            assert(header.drop_last() =~= Seq::<ViewRow>::empty());
            assert(header.last() == ViewRow::GroupHeader(gbase as usize));
        }
        assert(data_of(foot) =~= Seq::<usize>::empty()) by {
            if has_aggregates(columns) {
                assert(foot.drop_last() =~= Seq::<ViewRow>::empty());
                assert(foot.last() == ViewRow::GroupFooter(gbase as usize));
            }
        }
        lemma_data_of_concat(header, inner.rows);
        lemma_data_of_concat(header + inner.rows, foot);
        lemma_data_of_concat(head_rows, rest.rows);
        assert(s.subrange(lo, e) + s.subrange(e, hi) =~= s.subrange(lo, hi));
        assert(Seq::<usize>::empty() + s.subrange(lo, e) + Seq::<usize>::empty() =~= s.subrange(lo, e));
        assert(level_display(rows, columns, state, s, l, lo, hi, key, gbase, pos, sibs).rows == head_rows + rest.rows);
    }
}

/// With every group expanded, the display rows show each sorted row once,
/// in order: the groups cover the rows without gaps or overlap.
pub proof fn lemma_expanded_groups_show_every_row(
    rows: Seq<Vec<Cell>>,
    columns: Seq<ColumnSpec>,
    state: GridState,
    s: Seq<usize>,
)
    requires
        !state.groups_collapsed,
        state.toggled_groups@.len() == 0,
    ensures
        data_of(grouped_display(rows, columns, state, s).rows) == s,
{
    lemma_expanded_level_shows_every_row(
        rows,
        columns,
        state,
        s,
        0,
        0,
        s.len() as int,
        Seq::empty(),
        0,
        1,
        level_runs(rows, columns, state, s, 0, 0, s.len() as int),
    );
    assert(s.subrange(0, s.len() as int) =~= s);
}

/// The display rows from a level do not depend on the state's paging.
proof fn lemma_level_ignores_paging(
    rows: Seq<Vec<Cell>>,
    columns: Seq<ColumnSpec>,
    state: GridState,
    page: Option<crate::state::PageState>,
    s: Seq<usize>,
    l: nat,
    lo: int,
    hi: int,
    key: Seq<Option<CellModel>>,
    gbase: nat,
    pos: nat,
    sibs: nat,
)
    ensures
        level_display(rows, columns, GridState { page, ..state }, s, l, lo, hi, key, gbase, pos, sibs)
            == level_display(rows, columns, state, s, l, lo, hi, key, gbase, pos, sibs),
    decreases group_columns(columns, state.group_by@).len() - l, hi - lo,
{
    let other = GridState { page, ..state };
    let g = group_columns(columns, state.group_by@);
    assert(other.group_by == state.group_by);
    if l < g.len() && lo < hi {
        let c = g[l as int];
        let e = run_end(rows, s, c, lo, hi, lo + 1);
        if lo < e <= hi {
            let k = key.push(group_value(value_at(rows, s[lo], c)));
            let inner_sibs = level_runs(rows, columns, state, s, l + 1, lo, e);
            lemma_level_ignores_paging(rows, columns, state, page, s, l + 1, lo, e, k, gbase + 1, 1, inner_sibs);
            let inner = level_display(rows, columns, state, s, l + 1, lo, e, k, gbase + 1, 1, inner_sibs);
            let expanded = group_expanded(state.groups_collapsed, state.toggled_groups@, k);
            let n = if expanded {
                1 + inner.groups.len()
            } else {
                1
            };
            lemma_level_ignores_paging(rows, columns, state, page, s, l, e, hi, key, gbase + n, pos + 1, sibs);
        }
    }
}

/// The display rows do not depend on the state's paging: paging only cuts
/// them into pages.
pub proof fn lemma_display_ignores_paging(
    rows: Seq<Vec<Cell>>,
    columns: Seq<ColumnSpec>,
    state: GridState,
    page: Option<crate::state::PageState>,
    s: Seq<usize>,
)
    ensures
        grouped_display(rows, columns, GridState { page, ..state }, s) == grouped_display(rows, columns, state, s),
{
    let other = GridState { page, ..state };
    assert(other.group_by == state.group_by);
    lemma_level_ignores_paging(
        rows,
        columns,
        state,
        page,
        s,
        0,
        0,
        s.len() as int,
        Seq::empty(),
        0,
        1,
        level_runs(rows, columns, state, s, 0, 0, s.len() as int),
    );
}

} // verus!
