//! The distinct values of a column, with how many rows hold each: what a
//! value list in a filter menu offers to tick.

use crate::column::{ColumnId, ColumnSpec};
use crate::filter::FilterValue;
use crate::rowsort::Cell;
use crate::sort::TextCollation;
use crate::state::{first_position, GridState};
use crate::value::{cell_le, lemma_cell_le, CellModel};
use crate::view::{column_ids, except_model, filter_indices_except, find_column, passing, table_fits};
use std::cmp::Ordering;
use vstd::prelude::*;

verus! {

broadcast use {
    vstd::seq_lib::group_to_multiset_ensures,
    vstd::multiset::group_multiset_axioms,
    vstd::seq_lib::lemma_seq_contains_after_push,
};

/// The values of one column, each with how many rows hold it.
#[derive(Clone, Debug, Default, PartialEq, Eq)]
pub struct DistinctValues {
    /// Each value once, in sort order, with its row count.
    pub values: Vec<(FilterValue, usize)>,
    /// How many rows have no value.
    pub empty: usize,
    /// Whether there were more distinct values than the limit allowed; the
    /// list then holds the first ones in sort order.
    pub truncated: bool,
}

/// The values of column `c` in the rows `rs`, in that order.
pub open spec fn values_in(rows: Seq<Vec<Cell>>, rs: Seq<usize>, c: int) -> Seq<CellModel> {
    rs.map_values(|r: usize| rows[r as int]@[c].value@)
}

/// Whether `v` is among the listed values.
pub open spec fn is_listed(listed: Seq<(FilterValue, usize)>, v: CellModel) -> bool {
    exists|i: int| 0 <= i < listed.len() && (#[trigger] listed[i]).0@ == v
}

/// Whether `d` is the value list of `vals`: each value that is not empty
/// once, in sort order, with how often it occurs; at most `limit` of them,
/// and when some are left out, only ones that sort no earlier than every
/// listed value; the empty values counted apart.
pub open spec fn lists_values(d: DistinctValues, vals: Seq<CellModel>, limit: usize, collation: TextCollation) -> bool {
    let ms = vals.to_multiset();
    let listed = d.values@;
    &&& d.empty == ms.count(CellModel::Empty)
    &&& listed.len() <= limit
    &&& forall|i: int|
        0 <= i < listed.len() ==> !((#[trigger] listed[i]).0@ is Empty) && vals.contains(listed[i].0@) && listed[i].1
            == ms.count(listed[i].0@)
    &&& forall|i: int, j: int|
        0 <= i < j < listed.len() ==> (#[trigger] listed[i]).0@ != (#[trigger] listed[j]).0@ && cell_le(
            listed[i].0@,
            listed[j].0@,
            collation,
        )
    &&& forall|v: CellModel|
        #![trigger vals.contains(v)]
        vals.contains(v) && !(v is Empty) && !is_listed(listed, v) ==> listed.len() == limit && forall|i: int|
            0 <= i < listed.len() ==> cell_le((#[trigger] listed[i]).0@, v, collation)
    &&& d.truncated == exists|v: CellModel| #![trigger vals.contains(v)] vals.contains(v) && !(v is Empty) && !is_listed(listed, v)
}

/// Whether `vals` and `counts` tally the values of `s`: each value that is
/// not empty once, in sort order, with how often it occurs, and `empty`
/// the number of empty values.
pub open spec fn tallied(
    vals: Seq<FilterValue>,
    counts: Seq<usize>,
    empty: usize,
    s: Seq<CellModel>,
    collation: TextCollation,
) -> bool {
    let ms = s.to_multiset();
    &&& vals.len() == counts.len()
    &&& forall|i: int, j: int|
        0 <= i < j < vals.len() ==> (#[trigger] vals[i])@ != (#[trigger] vals[j])@ && cell_le(vals[i]@, vals[j]@, collation)
    &&& forall|i: int|
        0 <= i < vals.len() ==> !((#[trigger] vals[i])@ is Empty) && s.contains(vals[i]@) && counts[i] == ms.count(vals[i]@)
    &&& forall|v: CellModel|
        #![trigger s.contains(v)]
        s.contains(v) && !(v is Empty) ==> exists|i: int| 0 <= i < vals.len() && (#[trigger] vals[i])@ == v
    &&& empty == ms.count(CellModel::Empty)
}

/// Whether `a` sorts after `b`.
fn sorts_after(a: &FilterValue, b: &FilterValue, collation: TextCollation) -> (r: bool)
    ensures
        r == !cell_le(a@, b@, collation),
{
    match a.as_cell().cmp_with(&b.as_cell(), collation) {
        Ordering::Greater => true,
        _ => false,
    }
}

/// Where `v` is in `vals`.
pub(crate) fn find_value(vals: &Vec<FilterValue>, v: &FilterValue) -> (r: Option<usize>)
    ensures
        match r {
            Some(i) => i < vals@.len() && vals@[i as int]@ == v@,
            None => forall|i: int| 0 <= i < vals@.len() ==> (#[trigger] vals@[i])@ != v@,
        },
{
    let mut i: usize = 0;
    while i < vals.len()
        invariant
            i <= vals@.len(),
            forall|j: int| 0 <= j < i ==> (#[trigger] vals@[j])@ != v@,
        decreases vals.len() - i,
    {
        if vals[i] == *v {
            return Some(i);
        }
        i = i + 1;
    }
    None
}

/// Where `v` goes in the sorted `vals` so that they stay sorted, after the
/// values it ties with.
pub(crate) fn insert_position(vals: &Vec<FilterValue>, v: &FilterValue, collation: TextCollation) -> (p: usize)
    ensures
        p <= vals@.len(),
        forall|i: int| 0 <= i < p ==> cell_le((#[trigger] vals@[i])@, v@, collation),
        p < vals@.len() ==> !cell_le(vals@[p as int]@, v@, collation),
{
    let mut i: usize = 0;
    while i < vals.len()
        invariant
            i <= vals@.len(),
            forall|j: int| 0 <= j < i ==> cell_le((#[trigger] vals@[j])@, v@, collation),
        decreases vals.len() - i,
    {
        if sorts_after(&vals[i], v, collation) {
            return i;
        }
        i = i + 1;
    }
    i
}

/// Inserting a new value where [`insert_position`] puts it keeps the tally
/// sorted and its values distinct.
pub(crate) proof fn lemma_insert_sorted(vals: Seq<FilterValue>, v: FilterValue, p: int, collation: TextCollation)
    requires
        0 <= p <= vals.len(),
        forall|i: int, j: int|
            0 <= i < j < vals.len() ==> (#[trigger] vals[i])@ != (#[trigger] vals[j])@ && cell_le(vals[i]@, vals[j]@, collation),
        forall|i: int| 0 <= i < p ==> cell_le((#[trigger] vals[i])@, v@, collation),
        p < vals.len() ==> !cell_le(vals[p]@, v@, collation),
        forall|i: int| 0 <= i < vals.len() ==> (#[trigger] vals[i])@ != v@,
    ensures
        forall|i: int, j: int|
            0 <= i < j < vals.insert(p, v).len() ==> (#[trigger] vals.insert(p, v)[i])@ != (#[trigger] vals.insert(p, v)[j])@
                && cell_le(vals.insert(p, v)[i]@, vals.insert(p, v)[j]@, collation),
{
    let w = vals.insert(p, v);
    vals.insert_ensures(p, v);
    assert forall|i: int| p <= i < vals.len() implies cell_le(v@, (#[trigger] vals[i])@, collation) by {
        lemma_cell_le(vals[p]@, v@, vals[i]@, collation);
        lemma_cell_le(v@, vals[p]@, vals[i]@, collation);
        if i > p {
            assert(cell_le(vals[p]@, vals[i]@, collation));
        }
    }
    assert forall|i: int, j: int| 0 <= i < j < w.len() implies (#[trigger] w[i])@ != (#[trigger] w[j])@ && cell_le(
        w[i]@,
        w[j]@,
        collation,
    ) by {
        if j < p {
            assert(w[i] == vals[i] && w[j] == vals[j]);
        } else if j == p {
            assert(w[i] == vals[i] && w[j] == v);
        } else if i < p {
            assert(w[i] == vals[i] && w[j] == vals[j - 1]);
            lemma_cell_le(vals[i]@, v@, vals[j - 1]@, collation);
        } else if i == p {
            assert(w[i] == v && w[j] == vals[j - 1]);
        } else {
            assert(w[i] == vals[i - 1] && w[j] == vals[j - 1]);
        }
    }
}

/// Tallies the values of column `c` in the rows `rs`.
fn tally(rows: &[Vec<Cell>], rs: &Vec<usize>, c: usize, collation: TextCollation) -> (r: (
    Vec<FilterValue>,
    Vec<usize>,
    usize,
))
    requires
        forall|k: int| 0 <= k < rs@.len() ==> (#[trigger] rs@[k]) < rows@.len(),
        forall|i: int| 0 <= i < rows@.len() ==> c < (#[trigger] rows@[i])@.len(),
    ensures
        tallied(r.0@, r.1@, r.2, values_in(rows@, rs@, c as int), collation),
{
    let mut vals: Vec<FilterValue> = Vec::new();
    let mut counts: Vec<usize> = Vec::new();
    let mut empty: usize = 0;
    let mut k: usize = 0;
    assert(values_in(rows@, rs@.take(0), c as int) =~= Seq::<CellModel>::empty());
    while k < rs.len()
        invariant
            k <= rs@.len(),
            forall|j: int| 0 <= j < rs@.len() ==> (#[trigger] rs@[j]) < rows@.len(),
            forall|i: int| 0 <= i < rows@.len() ==> c < (#[trigger] rows@[i])@.len(),
            tallied(vals@, counts@, empty, values_in(rows@, rs@.take(k as int), c as int), collation),
            forall|i: int| 0 <= i < counts@.len() ==> (#[trigger] counts@[i]) <= k,
            empty <= k,
        decreases rs.len() - k,
    {
        let ghost before = values_in(rows@, rs@.take(k as int), c as int);
        let r = rs[k];
        assert(c < rows@[r as int]@.len());
        let value = rows[r][c].value;
        let ghost x = value@;
        let ghost after = before.push(x);
        assert(values_in(rows@, rs@.take(k + 1), c as int) =~= after);
        assert(after.to_multiset() =~= before.to_multiset().insert(x));
        match FilterValue::from_cell(&value) {
            None => {
                empty = empty + 1;
                proof {
                    assert forall|i: int| 0 <= i < vals@.len() implies counts@[i] == after.to_multiset().count(
                        (#[trigger] vals@[i])@,
                    ) && after.contains(vals@[i]@) by {}
                    assert forall|v: CellModel| after.contains(v) && !(v is Empty) implies exists|i: int|
                        0 <= i < vals@.len() && (#[trigger] vals@[i])@ == v by {
                        assert(before.contains(v));
                    }
                }
            },
            Some(fv) => {
                match find_value(&vals, &fv) {
                    Some(i) => {
                        let n = counts[i];
                        counts.set(i, n + 1);
                        proof {
                            assert forall|j: int| 0 <= j < vals@.len() implies counts@[j] == after.to_multiset().count(
                                (#[trigger] vals@[j])@,
                            ) && after.contains(vals@[j]@) by {
                                if j != i {
                                    assert(vals@[j]@ != vals@[i as int]@) by {
                                        if j < i {
                                            assert(vals@[j]@ != vals@[i as int]@);
                                        } else {
                                            assert(vals@[i as int]@ != vals@[j]@);
                                        }
                                    }
                                }
                            }
                            assert forall|v: CellModel| after.contains(v) && !(v is Empty) implies exists|j: int|
                                0 <= j < vals@.len() && (#[trigger] vals@[j])@ == v by {
                                if v != x {
                                    assert(before.contains(v));
                                } else {
                                    assert(vals@[i as int]@ == v);
                                }
                            }
                        }
                    },
                    None => {
                        let p = insert_position(&vals, &fv, collation);
                        let ghost old_vals = vals@;
                        let ghost old_counts = counts@;
                        proof {
                            lemma_insert_sorted(old_vals, fv, p as int, collation);
                            old_vals.insert_ensures(p as int, fv);
                            old_counts.insert_ensures(p as int, 1usize);
                            assert(!before.contains(x)) by {
                                if before.contains(x) {
                                    let j = choose|j: int| 0 <= j < old_vals.len() && (#[trigger] old_vals[j])@ == x;
                                }
                            }
                        }
                        vals.insert(p, fv);
                        counts.insert(p, 1);
                        proof {
                            assert forall|j: int| 0 <= j < vals@.len() implies !((#[trigger] vals@[j])@ is Empty)
                                && after.contains(vals@[j]@) && counts@[j] == after.to_multiset().count(vals@[j]@) by {
                                if j < p {
                                    assert(vals@[j] == old_vals[j] && counts@[j] == old_counts[j]);
                                } else if j == p {
                                    assert(vals@[j] == fv && counts@[j] == 1);
                                    assert(after[after.len() - 1] == x);
                                } else {
                                    assert(vals@[j] == old_vals[j - 1] && counts@[j] == old_counts[j - 1]);
                                }
                            }
                            assert forall|v: CellModel| after.contains(v) && !(v is Empty) implies exists|j: int|
                                0 <= j < vals@.len() && (#[trigger] vals@[j])@ == v by {
                                if v != x {
                                    assert(before.contains(v));
                                    let j = choose|j: int| 0 <= j < old_vals.len() && (#[trigger] old_vals[j])@ == v;
                                    if j < p {
                                        assert(vals@[j] == old_vals[j]);
                                    } else {
                                        assert(vals@[j + 1] == old_vals[j]);
                                    }
                                } else {
                                    assert(vals@[p as int] == fv);
                                }
                            }
                            assert forall|j: int| 0 <= j < counts@.len() implies (#[trigger] counts@[j]) <= k + 1 by {
                                if j < p {
                                    assert(counts@[j] == old_counts[j]);
                                } else if j > p {
                                    assert(counts@[j] == old_counts[j - 1]);
                                }
                            }
                        }
                    },
                }
            },
        }
        k = k + 1;
    }
    assert(rs@.take(k as int) =~= rs@);
    (vals, counts, empty)
}

/// The distinct values of `column` among the rows that pass every *other*
/// filter and the search, at most `limit` of them.
///
/// Leaving the column's own filter out keeps a value the user unticked in
/// the list, ready to be ticked again. Text is distinct as written. `None`
/// if no column has that id or it has no value.
pub fn distinct_values(
    rows: &[Vec<Cell>],
    columns: &[ColumnSpec],
    state: &GridState,
    column: &ColumnId,
    limit: usize,
) -> (r: Option<DistinctValues>)
    requires
        table_fits(rows@, columns@),
    ensures
        r is Some <==> (first_position(column_ids(columns@), column@) matches Some(c) && columns@[c].has_value),
        r matches Some(d) ==> lists_values(
            d,
            values_in(
                rows@,
                passing(rows@, columns@, *state, Some(column@), rows@.len() as int),
                first_position(column_ids(columns@), column@)->0,
            ),
            limit,
            columns@[first_position(column_ids(columns@), column@)->0].collation,
        ),
{
    let c = match find_column(columns, column) {
        Some(c) => c,
        None => return None,
    };
    if !columns[c].has_value {
        return None;
    }
    let collation = columns[c].collation;
    let row_count = rows.len();
    let rs = filter_indices_except(rows, columns, state, Some(column));
    proof {
        crate::view::lemma_passing_increasing(rows@, columns@, *state, Some(column@), row_count as int);
        crate::view::lemma_passing_in_range(rows@, columns@, *state, Some(column@), row_count as int);
        assert forall|i: int| 0 <= i < rows@.len() implies c < (#[trigger] rows@[i])@.len() by {
            assert(rows@[i]@.len() == columns@.len());
        }
    }
    let (vals, counts, empty) = tally(rows, &rs, c, collation);
    let ghost s = values_in(rows@, rs@, c as int);
    let m = if vals.len() < limit {
        vals.len()
    } else {
        limit
    };
    let mut values: Vec<(FilterValue, usize)> = Vec::new();
    let mut i: usize = 0;
    while i < m
        invariant
            i <= m <= vals@.len(),
            vals@.len() == counts@.len(),
            values@.len() == i,
            forall|j: int| 0 <= j < i ==> (#[trigger] values@[j]).0@ == vals@[j]@ && values@[j].1 == counts@[j],
        decreases m - i,
    {
        values.push((vals[i].duplicate(), counts[i]));
        i = i + 1;
    }
    let d = DistinctValues { values, empty, truncated: vals.len() > limit };
    proof {
        let listed = d.values@;
        assert forall|v: CellModel| is_listed(listed, v) <==> exists|j: int| 0 <= j < m && (#[trigger] vals@[j])@ == v by {
            if is_listed(listed, v) {
                let j = choose|j: int| 0 <= j < listed.len() && (#[trigger] listed[j]).0@ == v;
                assert(vals@[j]@ == v);
            }
            if exists|j: int| 0 <= j < m && (#[trigger] vals@[j])@ == v {
                let j = choose|j: int| 0 <= j < m && (#[trigger] vals@[j])@ == v;
                assert(listed[j].0@ == v);
            }
        }
        assert forall|i: int, j: int| 0 <= i < j < listed.len() implies (#[trigger] listed[i]).0@ != (
        #[trigger] listed[j]).0@ && cell_le(listed[i].0@, listed[j].0@, collation) by {
            assert(vals@[i]@ != vals@[j]@ && cell_le(vals@[i]@, vals@[j]@, collation));
        }
        assert forall|i: int| 0 <= i < listed.len() implies !((#[trigger] listed[i]).0@ is Empty) && s.contains(
            listed[i].0@,
        ) && listed[i].1 == s.to_multiset().count(listed[i].0@) by {
            assert(!(vals@[i]@ is Empty));
        }
        assert forall|v: CellModel| #![trigger s.contains(v)] s.contains(v) && !(v is Empty) && !is_listed(listed, v) implies listed.len() == limit
            && forall|i: int| 0 <= i < listed.len() ==> cell_le((#[trigger] listed[i]).0@, v, collation) by {
            let j = choose|j: int| 0 <= j < vals@.len() && (#[trigger] vals@[j])@ == v;
            if j < m {
                assert(exists|k: int| 0 <= k < m && (#[trigger] vals@[k])@ == v);
            }
            assert forall|i: int| 0 <= i < listed.len() implies cell_le((#[trigger] listed[i]).0@, v, collation) by {
                assert(cell_le(vals@[i]@, vals@[j]@, collation));
            }
        }
        if vals@.len() > limit {
            let v = vals@[limit as int]@;
            assert(s.contains(v) && !(v is Empty));
            assert(!is_listed(listed, v)) by {
                if is_listed(listed, v) {
                    let j = choose|j: int| 0 <= j < m && (#[trigger] vals@[j])@ == v;
                    assert(vals@[j]@ != vals@[limit as int]@);
                }
            }
        } else {
            assert forall|v: CellModel| #![trigger s.contains(v)] s.contains(v) && !(v is Empty) implies is_listed(listed, v) by {
                let j = choose|j: int| 0 <= j < vals@.len() && (#[trigger] vals@[j])@ == v;
                assert(exists|k: int| 0 <= k < m && (#[trigger] vals@[k])@ == v);
            }
        }
    }
    Some(d)
}

} // verus!
