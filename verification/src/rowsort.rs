//! Sorting row indices by their cells, column by column, stably.

use crate::order::{reverse_order, then_order};
use crate::sort::{apply_direction, SortDirection, TextCollation};
use crate::value::{cell_order, lemma_cell_reflexive, lemma_cell_reverse, lemma_cell_transitive, CellModel, CellValue};
use std::cmp::Ordering;
use vstd::prelude::*;

verus! {

broadcast use vstd::seq_lib::group_to_multiset_ensures;

/// One cell of a row, as the grid's logic reads it: the column's typed
/// value (empty for a column without one) and its filter text (`None` for a
/// column without filter text).
#[derive(Clone, Debug)]
pub struct Cell<'a> {
    /// The typed value.
    pub value: CellValue<'a>,
    /// The text the column filters and searches on.
    pub text: Option<String>,
}

/// One step of a sort plan: the column to compare, its direction and its
/// text collation.
pub type SortKey = (usize, SortDirection, TextCollation);

/// A `usize` as an integer.
pub open spec fn wide(k: usize) -> int {
    k as int
}

/// Step `k` of a plan.
pub open spec fn key_at(plan: Seq<SortKey>, k: usize) -> SortKey {
    plan[k as int]
}

/// Row `r` of a table.
pub open spec fn row_at(rows: Seq<Vec<Cell>>, r: usize) -> Vec<Cell> {
    rows[r as int]
}

/// The value of row `r` in column `c`.
pub open spec fn value_at(rows: Seq<Vec<Cell>>, r: usize, c: usize) -> CellModel {
    rows[r as int]@[c as int].value@
}

/// How rows `a` and `b` compare on the plan's columns from step `k` on:
/// the first difference, in its column's direction.
pub open spec fn keys_order(rows: Seq<Vec<Cell>>, plan: Seq<SortKey>, a: usize, b: usize, k: int) -> Ordering
    decreases plan.len() - k,
{
    if k < 0 || k >= plan.len() {
        Ordering::Equal
    } else {
        let (c, direction, collation) = plan[k];
        then_order(
            apply_direction(direction, cell_order(value_at(rows, a, c), value_at(rows, b, c), collation)),
            keys_order(rows, plan, a, b, k + 1),
        )
    }
}

/// Whether row `a` sorts before row `b`: its keys come first, or they are
/// equal and `a` came first in the input.
pub open spec fn sorts_before(rows: Seq<Vec<Cell>>, plan: Seq<SortKey>, a: usize, b: usize) -> bool {
    let o = keys_order(rows, plan, a, b, 0);
    o == Ordering::Less || (o == Ordering::Equal && a < b)
}

/// Whether `s` is in sort order: no entry sorts before an earlier one.
pub open spec fn in_sort_order(rows: Seq<Vec<Cell>>, plan: Seq<SortKey>, s: Seq<usize>) -> bool {
    forall|i: int, j: int| 0 <= i < j < s.len() ==> !sorts_before(rows, plan, #[trigger] s[j], #[trigger] s[i])
}

/// Whether every plan step names a column every row has, and every index
/// in `s` names a row.
pub open spec fn plan_fits(rows: Seq<Vec<Cell>>, plan: Seq<SortKey>, s: Seq<usize>) -> bool {
    &&& forall|k: int, r: int| 0 <= k < plan.len() && 0 <= r < rows.len() ==> (#[trigger] plan[k]).0 < (#[trigger] rows[r])@.len()
    &&& forall|i: int| 0 <= i < s.len() ==> (#[trigger] s[i]) < rows.len()
}

proof fn lemma_apply_reverse(d: SortDirection, o: Ordering)
    ensures
        apply_direction(d, reverse_order(o)) == reverse_order(apply_direction(d, o)),
{
}

/// A row compares equal with itself.
pub proof fn lemma_keys_reflexive(rows: Seq<Vec<Cell>>, plan: Seq<SortKey>, a: usize, k: int)
    ensures
        keys_order(rows, plan, a, a, k) == Ordering::Equal,
    decreases plan.len() - k,
{
    if 0 <= k < plan.len() {
        let (c, d, coll) = plan[k];
        lemma_cell_reflexive(value_at(rows, a, c), coll);
        lemma_keys_reflexive(rows, plan, a, k + 1);
    }
}

/// Swapping two rows reverses how they compare.
pub proof fn lemma_keys_reverse(rows: Seq<Vec<Cell>>, plan: Seq<SortKey>, a: usize, b: usize, k: int)
    ensures
        keys_order(rows, plan, b, a, k) == reverse_order(keys_order(rows, plan, a, b, k)),
    decreases plan.len() - k,
{
    if 0 <= k < plan.len() {
        let (c, d, coll) = plan[k];
        lemma_cell_reverse(value_at(rows, a, c), value_at(rows, b, c), coll);
        lemma_apply_reverse(d, cell_order(value_at(rows, a, c), value_at(rows, b, c), coll));
        lemma_keys_reverse(rows, plan, a, b, k + 1);
    }
}

/// Comparing rows by their keys is transitive.
pub proof fn lemma_keys_transitive(rows: Seq<Vec<Cell>>, plan: Seq<SortKey>, a: usize, b: usize, x: usize, k: int)
    requires
        keys_order(rows, plan, a, b, k) != Ordering::Greater,
        keys_order(rows, plan, b, x, k) != Ordering::Greater,
    ensures
        keys_order(rows, plan, a, x, k) == then_order(keys_order(rows, plan, a, b, k), keys_order(rows, plan, b, x, k)),
    decreases plan.len() - k,
{
    if 0 <= k < plan.len() {
        let (c, d, coll) = plan[k];
        let (va, vb, vx) = (value_at(rows, a, c), value_at(rows, b, c), value_at(rows, x, c));
        lemma_cell_reverse(va, vb, coll);
        lemma_cell_reverse(vb, vx, coll);
        lemma_cell_reverse(va, vx, coll);
        let ab = apply_direction(d, cell_order(va, vb, coll));
        let bx = apply_direction(d, cell_order(vb, vx, coll));
        match d {
            SortDirection::Asc => {
                if ab != Ordering::Greater && bx != Ordering::Greater {
                    lemma_cell_transitive(va, vb, vx, coll);
                }
            },
            SortDirection::Desc => {
                if ab != Ordering::Greater && bx != Ordering::Greater {
                    lemma_cell_transitive(vx, vb, va, coll);
                }
            },
        }
        if ab == Ordering::Equal && bx == Ordering::Equal {
            lemma_keys_transitive(rows, plan, a, b, x, k + 1);
        }
    }
}

/// `sorts_before` is a strict total order on row indices.
pub proof fn lemma_sorts_before_order(rows: Seq<Vec<Cell>>, plan: Seq<SortKey>, a: usize, b: usize, x: usize)
    ensures
        !sorts_before(rows, plan, a, a),
        a != b ==> sorts_before(rows, plan, a, b) || sorts_before(rows, plan, b, a),
        sorts_before(rows, plan, a, b) ==> !sorts_before(rows, plan, b, a),
        sorts_before(rows, plan, a, b) && sorts_before(rows, plan, b, x) ==> sorts_before(rows, plan, a, x),
        !sorts_before(rows, plan, b, a) && !sorts_before(rows, plan, x, b) ==> !sorts_before(rows, plan, x, a),
{
    lemma_keys_reflexive(rows, plan, a, 0);
    lemma_keys_reverse(rows, plan, a, b, 0);
    lemma_keys_reverse(rows, plan, b, x, 0);
    lemma_keys_reverse(rows, plan, a, x, 0);
    if keys_order(rows, plan, a, b, 0) != Ordering::Greater && keys_order(rows, plan, b, x, 0) != Ordering::Greater {
        lemma_keys_transitive(rows, plan, a, b, x, 0);
    }
}

/// Compares two rows on the plan's columns.
fn compare_keys(rows: &[Vec<Cell>], plan: &Vec<SortKey>, a: usize, b: usize) -> (r: Ordering)
    requires
        plan_fits(rows@, plan@, seq![a, b]),
    ensures
        r == keys_order(rows@, plan@, a, b, 0),
{
    assert(seq![a, b][0] == a && seq![a, b][1] == b);
    let mut k: usize = 0;
    while k < plan.len()
        invariant
            k <= plan.len(),
            a < rows.len(),
            b < rows.len(),
            plan_fits(rows@, plan@, seq![a, b]),
            keys_order(rows@, plan@, a, b, 0) == keys_order(rows@, plan@, a, b, wide(k)),
        decreases plan.len() - k,
    {
        let (c, direction, collation) = plan[k];
        assert(key_at(plan@, k).0 < row_at(rows@, a)@.len());
        assert(key_at(plan@, k).0 < row_at(rows@, b)@.len());
        let ordering = direction.apply(rows[a][c].value.cmp_with(&rows[b][c].value, collation));
        match ordering {
            Ordering::Equal => {},
            _ => {
                return ordering;
            },
        }
        k = k + 1;
    }
    Ordering::Equal
}

/// Whether row `a` sorts before row `b`.
fn sorts_before_exec(rows: &[Vec<Cell>], plan: &Vec<SortKey>, a: usize, b: usize) -> (r: bool)
    requires
        plan_fits(rows@, plan@, seq![a, b]),
    ensures
        r == sorts_before(rows@, plan@, a, b),
{
    match compare_keys(rows, plan, a, b) {
        Ordering::Less => true,
        Ordering::Equal => a < b,
        Ordering::Greater => false,
    }
}

/// Merges two sorted runs into one.
fn merge(rows: &[Vec<Cell>], plan: &Vec<SortKey>, left: Vec<usize>, right: Vec<usize>) -> (out: Vec<usize>)
    requires
        plan_fits(rows@, plan@, left@),
        plan_fits(rows@, plan@, right@),
        in_sort_order(rows@, plan@, left@),
        in_sort_order(rows@, plan@, right@),
    ensures
        out@.to_multiset() == left@.to_multiset().add(right@.to_multiset()),
        in_sort_order(rows@, plan@, out@),
        plan_fits(rows@, plan@, out@),
{
    let mut out: Vec<usize> = Vec::new();
    let mut i: usize = 0;
    let mut j: usize = 0;
    while i < left.len() || j < right.len()
        invariant
            i <= left.len(),
            j <= right.len(),
            plan_fits(rows@, plan@, left@),
            plan_fits(rows@, plan@, right@),
            in_sort_order(rows@, plan@, left@),
            in_sort_order(rows@, plan@, right@),
            in_sort_order(rows@, plan@, out@),
            out@.to_multiset() == left@.take(i as int).to_multiset().add(right@.take(j as int).to_multiset()),
            out@.len() == i + j,
            forall|k: int| 0 <= k < out@.len() ==> (#[trigger] out@[k]) < rows@.len(),
            forall|k: int| 0 <= k < out@.len() && i < left@.len() ==> !sorts_before(rows@, plan@, left@[i as int], #[trigger] out@[k]),
            forall|k: int| 0 <= k < out@.len() && j < right@.len() ==> !sorts_before(rows@, plan@, right@[j as int], #[trigger] out@[k]),
        decreases left.len() + right.len() - i - j,
    {
        let take_left = if i == left.len() {
            false
        } else if j == right.len() {
            true
        } else {
            assert(left@[i as int] < rows@.len() && right@[j as int] < rows@.len());
            assert(seq![right@[j as int], left@[i as int]][0] == right@[j as int]);
            !sorts_before_exec(rows, plan, right[j], left[i])
        };
        let ghost before = out@;
        if take_left {
            let x = left[i];
            out.push(x);
            proof {
                assert(left@.take(i + 1) =~= left@.take(i as int).push(x));
                assert forall|k: int| 0 <= k < out@.len() && i + 1 < left@.len() implies !sorts_before(
                    rows@,
                    plan@,
                    left@[i + 1],
                    #[trigger] out@[k],
                ) by {
                    let y = left@[i + 1];
                    assert(!sorts_before(rows@, plan@, y, x));
                    if k < before.len() {
                        lemma_sorts_before_order(rows@, plan@, out@[k], x, y);
                    }
                }
                assert forall|k: int| 0 <= k < out@.len() && j < right@.len() implies !sorts_before(
                    rows@,
                    plan@,
                    right@[j as int],
                    #[trigger] out@[k],
                ) by {
                    if k == before.len() {
                        assert(out@[k] == x);
                    }
                }
                assert forall|a: int, b: int| 0 <= a < b < out@.len() implies !sorts_before(
                    rows@,
                    plan@,
                    #[trigger] out@[b],
                    #[trigger] out@[a],
                ) by {
                    if b == before.len() {
                        assert(out@[b] == x);
                        assert(out@[a] == before[a]);
                    } else {
                        assert(out@[b] == before[b] && out@[a] == before[a]);
                    }
                }
            }
            i = i + 1;
        } else {
            let x = right[j];
            out.push(x);
            proof {
                if i < left@.len() {
                    lemma_sorts_before_order(rows@, plan@, x, left@[i as int], x);
                }
                assert(right@.take(j + 1) =~= right@.take(j as int).push(x));
                assert forall|k: int| 0 <= k < out@.len() && j + 1 < right@.len() implies !sorts_before(
                    rows@,
                    plan@,
                    right@[j + 1],
                    #[trigger] out@[k],
                ) by {
                    let y = right@[j + 1];
                    assert(!sorts_before(rows@, plan@, y, x));
                    if k < before.len() {
                        lemma_sorts_before_order(rows@, plan@, out@[k], x, y);
                    }
                }
                assert forall|k: int| 0 <= k < out@.len() && i < left@.len() implies !sorts_before(
                    rows@,
                    plan@,
                    left@[i as int],
                    #[trigger] out@[k],
                ) by {
                    if k == before.len() {
                        assert(out@[k] == x);
                        lemma_sorts_before_order(rows@, plan@, x, left@[i as int], x);
                    }
                }
                assert forall|a: int, b: int| 0 <= a < b < out@.len() implies !sorts_before(
                    rows@,
                    plan@,
                    #[trigger] out@[b],
                    #[trigger] out@[a],
                ) by {
                    if b == before.len() {
                        assert(out@[b] == x);
                        assert(out@[a] == before[a]);
                    } else {
                        assert(out@[b] == before[b] && out@[a] == before[a]);
                    }
                }
            }
            j = j + 1;
        }
    }
    assert(left@.take(left.len() as int) =~= left@);
    assert(right@.take(right.len() as int) =~= right@);
    out
}

/// The entries `from..to` of `v`.
pub(crate) fn slice_of(v: &Vec<usize>, from: usize, to: usize) -> (r: Vec<usize>)
    requires
        from <= to <= v.len(),
    ensures
        r@ == v@.subrange(from as int, to as int),
{
    let mut r: Vec<usize> = Vec::new();
    let mut k = from;
    while k < to
        invariant
            from <= k <= to <= v.len(),
            r@ == v@.subrange(from as int, k as int),
        decreases to - k,
    {
        r.push(v[k]);
        k = k + 1;
        assert(r@ =~= v@.subrange(from as int, k as int));
    }
    r
}

/// Sorts row indices by the plan, stably: rows with equal keys keep the
/// order of their indices.
pub fn sort_rows(rows: &[Vec<Cell>], plan: &Vec<SortKey>, v: Vec<usize>) -> (out: Vec<usize>)
    requires
        plan_fits(rows@, plan@, v@),
    ensures
        out@.to_multiset() == v@.to_multiset(),
        in_sort_order(rows@, plan@, out@),
        plan_fits(rows@, plan@, out@),
    decreases v.len(),
{
    let n = v.len();
    if n <= 1 {
        return v;
    }
    let mid = n / 2;
    let left = slice_of(&v, 0, mid);
    let right = slice_of(&v, mid, n);
    proof {
        assert(v@ =~= left@ + right@);
        vstd::seq_lib::lemma_multiset_commutative(left@, right@);
    }
    let left = sort_rows(rows, plan, left);
    let right = sort_rows(rows, plan, right);
    merge(rows, plan, left, right)
}

/// Sorting is deterministic: two orderings of the same distinct rows that
/// are both in sort order are one and the same.
pub proof fn lemma_sort_order_unique(rows: Seq<Vec<Cell>>, plan: Seq<SortKey>, a: Seq<usize>, b: Seq<usize>)
    requires
        a.no_duplicates(),
        a.to_multiset() == b.to_multiset(),
        in_sort_order(rows, plan, a),
        in_sort_order(rows, plan, b),
    ensures
        a == b,
    decreases a.len(),
{
    assert(a.to_multiset().len() == a.len());
    assert(b.to_multiset().len() == b.len());
    if a.len() == 0 {
        assert(a =~= b);
    } else {
        let x = a[0];
        let y = b[0];
        assert(a.to_multiset().count(x) > 0);
        assert(b.contains(x));
        assert(b.to_multiset().count(y) > 0);
        assert(a.contains(y));
        let j = choose|j: int| 0 <= j < b.len() && b[j] == x;
        let i = choose|i: int| 0 <= i < a.len() && a[i] == y;
        if x != y {
            assert(i > 0 && j > 0);
            assert(!sorts_before(rows, plan, a[i], a[0]));
            assert(!sorts_before(rows, plan, b[j], b[0]));
            lemma_sorts_before_order(rows, plan, x, y, x);
            assert(false);
        }
        let a2 = a.drop_first();
        let b2 = b.drop_first();
        assert(a2 =~= a.remove(0));
        assert(b2 =~= b.remove(0));
        assert(a2.to_multiset() =~= b2.to_multiset());
        assert forall|p: int, q: int| 0 <= p < q < a2.len() implies !sorts_before(rows, plan, #[trigger] a2[q], #[trigger] a2[p]) by {
            assert(a2[q] == a[q + 1] && a2[p] == a[p + 1]);
        }
        assert forall|p: int, q: int| 0 <= p < q < b2.len() implies !sorts_before(rows, plan, #[trigger] b2[q], #[trigger] b2[p]) by {
            assert(b2[q] == b[q + 1] && b2[p] == b[p + 1]);
        }
        assert(a2.no_duplicates()) by {
            assert forall|p: int, q: int| 0 <= p < a2.len() && 0 <= q < a2.len() && p != q implies a2[p] != a2[q] by {
                assert(a2[p] == a[p + 1] && a2[q] == a[q + 1]);
            }
        }
        lemma_sort_order_unique(rows, plan, a2, b2);
        assert(a =~= b) by {
            assert forall|k: int| 0 <= k < a.len() implies a[k] == b[k] by {
                if k > 0 {
                    assert(a[k] == a2[k - 1] && b[k] == b2[k - 1]);
                }
            }
        }
    }
}

/// Sorting by one column: ascending puts the smaller integer first and
/// descending the larger; an empty value comes after every other value
/// ascending and before it descending; rows whose values compare equal
/// keep the order of their indices either way.
pub proof fn lemma_one_column_order(rows: Seq<Vec<Cell>>, c: usize, collation: TextCollation, a: usize, b: usize)
    ensures
        ({
            let asc = seq![(c, SortDirection::Asc, collation)];
            let desc = seq![(c, SortDirection::Desc, collation)];
            let va = value_at(rows, a, c);
            let vb = value_at(rows, b, c);
            &&& (va matches CellModel::Int(x) && vb matches CellModel::Int(y) && x < y) ==> sorts_before(rows, asc, a, b)
                && !sorts_before(rows, asc, b, a) && sorts_before(rows, desc, b, a) && !sorts_before(rows, desc, a, b)
            &&& (!(va is Empty) && vb is Empty) ==> sorts_before(rows, asc, a, b) && !sorts_before(rows, asc, b, a)
                && sorts_before(rows, desc, b, a) && !sorts_before(rows, desc, a, b)
            &&& cell_order(va, vb, collation) == Ordering::Equal ==> sorts_before(rows, asc, a, b) == (a < b)
                && sorts_before(rows, desc, a, b) == (a < b)
        }),
{
    reveal_with_fuel(keys_order, 2);
    let va = value_at(rows, a, c);
    let vb = value_at(rows, b, c);
    lemma_cell_reverse(va, vb, collation);
}

} // verus!
