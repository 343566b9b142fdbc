//! Aggregating a column's values: the integer sum and the extremes.
//! Empty cells are skipped throughout.

use crate::filter::FilterValue;
use crate::group::opt_model;
use crate::sort::TextCollation;
use crate::value::{cell_order, CellModel, CellValue};
use std::cmp::Ordering;
use vstd::prelude::*;

verus! {

/// The values of a list of cells.
pub open spec fn cell_models(values: Seq<CellValue>) -> Seq<CellModel> {
    values.map_values(|v: CellValue| v@)
}

/// Whether `v` beats `best`: comes later in the column's order when the
/// largest is wanted, earlier when the smallest is.
pub open spec fn beats(v: CellModel, best: CellModel, collation: TextCollation, largest: bool) -> bool {
    if largest {
        cell_order(v, best, collation) == Ordering::Greater
    } else {
        cell_order(v, best, collation) == Ordering::Less
    }
}

/// The extreme among the first `n` values that are not empty: the first
/// one, replaced by each later one that beats it.
pub open spec fn extreme_upto(vals: Seq<CellModel>, collation: TextCollation, largest: bool, n: int) -> Option<CellModel>
    decreases n,
{
    if n <= 0 {
        None
    } else {
        let best = extreme_upto(vals, collation, largest, n - 1);
        let v = vals[n - 1];
        if v is Empty {
            best
        } else {
            match best {
                None => Some(v),
                Some(b) => if beats(v, b, collation, largest) {
                    Some(v)
                } else {
                    Some(b)
                },
            }
        }
    }
}

/// The sum of the integers among the first `n` values, `None` once a
/// partial sum leaves the range of `i64`.
pub open spec fn int_sum_upto(vals: Seq<CellModel>, n: int) -> Option<int>
    decreases n,
{
    if n <= 0 {
        Some(0)
    } else {
        match int_sum_upto(vals, n - 1) {
            None => None,
            Some(s) => match vals[n - 1] {
                CellModel::Int(i) => if i64::MIN <= s + i <= i64::MAX {
                    Some(s + i)
                } else {
                    None
                },
                _ => Some(s),
            },
        }
    }
}

/// How many of the first `n` values are numbers.
pub open spec fn number_count(vals: Seq<CellModel>, n: int) -> int
    decreases n,
{
    if n <= 0 {
        0
    } else {
        number_count(vals, n - 1) + if vals[n - 1] is Int {
            1int
        } else {
            0int
        }
    }
}

/// Whether `v` beats `best`.
fn beats_exec(v: &CellValue, best: &CellValue, collation: TextCollation, largest: bool) -> (r: bool)
    ensures
        r == beats(v@, best@, collation, largest),
{
    let ordering = v.cmp_with(best, collation);
    if largest {
        match ordering {
            Ordering::Greater => true,
            _ => false,
        }
    } else {
        match ordering {
            Ordering::Less => true,
            _ => false,
        }
    }
}

/// The smallest or largest of `values` in the column's order, skipping
/// empty ones: of equal extremes, the first. `None` when every value is
/// empty.
pub fn extreme(values: &Vec<CellValue>, collation: TextCollation, largest: bool) -> (r: Option<FilterValue>)
    ensures
        opt_model(r) == extreme_upto(cell_models(values@), collation, largest, values@.len() as int),
{
    let ghost vals = cell_models(values@);
    let mut best: Option<CellValue> = None;
    let mut i: usize = 0;
    while i < values.len()
        invariant
            i <= values@.len(),
            vals == cell_models(values@),
            match best {
                Some(b) => extreme_upto(vals, collation, largest, i as int) == Some(b@) && !(b@ is Empty),
                None => extreme_upto(vals, collation, largest, i as int) is None,
            },
        decreases values.len() - i,
    {
        let v = values[i];
        assert(vals[i as int] == v@);
        if !v.is_none() {
            best = match best {
                None => Some(v),
                Some(b) => if beats_exec(&v, &b, collation, largest) {
                    Some(v)
                } else {
                    Some(b)
                },
            };
        }
        i = i + 1;
    }
    match best {
        Some(b) => FilterValue::from_cell(&b),
        None => None,
    }
}

/// The sum of the integers among `values`, while it fits in an `i64`, and
/// how many numbers there were.
pub fn int_sum(values: &Vec<CellValue>) -> (r: (Option<i64>, usize))
    ensures
        match r.0 {
            Some(s) => int_sum_upto(cell_models(values@), values@.len() as int) == Some(s as int),
            None => int_sum_upto(cell_models(values@), values@.len() as int) is None,
        },
        r.1 as int == number_count(cell_models(values@), values@.len() as int),
{
    let ghost vals = cell_models(values@);
    let mut sum: Option<i64> = Some(0);
    let mut count: usize = 0;
    let mut i: usize = 0;
    while i < values.len()
        invariant
            i <= values@.len(),
            vals == cell_models(values@),
            match sum {
                Some(s) => int_sum_upto(vals, i as int) == Some(s as int),
                None => int_sum_upto(vals, i as int) is None,
            },
            count as int == number_count(vals, i as int),
            count <= i,
        decreases values.len() - i,
    {
        assert(vals[i as int] == values@[i as int]@);
        if let CellValue::Int(v) = values[i] {
            sum = match sum {
                Some(s) => s.checked_add(v),
                None => None,
            };
            count = count + 1;
        }
        i = i + 1;
    }
    (sum, count)
}

} // verus!
