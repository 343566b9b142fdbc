//! Sort direction and text collation.

use crate::column::ColumnId;
use crate::order::reverse_order;
use std::cmp::Ordering;
use vstd::prelude::*;

verus! {

/// The value a column is sorted by: the same type as a cell's value.
pub type SortValue<'a> = crate::value::CellValue<'a>;

/// How text is compared when sorting.
#[derive(Clone, Copy, Debug, Default, PartialEq, Eq, Structural, Hash)]
pub enum TextCollation {
    /// Compare case-insensitively. Values that differ only in case fall back to
    /// a case-sensitive comparison, so the order stays total and deterministic.
    #[default]
    CaseInsensitive,
    /// Compare by Unicode scalar value, so `Z` sorts before `a`.
    CaseSensitive,
}

} // verus!

verus! {

/// The direction a column is sorted in.
#[derive(Clone, Copy, Debug, Default, PartialEq, Eq, Structural, Hash)]
pub enum SortDirection {
    /// Smallest first; the empty value last.
    #[default]
    Asc,
    /// Largest first; the empty value first.
    Desc,
}

/// An ascending comparison turned into one in `direction`.
pub open spec fn apply_direction(direction: SortDirection, o: Ordering) -> Ordering {
    match direction {
        SortDirection::Asc => o,
        SortDirection::Desc => reverse_order(o),
    }
}

impl SortDirection {
    /// The opposite direction.
    pub fn reversed(self) -> (r: Self)
        ensures
            r == match self {
                SortDirection::Asc => SortDirection::Desc,
                SortDirection::Desc => SortDirection::Asc,
            },
    {
        match self {
            SortDirection::Asc => SortDirection::Desc,
            SortDirection::Desc => SortDirection::Asc,
        }
    }

    /// Applies this direction to an ordering produced in ascending order.
    pub fn apply(self, ordering: Ordering) -> (r: Ordering)
        ensures
            r == apply_direction(self, ordering),
    {
        match self {
            SortDirection::Asc => ordering,
            SortDirection::Desc => match ordering {
                Ordering::Less => Ordering::Greater,
                Ordering::Equal => Ordering::Equal,
                Ordering::Greater => Ordering::Less,
            },
        }
    }
}

/// One entry of the sort. Within [`GridState::sort`](crate::GridState::sort)
/// the position is the priority: earlier entries win.
#[derive(Clone, Debug, PartialEq, Eq, Hash)]
pub struct SortState {
    /// The column being sorted.
    pub column: ColumnId,
    /// The direction to sort it in.
    pub direction: SortDirection,
}

impl SortState {
    /// Creates a sort entry.
    pub fn new<C: Into<ColumnId>>(column: C, direction: SortDirection) -> (r: Self)
        ensures
            call_ensures(<C as Into<ColumnId>>::into, (column,), r.column),
            r.direction == direction,
    {
        SortState { column: column.into(), direction }
    }

    /// Creates an ascending sort entry.
    pub fn asc<C: Into<ColumnId>>(column: C) -> (r: Self)
        ensures
            call_ensures(<C as Into<ColumnId>>::into, (column,), r.column),
            r.direction == SortDirection::Asc,
    {
        SortState::new(column, SortDirection::Asc)
    }

    /// Creates a descending sort entry.
    pub fn desc<C: Into<ColumnId>>(column: C) -> (r: Self)
        ensures
            call_ensures(<C as Into<ColumnId>>::into, (column,), r.column),
            r.direction == SortDirection::Desc,
    {
        SortState::new(column, SortDirection::Desc)
    }
}

} // verus!
