//! Server-side data: the query a grid sends, the page it gets back, and the
//! bookkeeping that keeps a slow, outdated response from overwriting a newer
//! one. Nothing here performs I/O or knows about time.

use crate::column::{ids_model, ColumnId, ColumnSpec};
use crate::filter::{ColumnFilter, FilterModel};
use crate::group::{
    aggregates_model, duplicate_aggregates, kind_of_aggregate, Aggregate, AggregateKind,
    AggregateKindModel, AggregateValue, Group, GroupKey,
};
use crate::sort::{SortDirection, SortState};
use crate::state::{group_keys, same_ids, GridState, PageState};
use crate::view::GridView;
use crate::value::CellModel;
use std::collections::HashMap;
use vstd::prelude::*;

verus! {

/// Rows per page when a remote grid is not given a page size. A server must
/// page, so "no paging" is not an option there.
pub const DEFAULT_REMOTE_PAGE_SIZE: usize = 25;

/// Everything a server needs to produce one page of rows.
///
/// Derived from [`GridState`] with [`GridQuery::from_state`]. Two queries
/// with the same content ask for the same rows.
#[derive(Clone, Debug, Default, PartialEq, Eq, Hash)]
pub struct GridQuery {
    /// Sort order, highest priority first.
    pub sort: Vec<SortState>,
    /// Filter bar text per column. Never empty.
    pub column_filters: Vec<(ColumnId, String)>,
    /// Typed filters per column, from a filter menu. Never empty.
    pub filters: Vec<(ColumnId, ColumnFilter)>,
    /// Global search term, if any. Never empty.
    pub search: Option<String>,
    /// Zero-based page index.
    pub page: usize,
    /// Rows per page. Never zero.
    pub page_size: usize,
    /// The columns to group by, outermost first.
    pub group_by: Vec<ColumnId>,
    /// Whether groups start collapsed.
    pub groups_collapsed: bool,
    /// The groups expanded or collapsed against `groups_collapsed`.
    pub toggled_groups: Vec<GroupKey>,
    /// The aggregates the grid shows, per column.
    pub aggregates: Vec<(ColumnId, AggregateKind)>,
}

/// A sort as column ids and directions.
pub open spec fn sort_model(v: Seq<SortState>) -> Seq<(Seq<char>, SortDirection)> {
    v.map_values(|s: SortState| (s.column@, s.direction))
}

/// Filter bar texts as column ids and characters.
pub open spec fn texts_model(v: Seq<(ColumnId, String)>) -> Seq<(Seq<char>, Seq<char>)> {
    v.map_values(|e: (ColumnId, String)| (e.0@, e.1@))
}

/// Typed filters as column ids and their content.
pub open spec fn typed_model(v: Seq<(ColumnId, ColumnFilter)>) -> Seq<(Seq<char>, FilterModel)> {
    v.map_values(|e: (ColumnId, ColumnFilter)| (e.0@, e.1@))
}

/// A search term as characters.
pub open spec fn search_model(s: Option<String>) -> Option<Seq<char>> {
    match s {
        Some(t) => Some(t@),
        None => None,
    }
}

/// The filter bar texts that are not empty, in order.
pub open spec fn nonblank_texts(v: Seq<(Seq<char>, Seq<char>)>) -> Seq<(Seq<char>, Seq<char>)>
    decreases v.len(),
{
    if v.len() == 0 {
        v
    } else {
        let rest = nonblank_texts(v.drop_last());
        if v.last().1.len() > 0 {
            rest.push(v.last())
        } else {
            rest
        }
    }
}

/// The typed filters that have a condition, in order.
pub open spec fn nonempty_typed(v: Seq<(Seq<char>, FilterModel)>) -> Seq<(Seq<char>, FilterModel)>
    decreases v.len(),
{
    if v.len() == 0 {
        v
    } else {
        let rest = nonempty_typed(v.drop_last());
        if v.last().1.conditions.len() > 0 {
            rest.push(v.last())
        } else {
            rest
        }
    }
}

/// A search term, unless it is empty.
pub open spec fn nonblank_search(s: Option<Seq<char>>) -> Option<Seq<char>> {
    match s {
        Some(t) => if t.len() > 0 {
            Some(t)
        } else {
            None
        },
        None => None,
    }
}

/// Aggregate requests as column ids and kinds.
pub open spec fn requests_model(v: Seq<(ColumnId, AggregateKind)>) -> Seq<(Seq<char>, AggregateKindModel)> {
    v.map_values(|e: (ColumnId, AggregateKind)| (e.0@, e.1@))
}

/// The requests for one column's aggregates, in order.
pub open spec fn column_requests(column: Seq<char>, aggregates: Seq<Aggregate>) -> Seq<(Seq<char>, AggregateKindModel)> {
    aggregates.map_values(|a: Aggregate| (column, kind_of_aggregate(a)))
}

/// The requests for every column's aggregates: column by column, each
/// column's in its own order.
pub open spec fn aggregate_requests(columns: Seq<ColumnSpec>) -> Seq<(Seq<char>, AggregateKindModel)>
    decreases columns.len(),
{
    if columns.len() == 0 {
        Seq::empty()
    } else {
        aggregate_requests(columns.drop_last()) + column_requests(columns.last().id@, columns.last().aggregates@)
    }
}

/// Whether moving from `previous` to `q` changed only what the user
/// types: search or filter bar texts, with sort, page, page size and
/// grouping alike.
pub open spec fn typing_change(q: GridQuery, previous: GridQuery) -> bool {
    &&& (search_model(q.search) != search_model(previous.search) || texts_model(q.column_filters@) != texts_model(
        previous.column_filters@,
    ))
    &&& sort_model(q.sort@) == sort_model(previous.sort@)
    &&& q.page == previous.page
    &&& q.page_size == previous.page_size
    &&& ids_model(q.group_by@) == ids_model(previous.group_by@)
    &&& q.groups_collapsed == previous.groups_collapsed
    &&& group_keys(q.toggled_groups@) == group_keys(previous.toggled_groups@)
}

/// A copy of a sort.
fn copy_sort(v: &Vec<SortState>) -> (r: Vec<SortState>)
    ensures
        sort_model(r@) == sort_model(v@),
{
    let mut r: Vec<SortState> = Vec::new();
    let mut i: usize = 0;
    while i < v.len()
        invariant
            i <= v@.len(),
            sort_model(r@) == sort_model(v@.take(i as int)),
        decreases v.len() - i,
    {
        let ghost before = r@;
        r.push(SortState { column: v[i].column.duplicate(), direction: v[i].direction });
        proof {
            assert(v@.take(i + 1) =~= v@.take(i as int).push(v@[i as int]));
            assert(sort_model(r@) =~= sort_model(before).push((v@[i as int].column@, v@[i as int].direction)));
            assert(sort_model(v@.take(i + 1)) =~= sort_model(v@.take(i as int)).push((v@[i as int].column@, v@[i as int].direction)));
        }
        i = i + 1;
    }
    assert(v@.take(i as int) =~= v@);
    r
}

/// A copy of the filter bar texts, leaving out the empty ones when `skip_blank`.
fn copy_texts(v: &Vec<(ColumnId, String)>, skip_blank: bool) -> (r: Vec<(ColumnId, String)>)
    ensures
        texts_model(r@) == if skip_blank {
            nonblank_texts(texts_model(v@))
        } else {
            texts_model(v@)
        },
{
    let mut r: Vec<(ColumnId, String)> = Vec::new();
    let mut i: usize = 0;
    while i < v.len()
        invariant
            i <= v@.len(),
            texts_model(r@) == if skip_blank {
                nonblank_texts(texts_model(v@.take(i as int)))
            } else {
                texts_model(v@.take(i as int))
            },
        decreases v.len() - i,
    {
        let ghost before = r@;
        proof {
            assert(v@.take(i + 1) =~= v@.take(i as int).push(v@[i as int]));
            assert(texts_model(v@.take(i + 1)).drop_last() =~= texts_model(v@.take(i as int)));
        }
        let (id, text) = &v[i];
        if !skip_blank || !text.as_str().is_empty() {
            r.push((id.duplicate(), text.clone()));
            assert(texts_model(r@) =~= texts_model(before).push((id@, text@)));
        }
        proof {
            if !skip_blank {
                assert(texts_model(r@) =~= texts_model(v@.take(i + 1)));
            }
        }
        i = i + 1;
    }
    assert(v@.take(i as int) =~= v@);
    r
}

/// A copy of the typed filters, leaving out the empty ones when `skip_empty`.
fn copy_typed(v: &Vec<(ColumnId, ColumnFilter)>, skip_empty: bool) -> (r: Vec<(ColumnId, ColumnFilter)>)
    ensures
        typed_model(r@) == if skip_empty {
            nonempty_typed(typed_model(v@))
        } else {
            typed_model(v@)
        },
{
    let mut r: Vec<(ColumnId, ColumnFilter)> = Vec::new();
    let mut i: usize = 0;
    while i < v.len()
        invariant
            i <= v@.len(),
            typed_model(r@) == if skip_empty {
                nonempty_typed(typed_model(v@.take(i as int)))
            } else {
                typed_model(v@.take(i as int))
            },
        decreases v.len() - i,
    {
        let ghost before = r@;
        proof {
            assert(v@.take(i + 1) =~= v@.take(i as int).push(v@[i as int]));
            assert(typed_model(v@.take(i + 1)).drop_last() =~= typed_model(v@.take(i as int)));
        }
        let (id, filter) = &v[i];
        if !skip_empty || !filter.is_empty() {
            let copy = filter.duplicate();
            r.push((id.duplicate(), copy));
            assert(typed_model(r@) =~= typed_model(before).push((id@, filter@)));
        }
        proof {
            if !skip_empty {
                assert(typed_model(r@) =~= typed_model(v@.take(i + 1)));
            }
        }
        i = i + 1;
    }
    assert(v@.take(i as int) =~= v@);
    r
}

/// A copy of a list of column ids.
fn copy_ids(v: &Vec<ColumnId>) -> (r: Vec<ColumnId>)
    ensures
        ids_model(r@) == ids_model(v@),
{
    let mut r: Vec<ColumnId> = Vec::new();
    let mut i: usize = 0;
    while i < v.len()
        invariant
            i <= v@.len(),
            ids_model(r@) == ids_model(v@.take(i as int)),
        decreases v.len() - i,
    {
        let ghost before = r@;
        r.push(v[i].duplicate());
        proof {
            assert(v@.take(i + 1) =~= v@.take(i as int).push(v@[i as int]));
            assert(ids_model(r@) =~= ids_model(before).push(v@[i as int]@));
            assert(ids_model(v@.take(i + 1)) =~= ids_model(v@.take(i as int)).push(v@[i as int]@));
        }
        i = i + 1;
    }
    assert(v@.take(i as int) =~= v@);
    r
}

/// A copy of a list of group keys.
fn copy_group_keys(v: &Vec<GroupKey>) -> (r: Vec<GroupKey>)
    ensures
        group_keys(r@) == group_keys(v@),
{
    let mut r: Vec<GroupKey> = Vec::new();
    let mut i: usize = 0;
    while i < v.len()
        invariant
            i <= v@.len(),
            group_keys(r@) == group_keys(v@.take(i as int)),
        decreases v.len() - i,
    {
        let ghost before = r@;
        r.push(v[i].duplicate());
        proof {
            assert(v@.take(i + 1) =~= v@.take(i as int).push(v@[i as int]));
            assert(group_keys(r@) =~= group_keys(before).push(v@[i as int]@));
            assert(group_keys(v@.take(i + 1)) =~= group_keys(v@.take(i as int)).push(v@[i as int]@));
        }
        i = i + 1;
    }
    assert(v@.take(i as int) =~= v@);
    r
}

/// A copy of a search term, leaving it out when it is empty.
fn copy_search(s: &Option<String>) -> (r: Option<String>)
    ensures
        search_model(r) == nonblank_search(search_model(*s)),
{
    match s {
        Some(t) => if t.as_str().is_empty() {
            None
        } else {
            Some(t.clone())
        },
        None => None,
    }
}

/// Whether two sorts are the same.
fn same_sort(a: &Vec<SortState>, b: &Vec<SortState>) -> (r: bool)
    ensures
        r == (sort_model(a@) == sort_model(b@)),
{
    if a.len() != b.len() {
        assert(sort_model(a@).len() != sort_model(b@).len());
        return false;
    }
    let mut i: usize = 0;
    while i < a.len()
        invariant
            i <= a@.len(),
            a@.len() == b@.len(),
            forall|j: int| 0 <= j < i ==> sort_model(a@)[j] == sort_model(b@)[j],
        decreases a.len() - i,
    {
        if !a[i].column.same(&b[i].column) || a[i].direction != b[i].direction {
            assert(sort_model(a@)[i as int] != sort_model(b@)[i as int]);
            return false;
        }
        i = i + 1;
    }
    assert(sort_model(a@) =~= sort_model(b@));
    true
}

/// Whether two lists of filter bar texts are the same.
fn same_texts(a: &Vec<(ColumnId, String)>, b: &Vec<(ColumnId, String)>) -> (r: bool)
    ensures
        r == (texts_model(a@) == texts_model(b@)),
{
    if a.len() != b.len() {
        assert(texts_model(a@).len() != texts_model(b@).len());
        return false;
    }
    let mut i: usize = 0;
    while i < a.len()
        invariant
            i <= a@.len(),
            a@.len() == b@.len(),
            forall|j: int| 0 <= j < i ==> texts_model(a@)[j] == texts_model(b@)[j],
        decreases a.len() - i,
    {
        if !a[i].0.same(&b[i].0) || a[i].1 != b[i].1 {
            assert(texts_model(a@)[i as int] != texts_model(b@)[i as int]);
            return false;
        }
        i = i + 1;
    }
    assert(texts_model(a@) =~= texts_model(b@));
    true
}

/// Whether two search terms are the same.
fn same_search(a: &Option<String>, b: &Option<String>) -> (r: bool)
    ensures
        r == (search_model(*a) == search_model(*b)),
{
    match (a, b) {
        (Some(x), Some(y)) => *x == *y,
        (None, None) => true,
        _ => false,
    }
}

/// Whether two lists of group keys are the same.
fn same_group_keys(a: &Vec<GroupKey>, b: &Vec<GroupKey>) -> (r: bool)
    ensures
        r == (group_keys(a@) == group_keys(b@)),
{
    if a.len() != b.len() {
        assert(group_keys(a@).len() != group_keys(b@).len());
        return false;
    }
    let mut i: usize = 0;
    while i < a.len()
        invariant
            i <= a@.len(),
            a@.len() == b@.len(),
            forall|j: int| 0 <= j < i ==> group_keys(a@)[j] == group_keys(b@)[j],
        decreases a.len() - i,
    {
        if !a[i].same(&b[i]) {
            assert(group_keys(a@)[i as int] != group_keys(b@)[i as int]);
            return false;
        }
        i = i + 1;
    }
    assert(group_keys(a@) =~= group_keys(b@));
    true
}

/// The page size a query asks for: the state's, or the default when the
/// state does not page; a size of zero becomes the remote default.
pub open spec fn query_page(page: Option<PageState>, default_page_size: usize) -> (usize, usize) {
    let (index, size) = match page {
        Some(p) => (p.index, p.size),
        None => (0usize, default_page_size),
    };
    (index, if size == 0 {
        DEFAULT_REMOTE_PAGE_SIZE
    } else {
        size
    })
}

impl GridQuery {
    /// The query that shows `state`.
    ///
    /// The page size comes from the state's paging, or `default_page_size`
    /// when the state does not page; a size of zero, from either, becomes
    /// [`DEFAULT_REMOTE_PAGE_SIZE`]. Empty filters and an empty search are
    /// left out, so they cannot make otherwise identical queries differ.
    pub fn from_state(state: &GridState, default_page_size: usize) -> (q: Self)
        ensures
            sort_model(q.sort@) == sort_model(state.sort@),
            texts_model(q.column_filters@) == nonblank_texts(texts_model(state.column_filters@)),
            typed_model(q.filters@) == nonempty_typed(typed_model(state.filters@)),
            search_model(q.search) == nonblank_search(search_model(state.search)),
            (q.page, q.page_size) == query_page(state.page, default_page_size),
            ids_model(q.group_by@) == ids_model(state.group_by@),
            q.groups_collapsed == state.groups_collapsed,
            group_keys(q.toggled_groups@) == group_keys(state.toggled_groups@),
            q.aggregates@.len() == 0,
    {
        let (page, size) = match state.page {
            Some(p) => (p.index, p.size),
            None => (0, default_page_size),
        };
        let page_size = if size == 0 {
            DEFAULT_REMOTE_PAGE_SIZE
        } else {
            size
        };
        GridQuery {
            sort: copy_sort(&state.sort),
            column_filters: copy_texts(&state.column_filters, true),
            filters: copy_typed(&state.filters, true),
            search: copy_search(&state.search),
            page,
            page_size,
            group_by: copy_ids(&state.group_by),
            groups_collapsed: state.groups_collapsed,
            toggled_groups: copy_group_keys(&state.toggled_groups),
            aggregates: Vec::new(),
        }
    }

    /// Asks for the aggregates `columns` define, column by column, each
    /// column's in its own order. The grid does this itself;
    /// [`GridQuery::from_state`] cannot, since state holds no columns.
    pub fn with_aggregates(self, columns: &[ColumnSpec]) -> (q: Self)
        ensures
            requests_model(q.aggregates@) == aggregate_requests(columns@),
            q == (GridQuery { aggregates: q.aggregates, ..self }),
    {
        let mut requests: Vec<(ColumnId, AggregateKind)> = Vec::new();
        let mut i: usize = 0;
        while i < columns.len()
            invariant
                i <= columns@.len(),
                requests_model(requests@) == aggregate_requests(columns@.take(i as int)),
            decreases columns.len() - i,
        {
            let column = &columns[i];
            let ghost start = requests_model(requests@);
            let mut j: usize = 0;
            while j < column.aggregates.len()
                invariant
                    j <= column.aggregates@.len(),
                    requests_model(requests@) == start + column_requests(column.id@, column.aggregates@.take(j as int)),
                decreases column.aggregates.len() - j,
            {
                let ghost before = requests_model(requests@);
                requests.push((column.id.duplicate(), column.aggregates[j].kind()));
                proof {
                    let a = column.aggregates@;
                    assert(a.take(j + 1) =~= a.take(j as int).push(a[j as int]));
                    assert(column_requests(column.id@, a.take(j + 1)) =~= column_requests(column.id@, a.take(j as int)).push(
                        (column.id@, kind_of_aggregate(a[j as int])),
                    ));
                    assert(requests_model(requests@) =~= before.push((column.id@, kind_of_aggregate(a[j as int]))));
                }
                j = j + 1;
            }
            proof {
                assert(column.aggregates@.take(j as int) =~= column.aggregates@);
                assert(columns@.take(i + 1).drop_last() =~= columns@.take(i as int));
            }
            i = i + 1;
        }
        assert(columns@.take(i as int) =~= columns@);
        GridQuery { aggregates: requests, ..self }
    }

    /// The grid state this query shows, for a server that answers with
    /// [`compute_view`](crate::compute_view) over rows it holds in memory.
    pub fn state(&self) -> (s: GridState)
        ensures
            sort_model(s.sort@) == sort_model(self.sort@),
            texts_model(s.column_filters@) == texts_model(self.column_filters@),
            typed_model(s.filters@) == typed_model(self.filters@),
            search_model(s.search) == search_model(self.search),
            s.page == Some(PageState { index: self.page, size: self.page_size }),
            s.column_widths@.len() == 0,
            s.hidden_columns@.len() == 0,
            ids_model(s.group_by@) == ids_model(self.group_by@),
            s.groups_collapsed == self.groups_collapsed,
            group_keys(s.toggled_groups@) == group_keys(self.toggled_groups@),
    {
        let search = match &self.search {
            Some(t) => Some(t.clone()),
            None => None,
        };
        GridState {
            sort: copy_sort(&self.sort),
            column_filters: copy_texts(&self.column_filters, false),
            filters: copy_typed(&self.filters, false),
            search,
            page: Some(PageState { index: self.page, size: self.page_size }),
            column_widths: Vec::new(),
            hidden_columns: Vec::new(),
            group_by: copy_ids(&self.group_by),
            groups_collapsed: self.groups_collapsed,
            toggled_groups: copy_group_keys(&self.toggled_groups),
        }
    }

    /// Whether the group with `key` shows its rows.
    pub fn is_group_expanded(&self, key: &GroupKey) -> (r: bool)
        ensures
            r == (self.groups_collapsed == group_keys(self.toggled_groups@).contains(key@)),
    {
        let mut found = false;
        let mut i: usize = 0;
        while i < self.toggled_groups.len()
            invariant
                i <= self.toggled_groups@.len(),
                found == exists|j: int| 0 <= j < i && group_keys(self.toggled_groups@)[j] == key@,
            decreases self.toggled_groups.len() - i,
        {
            if self.toggled_groups[i].same(key) {
                assert(group_keys(self.toggled_groups@)[i as int] == key@);
                found = true;
            }
            i = i + 1;
        }
        self.groups_collapsed == found
    }

    /// Whether moving from `previous` to this query changed only what the
    /// user types: search or filter bar texts, with sort, page, page size
    /// and grouping alike.
    pub fn is_typing_change(&self, previous: &Self) -> (r: bool)
        ensures
            r == typing_change(*self, *previous),
    {
        let text_changed = !same_search(&self.search, &previous.search) || !same_texts(
            &self.column_filters,
            &previous.column_filters,
        );
        text_changed && same_sort(&self.sort, &previous.sort) && self.page == previous.page && self.page_size
            == previous.page_size && same_ids(&self.group_by, &previous.group_by) && self.groups_collapsed
            == previous.groups_collapsed && same_group_keys(&self.toggled_groups, &previous.toggled_groups)
    }

    /// Index of the first row on the requested page, across all pages.
    pub fn offset(&self) -> (r: usize)
        ensures
            r == if self.page * self.page_size > usize::MAX {
                usize::MAX as int
            } else {
                self.page * self.page_size
            },
    {
        match self.page.checked_mul(self.page_size) {
            Some(v) => v,
            None => usize::MAX,
        }
    }
}

/// Where a row of a grouped page goes: a data row, or a group's header or
/// footer, each by its position in the page's rows or groups.
#[derive(Clone, Copy, Debug, PartialEq, Eq, Structural, Hash)]
pub enum ViewRow {
    /// A data row.
    Data(usize),
    /// A group's header.
    GroupHeader(usize),
    /// A group's footer.
    GroupFooter(usize),
}

impl ViewRow {
    /// The row index of a data row; `None` for a group's header or footer.
    pub fn data_index(&self) -> (r: Option<usize>)
        ensures
            r == match *self {
                ViewRow::Data(i) => Some(i),
                _ => None,
            },
    {
        match *self {
            ViewRow::Data(i) => Some(i),
            _ => None,
        }
    }
}

/// One page of rows from a server, and how many rows match in total.
#[derive(Clone, Debug, Default, PartialEq, Eq)]
pub struct Page<T> {
    /// The rows of the requested page, already filtered and sorted.
    pub rows: Vec<T>,
    /// How many rows match the query across every page.
    pub total: usize,
    /// The page in display order, when grouped; empty when every row of the
    /// page is a data row.
    pub layout: Vec<ViewRow>,
    /// The groups whose header or footer is on this page.
    pub groups: Vec<Group>,
    /// How many rows of every kind the query spans, when grouping makes
    /// that differ from `total`.
    pub row_count: Option<usize>,
    /// The aggregates over every matching row that the query asked for.
    pub totals: Vec<AggregateValue>,
}

/// How many pages `total` rows span at `page_size`.
pub open spec fn pages_for(total: int, page_size: int) -> int {
    if page_size == 0 {
        0
    } else {
        total / page_size + if total % page_size == 0 {
            0int
        } else {
            1int
        }
    }
}

/// The position a group takes among a page's groups: where it already
/// is, or else the end, where it is added.
pub open spec fn group_slot(groups: Seq<usize>, g: usize) -> int {
    if groups.contains(g) {
        groups.index_of(g)
    } else {
        groups.len() as int
    }
}

/// A page's groups, as positions among a view's groups, once `g` is among
/// them.
pub open spec fn with_group(groups: Seq<usize>, g: usize) -> Seq<usize> {
    if groups.contains(g) {
        groups
    } else {
        groups.push(g)
    }
}

/// How a page lays out a view's display rows: the page's layout, the
/// indices of the rows it copies, and the view's groups it names, each as
/// the position among the view's groups.
pub struct PageLayout {
    /// The page's display rows.
    pub layout: Seq<ViewRow>,
    /// For each of the page's data rows, its index into the rows.
    pub data: Seq<usize>,
    /// For each of the page's groups, its position among the view's.
    pub groups: Seq<usize>,
}

/// The layout of a page made from the display rows `vrows` of a view, over
/// `rows_len` rows and `groups_len` groups: a data row is copied and
/// numbered after those before it; a group's header or footer names the
/// group by its position on the page, adding it the first time. Rows that
/// point past the end are left out.
pub open spec fn page_layout(vrows: Seq<ViewRow>, rows_len: nat, groups_len: nat) -> PageLayout
    decreases vrows.len(),
{
    if vrows.len() == 0 {
        PageLayout { layout: Seq::empty(), data: Seq::empty(), groups: Seq::empty() }
    } else {
        let p = page_layout(vrows.drop_last(), rows_len, groups_len);
        match vrows.last() {
            ViewRow::Data(i) => if i < rows_len {
                PageLayout {
                    layout: p.layout.push(ViewRow::Data(p.data.len() as usize)),
                    data: p.data.push(i),
                    groups: p.groups,
                }
            } else {
                p
            },
            ViewRow::GroupHeader(g) => if g < groups_len {
                PageLayout {
                    layout: p.layout.push(ViewRow::GroupHeader(group_slot(p.groups, g) as usize)),
                    data: p.data,
                    groups: with_group(p.groups, g),
                }
            } else {
                p
            },
            ViewRow::GroupFooter(g) => if g < groups_len {
                PageLayout {
                    layout: p.layout.push(ViewRow::GroupFooter(group_slot(p.groups, g) as usize)),
                    data: p.data,
                    groups: with_group(p.groups, g),
                }
            } else {
                p
            },
        }
    }
}

/// A page made from an ungrouped view, one data row per index, copies the
/// rows at those indices, in order, and names no groups.
pub proof fn lemma_ungrouped_page_copies_indices(indices: Seq<usize>, rows_len: nat, groups_len: nat)
    requires
        forall|i: int| 0 <= i < indices.len() ==> #[trigger] indices[i] < rows_len,
    ensures
        page_layout(crate::view::data_rows(indices), rows_len, groups_len).data == indices,
        page_layout(crate::view::data_rows(indices), rows_len, groups_len).groups.len() == 0,
    decreases indices.len(),
{
    if indices.len() > 0 {
        let init = indices.drop_last();
        assert(crate::view::data_rows(indices).drop_last() =~= crate::view::data_rows(init));
        lemma_ungrouped_page_copies_indices(init, rows_len, groups_len);
        assert(indices[indices.len() - 1] < rows_len);
        assert(init.push(indices.last()) =~= indices);
    }
}

/// Whether `renumbered` maps each of a page's groups, by its position among
/// the view's, to its position among the page's `seen` groups, and holds
/// nothing else.
pub open spec fn renumbers(renumbered: Map<usize, usize>, seen: Seq<usize>) -> bool {
    &&& forall|k: usize| #[trigger] renumbered.contains_key(k) <==> seen.contains(k)
    &&& forall|j: int| 0 <= j < seen.len() ==> renumbered[#[trigger] seen[j]] == j
}

/// The position of view group `g` among a page's groups `seen`, as
/// `renumbered` maps it, adding it (and a copy of it to `groups`) the
/// first time.
fn take_group_slot(
    renumbered: &mut HashMap<usize, usize>,
    groups: &mut Vec<Group>,
    g: usize,
    all: &Vec<Group>,
    Ghost(seen): Ghost<Seq<usize>>,
) -> (r: usize)
    requires
        g < all@.len(),
        seen.no_duplicates(),
        renumbers(old(renumbered)@, seen),
        old(groups)@.len() == seen.len(),
        forall|j: int| 0 <= j < seen.len() ==> #[trigger] seen[j] < all@.len(),
        forall|j: int| 0 <= j < old(groups)@.len() ==> (#[trigger] old(groups)@[j])@ == all@[seen[j] as int]@,
    ensures
        r as int == group_slot(seen, g),
        with_group(seen, g).no_duplicates(),
        renumbers(final(renumbered)@, with_group(seen, g)),
        final(groups)@.len() == with_group(seen, g).len(),
        forall|j: int| 0 <= j < with_group(seen, g).len() ==> #[trigger] with_group(seen, g)[j] < all@.len(),
        forall|j: int|
            0 <= j < final(groups)@.len() ==> (#[trigger] final(groups)@[j])@ == all@[with_group(seen, g)[j] as int]@,
{
    broadcast use vstd::std_specs::hash::group_hash_axioms;

    match renumbered.get(&g) {
        Some(i) => {
            let i = *i;
            proof {
                assert(renumbered@.contains_key(g) && renumbered@[g] == i);
                assert(seen.contains(g));
                let c = seen.index_of(g);
                assert(0 <= c < seen.len() && seen[c] == g);
                assert(renumbered@[seen[c]] == c);
            }
            i
        },
        None => {
            let n = groups.len();
            proof {
                assert(!renumbered@.contains_key(g));
                assert(!seen.contains(g));
            }
            renumbered.insert(g, n);
            groups.push(all[g].duplicate());
            proof {
                let s2 = seen.push(g);
                assert(s2[n as int] == g);
                assert forall|k: usize| #[trigger] renumbered@.contains_key(k) <==> s2.contains(k) by {
                    if s2.contains(k) && k != g {
                        let w = choose|w: int| 0 <= w < s2.len() && s2[w] == k;
                        assert(seen[w] == k);
                    }
                    if seen.contains(k) {
                        let w = choose|w: int| 0 <= w < seen.len() && seen[w] == k;
                        assert(s2[w] == k);
                    }
                }
                assert forall|j: int| 0 <= j < s2.len() implies renumbered@[#[trigger] s2[j]] == j by {
                    if j < seen.len() {
                        assert(s2[j] == seen[j]);
                        assert(seen[j] != g) by {
                            assert(seen.contains(seen[j]));
                        }
                    }
                }
            }
            n
        },
    }
}

impl<T> Page<T> {
    /// A page holding `rows` out of `total` matching rows.
    pub fn new(rows: Vec<T>, total: usize) -> (p: Self)
        ensures
            p.rows == rows,
            p.total == total,
            p.layout@.len() == 0,
            p.groups@.len() == 0,
            p.row_count is None,
            p.totals@.len() == 0,
    {
        Page { rows, total, layout: Vec::new(), groups: Vec::new(), row_count: None, totals: Vec::new() }
    }

    /// Adds the aggregates over every matching row.
    pub fn with_totals(self, totals: Vec<AggregateValue>) -> (p: Self)
        ensures
            p == (Page { totals, ..self }),
    {
        Page { totals, ..self }
    }

    /// The page a view shows, for a server that computes views over rows
    /// it holds in memory: the rows of the view's data rows cloned, in its
    /// order (indices past the end of `rows` are skipped), with the groups
    /// its headers and footers name, once each and in the order they first
    /// come, numbered from zero again; the layout and row count only when
    /// the view is grouped; and its totals.
    pub fn from_view(view: &GridView, rows: &[T]) -> (p: Self) where T: Clone
        ensures
            ({
                let pl = page_layout(view.rows@, rows@.len(), view.groups@.len());
                &&& p.rows@.len() == pl.data.len()
                &&& forall|k: int|
                    0 <= k < p.rows@.len() ==> vstd::pervasive::cloned(
                        rows@[pl.data[k] as int],
                        #[trigger] p.rows@[k],
                    )
                &&& p.groups@.len() == pl.groups.len()
                &&& forall|j: int| 0 <= j < p.groups@.len() ==> (#[trigger] p.groups@[j])@ == view.groups@[pl.groups[j] as int]@
                &&& p.layout@ == if view.group_levels > 0 {
                    pl.layout
                } else {
                    Seq::empty()
                }
            }),
            p.total == view.filtered_len,
            p.row_count == if view.group_levels > 0 {
                Some(view.row_count)
            } else {
                None
            },
            aggregates_model(p.totals@) == aggregates_model(view.totals@),
    {
        let mut out: Vec<T> = Vec::new();
        let mut groups: Vec<Group> = Vec::new();
        let mut renumbered: HashMap<usize, usize> = HashMap::new();
        let ghost mut seen: Seq<usize> = Seq::empty();
        assert(renumbers(renumbered@, seen));
        let mut layout: Vec<ViewRow> = Vec::new();
        let mut k: usize = 0;
        while k < view.rows.len()
            invariant
                k <= view.rows@.len(),
                layout@ == page_layout(view.rows@.take(k as int), rows@.len(), view.groups@.len()).layout,
                seen == page_layout(view.rows@.take(k as int), rows@.len(), view.groups@.len()).groups,
                renumbers(renumbered@, seen),
                out@.len() == page_layout(view.rows@.take(k as int), rows@.len(), view.groups@.len()).data.len(),
                forall|j: int|
                    0 <= j < out@.len() ==> vstd::pervasive::cloned(
                        rows@[page_layout(view.rows@.take(k as int), rows@.len(), view.groups@.len()).data[j] as int],
                        #[trigger] out@[j],
                    ),
                forall|j: int|
                    0 <= j < out@.len() ==> #[trigger] page_layout(view.rows@.take(k as int), rows@.len(), view.groups@.len()).data[j]
                        < rows@.len(),
                seen.no_duplicates(),
                groups@.len() == seen.len(),
                forall|j: int| 0 <= j < seen.len() ==> #[trigger] seen[j] < view.groups@.len(),
                forall|j: int| 0 <= j < groups@.len() ==> (#[trigger] groups@[j])@ == view.groups@[seen[j] as int]@,
            decreases view.rows.len() - k,
        {
            let ghost before = page_layout(view.rows@.take(k as int), rows@.len(), view.groups@.len());
            proof {
                let s = view.rows@.take(k + 1);
                assert(s.drop_last() =~= view.rows@.take(k as int));
                assert(s.last() == view.rows@[k as int]);
            }
            match view.rows[k] {
                ViewRow::Data(index) => {
                    if index < rows.len() {
                        layout.push(ViewRow::Data(out.len()));
                        let row = rows[index].clone();
                        out.push(row);
                    }
                },
                ViewRow::GroupHeader(g) => {
                    if g < view.groups.len() {
                        let slot = take_group_slot(&mut renumbered, &mut groups, g, &view.groups, Ghost(seen));
                        proof {
                            seen = with_group(seen, g);
                        }
                        layout.push(ViewRow::GroupHeader(slot));
                    }
                },
                ViewRow::GroupFooter(g) => {
                    if g < view.groups.len() {
                        let slot = take_group_slot(&mut renumbered, &mut groups, g, &view.groups, Ghost(seen));
                        proof {
                            seen = with_group(seen, g);
                        }
                        layout.push(ViewRow::GroupFooter(slot));
                    }
                },
            }
            let ghost after = page_layout(view.rows@.take(k + 1), rows@.len(), view.groups@.len());
            assert(layout@ =~= after.layout);
            assert(seen =~= after.groups);
            k = k + 1;
        }
        assert(view.rows@.take(k as int) =~= view.rows@);
        let grouped = view.group_levels > 0;
        Page {
            rows: out,
            total: view.filtered_len,
            layout: if grouped {
                layout
            } else {
                Vec::new()
            },
            groups,
            row_count: if grouped {
                Some(view.row_count)
            } else {
                None
            },
            totals: duplicate_aggregates(&view.totals),
        }
    }

    /// How many pages `total` rows span at `page_size`; `0` when nothing
    /// matches or the page size is zero.
    pub fn page_count(&self, page_size: usize) -> (r: usize)
        ensures
            r == pages_for(self.total as int, page_size as int),
    {
        pages_of(self.total, page_size)
    }
}

/// The page count is the fewest pages of `page_size` rows that hold
/// `total` rows: none for no rows; otherwise every row fits in that many
/// pages, and one page fewer would leave rows out. So an exact multiple of
/// the page size gets no empty extra page.
pub proof fn lemma_pages_for_is_fewest(total: nat, page_size: nat)
    requires
        page_size > 0,
    ensures
        total == 0 ==> pages_for(total as int, page_size as int) == 0,
        total > 0 ==> (pages_for(total as int, page_size as int) - 1) * page_size < total,
        total <= pages_for(total as int, page_size as int) * page_size,
        pages_for(total as int, page_size as int) >= 0,
{
    let q = total / page_size;
    let m = total % page_size;
    assert(total == q * page_size + m && 0 <= m < page_size) by (nonlinear_arith)
        requires
            q == total / page_size,
            m == total % page_size,
            page_size > 0,
    ;
    if m == 0 {
        assert(pages_for(total as int, page_size as int) == q);
        if total > 0 {
            assert(q >= 1) by (nonlinear_arith)
                requires
                    total == q * page_size,
                    total > 0,
                    page_size > 0,
                    q >= 0,
            ;
            assert((q - 1) * page_size < total) by (nonlinear_arith)
                requires
                    total == q * page_size,
                    page_size > 0,
            ;
        }
    } else {
        assert(pages_for(total as int, page_size as int) == q + 1);
        assert(q * page_size < total) by (nonlinear_arith)
            requires
                total == q * page_size + m,
                m > 0,
        ;
        assert(total <= (q + 1) * page_size) by (nonlinear_arith)
            requires
                total == q * page_size + m,
                m < page_size,
        ;
    }
}

/// How many pages `total` rows span at `page_size`; `0` when nothing
/// matches or the page size is zero.
pub fn pages_of(total: usize, page_size: usize) -> (r: usize)
    ensures
        r == pages_for(total as int, page_size as int),
{
    if page_size == 0 {
        0
    } else {
        let whole = total / page_size;
        proof {
            assert(whole * page_size <= total) by (nonlinear_arith)
                requires
                    whole == total / page_size,
                    page_size > 0,
            ;
            if page_size == 1 {
                assert(total % page_size == 0);
            } else {
                assert(whole <= total / 2) by (nonlinear_arith)
                    requires
                        whole == total / page_size,
                        page_size >= 2,
                ;
            }
        }
        if total % page_size == 0 {
            whole
        } else {
            whole + 1
        }
    }
}

/// Identifies one request issued through a [`RequestTracker`].
#[derive(Clone, Copy, Debug, PartialEq, Eq, Structural, Hash, PartialOrd, Ord)]
pub struct RequestId(u64);

impl RequestId {
    /// The request's number.
    pub closed spec fn number(&self) -> u64 {
        self.0
    }
}

/// Decides whether a response is still wanted: only the response to the
/// most recently issued request may be applied.
#[derive(Clone, Debug, Default, PartialEq, Eq, Structural)]
pub struct RequestTracker {
    latest: u64,
}

/// The number after `n`, wrapping around.
pub open spec fn next_number(n: u64) -> u64 {
    if n == u64::MAX {
        0
    } else {
        (n + 1) as u64
    }
}

impl RequestTracker {
    /// The number of the most recent request; `0` before the first.
    pub closed spec fn latest_number(&self) -> u64 {
        self.latest
    }

    /// A tracker that has issued no requests yet.
    pub fn new() -> (t: Self)
        ensures
            t.latest_number() == 0,
    {
        RequestTracker { latest: 0 }
    }

    /// Issues a new request, making every earlier one stale.
    pub fn begin(&mut self) -> (id: RequestId)
        ensures
            final(self).latest_number() == next_number(old(self).latest_number()),
            id.number() == final(self).latest_number(),
    {
        self.latest = self.latest.wrapping_add(1);
        RequestId(self.latest)
    }

    /// Whether `id` is the most recently issued request.
    pub fn is_latest(&self, id: RequestId) -> (r: bool)
        ensures
            r == (id.number() == self.latest_number()),
    {
        id.0 == self.latest
    }
}

/// The number a tracker holds after `n` more requests.
pub open spec fn after_requests(latest: u64, n: nat) -> u64
    decreases n,
{
    if n == 0 {
        latest
    } else {
        next_number(after_requests(latest, (n - 1) as nat))
    }
}

/// `n` requests move a tracker's number `n` ahead, modulo 2^64.
proof fn lemma_after_requests(latest: u64, n: nat)
    ensures
        after_requests(latest, n) as int == (latest + n) % 0x1_0000_0000_0000_0000,
    decreases n,
{
    if n > 0 {
        lemma_after_requests(latest, (n - 1) as nat);
        let prev = after_requests(latest, (n - 1) as nat);
        assert(((latest + n - 1) % 0x1_0000_0000_0000_0000 + 1) % 0x1_0000_0000_0000_0000 == (latest + n)
            % 0x1_0000_0000_0000_0000) by (nonlinear_arith);
    }
}

/// A response is stale as soon as a later request was issued: after the
/// request numbered `id` was issued, any number of further requests short
/// of a full turn of the counter leaves the tracker at another number, so
/// `id` is no longer the latest.
pub proof fn lemma_older_request_is_stale(id: u64, later: nat)
    requires
        0 < later < 0x1_0000_0000_0000_0000,
    ensures
        after_requests(id, later) != id,
{
    lemma_after_requests(id, later);
    assert((id + later) % 0x1_0000_0000_0000_0000 != id) by (nonlinear_arith)
        requires
            0 < later < 0x1_0000_0000_0000_0000,
            id < 0x1_0000_0000_0000_0000,
    ;
}

/// Request numbers grow while the counter does not turn over: after the
/// request numbered `id`, `later` more requests that keep within the
/// counter's range leave the tracker at `id + later`, above `id` if there
/// was any.
pub proof fn lemma_later_requests_number_higher(id: u64, later: nat)
    requires
        id + later <= u64::MAX,
    ensures
        after_requests(id, later) == id + later,
        later > 0 ==> after_requests(id, later) > id,
{
    lemma_after_requests(id, later);
    assert((id + later) % 0x1_0000_0000_0000_0000 == id + later) by (nonlinear_arith)
        requires
            0 <= id + later < 0x1_0000_0000_0000_0000,
    ;
}

/// A request a remote grid is to make: which one it is, and whether to wait
/// for typing to pause before sending it.
#[derive(Clone, Copy, Debug, PartialEq, Eq)]
pub struct LoadRequest {
    /// The request, for [`RemoteLoader::is_current`] once the wait or the
    /// answer is over.
    pub id: RequestId,
    /// Whether only typed text changed since the last query, so the
    /// request waits for typing to pause.
    pub debounce: bool,
}

/// What to do with a page that arrived.
#[derive(Clone, Copy, Debug, PartialEq, Eq, Structural)]
pub enum PageAction {
    /// A newer request was made since: drop the page.
    Stale,
    /// Show the page.
    Show,
    /// Show the page, then go to this page index: the data shrank and the
    /// page asked for no longer exists, so the last one that does is asked
    /// for instead.
    ShowAndGoTo(usize),
}

/// The last page index of `total` rows at `page_size`: `0` when there are
/// none.
pub open spec fn last_page(total: int, page_size: int) -> int {
    if pages_for(total, page_size) > 0 {
        pages_for(total, page_size) - 1
    } else {
        0
    }
}

/// The bookkeeping of a grid whose rows come from a server: the query it
/// sent last, and which request is the latest. Sorting and paging load at
/// once; a change of typed text alone waits for typing to pause; a response
/// to anything but the latest request is dropped.
#[derive(Clone, Debug, Default)]
pub struct RemoteLoader {
    tracker: RequestTracker,
    sent: Option<GridQuery>,
}

impl RemoteLoader {
    /// The query sent last, if any.
    pub closed spec fn last_sent(&self) -> Option<GridQuery> {
        self.sent
    }

    /// The number of the latest request.
    pub closed spec fn latest_number(&self) -> u64 {
        self.tracker.latest_number()
    }

    /// A loader that has sent nothing yet.
    pub fn new() -> (r: Self)
        ensures
            r.last_sent() is None,
            r.latest_number() == 0,
    {
        RemoteLoader { tracker: RequestTracker::new(), sent: None }
    }

    /// The grid's state became `query`, or a reload was asked for: issues a
    /// request for it, which makes every earlier one stale. It waits for
    /// typing to pause when only typed text changed since the last query.
    pub fn request(&mut self, query: GridQuery) -> (r: LoadRequest)
        ensures
            r.debounce == (old(self).last_sent() matches Some(p) && typing_change(query, p)),
            final(self).last_sent() == Some(query),
            final(self).latest_number() == next_number(old(self).latest_number()),
            r.id.number() == final(self).latest_number(),
    {
        let debounce = match &self.sent {
            Some(previous) => query.is_typing_change(previous),
            None => false,
        };
        self.sent = Some(query);
        let id = self.tracker.begin();
        LoadRequest { id, debounce }
    }

    /// Whether `id` is still the latest request, so its wait may end in a
    /// load and its answer may be shown.
    pub fn is_current(&self, id: RequestId) -> (r: bool)
        ensures
            r == (id.number() == self.latest_number()),
    {
        self.tracker.is_latest(id)
    }

    /// What to do with `page`, the answer to `query` under `id`: drop it if
    /// a newer request was made; otherwise show it, and if it came back
    /// empty because the page asked for is past the end of rows that are
    /// still there, go to the last page.
    pub fn receive<T>(&self, id: RequestId, query: &GridQuery, page: &Page<T>) -> (r: PageAction)
        ensures
            id.number() != self.latest_number() ==> r == PageAction::Stale,
            id.number() == self.latest_number() ==> r == if page.rows@.len() == 0 && query.page > last_page(
                page.total as int,
                query.page_size as int,
            ) && page.total > 0 {
                PageAction::ShowAndGoTo(last_page(page.total as int, query.page_size as int) as usize)
            } else {
                PageAction::Show
            },
    {
        if !self.tracker.is_latest(id) {
            return PageAction::Stale;
        }
        let count = page.page_count(query.page_size);
        let last = if count > 0 {
            count - 1
        } else {
            0
        };
        if page.rows.len() == 0 && query.page > last && page.total > 0 {
            PageAction::ShowAndGoTo(last)
        } else {
            PageAction::Show
        }
    }
}

} // verus!
