//! The state a grid derives its view from: sort, filters, search, paging,
//! hidden columns, widths and grouping.

use crate::column::{contains_id, ids_model, is_visible_spec, ColumnId, ColumnSpec};
use crate::filter::ColumnFilter;
use crate::group::GroupKey;
use crate::sort::{SortDirection, SortState};
use crate::value::CellModel;
use crate::selection::SelectionMode;
use vstd::prelude::*;

verus! {

/// Which page of the filtered rows is shown.
#[derive(Clone, Copy, Debug, PartialEq, Eq, Structural, Hash)]
pub struct PageState {
    /// Zero-based page index. An index past the last page is clamped when
    /// the view is computed; the state itself is left alone.
    pub index: usize,
    /// Rows per page. A size of `0` disables paging for that computation.
    pub size: usize,
}

impl PageState {
    /// A page state pointing at the first page.
    pub fn new(size: usize) -> (r: Self)
        ensures
            r == (PageState { index: 0, size }),
    {
        PageState { index: 0, size }
    }
}

/// The position of the first occurrence of `k` in `keys`.
pub open spec fn first_position<K>(keys: Seq<K>, k: K) -> Option<int>
    decreases keys.len(),
{
    if keys.len() == 0 {
        None
    } else if keys[0] == k {
        Some(0)
    } else {
        match first_position(keys.drop_first(), k) {
            Some(i) => Some(i + 1),
            None => None,
        }
    }
}

/// `first_position` finds the first occurrence, and nothing where there is
/// none.
pub proof fn lemma_first_position<K>(keys: Seq<K>, k: K, i: int)
    requires
        0 <= i <= keys.len(),
        forall|j: int| 0 <= j < i ==> keys[j] != k,
    ensures
        i < keys.len() && keys[i] == k ==> first_position(keys, k) == Some(i),
        i == keys.len() ==> first_position(keys, k) is None,
    decreases i,
{
    if i > 0 {
        lemma_first_position(keys.drop_first(), k, i - 1);
    }
}

/// The position found is an occurrence, and every earlier entry differs.
pub proof fn lemma_first_position_found<K>(keys: Seq<K>, k: K)
    ensures
        match first_position(keys, k) {
            Some(i) => 0 <= i < keys.len() && keys[i] == k && forall|j: int| 0 <= j < i ==> keys[j] != k,
            None => forall|j: int| 0 <= j < keys.len() ==> keys[j] != k,
        },
    decreases keys.len(),
{
    if keys.len() > 0 {
        lemma_first_position_found(keys.drop_first(), k);
        if keys[0] != k {
            match first_position(keys.drop_first(), k) {
                Some(i) => {
                    assert forall|j: int| 0 <= j < i + 1 implies keys[j] != k by {
                        if j > 0 {
                            assert(keys[j] == keys.drop_first()[j - 1]);
                        }
                    }
                },
                None => {
                    assert forall|j: int| 0 <= j < keys.len() implies keys[j] != k by {
                        if j > 0 {
                            assert(keys[j] == keys.drop_first()[j - 1]);
                        }
                    }
                },
            }
        }
    }
}

/// The column ids of a list of entries keyed by column.
pub open spec fn pair_keys<T>(v: Seq<(ColumnId, T)>) -> Seq<Seq<char>> {
    v.map_values(|e: (ColumnId, T)| e.0@)
}

/// The column ids of a sort.
pub open spec fn sort_keys(v: Seq<SortState>) -> Seq<Seq<char>> {
    v.map_values(|e: SortState| e.column@)
}

/// The contents of a list of group keys.
pub open spec fn group_keys(v: Seq<GroupKey>) -> Seq<Seq<Option<CellModel>>> {
    v.map_values(|k: GroupKey| k@)
}

/// Where the first entry for `id` is.
pub fn position_in<T>(v: &Vec<(ColumnId, T)>, id: &ColumnId) -> (r: Option<usize>)
    ensures
        r matches Some(i) ==> i < v.len(),
        match first_position(pair_keys(v@), id@) {
            Some(i) => r == Some(i as usize) && 0 <= i < pair_keys(v@).len(),
            None => r is None,
        },
{
    let ghost keys = pair_keys(v@);
    let mut i: usize = 0;
    while i < v.len()
        invariant
            i <= v.len(),
            keys == pair_keys(v@),
            forall|j: int| 0 <= j < i ==> keys[j] != id@,
        decreases v.len() - i,
    {
    proof {
        lemma_first_position_found(pair_keys(v@), id@);
    }
        if v[i].0.same(id) {
            proof {
                lemma_first_position(keys, id@, i as int);
            }
            return Some(i);
        }
        i = i + 1;
    }
    proof {
        lemma_first_position(keys, id@, i as int);
    }
    None
}

/// `v` without its entries for `id`, in order.
pub fn without<T>(v: Vec<(ColumnId, T)>, id: &ColumnId) -> (r: Vec<(ColumnId, T)>)
    ensures
        r@ == v@.filter(|e: (ColumnId, T)| e.0@ != id@),
{
    let ghost original = v@;
    let ghost keep = |e: (ColumnId, T)| e.0@ != id@;
    let mut rest = v;
    let n = rest.len();
    let mut out: Vec<(ColumnId, T)> = Vec::new();
    let mut k: usize = 0;
    while rest.len() > 0
        invariant
            original.len() == n,
            k + rest.len() == original.len(),
            rest@ == original.skip(k as int),
            out@ == original.take(k as int).filter(keep),
            keep == |e: (ColumnId, T)| e.0@ != id@,
        decreases rest.len(),
    {
        let e = rest.remove(0);
        proof {
            assert(original.take(k + 1) =~= original.take(k as int).push(e));
            original.take(k as int).lemma_filter_push(e, keep);
            assert(original.skip(k as int).drop_first() =~= original.skip(k + 1));
        }
        let keep_it = !e.0.same(id);
        if keep_it {
            out.push(e);
        }
        k = k + 1;
    }
    assert(original.take(k as int) =~= original);
    out
}

/// `ids` without `id`, in order.
pub fn ids_without(ids: &Vec<ColumnId>, id: &ColumnId) -> (r: Vec<ColumnId>)
    ensures
        r@ == ids@.filter(|x: ColumnId| x@ != id@),
{
    let ghost keep = |x: ColumnId| x@ != id@;
    let mut out: Vec<ColumnId> = Vec::new();
    let mut k: usize = 0;
    while k < ids.len()
        invariant
            k <= ids.len(),
            out@ == ids@.take(k as int).filter(keep),
            keep == |x: ColumnId| x@ != id@,
        decreases ids.len() - k,
    {
        let e = ids[k].duplicate();
        proof {
            assert(ids@.take(k + 1) =~= ids@.take(k as int).push(e));
            ids@.take(k as int).lemma_filter_push(e, keep);
        }
        if !e.same(id) {
            out.push(e);
        }
        k = k + 1;
    }
    assert(ids@.take(k as int) =~= ids@);
    out
}

/// Whether two lists of ids are the same.
pub fn same_ids(a: &Vec<ColumnId>, b: &Vec<ColumnId>) -> (r: bool)
    ensures
        r == (ids_model(a@) == ids_model(b@)),
{
    if a.len() != b.len() {
        assert(ids_model(a@).len() != ids_model(b@).len());
        return false;
    }
    let mut i: usize = 0;
    while i < a.len()
        invariant
            i <= a.len(),
            a.len() == b.len(),
            forall|j: int| 0 <= j < i ==> ids_model(a@)[j] == ids_model(b@)[j],
        decreases a.len() - i,
    {
        if !a[i].same(&b[i]) {
            assert(ids_model(a@)[i as int] != ids_model(b@)[i as int]);
            return false;
        }
        i = i + 1;
    }
    assert(ids_model(a@) =~= ids_model(b@));
    true
}

/// Paging after a change that makes the old page meaningless: back to the
/// first page, if paging is on.
pub open spec fn reset_page(page: Option<PageState>) -> Option<PageState> {
    match page {
        Some(p) => Some(PageState { index: 0, size: p.size }),
        None => None,
    }
}

/// The next step of the sort cycle: unsorted, ascending, descending,
/// unsorted.
pub open spec fn next_direction(current: Option<SortDirection>) -> Option<SortDirection> {
    match current {
        None => Some(SortDirection::Asc),
        Some(SortDirection::Asc) => Some(SortDirection::Desc),
        Some(SortDirection::Desc) => None,
    }
}

/// The direction a sort gives a column: that of its first entry.
pub open spec fn direction_in(sort: Seq<SortState>, column: Seq<char>) -> Option<SortDirection> {
    match first_position(sort_keys(sort), column) {
        Some(i) => Some(sort[i].direction),
        None => None,
    }
}

/// The sort after toggling `c`: the column moves one step through the
/// cycle. Additively it keeps its place among the other columns (or joins
/// at the end, or leaves); otherwise it becomes the only sort column.
pub open spec fn toggled_sort(sort: Seq<SortState>, c: ColumnId, additive: bool) -> Seq<SortState> {
    let pos = first_position(sort_keys(sort), c@);
    let next = next_direction(direction_in(sort, c@));
    if additive {
        match (pos, next) {
            (Some(i), Some(d)) => sort.update(i, SortState { column: sort[i].column, direction: d }),
            (Some(i), None) => sort.remove(i),
            (None, Some(d)) => sort.push(SortState { column: c, direction: d }),
            (None, None) => sort,
        }
    } else {
        match next {
            Some(d) => seq![SortState { column: c, direction: d }],
            None => Seq::empty(),
        }
    }
}

/// Entries keyed by column after setting `id`'s: removed when `remove`,
/// otherwise the first one's value replaced (keeping its id), or a new entry
/// appended.
pub open spec fn set_entry<T>(v: Seq<(ColumnId, T)>, id: ColumnId, value: T, remove: bool) -> Seq<(ColumnId, T)> {
    if remove {
        v.filter(|e: (ColumnId, T)| e.0@ != id@)
    } else {
        match first_position(pair_keys(v), id@) {
            Some(i) => v.update(i, (v[i].0, value)),
            None => v.push((id, value)),
        }
    }
}

/// The value of the first entry for `id`.
pub open spec fn entry_for<T>(v: Seq<(ColumnId, T)>, id: Seq<char>) -> Option<T> {
    match first_position(pair_keys(v), id) {
        Some(i) => Some(v[i].1),
        None => None,
    }
}

/// Whether a bit pattern is a finite `f32`: its exponent is not all ones.
pub open spec fn is_finite_bits(bits: u32) -> bool {
    (bits >> 23u32) & 0xffu32 != 0xffu32
}

/// Whether a group shows its rows: expanded unless collapsed by default,
/// and the other way round for the groups toggled against that.
pub open spec fn group_expanded(collapsed: bool, toggled: Seq<GroupKey>, key: Seq<Option<CellModel>>) -> bool {
    collapsed == group_keys(toggled).contains(key)
}

/// The grouped columns with `c` moved to (or inserted at) `position`
/// among the others, clamped to the end; at the end without a position.
pub open spec fn regrouped(group_by: Seq<ColumnId>, c: ColumnId, position: Option<usize>) -> Seq<ColumnId> {
    let others = group_by.filter(|x: ColumnId| x@ != c@);
    let at = match position {
        Some(p) => if p < others.len() {
            p as int
        } else {
            others.len() as int
        },
        None => others.len() as int,
    };
    others.insert(at, c)
}

/// What setting the grouping to `columns` does: nothing when the grouped
/// columns stay the same; otherwise the new grouping, every group expanded
/// and the first page, with everything else kept.
pub open spec fn grouping_set(before: GridState, after: GridState, columns: Seq<ColumnId>) -> bool {
    if ids_model(before.group_by@) == ids_model(columns) {
        after == before
    } else {
        &&& after.group_by@ == columns
        &&& !after.groups_collapsed
        &&& after.toggled_groups@.len() == 0
        &&& after.page == reset_page(before.page)
        &&& after.sort == before.sort
        &&& after.column_filters == before.column_filters
        &&& after.filters == before.filters
        &&& after.search == before.search
        &&& after.column_widths == before.column_widths
        &&& after.hidden_columns == before.hidden_columns
    }
}

/// Whether `k` occurs at most once in `keys`.
pub open spec fn at_most_once<K>(keys: Seq<K>, k: K) -> bool {
    forall|i: int, j: int| 0 <= i < keys.len() && 0 <= j < keys.len() && keys[i] == k && keys[j] == k ==> i == j
}

/// Replaces `v[i]`'s value, keeping its id.
fn replace_value<T>(v: &mut Vec<(ColumnId, T)>, i: usize, value: T)
    requires
        i < old(v).len(),
    ensures
        final(v)@ == old(v)@.update(i as int, (old(v)@[i as int].0, value)),
{
    let (id, _previous) = v.remove(i);
    v.insert(i, (id, value));
    assert(final(v)@ =~= old(v)@.update(i as int, (old(v)@[i as int].0, value)));
}

/// Sets the entry for `id`: see [`set_entry`].
fn set_entry_exec<T>(v: Vec<(ColumnId, T)>, id: ColumnId, value: T, remove: bool) -> (r: Vec<(ColumnId, T)>)
    ensures
        r@ == set_entry(v@, id, value, remove),
{
    if remove {
        return without(v, &id);
    }
    let mut v = v;
    match position_in(&v, &id) {
        Some(i) => {
            proof {
                lemma_first_position_found(pair_keys(v@), id@);
            }
            replace_value(&mut v, i, value);
        },
        None => {
            v.push((id, value));
        },
    }
    v
}

/// Everything the user can change about how rows are presented: the unit
/// of persistence. It holds no row data, only column ids and plain values.
#[derive(Clone, Debug, Default, PartialEq)]
pub struct GridState {
    /// Active sort, highest priority first.
    pub sort: Vec<SortState>,
    /// Per-column filter text, as typed in a filter bar. A leading operator
    /// such as `>100` makes a comparison.
    pub column_filters: Vec<(ColumnId, String)>,
    /// Per-column typed filters, as built by a filter menu. A row must pass
    /// these as well as the filter bar texts.
    pub filters: Vec<(ColumnId, ColumnFilter)>,
    /// Global search across every visible filterable column.
    pub search: Option<String>,
    /// Paging, or `None` to show every filtered row.
    pub page: Option<PageState>,
    /// Widths set by interactive resizing, as the bits of an `f32` in CSS
    /// pixels (`f32::to_bits`).
    pub column_widths: Vec<(ColumnId, u32)>,
    /// Columns hidden at runtime, on top of each column's own setting.
    pub hidden_columns: Vec<ColumnId>,
    /// The columns rows are grouped by, outermost first.
    pub group_by: Vec<ColumnId>,
    /// Whether groups start collapsed.
    pub groups_collapsed: bool,
    /// The groups the user expanded or collapsed against `groups_collapsed`.
    pub toggled_groups: Vec<GroupKey>,
}

impl GridState {
    /// Empty state: no sort, no filters, no paging.
    pub fn new() -> (r: Self)
        ensures
            r.sort@.len() == 0,
            r.column_filters@.len() == 0,
            r.filters@.len() == 0,
            r.search is None,
            r.page is None,
            r.column_widths@.len() == 0,
            r.hidden_columns@.len() == 0,
            r.group_by@.len() == 0,
            !r.groups_collapsed,
            r.toggled_groups@.len() == 0,
    {
        GridState {
            sort: Vec::new(),
            column_filters: Vec::new(),
            filters: Vec::new(),
            search: None,
            page: None,
            column_widths: Vec::new(),
            hidden_columns: Vec::new(),
            group_by: Vec::new(),
            groups_collapsed: false,
            toggled_groups: Vec::new(),
        }
    }

    /// State that pages through the rows, starting on the first page.
    pub fn paged(page_size: usize) -> (r: Self)
        ensures
            r.page == Some(PageState { index: 0, size: page_size }),
            r.sort@.len() == 0,
            r.column_filters@.len() == 0,
            r.filters@.len() == 0,
            r.search is None,
            r.column_widths@.len() == 0,
            r.hidden_columns@.len() == 0,
            r.group_by@.len() == 0,
            !r.groups_collapsed,
            r.toggled_groups@.len() == 0,
    {
        let mut state = GridState::new();
        state.page = Some(PageState::new(page_size));
        state
    }

    /// Back to the first page, if paging is on.
    fn reset_page(&mut self)
        ensures
            final(self).page == reset_page(old(self).page),
            final(self).sort == old(self).sort,
            final(self).column_filters == old(self).column_filters,
            final(self).filters == old(self).filters,
            final(self).search == old(self).search,
            final(self).column_widths == old(self).column_widths,
            final(self).hidden_columns == old(self).hidden_columns,
            final(self).group_by == old(self).group_by,
            final(self).groups_collapsed == old(self).groups_collapsed,
            final(self).toggled_groups == old(self).toggled_groups,
    {
        if let Some(page) = self.page {
            self.page = Some(PageState { index: 0, size: page.size });
        }
    }

    /// Where the first sort entry for `column` is.
    fn sort_position(&self, column: &ColumnId) -> (r: Option<usize>)
        ensures
            r matches Some(i) ==> i < self.sort.len(),
            match first_position(sort_keys(self.sort@), column@) {
                Some(i) => r == Some(i as usize) && 0 <= i < sort_keys(self.sort@).len(),
                None => r is None,
            },
    {
        proof {
            lemma_first_position_found(sort_keys(self.sort@), column@);
        }
        let ghost keys = sort_keys(self.sort@);
        let mut i: usize = 0;
        while i < self.sort.len()
            invariant
                i <= self.sort.len(),
                keys == sort_keys(self.sort@),
                forall|j: int| 0 <= j < i ==> keys[j] != column@,
            decreases self.sort.len() - i,
        {
            if self.sort[i].column.same(column) {
                proof {
                    lemma_first_position(keys, column@, i as int);
                }
                return Some(i);
            }
            i = i + 1;
        }
        proof {
            lemma_first_position(keys, column@, i as int);
        }
        None
    }

    /// The direction a column is currently sorted in, if it is sorted.
    pub fn sort_direction(&self, column: &ColumnId) -> (r: Option<SortDirection>)
        ensures
            r == direction_in(self.sort@, column@),
    {
        match self.sort_position(column) {
            Some(i) => Some(self.sort[i].direction),
            None => None,
        }
    }

    /// The priority of a column within a multi-column sort, if it is
    /// sorted: `0` is the primary sort column.
    pub fn sort_priority(&self, column: &ColumnId) -> (r: Option<usize>)
        ensures
            match first_position(sort_keys(self.sort@), column@) {
                Some(i) => r == Some(i as usize),
                None => r is None,
            },
    {
        self.sort_position(column)
    }

    /// Cycles a column through ascending, descending and unsorted, and
    /// returns to the first page. With `additive` the column joins or keeps
    /// its place in a multi-column sort; otherwise it replaces the sort.
    pub fn toggle_sort<C: Into<ColumnId>>(&mut self, column: C, additive: bool)
        ensures
            exists|c: ColumnId|
                call_ensures(<C as Into<ColumnId>>::into, (column,), c) && final(self).sort@ == toggled_sort(
                    old(self).sort@,
                    c,
                    additive,
                ),
            final(self).page == reset_page(old(self).page),
            final(self).column_filters == old(self).column_filters,
            final(self).filters == old(self).filters,
            final(self).search == old(self).search,
            final(self).column_widths == old(self).column_widths,
            final(self).hidden_columns == old(self).hidden_columns,
            final(self).group_by == old(self).group_by,
            final(self).groups_collapsed == old(self).groups_collapsed,
            final(self).toggled_groups == old(self).toggled_groups,
    {
        let ghost param = column;
        let column: ColumnId = column.into();
        let ghost witness = column;
        let existing = self.sort_position(&column);
        let current = match existing {
            Some(i) => Some(self.sort[i].direction),
            None => None,
        };
        let next = match current {
            None => Some(SortDirection::Asc),
            Some(SortDirection::Asc) => Some(SortDirection::Desc),
            Some(SortDirection::Desc) => None,
        };
        let ghost before = self.sort@;
        if additive {
            match (existing, next) {
                (Some(position), Some(direction)) => {
                    let entry = self.sort.remove(position);
                    self.sort.insert(position, SortState { column: entry.column, direction });
                    assert(self.sort@ =~= before.update(
                        position as int,
                        SortState { column: before[position as int].column, direction },
                    ));
                },
                (Some(position), None) => {
                    self.sort.remove(position);
                },
                (None, Some(direction)) => {
                    self.sort.push(SortState { column, direction });
                },
                (None, None) => {},
            }
        } else {
            self.sort = Vec::new();
            if let Some(direction) = next {
                self.sort.push(SortState { column, direction });
                assert(self.sort@ =~= seq![SortState { column, direction }]);
            } else {
                assert(self.sort@ =~= Seq::<SortState>::empty());
            }
        }
        self.reset_page();
        proof {
            assert(call_ensures(<C as Into<ColumnId>>::into, (param,), witness));
            assert(self.sort@ == toggled_sort(old(self).sort@, witness, additive));
        }
    }

    /// Sets the filter text for a column; an empty text removes it. Returns
    /// to the first page.
    pub fn set_filter<C: Into<ColumnId>, S: Into<String>>(&mut self, column: C, text: S)
        ensures
            exists|c: ColumnId, t: String|
                call_ensures(<C as Into<ColumnId>>::into, (column,), c) && call_ensures(
                    <S as Into<String>>::into,
                    (text,),
                    t,
                ) && final(self).column_filters@ == set_entry(old(self).column_filters@, c, t, t@.len() == 0),
            final(self).page == reset_page(old(self).page),
            final(self).sort == old(self).sort,
            final(self).filters == old(self).filters,
            final(self).search == old(self).search,
            final(self).column_widths == old(self).column_widths,
            final(self).hidden_columns == old(self).hidden_columns,
            final(self).group_by == old(self).group_by,
            final(self).groups_collapsed == old(self).groups_collapsed,
            final(self).toggled_groups == old(self).toggled_groups,
    {
        let ghost param = column;
        let column: ColumnId = column.into();
        let ghost witness = column;
        let text: String = text.into();
        let ghost text_witness = text;
        let remove = text.as_str().is_empty();
        let mut entries = Vec::new();
        std::mem::swap(&mut entries, &mut self.column_filters);
        self.column_filters = set_entry_exec(entries, column, text, remove);
        self.reset_page();
    }

    /// The filter text currently set for a column.
    pub fn filter(&self, column: &ColumnId) -> (r: Option<&str>)
        ensures
            match entry_for(self.column_filters@, column@) {
                Some(t) => r is Some && r.unwrap()@ == t@,
                None => r is None,
            },
    {
        match position_in(&self.column_filters, column) {
            Some(i) => Some(self.column_filters[i].1.as_str()),
            None => None,
        }
    }

    /// Sets a column's typed filter; an empty filter removes it. Returns to
    /// the first page.
    pub fn set_column_filter<C: Into<ColumnId>>(&mut self, column: C, filter: ColumnFilter)
        ensures
            exists|c: ColumnId|
                call_ensures(<C as Into<ColumnId>>::into, (column,), c) && final(self).filters@ == set_entry(
                    old(self).filters@,
                    c,
                    filter,
                    filter.conditions.len() == 0,
                ),
            final(self).page == reset_page(old(self).page),
            final(self).sort == old(self).sort,
            final(self).column_filters == old(self).column_filters,
            final(self).search == old(self).search,
            final(self).column_widths == old(self).column_widths,
            final(self).hidden_columns == old(self).hidden_columns,
            final(self).group_by == old(self).group_by,
            final(self).groups_collapsed == old(self).groups_collapsed,
            final(self).toggled_groups == old(self).toggled_groups,
    {
        let ghost param = column;
        let column: ColumnId = column.into();
        let ghost witness = column;
        let remove = filter.is_empty();
        let mut entries = Vec::new();
        std::mem::swap(&mut entries, &mut self.filters);
        self.filters = set_entry_exec(entries, column, filter, remove);
        self.reset_page();
    }

    /// The typed filter currently set for a column.
    pub fn column_filter(&self, column: &ColumnId) -> (r: Option<&ColumnFilter>)
        ensures
            match entry_for(self.filters@, column@) {
                Some(f) => r == Some(&f),
                None => r is None,
            },
    {
        match position_in(&self.filters, column) {
            Some(i) => Some(&self.filters[i].1),
            None => None,
        }
    }

    /// Whether a column is filtered, by text or by a typed filter.
    pub fn is_filtered(&self, column: &ColumnId) -> (r: bool)
        ensures
            r == ((entry_for(self.column_filters@, column@) matches Some(t) && t@.len() > 0) || entry_for(
                self.filters@,
                column@,
            ) is Some),
    {
        let text = match self.filter(column) {
            Some(t) => !t.is_empty(),
            None => false,
        };
        text || self.column_filter(column).is_some()
    }

    /// Sets the global search term; an empty text clears it. Returns to the
    /// first page.
    pub fn set_search<S: Into<String>>(&mut self, text: S)
        ensures
            exists|t: String|
                call_ensures(<S as Into<String>>::into, (text,), t) && final(self).search == (if t@.len() == 0 {
                    None
                } else {
                    Some(t)
                }),
            final(self).page == reset_page(old(self).page),
            final(self).sort == old(self).sort,
            final(self).column_filters == old(self).column_filters,
            final(self).filters == old(self).filters,
            final(self).column_widths == old(self).column_widths,
            final(self).hidden_columns == old(self).hidden_columns,
            final(self).group_by == old(self).group_by,
            final(self).groups_collapsed == old(self).groups_collapsed,
            final(self).toggled_groups == old(self).toggled_groups,
    {
        let text: String = text.into();
        let ghost text_witness = text;
        self.search = if text.as_str().is_empty() {
            None
        } else {
            Some(text)
        };
        self.reset_page();
    }

    /// Jumps to a page; out-of-range indices are clamped when the view is
    /// computed. Nothing happens while paging is off.
    pub fn set_page(&mut self, index: usize)
        ensures
            final(self).page == match old(self).page {
                Some(p) => Some(PageState { index, size: p.size }),
                None => None,
            },
            final(self).sort == old(self).sort,
            final(self).column_filters == old(self).column_filters,
            final(self).filters == old(self).filters,
            final(self).search == old(self).search,
            final(self).column_widths == old(self).column_widths,
            final(self).hidden_columns == old(self).hidden_columns,
            final(self).group_by == old(self).group_by,
            final(self).groups_collapsed == old(self).groups_collapsed,
            final(self).toggled_groups == old(self).toggled_groups,
    {
        if let Some(page) = self.page {
            self.page = Some(PageState { index, size: page.size });
        }
    }

    /// Turns paging on with the given page size, or off with `None`. Returns
    /// to the first page when the size actually changes; otherwise nothing
    /// changes.
    pub fn set_page_size(&mut self, size: Option<usize>)
        ensures
            final(self).page == (if (match old(self).page {
                Some(p) => Some(p.size),
                None => None,
            }) == size {
                old(self).page
            } else {
                match size {
                    Some(s) => Some(PageState { index: 0, size: s }),
                    None => None,
                }
            }),
            final(self).sort == old(self).sort,
            final(self).column_filters == old(self).column_filters,
            final(self).filters == old(self).filters,
            final(self).search == old(self).search,
            final(self).column_widths == old(self).column_widths,
            final(self).hidden_columns == old(self).hidden_columns,
            final(self).group_by == old(self).group_by,
            final(self).groups_collapsed == old(self).groups_collapsed,
            final(self).toggled_groups == old(self).toggled_groups,
    {
        let same = match (self.page, size) {
            (Some(p), Some(s)) => p.size == s,
            (None, None) => true,
            _ => false,
        };
        if same {
            return;
        }
        self.page = match size {
            Some(s) => Some(PageState::new(s)),
            None => None,
        };
    }

    /// Shows or hides a column at runtime. Hiding a hidden column changes
    /// nothing; showing removes every entry for it.
    pub fn set_column_hidden<C: Into<ColumnId>>(&mut self, column: C, hidden: bool)
        ensures
            exists|c: ColumnId|
                #[trigger] call_ensures(<C as Into<ColumnId>>::into, (column,), c) && final(self).hidden_columns@ == (if hidden {
                    if ids_model(old(self).hidden_columns@).contains(c@) {
                        old(self).hidden_columns@
                    } else {
                        old(self).hidden_columns@.push(c)
                    }
                } else {
                    old(self).hidden_columns@.filter(|x: ColumnId| x@ != c@)
                }),
            final(self).page == old(self).page,
            final(self).sort == old(self).sort,
            final(self).column_filters == old(self).column_filters,
            final(self).filters == old(self).filters,
            final(self).search == old(self).search,
            final(self).column_widths == old(self).column_widths,
            final(self).group_by == old(self).group_by,
            final(self).groups_collapsed == old(self).groups_collapsed,
            final(self).toggled_groups == old(self).toggled_groups,
    {
        let ghost param = column;
        let column: ColumnId = column.into();
        let ghost witness = column;
        if hidden {
            if !contains_id(&self.hidden_columns, &column) {
                self.hidden_columns.push(column);
            }
        } else {
            self.hidden_columns = ids_without(&self.hidden_columns, &column);
        }
        proof {
            assert(call_ensures(<C as Into<ColumnId>>::into, (param,), witness));
            assert(self.hidden_columns@ == (if hidden {
                if ids_model(old(self).hidden_columns@).contains(witness@) {
                    old(self).hidden_columns@
                } else {
                    old(self).hidden_columns@.push(witness)
                }
            } else {
                old(self).hidden_columns@.filter(|x: ColumnId| x@ != witness@)
            }));
        }
    }

    /// Records an interactively chosen column width, given as the bits of
    /// an `f32` in CSS pixels. A width that is not finite is ignored.
    pub fn set_column_width<C: Into<ColumnId>>(&mut self, column: C, width_bits: u32)
        ensures
            exists|c: ColumnId|
                #[trigger] call_ensures(<C as Into<ColumnId>>::into, (column,), c) && final(self).column_widths@ == (if is_finite_bits(
                    width_bits,
                ) {
                    set_entry(old(self).column_widths@, c, width_bits, false)
                } else {
                    old(self).column_widths@
                }),
            final(self).page == old(self).page,
            final(self).sort == old(self).sort,
            final(self).column_filters == old(self).column_filters,
            final(self).filters == old(self).filters,
            final(self).search == old(self).search,
            final(self).hidden_columns == old(self).hidden_columns,
            final(self).group_by == old(self).group_by,
            final(self).groups_collapsed == old(self).groups_collapsed,
            final(self).toggled_groups == old(self).toggled_groups,
    {
        let ghost param = column;
        let column: ColumnId = column.into();
        let ghost witness = column;
        if (width_bits >> 23u32) & 0xffu32 == 0xffu32 {
            assert(!is_finite_bits(width_bits));
            assert(call_ensures(<C as Into<ColumnId>>::into, (param,), witness));
            assert(self.column_widths@ == old(self).column_widths@);
            return;
        }
        let mut entries = Vec::new();
        std::mem::swap(&mut entries, &mut self.column_widths);
        self.column_widths = set_entry_exec(entries, column, width_bits, false);
        assert(call_ensures(<C as Into<ColumnId>>::into, (param,), witness));
    }

    /// Forgets an interactively chosen width, so the column falls back to
    /// its own width.
    pub fn reset_column_width(&mut self, column: &ColumnId)
        ensures
            final(self).column_widths@ == old(self).column_widths@.filter(|e: (ColumnId, u32)| e.0@ != column@),
            final(self).page == old(self).page,
            final(self).sort == old(self).sort,
            final(self).column_filters == old(self).column_filters,
            final(self).filters == old(self).filters,
            final(self).search == old(self).search,
            final(self).hidden_columns == old(self).hidden_columns,
            final(self).group_by == old(self).group_by,
            final(self).groups_collapsed == old(self).groups_collapsed,
            final(self).toggled_groups == old(self).toggled_groups,
    {
        let mut entries = Vec::new();
        std::mem::swap(&mut entries, &mut self.column_widths);
        self.column_widths = without(entries, column);
    }

    /// The interactively chosen width for a column, as `f32` bits, if any.
    pub fn column_width(&self, column: &ColumnId) -> (r: Option<u32>)
        ensures
            r == entry_for(self.column_widths@, column@),
    {
        match position_in(&self.column_widths, column) {
            Some(i) => Some(self.column_widths[i].1),
            None => None,
        }
    }

    /// Groups the rows by these columns, outermost first; none turns
    /// grouping off. When that changes the grouping, every group is expanded
    /// again and paging returns to the first page; otherwise nothing changes.
    pub fn set_group_by(&mut self, columns: Vec<ColumnId>)
        ensures
            grouping_set(*old(self), *final(self), columns@),
    {
        if same_ids(&self.group_by, &columns) {
            return;
        }
        self.group_by = columns;
        self.groups_collapsed = false;
        self.toggled_groups = Vec::new();
        self.reset_page();
    }

    /// Adds a column to the grouping, innermost, or moves it to `position`
    /// among the grouped columns if given (clamped to the end). See
    /// [`set_group_by`](GridState::set_group_by).
    pub fn group_by_column<C: Into<ColumnId>>(&mut self, column: C, position: Option<usize>)
        ensures
            exists|c: ColumnId|
                #[trigger] call_ensures(<C as Into<ColumnId>>::into, (column,), c) && grouping_set(
                    *old(self),
                    *final(self),
                    regrouped(old(self).group_by@, c, position),
                ),
    {
        let ghost param = column;
        let column: ColumnId = column.into();
        let ghost witness = column;
        let mut columns = ids_without(&self.group_by, &column);
        let at = match position {
            Some(p) => if p < columns.len() {
                p
            } else {
                columns.len()
            },
            None => columns.len(),
        };
        columns.insert(at, column);
        self.set_group_by(columns);
    }

    /// Stops grouping by a column. See [`set_group_by`](GridState::set_group_by).
    pub fn ungroup_column(&mut self, column: &ColumnId)
        ensures
            grouping_set(*old(self), *final(self), old(self).group_by@.filter(|x: ColumnId| x@ != column@)),
    {
        let columns = ids_without(&self.group_by, column);
        self.set_group_by(columns);
    }

    /// Where the first toggled group with `key` is.
    fn toggled_position(&self, key: &GroupKey) -> (r: Option<usize>)
        ensures
            r matches Some(i) ==> i < self.toggled_groups.len(),
            match first_position(group_keys(self.toggled_groups@), key@) {
                Some(i) => r == Some(i as usize) && 0 <= i < group_keys(self.toggled_groups@).len(),
                None => r is None,
            },
    {
        proof {
            lemma_first_position_found(group_keys(self.toggled_groups@), key@);
        }
        let ghost keys = group_keys(self.toggled_groups@);
        let mut i: usize = 0;
        while i < self.toggled_groups.len()
            invariant
                i <= self.toggled_groups.len(),
                keys == group_keys(self.toggled_groups@),
                forall|j: int| 0 <= j < i ==> keys[j] != key@,
            decreases self.toggled_groups.len() - i,
        {
            if self.toggled_groups[i].same(key) {
                proof {
                    lemma_first_position(keys, key@, i as int);
                }
                return Some(i);
            }
            i = i + 1;
        }
        proof {
            lemma_first_position(keys, key@, i as int);
        }
        None
    }

    /// Whether the group with `key` shows its rows.
    pub fn is_group_expanded(&self, key: &GroupKey) -> (r: bool)
        ensures
            r == group_expanded(self.groups_collapsed, self.toggled_groups@, key@),
    {
        let found = self.toggled_position(key).is_some();
        proof {
            lemma_first_position_found(group_keys(self.toggled_groups@), key@);
        }
        self.groups_collapsed == found
    }

    /// Expands or collapses one group. A group already in that state is
    /// left alone; otherwise the first toggled entry for it is removed, or it
    /// is added to the toggled groups. Where the toggled groups list the key
    /// at most once, the group afterwards shows its rows exactly when
    /// `expanded`, and no other group changes.
    pub fn set_group_expanded(&mut self, key: &GroupKey, expanded: bool)
        ensures
            group_expanded(old(self).groups_collapsed, old(self).toggled_groups@, key@) == expanded
                ==> final(self).toggled_groups@ == old(self).toggled_groups@,
            group_expanded(old(self).groups_collapsed, old(self).toggled_groups@, key@) != expanded ==> match first_position(
                group_keys(old(self).toggled_groups@),
                key@,
            ) {
                Some(i) => final(self).toggled_groups@ == old(self).toggled_groups@.remove(i),
                None => final(self).toggled_groups@.len() == old(self).toggled_groups@.len() + 1
                    && final(self).toggled_groups@.drop_last() == old(self).toggled_groups@
                    && final(self).toggled_groups@.last()@ == key@,
            },
            at_most_once(group_keys(old(self).toggled_groups@), key@) ==> group_expanded(
                final(self).groups_collapsed,
                final(self).toggled_groups@,
                key@,
            ) == expanded,
            forall|other: Seq<Option<CellModel>>|
                other != key@ ==> group_expanded(final(self).groups_collapsed, final(self).toggled_groups@, other)
                    == group_expanded(old(self).groups_collapsed, old(self).toggled_groups@, other),
            final(self).groups_collapsed == old(self).groups_collapsed,
            final(self).page == old(self).page,
            final(self).sort == old(self).sort,
            final(self).column_filters == old(self).column_filters,
            final(self).filters == old(self).filters,
            final(self).search == old(self).search,
            final(self).column_widths == old(self).column_widths,
            final(self).hidden_columns == old(self).hidden_columns,
            final(self).group_by == old(self).group_by,
    {
        if self.is_group_expanded(key) == expanded {
            return;
        }
        let ghost before = self.toggled_groups@;
        proof {
            lemma_first_position_found(group_keys(before), key@);
        }
        match self.toggled_position(key) {
            Some(i) => {
                self.toggled_groups.remove(i);
                proof {
                    let after = self.toggled_groups@;
                    assert(group_keys(after) =~= group_keys(before).remove(i as int));
                    assert forall|other: Seq<Option<CellModel>>| other != key@ implies group_keys(after).contains(other)
                        == group_keys(before).contains(other) by {
                        if group_keys(before).contains(other) {
                            let j = choose|j: int| 0 <= j < group_keys(before).len() && group_keys(before)[j] == other;
                            if j < i {
                                assert(group_keys(after)[j] == other);
                            } else {
                                assert(group_keys(after)[j - 1] == other);
                            }
                        }
                    }
                    if at_most_once(group_keys(before), key@) {
                        if group_keys(after).contains(key@) {
                            let j = choose|j: int| 0 <= j < group_keys(after).len() && group_keys(after)[j] == key@;
                            if j < i {
                                assert(group_keys(before)[j] == key@);
                            } else {
                                assert(group_keys(before)[j + 1] == key@);
                            }
                        }
                    }
                }
            },
            None => {
                self.toggled_groups.push(key.duplicate());
                proof {
                    let after = self.toggled_groups@;
                    assert(group_keys(after) =~= group_keys(before).push(key@));
                    assert(after.drop_last() =~= before);
                    assert(group_keys(after)[before.len() as int] == key@);
                    assert forall|other: Seq<Option<CellModel>>| other != key@ implies group_keys(after).contains(other)
                        == group_keys(before).contains(other) by {
                        if group_keys(after).contains(other) {
                            let j = choose|j: int| 0 <= j < group_keys(after).len() && group_keys(after)[j] == other;
                            assert(j < before.len());
                            assert(group_keys(before)[j] == other);
                        }
                        if group_keys(before).contains(other) {
                            let j = choose|j: int| 0 <= j < group_keys(before).len() && group_keys(before)[j] == other;
                            assert(group_keys(after)[j] == other);
                        }
                    }
                }
            },
        }
    }

    /// Expands a collapsed group, or collapses an expanded one. Where the
    /// toggled groups list the key at most once, the group's state flips.
    pub fn toggle_group(&mut self, key: &GroupKey)
        ensures
            at_most_once(group_keys(old(self).toggled_groups@), key@) ==> group_expanded(
                final(self).groups_collapsed,
                final(self).toggled_groups@,
                key@,
            ) == !group_expanded(old(self).groups_collapsed, old(self).toggled_groups@, key@),
            forall|other: Seq<Option<CellModel>>|
                other != key@ ==> group_expanded(final(self).groups_collapsed, final(self).toggled_groups@, other)
                    == group_expanded(old(self).groups_collapsed, old(self).toggled_groups@, other),
            final(self).groups_collapsed == old(self).groups_collapsed,
            final(self).page == old(self).page,
            final(self).sort == old(self).sort,
            final(self).column_filters == old(self).column_filters,
            final(self).filters == old(self).filters,
            final(self).search == old(self).search,
            final(self).column_widths == old(self).column_widths,
            final(self).hidden_columns == old(self).hidden_columns,
            final(self).group_by == old(self).group_by,
    {
        let expanded = self.is_group_expanded(key);
        self.set_group_expanded(key, !expanded);
        assert forall|other: Seq<Option<CellModel>>| other != key@ implies group_expanded(
            final(self).groups_collapsed,
            final(self).toggled_groups@,
            other,
        ) == group_expanded(old(self).groups_collapsed, old(self).toggled_groups@, other) by {}
    }

    /// Expands or collapses every group.
    pub fn set_all_groups_expanded(&mut self, expanded: bool)
        ensures
            final(self).groups_collapsed == !expanded,
            final(self).toggled_groups@.len() == 0,
            final(self).page == old(self).page,
            final(self).sort == old(self).sort,
            final(self).column_filters == old(self).column_filters,
            final(self).filters == old(self).filters,
            final(self).search == old(self).search,
            final(self).column_widths == old(self).column_widths,
            final(self).hidden_columns == old(self).hidden_columns,
            final(self).group_by == old(self).group_by,
    {
        self.groups_collapsed = !expanded;
        self.toggled_groups = Vec::new();
    }
}

/// Toggling moves a column one step through the cycle unsorted,
/// ascending, descending, unsorted, and keeps it listed at most once.
pub proof fn lemma_toggle_steps(sort: Seq<SortState>, c: ColumnId, additive: bool)
    requires
        at_most_once(sort_keys(sort), c@),
    ensures
        direction_in(toggled_sort(sort, c, additive), c@) == next_direction(direction_in(sort, c@)),
        at_most_once(sort_keys(toggled_sort(sort, c, additive)), c@),
{
    let keys = sort_keys(sort);
    lemma_first_position_found(keys, c@);
    let t = toggled_sort(sort, c, additive);
    let next = next_direction(direction_in(sort, c@));
    if additive {
        match first_position(keys, c@) {
            Some(i) => {
                match next {
                    Some(d) => {
                        assert(sort_keys(t) =~= keys);
                        lemma_first_position_found(sort_keys(t), c@);
                    },
                    None => {
                        assert(sort_keys(t) =~= keys.remove(i));
                        assert forall|j: int| 0 <= j < sort_keys(t).len() implies sort_keys(t)[j] != c@ by {
                            if j < i {
                                assert(sort_keys(t)[j] == keys[j]);
                            } else {
                                assert(sort_keys(t)[j] == keys[j + 1]);
                            }
                        }
                        lemma_first_position(sort_keys(t), c@, sort_keys(t).len() as int);
                    },
                }
            },
            None => {
                match next {
                    Some(d) => {
                        assert(sort_keys(t) =~= keys.push(c@));
                        lemma_first_position(sort_keys(t), c@, keys.len() as int);
                    },
                    None => {},
                }
            },
        }
    } else {
        match next {
            Some(d) => {
                assert(sort_keys(t) =~= seq![c@]);
                lemma_first_position(sort_keys(t), c@, 0);
            },
            None => {
                assert(sort_keys(t) =~= Seq::<Seq<char>>::empty());
            },
        }
    }
}

/// Toggling the same column three times brings its direction back where it
/// was: unsorted, ascending, descending, unsorted.
pub proof fn lemma_toggle_cycle(sort: Seq<SortState>, c: ColumnId, additive: bool)
    requires
        at_most_once(sort_keys(sort), c@),
    ensures
        direction_in(toggled_sort(toggled_sort(toggled_sort(sort, c, additive), c, additive), c, additive), c@)
            == direction_in(sort, c@),
{
    let once = toggled_sort(sort, c, additive);
    let twice = toggled_sort(once, c, additive);
    lemma_toggle_steps(sort, c, additive);
    lemma_toggle_steps(once, c, additive);
    lemma_toggle_steps(twice, c, additive);
}

/// Setting a column's entry then reading it gives back what was set, or
/// nothing once it was removed; setting a column that already has an entry
/// replaces that entry rather than adding one.
pub proof fn lemma_set_entry_read<T>(v: Seq<(ColumnId, T)>, id: ColumnId, value: T, remove: bool)
    ensures
        entry_for(set_entry(v, id, value, remove), id@) == if remove {
            None
        } else {
            Some(value)
        },
        !remove && pair_keys(v).contains(id@) ==> set_entry(v, id, value, remove).len() == v.len(),
{
    broadcast use vstd::seq_lib::group_filter_ensures;

    let keys = pair_keys(v);
    lemma_first_position_found(keys, id@);
    let r = set_entry(v, id, value, remove);
    if remove {
        let kept = v.filter(|e: (ColumnId, T)| e.0@ != id@);
        assert forall|j: int| 0 <= j < pair_keys(kept).len() implies pair_keys(kept)[j] != id@ by {
            assert(pair_keys(kept)[j] == kept[j].0@);
        }
        lemma_first_position(pair_keys(kept), id@, pair_keys(kept).len() as int);
    } else {
        match first_position(keys, id@) {
            Some(i) => {
                assert(pair_keys(r) =~= keys);
                lemma_first_position_found(pair_keys(r), id@);
            },
            None => {
                assert(pair_keys(r) =~= keys.push(id@));
                lemma_first_position(pair_keys(r), id@, keys.len() as int);
                if keys.contains(id@) {
                    let j = choose|j: int| 0 <= j < keys.len() && keys[j] == id@;
                }
            },
        }
    }
}

/// Hiding a hidden column changes nothing, and showing a column leaves no
/// entry for it.
pub proof fn lemma_hide_idempotent(hidden: Seq<ColumnId>, c: ColumnId)
    ensures
        ({
            let once = if ids_model(hidden).contains(c@) {
                hidden
            } else {
                hidden.push(c)
            };
            &&& ids_model(once).contains(c@)
            &&& (if ids_model(once).contains(c@) {
                once
            } else {
                once.push(c)
            }) == once
        }),
        !ids_model(hidden.filter(|x: ColumnId| x@ != c@)).contains(c@),
{
    broadcast use vstd::seq_lib::group_filter_ensures;

    if !ids_model(hidden).contains(c@) {
        assert(ids_model(hidden.push(c))[hidden.len() as int] == c@);
    }
    let shown = hidden.filter(|x: ColumnId| x@ != c@);
    if ids_model(shown).contains(c@) {
        let j = choose|j: int| 0 <= j < ids_model(shown).len() && ids_model(shown)[j] == c@;
        assert(ids_model(shown)[j] == shown[j]@);
    }
}

/// Whether `s` is a state with nothing set but its paging, `page`.
pub open spec fn is_fresh_state(s: GridState, page: Option<PageState>) -> bool {
    &&& s.page == page
    &&& s.sort@.len() == 0
    &&& s.column_filters@.len() == 0
    &&& s.filters@.len() == 0
    &&& s.search is None
    &&& s.column_widths@.len() == 0
    &&& s.hidden_columns@.len() == 0
    &&& s.group_by@.len() == 0
    &&& !s.groups_collapsed
    &&& s.toggled_groups@.len() == 0
}

/// How a grid behaves, given once when it is created.
#[derive(Clone, Debug, PartialEq)]
pub struct GridOptions {
    /// Rows per page, or `None` to show every row.
    pub page_size: Option<usize>,
    /// Whether and how rows can be selected.
    pub selection: SelectionMode,
    /// State to start from, a persisted [`GridState`] for instance. Takes
    /// precedence over `page_size`.
    pub initial_state: Option<GridState>,
}

impl Default for GridOptions {
    fn default() -> (r: Self)
        ensures
            r.page_size is None,
            r.selection == SelectionMode::Disabled,
            r.initial_state is None,
    {
        GridOptions { page_size: None, selection: SelectionMode::Disabled, initial_state: None }
    }
}

impl GridOptions {
    /// Options for a paged grid.
    pub fn paged(page_size: usize) -> (r: Self)
        ensures
            r.page_size == Some(page_size),
            r.selection == SelectionMode::Disabled,
            r.initial_state is None,
    {
        GridOptions { page_size: Some(page_size), selection: SelectionMode::Disabled, initial_state: None }
    }

    /// Sets the selection mode.
    pub fn selection(self, mode: SelectionMode) -> (r: Self)
        ensures
            r == (GridOptions { selection: mode, ..self }),
    {
        GridOptions { selection: mode, ..self }
    }

    /// Starts from previously persisted state.
    pub fn initial_state(self, state: GridState) -> (r: Self)
        ensures
            r == (GridOptions { initial_state: Some(state), ..self }),
    {
        GridOptions { initial_state: Some(state), ..self }
    }

    /// The state a grid with these options starts in: the initial state if
    /// there is one, otherwise a fresh state paged at the page size, if any.
    pub fn into_state(self) -> (r: GridState)
        ensures
            match self.initial_state {
                Some(s) => r == s,
                None => is_fresh_state(
                    r,
                    match self.page_size {
                        Some(n) => Some(PageState { index: 0, size: n }),
                        None => None,
                    },
                ),
            },
    {
        match self.initial_state {
            Some(s) => s,
            None => match self.page_size {
                Some(size) => GridState::paged(size),
                None => GridState::new(),
            },
        }
    }
}

/// How many of `columns` are shown, given the columns hidden at runtime.
pub open spec fn count_visible(columns: Seq<ColumnSpec>, hidden: Seq<ColumnId>) -> nat
    decreases columns.len(),
{
    if columns.len() == 0 {
        0
    } else {
        count_visible(columns.drop_last(), hidden) + if is_visible_spec(columns.last(), hidden) {
            1nat
        } else {
            0nat
        }
    }
}

/// Whether a column with id `id` is shown.
pub open spec fn is_shown(columns: Seq<ColumnSpec>, hidden: Seq<ColumnId>, id: Seq<char>) -> bool {
    exists|i: int| 0 <= i < columns.len() && (#[trigger] columns[i]).id@ == id && is_visible_spec(columns[i], hidden)
}

/// Whether no two columns share an id.
pub open spec fn distinct_ids(columns: Seq<ColumnSpec>) -> bool {
    forall|i: int, j: int| 0 <= i < columns.len() && 0 <= j < columns.len() && i != j ==> (#[trigger] columns[i]).id@ != (#[trigger] columns[j]).id@
}

/// The columns hidden at runtime after showing or hiding `column`: hiding
/// the last column shown is refused, so that focus always has a cell.
pub open spec fn hidden_after(columns: Seq<ColumnSpec>, hidden: Seq<ColumnId>, column: ColumnId, hide: bool) -> Seq<ColumnId> {
    if hide {
        if is_shown(columns, hidden, column@) && count_visible(columns, hidden) <= 1 {
            hidden
        } else if ids_model(hidden).contains(column@) {
            hidden
        } else {
            hidden.push(column)
        }
    } else {
        hidden.filter(|x: ColumnId| x@ != column@)
    }
}

/// A count of at least one has a column shown, and one of at least two has
/// two.
proof fn lemma_count_visible(columns: Seq<ColumnSpec>, hidden: Seq<ColumnId>)
    ensures
        count_visible(columns, hidden) >= 1 ==> exists|i: int| 0 <= i < columns.len() && #[trigger] is_visible_spec(columns[i], hidden),
        count_visible(columns, hidden) >= 2 ==> exists|i: int, j: int|
            0 <= i < columns.len() && 0 <= j < columns.len() && i != j && #[trigger] is_visible_spec(columns[i], hidden)
                && #[trigger] is_visible_spec(columns[j], hidden),
        (exists|i: int| 0 <= i < columns.len() && #[trigger] is_visible_spec(columns[i], hidden)) ==> count_visible(columns, hidden) >= 1,
    decreases columns.len(),
{
    if columns.len() > 0 {
        let init = columns.drop_last();
        lemma_count_visible(init, hidden);
        let n = columns.len() - 1;
        if count_visible(init, hidden) >= 1 {
            let i = choose|i: int| 0 <= i < init.len() && #[trigger] is_visible_spec(init[i], hidden);
            assert(columns[i] == init[i]);
        }
        if count_visible(init, hidden) >= 2 {
            let (i, j) = choose|i: int, j: int|
                0 <= i < init.len() && 0 <= j < init.len() && i != j && #[trigger] is_visible_spec(init[i], hidden)
                    && #[trigger] is_visible_spec(init[j], hidden);
            assert(columns[i] == init[i] && columns[j] == init[j]);
        }
        if is_visible_spec(columns.last(), hidden) && count_visible(init, hidden) >= 1 {
            let i = choose|i: int| 0 <= i < init.len() && #[trigger] is_visible_spec(init[i], hidden);
            assert(columns[i] == init[i]);
            assert(is_visible_spec(columns[n], hidden));
        }
        if is_visible_spec(columns.last(), hidden) {
            assert(is_visible_spec(columns[n], hidden));
        }
        if exists|i: int| 0 <= i < columns.len() && #[trigger] is_visible_spec(columns[i], hidden) {
            let i = choose|i: int| 0 <= i < columns.len() && #[trigger] is_visible_spec(columns[i], hidden);
            if i < n {
                assert(init[i] == columns[i]);
            }
        }
    }
}

/// The last column shown stays shown: with every column id distinct,
/// showing or hiding a column never leaves a grid that showed a column with
/// none.
pub proof fn lemma_last_column_stays_shown(columns: Seq<ColumnSpec>, hidden: Seq<ColumnId>, column: ColumnId, hide: bool)
    requires
        distinct_ids(columns),
        count_visible(columns, hidden) >= 1,
    ensures
        count_visible(columns, hidden_after(columns, hidden, column, hide)) >= 1,
{
    let after = hidden_after(columns, hidden, column, hide);
    lemma_count_visible(columns, hidden);
    lemma_count_visible(columns, after);
    if after == hidden {
    } else if !hide {
        let i = choose|i: int| 0 <= i < columns.len() && #[trigger] is_visible_spec(columns[i], hidden);
        if ids_model(after).contains(columns[i].id@) {
            let k = choose|k: int| 0 <= k < ids_model(after).len() && ids_model(after)[k] == columns[i].id@;
            assert(after[k] == hidden.filter(|x: ColumnId| x@ != column@)[k]);
            assert(hidden.filter(|x: ColumnId| x@ != column@).contains(after[k]));
            hidden.lemma_filter_contains_rev(|x: ColumnId| x@ != column@, after[k]);
            let w = choose|w: int| 0 <= w < hidden.len() && hidden[w] == after[k];
            assert(ids_model(hidden)[w] == columns[i].id@);
        }
        assert(is_visible_spec(columns[i], after));
    } else {
        assert(after == hidden.push(column));
        let witness = if is_shown(columns, hidden, column@) {
            let (i, j) = choose|i: int, j: int|
                0 <= i < columns.len() && 0 <= j < columns.len() && i != j && #[trigger] is_visible_spec(columns[i], hidden)
                    && #[trigger] is_visible_spec(columns[j], hidden);
            if columns[i].id@ != column@ {
                i
            } else {
                j
            }
        } else {
            choose|i: int| 0 <= i < columns.len() && #[trigger] is_visible_spec(columns[i], hidden)
        };
        assert(columns[witness].id@ != column@);
        assert(ids_model(after) =~= ids_model(hidden).push(column@));
        assert(!ids_model(after).contains(columns[witness].id@));
        assert(is_visible_spec(columns[witness], after));
    }
}

impl GridState {
    /// Moves to the next page if there is one, given how many pages the
    /// view counted.
    pub fn next_page(&mut self, page_count: usize)
        ensures
            final(self).page == match old(self).page {
                Some(p) => Some(PageState {
                    index: if p.index + 1 <= if page_count > 0 { page_count - 1 } else { 0 } {
                        (p.index + 1) as usize
                    } else {
                        (if page_count > 0 { page_count - 1 } else { 0 }) as usize
                    },
                    size: p.size,
                }),
                None => None,
            },
            final(self).sort == old(self).sort,
            final(self).column_filters == old(self).column_filters,
            final(self).filters == old(self).filters,
            final(self).search == old(self).search,
            final(self).column_widths == old(self).column_widths,
            final(self).hidden_columns == old(self).hidden_columns,
            final(self).group_by == old(self).group_by,
            final(self).groups_collapsed == old(self).groups_collapsed,
            final(self).toggled_groups == old(self).toggled_groups,
    {
        if let Some(page) = self.page {
            let last = if page_count > 0 {
                page_count - 1
            } else {
                0
            };
            let next = if page.index < last {
                page.index + 1
            } else {
                last
            };
            self.page = Some(PageState { index: next, size: page.size });
        }
    }

    /// Moves to the previous page if there is one.
    pub fn previous_page(&mut self)
        ensures
            final(self).page == match old(self).page {
                Some(p) => Some(PageState { index: if p.index > 0 { (p.index - 1) as usize } else { 0 }, size: p.size }),
                None => None,
            },
            final(self).sort == old(self).sort,
            final(self).column_filters == old(self).column_filters,
            final(self).filters == old(self).filters,
            final(self).search == old(self).search,
            final(self).column_widths == old(self).column_widths,
            final(self).hidden_columns == old(self).hidden_columns,
            final(self).group_by == old(self).group_by,
            final(self).groups_collapsed == old(self).groups_collapsed,
            final(self).toggled_groups == old(self).toggled_groups,
    {
        if let Some(page) = self.page {
            let previous = if page.index > 0 {
                page.index - 1
            } else {
                0
            };
            self.page = Some(PageState { index: previous, size: page.size });
        }
    }

    /// How many of `columns` are shown.
    pub fn visible_column_count(&self, columns: &[ColumnSpec]) -> (r: usize)
        ensures
            r == count_visible(columns@, self.hidden_columns@),
    {
        let mut n: usize = 0;
        let mut i: usize = 0;
        while i < columns.len()
            invariant
                i <= columns@.len(),
                n == count_visible(columns@.take(i as int), self.hidden_columns@),
                n <= i,
            decreases columns.len() - i,
        {
            proof {
                assert(columns@.take(i + 1).drop_last() =~= columns@.take(i as int));
            }
            if columns[i].is_visible(&self.hidden_columns) {
                n = n + 1;
            }
            i = i + 1;
        }
        assert(columns@.take(i as int) =~= columns@);
        n
    }

    /// The positions of the columns that are shown, in order: what
    /// keyboard navigation moves through.
    pub fn visible_columns(&self, columns: &[ColumnSpec]) -> (r: Vec<usize>)
        ensures
            forall|k: int| 0 <= k < r@.len() ==> (#[trigger] r@[k]) < columns@.len() && is_visible_spec(columns@[r@[k] as int], self.hidden_columns@),
            forall|k: int, l: int| 0 <= k < l < r@.len() ==> #[trigger] r@[k] < #[trigger] r@[l],
            forall|i: int| 0 <= i < columns@.len() && #[trigger] is_visible_spec(columns@[i], self.hidden_columns@) ==> r@.contains(i as usize),
    {
        let mut r: Vec<usize> = Vec::new();
        let mut i: usize = 0;
        while i < columns.len()
            invariant
                i <= columns@.len(),
                forall|k: int| 0 <= k < r@.len() ==> (#[trigger] r@[k]) < i && is_visible_spec(columns@[r@[k] as int], self.hidden_columns@),
                forall|k: int, l: int| 0 <= k < l < r@.len() ==> #[trigger] r@[k] < #[trigger] r@[l],
                forall|j: int| 0 <= j < i && #[trigger] is_visible_spec(columns@[j], self.hidden_columns@) ==> r@.contains(j as usize),
            decreases columns.len() - i,
        {
            if columns[i].is_visible(&self.hidden_columns) {
                let ghost before = r@;
                r.push(i);
                proof {
                    assert forall|j: int| 0 <= j <= i && #[trigger] is_visible_spec(columns@[j], self.hidden_columns@) implies r@.contains(j as usize) by {
                        if j < i {
                            let w = choose|w: int| 0 <= w < before.len() && before[w] == j as usize;
                            assert(r@[w] == j as usize);
                        } else {
                            assert(r@[r@.len() - 1] == i);
                        }
                    }
                }
            }
            i = i + 1;
        }
        r
    }

    /// Whether a column is shown: some column with its id is visible.
    /// Unknown ids are not shown.
    pub fn is_column_visible(&self, columns: &[ColumnSpec], column: &ColumnId) -> (r: bool)
        ensures
            r == is_shown(columns@, self.hidden_columns@, column@),
    {
        let mut i: usize = 0;
        while i < columns.len()
            invariant
                i <= columns@.len(),
                forall|j: int| 0 <= j < i ==> !((#[trigger] columns@[j]).id@ == column@ && is_visible_spec(columns@[j], self.hidden_columns@)),
            decreases columns.len() - i,
        {
            if columns[i].id.same(column) && columns[i].is_visible(&self.hidden_columns) {
                return true;
            }
            i = i + 1;
        }
        false
    }

    /// Shows or hides a column, but refuses to hide the last column shown:
    /// a grid without columns has no cell to hold focus.
    pub fn set_column_shown(&mut self, columns: &[ColumnSpec], column: ColumnId, hide: bool)
        ensures
            final(self).hidden_columns@ == hidden_after(columns@, old(self).hidden_columns@, column, hide),
            final(self).page == old(self).page,
            final(self).sort == old(self).sort,
            final(self).column_filters == old(self).column_filters,
            final(self).filters == old(self).filters,
            final(self).search == old(self).search,
            final(self).column_widths == old(self).column_widths,
            final(self).group_by == old(self).group_by,
            final(self).groups_collapsed == old(self).groups_collapsed,
            final(self).toggled_groups == old(self).toggled_groups,
    {
        if hide && self.is_column_visible(columns, &column) && self.visible_column_count(columns) <= 1 {
            return;
        }
        if hide {
            if !contains_id(&self.hidden_columns, &column) {
                self.hidden_columns.push(column);
            }
        } else {
            self.hidden_columns = ids_without(&self.hidden_columns, &column);
        }
    }
}

} // verus!
