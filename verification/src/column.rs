//! Column identity and what the grid's logic knows about a column.

use crate::filter::{kind_of, Value, ValueKind};
use crate::format::{CellAlign, CellFormat, CellOverflow};
use crate::group::Aggregate;
use crate::locale::{format_text, GridLocale};
use crate::rowsort::Cell;
use crate::sort::TextCollation;
use crate::value::CellValue;
use vstd::prelude::*;

verus! {

/// A stable, human-readable column identifier. An id that no longer
/// resolves to a column is ignored rather than treated as an error.
#[derive(Clone, Debug, Eq, Hash, PartialOrd, Ord)]
pub struct ColumnId(String);

impl View for ColumnId {
    type V = Seq<char>;

    closed spec fn view(&self) -> Seq<char> {
        self.0@
    }
}

impl PartialEq for ColumnId {
    fn eq(&self, other: &Self) -> (r: bool) {
        self.0 == other.0
    }
}

impl vstd::std_specs::cmp::PartialEqSpecImpl for ColumnId {
    open spec fn obeys_eq_spec() -> bool {
        true
    }

    open spec fn eq_spec(&self, other: &Self) -> bool {
        self@ == other@
    }
}

impl ColumnId {
    /// Creates a column id.
    pub fn new(id: &str) -> (r: Self)
        ensures
            r@ == id@,
    {
        ColumnId(id.to_owned())
    }

    /// Borrows the id as a string slice.
    pub fn as_str(&self) -> (r: &str)
        ensures
            r@ == self@,
    {
        self.0.as_str()
    }

    /// An identical copy.
    pub fn duplicate(&self) -> (r: Self)
        ensures
            r == *self,
    {
        ColumnId(self.0.clone())
    }

    /// Whether two ids are the same.
    pub fn same(&self, other: &Self) -> (r: bool)
        ensures
            r == (self@ == other@),
    {
        self.0 == other.0
    }
}

impl<'a> From<&'a str> for ColumnId {
    fn from(value: &'a str) -> (r: Self)
        ensures
            r@ == value@,
    {
        ColumnId(value.to_owned())
    }
}

impl<'a> vstd::std_specs::convert::FromSpecImpl<&'a str> for ColumnId {
    open spec fn obeys_from_spec() -> bool {
        false
    }

    open spec fn from_spec(v: &'a str) -> Self {
        arbitrary()
    }
}

impl From<String> for ColumnId {
    fn from(value: String) -> (r: Self)
        ensures
            r@ == value@,
    {
        ColumnId(value)
    }
}

impl vstd::std_specs::convert::FromSpecImpl<String> for ColumnId {
    open spec fn obeys_from_spec() -> bool {
        false
    }

    open spec fn from_spec(v: String) -> Self {
        arbitrary()
    }
}

/// The ids of a list of columns.
pub open spec fn ids_model(ids: Seq<ColumnId>) -> Seq<Seq<char>> {
    ids.map_values(|id: ColumnId| id@)
}

/// Whether `id` is in `ids`.
pub fn contains_id(ids: &Vec<ColumnId>, id: &ColumnId) -> (r: bool)
    ensures
        r == ids_model(ids@).contains(id@),
{
    let ghost model = ids_model(ids@);
    let mut i: usize = 0;
    while i < ids.len()
        invariant
            i <= ids.len(),
            model == ids_model(ids@),
            forall|j: int| 0 <= j < i ==> model[j] != id@,
        decreases ids.len() - i,
    {
        if ids[i].same(id) {
            assert(model[i as int] == id@);
            return true;
        }
        i = i + 1;
    }
    false
}

/// Everything the grid's logic knows about one column.
///
/// The row-reading closures of a column live with the renderer, which
/// reads the rows into [`Cell`](crate::Cell)s; this holds the plain
/// settings and whether those closures exist.
#[derive(Clone, Debug, PartialEq, Eq)]
pub struct ColumnSpec {
    /// Stable identifier, referenced from [`GridState`](crate::GridState).
    pub id: ColumnId,
    /// Whether the column reads a typed value from its rows.
    pub has_value: bool,
    /// Whether the column can be sorted by its value. `true` by default; it
    /// has no effect without a value.
    pub sortable: bool,
    /// Whether the column has text it is filtered and searched by.
    pub has_filter_text: bool,
    /// Whether the user may change this column's width. `true` by default.
    pub resizable: bool,
    /// Whether the column is shown by default.
    pub visible: bool,
    /// How this column compares text when sorting.
    pub collation: TextCollation,
    /// How the value is turned into text.
    pub format: CellFormat,
    /// Horizontal alignment; `None` derives it from the format.
    pub align: Option<CellAlign>,
    /// What happens to content wider than the column.
    pub overflow: CellOverflow,
    /// What kind of value the column holds; `None` finds out from the rows.
    pub kind: Option<ValueKind>,
    /// Whether the column has a setter, so its cells can be edited.
    pub editable: bool,
    /// The only values an edit may give the column; none limits nothing.
    pub choices: Vec<Value>,
    /// What the column's footers show, in order.
    pub aggregates: Vec<Aggregate>,
}

/// Whether a column shows, given the columns hidden at runtime: its own flag
/// is set and it is not among them.
pub open spec fn is_visible_spec(c: ColumnSpec, hidden: Seq<ColumnId>) -> bool {
    c.visible && !ids_model(hidden).contains(c.id@)
}

/// What kind of value a column holds, given its values in the rows: the
/// declared kind, else the kind of the first value that is not empty, else
/// text if it has filter text.
pub open spec fn value_kind_spec(c: ColumnSpec, values: Seq<crate::value::CellModel>) -> Option<ValueKind> {
    if c.kind is Some {
        c.kind
    } else if c.has_value && exists|i: int| 0 <= i < values.len() && kind_of(#[trigger] values[i]) is Some {
        let i = choose|i: int|
            0 <= i < values.len() && kind_of(values[i]) is Some && forall|j: int| 0 <= j < i ==> kind_of(#[trigger] values[j]) is None;
        kind_of(values[i])
    } else if c.has_filter_text {
        Some(ValueKind::Text)
    } else {
        None
    }
}

impl ColumnSpec {
    /// A visible column with no value and no filter text.
    pub fn new(id: ColumnId) -> (r: Self)
        ensures
            r.id == id,
            !r.has_value,
            r.sortable,
            !r.has_filter_text,
            r.resizable,
            r.visible,
            r.collation == TextCollation::CaseInsensitive,
            r.format == CellFormat::Plain,
            r.align is None,
            r.overflow == CellOverflow::Truncate,
            r.kind is None,
            !r.editable,
            r.choices@.len() == 0,
            r.aggregates@.len() == 0,
    {
        ColumnSpec {
            id,
            has_value: false,
            sortable: true,
            has_filter_text: false,
            resizable: true,
            visible: true,
            collation: TextCollation::CaseInsensitive,
            format: CellFormat::Plain,
            align: None,
            overflow: CellOverflow::Truncate,
            kind: None,
            editable: false,
            choices: Vec::new(),
            aggregates: Vec::new(),
        }
    }

    /// Marks the column as reading a typed value from its rows.
    pub fn with_value(self) -> (r: Self)
        ensures
            r == (ColumnSpec { has_value: true, ..self }),
    {
        ColumnSpec { has_value: true, ..self }
    }

    /// Marks the column as having text it is filtered and searched by.
    pub fn with_filter_text(self) -> (r: Self)
        ensures
            r == (ColumnSpec { has_filter_text: true, ..self }),
    {
        ColumnSpec { has_filter_text: true, ..self }
    }

    /// Marks the column as having a setter, so its cells can be edited.
    pub fn with_setter(self) -> (r: Self)
        ensures
            r == (ColumnSpec { editable: true, ..self }),
    {
        ColumnSpec { editable: true, ..self }
    }

    /// Limits the column to these values, offered as a list to choose from.
    pub fn choices(self, choices: Vec<Value>) -> (r: Self)
        ensures
            r == (ColumnSpec { choices, ..self }),
    {
        ColumnSpec { choices, ..self }
    }

    /// Adds an aggregate to show below the column, after those it has.
    pub fn aggregate(self, aggregate: Aggregate) -> (r: Self)
        ensures
            r.aggregates@ == self.aggregates@.push(aggregate),
            r == (ColumnSpec { aggregates: r.aggregates, ..self }),
    {
        let mut column = self;
        column.aggregates.push(aggregate);
        column
    }

    /// Whether the column can be edited.
    pub fn is_editable(&self) -> (r: bool)
        ensures
            r == self.editable,
    {
        self.editable
    }

    /// Sets whether the column can be sorted by its value.
    pub fn sortable(self, sortable: bool) -> (r: Self)
        ensures
            r == (ColumnSpec { sortable, ..self }),
    {
        ColumnSpec { sortable, ..self }
    }

    /// Sets how the value is turned into text.
    pub fn format(self, format: CellFormat) -> (r: Self)
        ensures
            r == (ColumnSpec { format, ..self }),
    {
        ColumnSpec { format, ..self }
    }

    /// Sets the horizontal alignment, overriding the one derived from the
    /// format.
    pub fn align(self, align: CellAlign) -> (r: Self)
        ensures
            r == (ColumnSpec { align: Some(align), ..self }),
    {
        ColumnSpec { align: Some(align), ..self }
    }

    /// Sets what happens to content wider than the column.
    pub fn overflow(self, overflow: CellOverflow) -> (r: Self)
        ensures
            r == (ColumnSpec { overflow, ..self }),
    {
        ColumnSpec { overflow, ..self }
    }

    /// Sets whether the user may change this column's width.
    pub fn resizable(self, resizable: bool) -> (r: Self)
        ensures
            r == (ColumnSpec { resizable, ..self }),
    {
        ColumnSpec { resizable, ..self }
    }

    /// Sets the text collation used when sorting this column.
    pub fn collation(self, collation: TextCollation) -> (r: Self)
        ensures
            r == (ColumnSpec { collation, ..self }),
    {
        ColumnSpec { collation, ..self }
    }

    /// Hides the column by default.
    pub fn hidden(self) -> (r: Self)
        ensures
            r == (ColumnSpec { visible: false, ..self }),
    {
        ColumnSpec { visible: false, ..self }
    }

    /// Declares what kind of value the column holds.
    pub fn kind(self, kind: ValueKind) -> (r: Self)
        ensures
            r == (ColumnSpec { kind: Some(kind), ..self }),
    {
        ColumnSpec { kind: Some(kind), ..self }
    }

    /// Whether the column is visible: its own flag is set and it is not
    /// among the columns hidden at runtime.
    pub fn is_visible(&self, hidden_columns: &Vec<ColumnId>) -> (r: bool)
        ensures
            r == is_visible_spec(*self, hidden_columns@),
    {
        self.visible && !contains_id(hidden_columns, &self.id)
    }

    /// The alignment to lay the cell out with: the column's own if set,
    /// otherwise the format's default.
    pub fn effective_align(&self) -> (r: CellAlign)
        ensures
            r == match self.align {
                Some(a) => a,
                None => if crate::format::is_numeric_format(self.format) {
                    CellAlign::End
                } else {
                    CellAlign::Start
                },
            },
    {
        match self.align {
            Some(a) => a,
            None => self.format.default_align(),
        }
    }

    /// Whether this column can be filtered: by its filter text, its value
    /// or both.
    pub fn is_filterable(&self) -> (r: bool)
        ensures
            r == (self.has_filter_text || self.has_value),
    {
        self.has_filter_text || self.has_value
    }

    /// Whether the global search looks at this column: only by its filter
    /// text.
    pub fn is_searchable(&self) -> (r: bool)
        ensures
            r == self.has_filter_text,
    {
        self.has_filter_text
    }

    /// Whether this column can be sorted.
    pub fn is_sortable(&self) -> (r: bool)
        ensures
            r == (self.sortable && self.has_value),
    {
        self.sortable && self.has_value
    }

    /// What kind of value the column holds, given its values in the rows:
    /// the declared kind, otherwise the kind of the first value that is not
    /// empty, otherwise text if it has filter text.
    pub fn value_kind(&self, values: &Vec<CellValue<'_>>) -> (r: Option<ValueKind>)
        ensures
            r == value_kind_spec(*self, values@.map_values(|v: CellValue| v@)),
    {
        let ghost model = values@.map_values(|v: CellValue| v@);
        if self.kind.is_some() {
            return self.kind;
        }
        if self.has_value {
            let mut i: usize = 0;
            while i < values.len()
                invariant
                    i <= values.len(),
                    self.kind is None,
                    self.has_value,
                    model == values@.map_values(|v: CellValue| v@),
                    forall|j: int| 0 <= j < i ==> kind_of(#[trigger] model[j]) is None,
                decreases values.len() - i,
            {
                let k = ValueKind::of(&values[i]);
                if k.is_some() {
                    proof {
                        assert(kind_of(model[i as int]) is Some);
                        assert(exists|c: int| 0 <= c < model.len() && kind_of(#[trigger] model[c]) is Some);
                        let c = choose|c: int|
                            0 <= c < model.len() && kind_of(model[c]) is Some && forall|j: int|
                                0 <= j < c ==> kind_of(#[trigger] model[j]) is None;
                        if c < i {
                            assert(kind_of(model[c]) is None);
                        }
                        if c > i {
                            assert(kind_of(model[i as int]) is None);
                        }
                    }
                    return k;
                }
                i = i + 1;
            }
        }
        if self.has_filter_text {
            Some(ValueKind::Text)
        } else {
            None
        }
    }

    /// This column's value in a row's cell, or the empty value if the
    /// column has no value.
    pub fn read<'a>(&self, cell: &Cell<'a>) -> (r: CellValue<'a>)
        ensures
            r@ == if self.has_value {
                cell.value@
            } else {
                crate::value::CellModel::Empty
            },
    {
        if self.has_value {
            cell.value
        } else {
            CellValue::Empty
        }
    }

    /// This column's value in a row's cell as text, in the column's format
    /// and the given locale; `None` for a column without a value.
    pub fn display_text(&self, cell: &Cell, locale: &GridLocale) -> (r: Option<String>)
        ensures
            match r {
                Some(s) => self.has_value && s@ == format_text(*locale, cell.value@, self.format),
                None => !self.has_value,
            },
    {
        if self.has_value {
            Some(locale.format(&cell.value, &self.format))
        } else {
            None
        }
    }
}

} // verus!
