//! Groups of rows sharing column values, and the aggregates shown for them.

use crate::column::ColumnId;
use crate::filter::{FilterValue, Value};
use crate::value::CellModel;
use vstd::prelude::*;

verus! {

/// What an aggregate computes: what a result is labelled with, and what a
/// server is asked for.
#[derive(Clone, Debug, PartialEq, Eq, Hash)]
pub enum AggregateKind {
    /// The sum of the numbers.
    Sum,
    /// The mean of the numbers.
    Average,
    /// The smallest value, in the column's sort order.
    Min,
    /// The largest value, in the column's sort order.
    Max,
    /// How many rows have a value in the column.
    Count,
    /// A function of the application's, under this label.
    Custom(String),
}

/// The content of an [`AggregateKind`].
pub enum AggregateKindModel {
    /// The sum.
    Sum,
    /// The mean.
    Average,
    /// The smallest value.
    Min,
    /// The largest value.
    Max,
    /// The count.
    Count,
    /// A custom aggregate with this label.
    Custom(Seq<char>),
}

impl View for AggregateKind {
    type V = AggregateKindModel;

    open spec fn view(&self) -> AggregateKindModel {
        match self {
            AggregateKind::Sum => AggregateKindModel::Sum,
            AggregateKind::Average => AggregateKindModel::Average,
            AggregateKind::Min => AggregateKindModel::Min,
            AggregateKind::Max => AggregateKindModel::Max,
            AggregateKind::Count => AggregateKindModel::Count,
            AggregateKind::Custom(label) => AggregateKindModel::Custom(label@),
        }
    }
}

impl AggregateKind {
    /// Whether two kinds are the same.
    pub fn same(&self, other: &Self) -> (r: bool)
        ensures
            r == (self@ == other@),
    {
        match (self, other) {
            (AggregateKind::Sum, AggregateKind::Sum) => true,
            (AggregateKind::Average, AggregateKind::Average) => true,
            (AggregateKind::Min, AggregateKind::Min) => true,
            (AggregateKind::Max, AggregateKind::Max) => true,
            (AggregateKind::Count, AggregateKind::Count) => true,
            (AggregateKind::Custom(a), AggregateKind::Custom(b)) => *a == *b,
            _ => false,
        }
    }
}

/// An aggregate of one column: what a footer shows below it. A custom
/// aggregate's computation is the renderer's; here it is its label.
#[derive(Clone, Debug, PartialEq, Eq)]
pub enum Aggregate {
    /// The sum.
    Sum,
    /// The mean.
    Average,
    /// The smallest value.
    Min,
    /// The largest value.
    Max,
    /// How many rows have a value.
    Count,
    /// Anything else, computed from the rows themselves.
    Custom {
        /// What the result is labelled with.
        label: String,
    },
}

/// What an aggregate computes.
pub open spec fn kind_of_aggregate(a: Aggregate) -> AggregateKindModel {
    match a {
        Aggregate::Sum => AggregateKindModel::Sum,
        Aggregate::Average => AggregateKindModel::Average,
        Aggregate::Min => AggregateKindModel::Min,
        Aggregate::Max => AggregateKindModel::Max,
        Aggregate::Count => AggregateKindModel::Count,
        Aggregate::Custom { label } => AggregateKindModel::Custom(label@),
    }
}

impl Aggregate {
    /// A custom aggregate, labelled `label`.
    pub fn custom(label: &str) -> (r: Self)
        ensures
            r matches Aggregate::Custom { label: l } && l@ == label@,
    {
        Aggregate::Custom { label: label.to_owned() }
    }

    /// What this aggregate computes.
    pub fn kind(&self) -> (r: AggregateKind)
        ensures
            r@ == kind_of_aggregate(*self),
    {
        match self {
            Aggregate::Sum => AggregateKind::Sum,
            Aggregate::Average => AggregateKind::Average,
            Aggregate::Min => AggregateKind::Min,
            Aggregate::Max => AggregateKind::Max,
            Aggregate::Count => AggregateKind::Count,
            Aggregate::Custom { label } => AggregateKind::Custom(label.clone()),
        }
    }
}

/// One aggregate's result.
#[derive(Clone, Debug, PartialEq, Eq)]
pub struct AggregateValue {
    /// The column it aggregates.
    pub column: ColumnId,
    /// What it computed.
    pub kind: AggregateKind,
    /// The result; `None` when there was nothing to aggregate.
    pub value: Option<Value>,
}

/// The position of the first aggregate of `kind` over `column`, if any.
pub open spec fn aggregate_position(aggregates: Seq<AggregateValue>, column: Seq<char>, kind: AggregateKindModel) -> Option<int> {
    if exists|i: int| 0 <= i < aggregates.len() && aggregates[i].column@ == column && aggregates[i].kind@ == kind {
        Some(choose|i: int|
            0 <= i < aggregates.len() && aggregates[i].column@ == column && aggregates[i].kind@ == kind && forall|j: int|
                0 <= j < i ==> !(aggregates[j].column@ == column && aggregates[j].kind@ == kind))
    } else {
        None
    }
}

/// The aggregate of `kind` over `column` among `aggregates`: the first one.
pub fn find_aggregate<'a>(aggregates: &'a Vec<AggregateValue>, column: &ColumnId, kind: &AggregateKind) -> (r: Option<&'a AggregateValue>)
    ensures
        match aggregate_position(aggregates@, column@, kind@) {
            Some(i) => r == Some(&aggregates@[i]),
            None => r is None,
        },
{
    let mut i: usize = 0;
    while i < aggregates.len()
        invariant
            i <= aggregates.len(),
            forall|j: int| 0 <= j < i ==> !(aggregates@[j].column@ == column@ && aggregates@[j].kind@ == kind@),
        decreases aggregates.len() - i,
    {
        if aggregates[i].column.same(column) && aggregates[i].kind.same(kind) {
            proof {
                let p = choose|p: int|
                    0 <= p < aggregates@.len() && aggregates@[p].column@ == column@ && aggregates@[p].kind@ == kind@
                        && forall|j: int| 0 <= j < p ==> !(aggregates@[j].column@ == column@ && aggregates@[j].kind@ == kind@);
                assert(aggregates@[i as int].column@ == column@ && aggregates@[i as int].kind@ == kind@);
                if p < i {
                }
                if i < p {
                }
            }
            return Some(&aggregates[i]);
        }
        i = i + 1;
    }
    None
}

/// Where a group sits: the value of each grouped column, from the outermost
/// group down to this one.
#[derive(Clone, Debug, Default, PartialEq, Eq, Hash)]
pub struct GroupKey(pub Vec<Option<Value>>);

/// The content of an optional filter value.
pub open spec fn opt_model(v: Option<FilterValue>) -> Option<CellModel> {
    match v {
        Some(x) => Some(x@),
        None => None,
    }
}

impl View for GroupKey {
    type V = Seq<Option<CellModel>>;

    open spec fn view(&self) -> Seq<Option<CellModel>> {
        self.0@.map_values(|v: Option<FilterValue>| opt_model(v))
    }
}

/// An identical copy of an optional value.
pub fn duplicate_opt(v: &Option<Value>) -> (r: Option<Value>)
    ensures
        opt_model(r) == opt_model(*v),
{
    match v {
        Some(x) => Some(x.duplicate()),
        None => None,
    }
}

/// Whether two optional values are the same.
fn same_opt(a: &Option<Value>, b: &Option<Value>) -> (r: bool)
    ensures
        r == (opt_model(*a) == opt_model(*b)),
{
    match (a, b) {
        (Some(x), Some(y)) => *x == *y,
        (None, None) => true,
        _ => false,
    }
}

impl GroupKey {
    /// How deep the group is: `1` for a group of the first grouped column.
    pub fn depth(&self) -> (r: usize)
        ensures
            r == self@.len(),
    {
        self.0.len()
    }

    /// An identical copy.
    pub fn duplicate(&self) -> (r: Self)
        ensures
            r@ == self@,
    {
        let mut path: Vec<Option<Value>> = Vec::new();
        let mut i: usize = 0;
        while i < self.0.len()
            invariant
                i <= self.0.len(),
                path@.len() == i,
                forall|j: int| 0 <= j < i ==> opt_model(#[trigger] path@[j]) == opt_model(self.0@[j]),
            decreases self.0.len() - i,
        {
            path.push(duplicate_opt(&self.0[i]));
            i = i + 1;
        }
        let r = GroupKey(path);
        assert(r@ =~= self@);
        r
    }

    /// Whether two keys name the same group.
    pub fn same(&self, other: &Self) -> (r: bool)
        ensures
            r == (self@ == other@),
    {
        if self.0.len() != other.0.len() {
            assert(self@.len() != other@.len());
            return false;
        }
        let mut i: usize = 0;
        while i < self.0.len()
            invariant
                i <= self.0.len(),
                self.0.len() == other.0.len(),
                forall|j: int| 0 <= j < i ==> self@[j] == other@[j],
            decreases self.0.len() - i,
        {
            if !same_opt(&self.0[i], &other.0[i]) {
                assert(self@[i as int] != other@[i as int]);
                return false;
            }
            i = i + 1;
        }
        assert(self@ =~= other@);
        true
    }

    /// The key of a group inside this one, holding `value`.
    pub fn child(&self, value: Option<Value>) -> (r: Self)
        ensures
            r@ == self@.push(opt_model(value)),
    {
        let mut key = self.duplicate();
        key.0.push(value);
        assert(key@ =~= self@.push(opt_model(value)));
        key
    }

    /// The key of the group this one is inside; `None` at the top.
    pub fn parent(&self) -> (r: Option<Self>)
        ensures
            match r {
                Some(p) => self@.len() > 1 && p@ == self@.drop_last(),
                None => self@.len() <= 1,
            },
    {
        if self.0.len() <= 1 {
            return None;
        }
        let mut key = self.duplicate();
        key.0.pop();
        assert(key@ =~= self@.drop_last());
        Some(key)
    }
}

/// A group of rows sharing a value in a grouped column.
#[derive(Clone, Debug, PartialEq, Eq)]
pub struct Group {
    /// Which group this is.
    pub key: GroupKey,
    /// The grouped column.
    pub column: ColumnId,
    /// The value its rows share; `None` for the rows without one.
    pub value: Option<Value>,
    /// How deep it sits, zero-based.
    pub level: usize,
    /// How many data rows it holds, across every page.
    pub count: usize,
    /// Whether its rows are shown.
    pub expanded: bool,
    /// Its position among the groups of the same parent, one-based.
    pub position: usize,
    /// How many groups share its parent.
    pub siblings: usize,
    /// The columns' aggregates over its rows.
    pub aggregates: Vec<AggregateValue>,
}

impl Group {
    /// The aggregate of `kind` over `column` in this group, if there is one.
    pub fn aggregate(&self, column: &ColumnId, kind: &AggregateKind) -> (r: Option<&AggregateValue>)
        ensures
            match aggregate_position(self.aggregates@, column@, kind@) {
                Some(i) => r == Some(&self.aggregates@[i]),
                None => r is None,
            },
    {
        find_aggregate(&self.aggregates, column, kind)
    }
}

/// The content of an [`AggregateValue`].
pub struct AggregateValueModel {
    /// The aggregated column's id.
    pub column: Seq<char>,
    /// What it computed.
    pub kind: AggregateKindModel,
    /// The result.
    pub value: Option<CellModel>,
}

impl View for AggregateValue {
    type V = AggregateValueModel;

    open spec fn view(&self) -> AggregateValueModel {
        AggregateValueModel { column: self.column@, kind: self.kind@, value: opt_model(self.value) }
    }
}

/// The contents of a list of aggregate results.
pub open spec fn aggregates_model(v: Seq<AggregateValue>) -> Seq<AggregateValueModel> {
    v.map_values(|a: AggregateValue| a@)
}

/// The content of a [`Group`].
pub struct GroupModel {
    /// Which group this is.
    pub key: Seq<Option<CellModel>>,
    /// The grouped column's id.
    pub column: Seq<char>,
    /// The value its rows share.
    pub value: Option<CellModel>,
    /// How deep it sits.
    pub level: usize,
    /// How many data rows it holds.
    pub count: usize,
    /// Whether its rows are shown.
    pub expanded: bool,
    /// Its position among its siblings.
    pub position: usize,
    /// How many groups share its parent.
    pub siblings: usize,
    /// Its aggregates.
    pub aggregates: Seq<AggregateValueModel>,
}

impl View for Group {
    type V = GroupModel;

    open spec fn view(&self) -> GroupModel {
        GroupModel {
            key: self.key@,
            column: self.column@,
            value: opt_model(self.value),
            level: self.level,
            count: self.count,
            expanded: self.expanded,
            position: self.position,
            siblings: self.siblings,
            aggregates: aggregates_model(self.aggregates@),
        }
    }
}

impl AggregateKind {
    /// An identical copy.
    pub fn duplicate(&self) -> (r: Self)
        ensures
            r@ == self@,
    {
        match self {
            AggregateKind::Sum => AggregateKind::Sum,
            AggregateKind::Average => AggregateKind::Average,
            AggregateKind::Min => AggregateKind::Min,
            AggregateKind::Max => AggregateKind::Max,
            AggregateKind::Count => AggregateKind::Count,
            AggregateKind::Custom(label) => AggregateKind::Custom(label.clone()),
        }
    }
}

impl AggregateValue {
    /// An identical copy.
    pub fn duplicate(&self) -> (r: Self)
        ensures
            r@ == self@,
    {
        AggregateValue {
            column: self.column.duplicate(),
            kind: self.kind.duplicate(),
            value: duplicate_opt(&self.value),
        }
    }
}

/// An identical copy of a list of aggregate results.
pub fn duplicate_aggregates(v: &Vec<AggregateValue>) -> (r: Vec<AggregateValue>)
    ensures
        aggregates_model(r@) == aggregates_model(v@),
{
    let mut r: Vec<AggregateValue> = Vec::new();
    let mut i: usize = 0;
    while i < v.len()
        invariant
            i <= v@.len(),
            r@.len() == i,
            forall|j: int| 0 <= j < i ==> (#[trigger] r@[j])@ == v@[j]@,
        decreases v.len() - i,
    {
        r.push(v[i].duplicate());
        i = i + 1;
    }
    assert(aggregates_model(r@) =~= aggregates_model(v@));
    r
}

impl Group {
    /// An identical copy.
    pub fn duplicate(&self) -> (r: Self)
        ensures
            r@ == self@,
    {
        Group {
            key: self.key.duplicate(),
            column: self.column.duplicate(),
            value: duplicate_opt(&self.value),
            level: self.level,
            count: self.count,
            expanded: self.expanded,
            position: self.position,
            siblings: self.siblings,
            aggregates: duplicate_aggregates(&self.aggregates),
        }
    }
}

} // verus!
