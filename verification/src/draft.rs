//! The filter menu's form: one column's typed filter as the user edits it,
//! either as up to two conditions or as a list of values to tick, and the
//! filter it stands for once applied.

use crate::distinct::{find_value, insert_position, lemma_insert_sorted, DistinctValues};
use crate::filter::{
    conditions_model, duplicate_values, edit_text_spec, operators_of, values_model, ColumnFilter,
    Condition, ConditionModel, FilterModel, FilterOp, FilterValue, Value, ValueKind,
};
use crate::sort::TextCollation;
use crate::text::{
    chars_of, contains_chars, has_substring, is_blank, lowercase_str, str_lowercase, trim_spec,
    trim_text,
};
use crate::value::{cell_le, cell_order, lemma_cell_reflexive, lemma_cell_reverse, CellModel};
use std::cmp::Ordering;
use vstd::prelude::*;

verus! {

/// How many values a value list shows unless told otherwise.
pub const DEFAULT_VALUE_LIMIT: usize = 1000;

/// Which half of the menu is showing.
#[derive(Clone, Copy, Debug, PartialEq, Eq, Structural)]
pub enum DraftMode {
    /// Operator-and-operand pairs.
    Conditions,
    /// A list of values to tick.
    Values,
}

/// One condition as the form holds it: the text as typed, not yet read.
#[derive(Clone, Debug, Default, PartialEq)]
pub struct DraftCondition {
    /// The operator, if one is chosen.
    pub op: Option<FilterOp>,
    /// The first operand's text.
    pub first: String,
    /// The second operand's text, for a range.
    pub second: String,
}

/// The content of a [`DraftCondition`].
pub struct DraftConditionModel {
    /// The operator, if one is chosen.
    pub op: Option<FilterOp>,
    /// The first operand's text.
    pub first: Seq<char>,
    /// The second operand's text.
    pub second: Seq<char>,
}

impl View for DraftCondition {
    type V = DraftConditionModel;

    open spec fn view(&self) -> DraftConditionModel {
        DraftConditionModel { op: self.op, first: self.first@, second: self.second@ }
    }
}

/// The operand an input's text stands for: the text, trimmed.
pub open spec fn operand_of(text: Seq<char>) -> CellModel {
    CellModel::Text(trim_spec(text))
}

/// The condition a form's pair stands for, or `None` while it is
/// incomplete: no operator, or an operand missing.
pub open spec fn draft_condition_spec(d: DraftConditionModel) -> Option<ConditionModel> {
    match d.op {
        None => None,
        Some(op) => if op == FilterOp::IsEmpty || op == FilterOp::IsNotEmpty {
            Some(ConditionModel { op, values: Seq::empty() })
        } else if op == FilterOp::Between {
            if is_blank(d.first) || is_blank(d.second) {
                None
            } else {
                Some(ConditionModel { op, values: seq![operand_of(d.first), operand_of(d.second)] })
            }
        } else if is_blank(d.first) {
            None
        } else {
            Some(ConditionModel { op, values: seq![operand_of(d.first)] })
        },
    }
}

/// How operand `i` reads in an input: its edit text, or nothing when there
/// is no such operand.
pub open spec fn operand_text(values: Seq<CellModel>, i: int) -> Seq<char> {
    if 0 <= i < values.len() {
        edit_text_spec(values[i])
    } else {
        Seq::empty()
    }
}

/// The form's pair for a condition.
pub open spec fn condition_draft(c: ConditionModel) -> DraftConditionModel {
    DraftConditionModel { op: Some(c.op), first: operand_text(c.values, 0), second: operand_text(c.values, 1) }
}

/// A pair with neither operator nor operands.
pub open spec fn blank_condition() -> DraftConditionModel {
    DraftConditionModel { op: None, first: Seq::empty(), second: Seq::empty() }
}

impl DraftCondition {
    /// A pair with neither operator nor operands.
    pub fn blank() -> (r: Self)
        ensures
            r@ == blank_condition(),
    {
        DraftCondition { op: None, first: String::new(), second: String::new() }
    }

    /// The form's pair for a condition: its operator, and its first two
    /// operands as they read in an input.
    pub fn from_condition(condition: &Condition) -> (r: Self)
        ensures
            r@ == condition_draft(condition@),
    {
        let first = if condition.values.len() > 0 {
            condition.values[0].edit_text()
        } else {
            String::new()
        };
        let second = if condition.values.len() > 1 {
            condition.values[1].edit_text()
        } else {
            String::new()
        };
        DraftCondition { op: Some(condition.op), first, second }
    }

    /// The condition, or `None` if it is incomplete: no operator, or an
    /// operand missing. Operands are the trimmed text.
    pub fn build(&self) -> (r: Option<Condition>)
        ensures
            match r {
                Some(c) => draft_condition_spec(self@) == Some(c@),
                None => draft_condition_spec(self@) is None,
            },
    {
        let op = match self.op {
            Some(op) => op,
            None => return None,
        };
        let first = trim_text(self.first.as_str());
        let values: Vec<Value> = match op.operands() {
            Some(0) => Vec::new(),
            Some(2) => {
                let second = trim_text(self.second.as_str());
                if first.as_str().is_empty() || second.as_str().is_empty() {
                    return None;
                }
                vec![FilterValue::Text(first), FilterValue::Text(second)]
            },
            _ => {
                if first.as_str().is_empty() {
                    return None;
                }
                vec![FilterValue::Text(first)]
            },
        };
        let r = Condition::new(op, values);
        assert(r@.values =~= draft_condition_spec(self@).unwrap().values);
        Some(r)
    }
}

/// Everything the filter menu lets the user change before applying it.
#[derive(Clone, Debug, PartialEq)]
pub struct Draft {
    /// Which half of the menu is showing.
    pub mode: DraftMode,
    /// The first condition.
    pub first: DraftCondition,
    /// The second condition.
    pub second: DraftCondition,
    /// Whether either condition suffices, rather than both.
    pub any: bool,
    /// The ticked values, each counted once, or `None` for every value,
    /// which is no filter.
    pub ticked: Option<Vec<Value>>,
    /// Whether rows without a value are ticked.
    pub empty: bool,
    /// What the value list is searched for.
    pub search: String,
}

/// The content of a [`Draft`].
pub struct DraftModel {
    /// Which half of the menu is showing.
    pub mode: DraftMode,
    /// The first condition.
    pub first: DraftConditionModel,
    /// The second condition.
    pub second: DraftConditionModel,
    /// Whether either condition suffices.
    pub any: bool,
    /// The ticked values, or `None` for every value.
    pub ticked: Option<Set<CellModel>>,
    /// Whether rows without a value are ticked.
    pub empty: bool,
    /// What the value list is searched for.
    pub search: Seq<char>,
}

/// The set of values in a list.
pub open spec fn value_set(values: Seq<FilterValue>) -> Set<CellModel> {
    values_model(values).to_set()
}

impl View for Draft {
    type V = DraftModel;

    open spec fn view(&self) -> DraftModel {
        DraftModel {
            mode: self.mode,
            first: self.first@,
            second: self.second@,
            any: self.any,
            ticked: match self.ticked {
                Some(t) => Some(value_set(t@)),
                None => None,
            },
            empty: self.empty,
            search: self.search@,
        }
    }
}

/// The form before any filter: conditions, the first offering the kind's
/// first operator, every value ticked, and rows without a value too.
pub open spec fn fresh_draft(kind: ValueKind) -> DraftModel {
    DraftModel {
        mode: DraftMode::Conditions,
        first: DraftConditionModel {
            op: if operators_of(kind).len() > 0 {
                Some(operators_of(kind)[0])
            } else {
                None
            },
            first: Seq::empty(),
            second: Seq::empty(),
        },
        second: blank_condition(),
        any: false,
        ticked: None,
        empty: true,
        search: Seq::empty(),
    }
}

/// Whether condition `i` is the first with operator `op`.
pub open spec fn is_first_with_op(conds: Seq<ConditionModel>, op: FilterOp, i: int) -> bool {
    &&& 0 <= i < conds.len()
    &&& conds[i].op == op
    &&& forall|j: int| 0 <= j < i ==> (#[trigger] conds[j]).op != op
}

/// Whether some condition has operator `op`.
pub open spec fn has_op(conds: Seq<ConditionModel>, op: FilterOp) -> bool {
    exists|i: int| 0 <= i < conds.len() && (#[trigger] conds[i]).op == op
}

/// The position of the first condition with operator `op`.
pub open spec fn first_with_op(conds: Seq<ConditionModel>, op: FilterOp) -> Option<int> {
    if has_op(conds, op) {
        Some(choose|i: int| is_first_with_op(conds, op, i))
    } else {
        None
    }
}

/// The form for a column's current filter: a value list if the filter has
/// a one-of condition (with rows without a value ticked when it is or-ed
/// with an is-empty condition), otherwise its first two conditions.
pub open spec fn from_filter_spec(filter: Option<FilterModel>, kind: ValueKind) -> DraftModel {
    let d = fresh_draft(kind);
    match filter {
        None => d,
        Some(f) => match first_with_op(f.conditions, FilterOp::OneOf) {
            Some(i) => DraftModel {
                mode: DraftMode::Values,
                ticked: Some(f.conditions[i].values.to_set()),
                empty: f.any && has_op(f.conditions, FilterOp::IsEmpty),
                ..d
            },
            None => DraftModel {
                first: if f.conditions.len() > 0 {
                    condition_draft(f.conditions[0])
                } else {
                    d.first
                },
                second: if f.conditions.len() > 1 {
                    condition_draft(f.conditions[1])
                } else {
                    d.second
                },
                any: f.any,
                ..d
            },
        },
    }
}

/// Where the first condition with operator `op` is.
fn find_op(conds: &Vec<Condition>, op: FilterOp) -> (r: Option<usize>)
    ensures
        match r {
            Some(i) => i < conds@.len() && first_with_op(conditions_model(conds@), op) == Some(i as int),
            None => first_with_op(conditions_model(conds@), op) is None,
        },
{
    let ghost m = conditions_model(conds@);
    let mut i: usize = 0;
    while i < conds.len()
        invariant
            i <= conds@.len(),
            m == conditions_model(conds@),
            forall|j: int| 0 <= j < i ==> (#[trigger] m[j]).op != op,
        decreases conds.len() - i,
    {
        if conds[i].op == op {
            proof {
                assert(m[i as int].op == op);
                assert(has_op(m, op));
                assert(is_first_with_op(m, op, i as int));
                let c = choose|c: int| is_first_with_op(m, op, c);
                if c < i {
                    assert(m[c].op != op);
                }
                if c > i {
                    assert(m[i as int].op != op);
                }
            }
            return Some(i);
        }
        i = i + 1;
    }
    assert(!has_op(m, op));
    None
}

/// The model of an optional filter.
pub open spec fn opt_filter(filter: Option<&ColumnFilter>) -> Option<FilterModel> {
    match filter {
        Some(f) => Some(f@),
        None => None,
    }
}

impl Draft {
    /// The form for a column's current filter; see [`from_filter_spec`].
    pub fn from_filter(filter: Option<&ColumnFilter>, kind: ValueKind) -> (r: Self)
        ensures
            r@ == from_filter_spec(opt_filter(filter), kind),
    {
        let ops = kind.operators();
        let op = if ops.len() > 0 {
            Some(ops[0])
        } else {
            None
        };
        let mut draft = Draft {
            mode: DraftMode::Conditions,
            first: DraftCondition { op, first: String::new(), second: String::new() },
            second: DraftCondition::blank(),
            any: false,
            ticked: None,
            empty: true,
            search: String::new(),
        };
        let filter = match filter {
            Some(f) => f,
            None => return draft,
        };
        let ghost m = filter@.conditions;
        match find_op(&filter.conditions, FilterOp::OneOf) {
            Some(i) => {
                draft.mode = DraftMode::Values;
                let values = duplicate_values(&filter.conditions[i].values);
                draft.ticked = Some(values);
                draft.empty = filter.any && find_op(&filter.conditions, FilterOp::IsEmpty).is_some();
                proof {
                    assert(m[i as int] == filter.conditions@[i as int]@);
                    assert(draft@.ticked == Some(m[i as int].values.to_set()));
                    if has_op(m, FilterOp::IsEmpty) {
                        let w = choose|w: int| 0 <= w < m.len() && (#[trigger] m[w]).op == FilterOp::IsEmpty;
                        assert(m[w].op == FilterOp::IsEmpty);
                    }
                }
            },
            None => {
                if filter.conditions.len() > 0 {
                    draft.first = DraftCondition::from_condition(&filter.conditions[0]);
                }
                if filter.conditions.len() > 1 {
                    draft.second = DraftCondition::from_condition(&filter.conditions[1]);
                }
                draft.any = filter.any;
            },
        }
        draft
    }
}

/// A condition, or none, as a list.
pub open spec fn opt_seq(c: Option<ConditionModel>) -> Seq<ConditionModel> {
    match c {
        Some(x) => seq![x],
        None => Seq::empty(),
    }
}

/// The conditions a form's pairs stand for: the complete ones, in order.
pub open spec fn built_conditions(first: DraftConditionModel, second: DraftConditionModel) -> Seq<ConditionModel> {
    opt_seq(draft_condition_spec(first)) + opt_seq(draft_condition_spec(second))
}

/// Whether `vals` lists the set `s`: each member once, in sort order.
pub open spec fn lists_sorted(vals: Seq<CellModel>, s: Set<CellModel>) -> bool {
    &&& vals.to_set() == s
    &&& vals.no_duplicates()
    &&& forall|i: int, j: int|
        0 <= i < j < vals.len() ==> cell_le(#[trigger] vals[i], #[trigger] vals[j], TextCollation::CaseInsensitive)
}

/// The condition without operands that `op` makes.
pub open spec fn bare(op: FilterOp) -> ConditionModel {
    ConditionModel { op, values: Seq::empty() }
}

/// Whether `f` is the filter a form stands for. Conditions: the complete
/// pairs, or-ed only when the form says so and there are two. A value list
/// with every value ticked: no filter, or "has a value" if rows without one
/// are unticked. Otherwise a one-of condition listing the ticked values in
/// sort order, or-ed with an is-empty condition if rows without a value are
/// ticked.
pub open spec fn builds(d: DraftModel, f: FilterModel) -> bool {
    match d.mode {
        DraftMode::Conditions => {
            let cs = built_conditions(d.first, d.second);
            f.conditions == cs && f.any == (d.any && cs.len() > 1)
        },
        DraftMode::Values => match d.ticked {
            None => if d.empty {
                f.conditions.len() == 0 && !f.any
            } else {
                f.conditions == seq![bare(FilterOp::IsNotEmpty)] && !f.any
            },
            Some(t) => {
                &&& f.conditions.len() == (if d.empty { 2int } else { 1int })
                &&& f.conditions[0].op == FilterOp::OneOf
                &&& lists_sorted(f.conditions[0].values, t)
                &&& f.any == d.empty
                &&& d.empty ==> f.conditions[1] == bare(FilterOp::IsEmpty)
            },
        },
    }
}

/// Whether a value list's form ticks every value of `list`, which must be
/// the whole list, and rows without a value too where there are any.
pub open spec fn ticks_everything(d: DraftModel, list: DistinctValues) -> bool {
    &&& d.mode == DraftMode::Values
    &&& d.ticked is Some
    &&& !list.truncated
    &&& (d.empty || list.empty == 0)
    &&& forall|i: int| 0 <= i < list.values@.len() ==> d.ticked.unwrap().contains((#[trigger] list.values@[i]).0@)
}

/// Inserting into a list adds to its set of members.
proof fn lemma_insert_set(s: Seq<CellModel>, p: int, x: CellModel)
    requires
        0 <= p <= s.len(),
    ensures
        s.insert(p, x).to_set() == s.to_set().insert(x),
{
    s.insert_ensures(p, x);
    let t = s.insert(p, x);
    assert forall|m: CellModel| t.to_set().contains(m) <==> s.to_set().insert(x).contains(m) by {
        if t.contains(m) {
            let w = choose|w: int| 0 <= w < t.len() && t[w] == m;
            if w < p {
                assert(s[w] == m);
            } else if w > p {
                assert(s[w - 1] == m);
            }
        }
        if s.contains(m) {
            let w = choose|w: int| 0 <= w < s.len() && s[w] == m;
            if w < p {
                assert(t[w] == m);
            } else {
                assert(t[w + 1] == m);
            }
        }
        if m == x {
            assert(t[p] == m);
        }
    }
    assert(t.to_set() =~= s.to_set().insert(x));
}

/// Pushing onto a list adds to its set of members.
proof fn lemma_push_set(s: Seq<CellModel>, x: CellModel)
    ensures
        s.push(x).to_set() == s.to_set().insert(x),
{
    lemma_insert_set(s, s.len() as int, x);
    assert(s.insert(s.len() as int, x) =~= s.push(x));
}

/// The set of the first `i + 1` values of a list.
proof fn lemma_take_set(values: Seq<FilterValue>, i: int)
    requires
        0 <= i < values.len(),
    ensures
        value_set(values.take(i + 1)) == value_set(values.take(i)).insert(values[i]@),
{
    assert(values.take(i + 1) =~= values.take(i).push(values[i]));
    assert(values_model(values.take(i + 1)) =~= values_model(values.take(i)).push(values[i]@));
    lemma_push_set(values_model(values.take(i)), values[i]@);
}

/// The values of a list, each once, in sort order.
fn sorted_distinct(values: &Vec<Value>) -> (r: Vec<Value>)
    ensures
        lists_sorted(values_model(r@), value_set(values@)),
{
    let ghost coll = TextCollation::CaseInsensitive;
    let mut out: Vec<Value> = Vec::new();
    let mut i: usize = 0;
    assert(value_set(out@) =~= value_set(values@.take(0)));
    while i < values.len()
        invariant
            i <= values@.len(),
            coll == TextCollation::CaseInsensitive,
            forall|a: int, b: int|
                0 <= a < b < out@.len() ==> (#[trigger] out@[a])@ != (#[trigger] out@[b])@ && cell_le(out@[a]@, out@[b]@, coll),
            value_set(out@) == value_set(values@.take(i as int)),
        decreases values.len() - i,
    {
        let ghost before = out@;
        proof {
            lemma_take_set(values@, i as int);
        }
        match find_value(&out, &values[i]) {
            Some(k) => {
                proof {
                    assert(values_model(out@)[k as int] == values@[i as int]@);
                    assert(value_set(out@) =~= value_set(out@).insert(values@[i as int]@));
                }
            },
            None => {
                let v = values[i].duplicate();
                let p = insert_position(&out, &v, TextCollation::CaseInsensitive);
                proof {
                    lemma_insert_sorted(out@, v, p as int, coll);
                }
                out.insert(p, v);
                proof {
                    assert(out@ == before.insert(p as int, v));
                    assert(values_model(out@) =~= values_model(before).insert(p as int, v@));
                    lemma_insert_set(values_model(before), p as int, v@);
                }
            },
        }
        i = i + 1;
    }
    proof {
        assert(values@.take(i as int) =~= values@);
        let r = values_model(out@);
        assert forall|a: int, b: int| 0 <= a < r.len() && 0 <= b < r.len() && a != b implies r[a] != r[b] by {
            if a < b {
                assert(out@[a]@ != out@[b]@);
            } else {
                assert(out@[b]@ != out@[a]@);
            }
        }
        assert forall|a: int, b: int| 0 <= a < b < r.len() implies cell_le(#[trigger] r[a], #[trigger] r[b], TextCollation::CaseInsensitive) by {
            assert(out@[a]@ != out@[b]@ && cell_le(out@[a]@, out@[b]@, coll));
        }
    }
    out
}

/// Whether `value` is among `values`.
fn holds_value(values: &Vec<Value>, value: &Value) -> (r: bool)
    ensures
        r == value_set(values@).contains(value@),
{
    match find_value(values, value) {
        Some(k) => {
            assert(values_model(values@)[k as int] == value@);
            true
        },
        None => {
            assert(!values_model(values@).contains(value@));
            false
        },
    }
}

/// `values` with `value` added, if it is not there yet.
fn with_value(values: Vec<Value>, value: &Value) -> (r: Vec<Value>)
    ensures
        value_set(r@) == value_set(values@).insert(value@),
{
    if holds_value(&values, value) {
        assert(value_set(values@) =~= value_set(values@).insert(value@));
        values
    } else {
        let mut out = values;
        let ghost before = out@;
        out.push(value.duplicate());
        proof {
            assert(values_model(out@) =~= values_model(before).push(value@));
            lemma_push_set(values_model(before), value@);
        }
        out
    }
}

/// `values` without `value`.
fn without_value(values: &Vec<Value>, value: &Value) -> (r: Vec<Value>)
    ensures
        value_set(r@) == value_set(values@).remove(value@),
{
    let mut out: Vec<Value> = Vec::new();
    let mut i: usize = 0;
    assert(value_set(out@) =~= value_set(values@.take(0)).remove(value@));
    while i < values.len()
        invariant
            i <= values@.len(),
            value_set(out@) == value_set(values@.take(i as int)).remove(value@),
        decreases values.len() - i,
    {
        let ghost before = out@;
        proof {
            lemma_take_set(values@, i as int);
        }
        if !(values[i] == *value) {
            out.push(values[i].duplicate());
            proof {
                assert(values_model(out@) =~= values_model(before).push(values@[i as int]@));
                lemma_push_set(values_model(before), values@[i as int]@);
            }
        }
        proof {
            assert(value_set(out@) =~= value_set(values@.take(i + 1)).remove(value@));
        }
        i = i + 1;
    }
    assert(values@.take(i as int) =~= values@);
    out
}

impl Draft {
    /// The filter to apply; one without conditions is no filter. See
    /// [`builds`].
    pub fn build(&self) -> (r: ColumnFilter)
        ensures
            builds(self@, r@),
    {
        match self.mode {
            DraftMode::Conditions => {
                let mut conditions: Vec<Condition> = Vec::new();
                match self.first.build() {
                    Some(c) => conditions.push(c),
                    None => {},
                }
                match self.second.build() {
                    Some(c) => conditions.push(c),
                    None => {},
                }
                let any = self.any && conditions.len() > 1;
                let r = ColumnFilter { conditions, any };
                assert(r@.conditions =~= built_conditions(self@.first, self@.second));
                r
            },
            DraftMode::Values => match &self.ticked {
                None => if self.empty {
                    ColumnFilter { conditions: Vec::new(), any: false }
                } else {
                    let c = Condition::is_not_empty();
                    assert(c@.values =~= Seq::<CellModel>::empty());
                    let r = ColumnFilter::new(c);
                    assert(r@.conditions =~= seq![bare(FilterOp::IsNotEmpty)]);
                    r
                },
                Some(t) => {
                    let values = sorted_distinct(t);
                    let one_of = Condition::new(FilterOp::OneOf, values);
                    if self.empty {
                        let r = ColumnFilter::new(one_of).or(Condition::is_empty());
                        assert(r@.conditions[1].values =~= Seq::<CellModel>::empty());
                        r
                    } else {
                        ColumnFilter::new(one_of)
                    }
                },
            },
        }
    }

    /// [`Draft::build`], but a value list with every value ticked is no
    /// filter at all, rather than a list naming each of them: only when the
    /// whole list is known, so not for a truncated one.
    pub fn build_against(&self, list: Option<&DistinctValues>) -> (r: ColumnFilter)
        ensures
            (list matches Some(l) && ticks_everything(self@, *l)) ==> r@.conditions.len() == 0 && !r@.any,
            !(list matches Some(l) && ticks_everything(self@, *l)) ==> builds(self@, r@),
    {
        if let (DraftMode::Values, Some(ticked), Some(list)) = (self.mode, &self.ticked, list) {
            if !list.truncated && (self.empty || list.empty == 0) {
                let mut i: usize = 0;
                let mut all = true;
                while i < list.values.len()
                    invariant
                        i <= list.values@.len(),
                        self@.ticked == Some(value_set(ticked@)),
                        all == forall|j: int| 0 <= j < i ==> value_set(ticked@).contains((#[trigger] list.values@[j]).0@),
                    decreases list.values.len() - i,
                {
                    if !holds_value(ticked, &list.values[i].0) {
                        all = false;
                    }
                    i = i + 1;
                }
                if all {
                    return ColumnFilter { conditions: Vec::new(), any: false };
                }
            }
        }
        self.build()
    }

    /// Whether `value` is ticked: every value is until the list is narrowed.
    pub fn is_ticked(&self, value: &Value) -> (r: bool)
        ensures
            r == match self@.ticked {
                Some(t) => t.contains(value@),
                None => true,
            },
    {
        match &self.ticked {
            Some(t) => holds_value(t, value),
            None => true,
        }
    }

    /// Ticks or unticks one value. The first change narrows the list from
    /// every value to `all`, the values the list offers.
    pub fn tick_value(&mut self, value: &Value, tick: bool, all: &Vec<Value>)
        ensures
            final(self)@ == (DraftModel {
                ticked: Some(if tick {
                    ticked_base(old(self)@, all@).insert(value@)
                } else {
                    ticked_base(old(self)@, all@).remove(value@)
                }),
                ..old(self)@
            }),
    {
        let base = match self.ticked.take() {
            Some(t) => t,
            None => duplicate_values(all),
        };
        let next = if tick {
            with_value(base, value)
        } else {
            without_value(&base, value)
        };
        self.ticked = Some(next);
    }

    /// Ticks or unticks every value of `visible`, the values the search
    /// leaves, and, when the list is not searched, rows without a value.
    /// The first change narrows the list from every value to `all`.
    pub fn tick_visible(&mut self, visible: &Vec<Value>, tick: bool, all: &Vec<Value>)
        ensures
            final(self)@ == (DraftModel {
                ticked: Some(if tick {
                    ticked_base(old(self)@, all@).union(value_set(visible@))
                } else {
                    ticked_base(old(self)@, all@).difference(value_set(visible@))
                }),
                empty: if is_blank(old(self)@.search) {
                    tick
                } else {
                    old(self)@.empty
                },
                ..old(self)@
            }),
    {
        let mut set = match self.ticked.take() {
            Some(t) => t,
            None => duplicate_values(all),
        };
        let ghost base = value_set(set@);
        let mut i: usize = 0;
        assert(value_set(visible@.take(0)) =~= Set::<CellModel>::empty());
        assert(base.union(Set::<CellModel>::empty()) =~= base);
        assert(base.difference(Set::<CellModel>::empty()) =~= base);
        while i < visible.len()
            invariant
                i <= visible@.len(),
                value_set(set@) == if tick {
                    base.union(value_set(visible@.take(i as int)))
                } else {
                    base.difference(value_set(visible@.take(i as int)))
                },
            decreases visible.len() - i,
        {
            proof {
                lemma_take_set(visible@, i as int);
            }
            set = if tick {
                with_value(set, &visible[i])
            } else {
                without_value(&set, &visible[i])
            };
            proof {
                if tick {
                    assert(value_set(set@) =~= base.union(value_set(visible@.take(i + 1))));
                } else {
                    assert(value_set(set@) =~= base.difference(value_set(visible@.take(i + 1))));
                }
            }
            i = i + 1;
        }
        assert(visible@.take(i as int) =~= visible@);
        self.ticked = Some(set);
        if trim_text(self.search.as_str()).as_str().is_empty() {
            self.empty = tick;
        }
    }
}

/// What the first change to a value list starts from: the ticked values,
/// or `all` while every value is ticked.
pub open spec fn ticked_base(d: DraftModel, all: Seq<FilterValue>) -> Set<CellModel> {
    match d.ticked {
        Some(t) => t,
        None => value_set(all),
    }
}

/// The input type an operand of `kind` is typed into.
pub fn input_type(kind: ValueKind) -> (r: &'static str)
    ensures
        r@ == match kind {
            ValueKind::Date => "date"@,
            ValueKind::DateTime => "datetime-local"@,
            _ => "text"@,
        },
{
    match kind {
        ValueKind::Date => "date",
        ValueKind::DateTime => "datetime-local",
        _ => "text",
    }
}

/// The value-list filter for `vals`: a one-of condition, or-ed with an
/// is-empty condition when rows without a value are ticked too.
pub open spec fn value_list_filter(vals: Seq<CellModel>, empty: bool) -> FilterModel {
    let one_of = ConditionModel { op: FilterOp::OneOf, values: vals };
    FilterModel {
        conditions: if empty {
            seq![one_of, bare(FilterOp::IsEmpty)]
        } else {
            seq![one_of]
        },
        any: empty,
    }
}

/// Whether `vals` is in strictly increasing sort order.
pub open spec fn strictly_sorted(vals: Seq<CellModel>) -> bool {
    forall|i: int, j: int|
        0 <= i < j < vals.len() ==> cell_order(#[trigger] vals[i], #[trigger] vals[j], TextCollation::CaseInsensitive)
            == Ordering::Less
}

/// Dropping the first of a list without duplicates drops it from the set.
proof fn lemma_drop_first_set(s: Seq<CellModel>)
    requires
        s.len() > 0,
        s.no_duplicates(),
    ensures
        s.drop_first().to_set() == s.to_set().remove(s[0]),
        s.drop_first().no_duplicates(),
{
    let t = s.drop_first();
    assert forall|m: CellModel| t.to_set().contains(m) <==> s.to_set().remove(s[0]).contains(m) by {
        if t.contains(m) {
            let w = choose|w: int| 0 <= w < t.len() && t[w] == m;
            assert(s[w + 1] == m);
        }
        if s.contains(m) && m != s[0] {
            let w = choose|w: int| 0 <= w < s.len() && s[w] == m;
            assert(w != 0);
            assert(t[w - 1] == m);
        }
    }
    assert(t.to_set() =~= s.to_set().remove(s[0]));
    assert forall|i: int, j: int| 0 <= i < t.len() && 0 <= j < t.len() && i != j implies t[i] != t[j] by {
        assert(t[i] == s[i + 1] && t[j] == s[j + 1]);
    }
}

/// A set has one listing in sort order when its members are strictly
/// ordered.
proof fn lemma_sorted_listing_unique(a: Seq<CellModel>, b: Seq<CellModel>)
    requires
        strictly_sorted(a),
        lists_sorted(b, a.to_set()),
    ensures
        a == b,
    decreases a.len(),
{
    let coll = TextCollation::CaseInsensitive;
    assert(a.no_duplicates()) by {
        assert forall|i: int, j: int| 0 <= i < a.len() && 0 <= j < a.len() && i != j implies a[i] != a[j] by {
            lemma_cell_reflexive(a[i], coll);
            if i < j {
                assert(cell_order(a[i], a[j], coll) == Ordering::Less);
            } else {
                assert(cell_order(a[j], a[i], coll) == Ordering::Less);
            }
        }
    }
    a.unique_seq_to_set();
    b.unique_seq_to_set();
    if a.len() == 0 {
        assert(b.len() == 0);
        assert(a =~= b);
    } else {
        assert(a.to_set().contains(b[0]));
        assert(b.to_set().contains(a[0]));
        let k = choose|k: int| 0 <= k < a.len() && a[k] == b[0];
        let m = choose|m: int| 0 <= m < b.len() && b[m] == a[0];
        if k != 0 {
            assert(m != 0);
            assert(cell_le(b[0], b[m], coll));
            assert(cell_order(a[0], a[k], coll) == Ordering::Less);
            lemma_cell_reverse(a[0], a[k], coll);
            assert(false);
        }
        lemma_drop_first_set(a);
        lemma_drop_first_set(b);
        let a2 = a.drop_first();
        let b2 = b.drop_first();
        assert forall|i: int, j: int| 0 <= i < j < a2.len() implies cell_order(#[trigger] a2[i], #[trigger] a2[j], coll)
            == Ordering::Less by {
            assert(a2[i] == a[i + 1] && a2[j] == a[j + 1]);
        }
        assert forall|i: int, j: int| 0 <= i < j < b2.len() implies cell_le(#[trigger] b2[i], #[trigger] b2[j], coll) by {
            assert(b2[i] == b[i + 1] && b2[j] == b[j + 1]);
        }
        lemma_sorted_listing_unique(a2, b2);
        assert(a =~= b) by {
            assert forall|i: int| 0 <= i < a.len() implies a[i] == b[i] by {
                if i > 0 {
                    assert(a[i] == a2[i - 1] && b[i] == b2[i - 1]);
                }
            }
        }
    }
}

/// A value-list filter round trips through the form: the form made from a
/// one-of filter whose values are in strictly increasing sort order, or-ed
/// or not with an is-empty condition, builds that filter again.
pub proof fn lemma_value_list_round_trip(vals: Seq<CellModel>, empty: bool, kind: ValueKind, built: FilterModel)
    requires
        strictly_sorted(vals),
        builds(from_filter_spec(Some(value_list_filter(vals, empty)), kind), built),
    ensures
        built == value_list_filter(vals, empty),
{
    let f = value_list_filter(vals, empty);
    let conds = f.conditions;
    assert(conds[0].op == FilterOp::OneOf);
    assert(has_op(conds, FilterOp::OneOf));
    assert(is_first_with_op(conds, FilterOp::OneOf, 0));
    let c = choose|c: int| is_first_with_op(conds, FilterOp::OneOf, c);
    if c > 0 {
        assert(conds[0].op != FilterOp::OneOf);
    }
    assert(first_with_op(conds, FilterOp::OneOf) == Some(0int));
    if empty {
        assert(conds[1].op == FilterOp::IsEmpty);
        assert(has_op(conds, FilterOp::IsEmpty));
    }
    let d = from_filter_spec(Some(f), kind);
    assert(d.ticked == Some(vals.to_set()));
    assert(d.empty == empty);
    lemma_sorted_listing_unique(vals, built.conditions[0].values);
    assert(built.conditions[0] == conds[0]);
    assert(built.conditions =~= conds);
}

/// What a value list's search looks for: the search text, trimmed and in
/// lowercase.
pub open spec fn search_needle(search: Seq<char>) -> Seq<char> {
    lowercase_str(trim_spec(search))
}

/// Whether a value list entry with this label stays in view under
/// `search`: a blank search keeps every entry; any other keeps those whose
/// label, in lowercase, holds the needle.
pub open spec fn label_matches(label: Seq<char>, search: Seq<char>) -> bool {
    search_needle(search).len() == 0 || has_substring(lowercase_str(label), search_needle(search))
}

/// The positions among the first `n` labels that stay in view under
/// `search`, in ascending order.
pub open spec fn matching_labels(labels: Seq<String>, search: Seq<char>, n: nat) -> Seq<usize>
    decreases n,
{
    if n == 0 {
        Seq::empty()
    } else {
        let before = matching_labels(labels, search, (n - 1) as nat);
        if label_matches(labels[n - 1]@, search) {
            before.push((n - 1) as usize)
        } else {
            before
        }
    }
}

/// The entries of a value list that its search leaves in view, as positions
/// into `labels`, the entries' texts, in their order.
pub fn value_list_entries(labels: &Vec<String>, search: &str) -> (r: Vec<usize>)
    ensures
        r@ == matching_labels(labels@, search@, labels@.len()),
{
    let needle_text = str_lowercase(trim_text(search).as_str());
    let needle = chars_of(needle_text.as_str());
    let mut r: Vec<usize> = Vec::new();
    let mut i: usize = 0;
    while i < labels.len()
        invariant
            i <= labels@.len(),
            needle@ == search_needle(search@),
            r@ == matching_labels(labels@, search@, i as nat),
        decreases labels.len() - i,
    {
        let keep = if needle.len() == 0 {
            true
        } else {
            let label = chars_of(str_lowercase(labels[i].as_str()).as_str());
            contains_chars(&label, &needle)
        };
        if keep {
            r.push(i);
        }
        i = i + 1;
    }
    r
}

/// Whether every value of `visible` is among `d`'s ticked values.
pub open spec fn all_ticked(d: DraftModel, visible: Seq<FilterValue>) -> bool {
    forall|i: int| 0 <= i < visible.len() ==> match d.ticked {
        Some(t) => t.contains(#[trigger] visible[i]@),
        None => true,
    }
}

impl Draft {
    /// Whether the value list's "select all" box shows as ticked: every
    /// value the search leaves in view is ticked, and so are rows without a
    /// value, unless there are none or the list is searched, which hides
    /// them.
    pub fn select_all_checked(&self, visible: &Vec<Value>, empty_count: usize) -> (r: bool)
        ensures
            r == (all_ticked(self@, visible@) && (empty_count == 0 || self@.empty
                || search_needle(self@.search).len() != 0)),
    {
        let mut i: usize = 0;
        while i < visible.len()
            invariant
                i <= visible@.len(),
                forall|j: int| 0 <= j < i ==> match self@.ticked {
                    Some(t) => t.contains(#[trigger] visible@[j]@),
                    None => true,
                },
            decreases visible.len() - i,
        {
            if !self.is_ticked(&visible[i]) {
                return false;
            }
            i = i + 1;
        }
        let needle = str_lowercase(trim_text(self.search.as_str()).as_str());
        empty_count == 0 || self.empty || !needle.as_str().is_empty()
    }
}

} // verus!
