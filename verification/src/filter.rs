//! Typed column filters: conditions with operators, combined with AND or OR,
//! and the shortcuts the filter bar understands.

use crate::dates::{
    chrono_display_date, chrono_display_date_time, chrono_format_date, chrono_format_date_time,
    displayed_date, displayed_date_time, formatted_date, formatted_date_time, parse_date,
    parse_date_spec, parse_date_time, parse_date_time_spec,
};
use crate::numbers::{int_string, int_text, parse_i64, parse_int_spec};
use crate::sort::TextCollation;
use crate::text::{
    chars_of, contains_chars, ends_with_chars, has_prefix, has_substring, has_suffix, is_blank,
    lowercase_str, starts_with_chars, str_lowercase, trim_spec, trim_text,
};
use crate::value::{cell_order, midnight_of, CellModel, CellValue, Timestamp};
use std::cmp::Ordering;
use vstd::prelude::*;
use vstd::std_specs::convert::IntoSpec;
use vstd::utf8::is_ascii_chars;

verus! {

/// What kind of value a column holds, which decides the operators a filter
/// menu offers and how typed text is read.
#[derive(Clone, Copy, Debug, PartialEq, Eq, Structural, Hash)]
pub enum ValueKind {
    /// Text.
    Text,
    /// Numbers.
    Number,
    /// `true` or `false`.
    Bool,
    /// A calendar date.
    Date,
    /// A date with a time of day.
    DateTime,
}

/// The kind of a value; `None` for the empty value.
pub open spec fn kind_of(v: CellModel) -> Option<ValueKind> {
    match v {
        CellModel::Empty => None,
        CellModel::Bool(_) => Some(ValueKind::Bool),
        CellModel::Int(_) => Some(ValueKind::Number),
        CellModel::Date(_) => Some(ValueKind::Date),
        CellModel::DateTime(_) => Some(ValueKind::DateTime),
        CellModel::Text(_) => Some(ValueKind::Text),
    }
}

/// How a condition compares a cell with its operand.
#[derive(Clone, Copy, Debug, PartialEq, Eq, Structural, Hash)]
pub enum FilterOp {
    /// Text contains the operand, ignoring case.
    Contains,
    /// Text starts with the operand, ignoring case.
    StartsWith,
    /// Text ends with the operand, ignoring case.
    EndsWith,
    /// Equal to the operand; text ignoring case.
    Equals,
    /// Not equal to the operand. An empty cell counts as not equal.
    NotEquals,
    /// Less than the operand.
    Less,
    /// Less than or equal to the operand.
    LessOrEqual,
    /// Greater than the operand.
    Greater,
    /// Greater than or equal to the operand.
    GreaterOrEqual,
    /// Between the operand and a second one, both included, in either order.
    Between,
    /// Empty: no value, or empty text.
    IsEmpty,
    /// Not empty.
    IsNotEmpty,
    /// Equal to any of a list of values.
    OneOf,
}

/// The operators that make sense for a kind, in menu order.
pub open spec fn operators_of(kind: ValueKind) -> Seq<FilterOp> {
    match kind {
        ValueKind::Text => seq![
            FilterOp::Contains, FilterOp::StartsWith, FilterOp::EndsWith, FilterOp::Equals,
            FilterOp::NotEquals, FilterOp::IsEmpty, FilterOp::IsNotEmpty,
        ],
        ValueKind::Number | ValueKind::Date | ValueKind::DateTime => seq![
            FilterOp::Equals, FilterOp::NotEquals, FilterOp::Less, FilterOp::LessOrEqual,
            FilterOp::Greater, FilterOp::GreaterOrEqual, FilterOp::Between, FilterOp::IsEmpty,
            FilterOp::IsNotEmpty,
        ],
        ValueKind::Bool => seq![FilterOp::Equals, FilterOp::IsEmpty, FilterOp::IsNotEmpty],
    }
}

impl ValueKind {
    /// The kind of `value`, or `None` for the empty value.
    pub fn of(value: &CellValue<'_>) -> (r: Option<Self>)
        ensures
            r == kind_of(value@),
    {
        match value {
            CellValue::Empty => None,
            CellValue::Bool(_) => Some(ValueKind::Bool),
            CellValue::Int(_) => Some(ValueKind::Number),
            CellValue::Date(_) => Some(ValueKind::Date),
            CellValue::DateTime(_) => Some(ValueKind::DateTime),
            CellValue::Text(_) => Some(ValueKind::Text),
        }
    }

    /// The operators that make sense for this kind, in the order a menu
    /// should list them.
    pub fn operators(self) -> (r: Vec<FilterOp>)
        ensures
            r@ == operators_of(self),
    {
        match self {
            ValueKind::Text => vec![
                FilterOp::Contains, FilterOp::StartsWith, FilterOp::EndsWith, FilterOp::Equals,
                FilterOp::NotEquals, FilterOp::IsEmpty, FilterOp::IsNotEmpty,
            ],
            ValueKind::Number | ValueKind::Date | ValueKind::DateTime => vec![
                FilterOp::Equals, FilterOp::NotEquals, FilterOp::Less, FilterOp::LessOrEqual,
                FilterOp::Greater, FilterOp::GreaterOrEqual, FilterOp::Between, FilterOp::IsEmpty,
                FilterOp::IsNotEmpty,
            ],
            ValueKind::Bool => vec![FilterOp::Equals, FilterOp::IsEmpty, FilterOp::IsNotEmpty],
        }
    }
}

/// The stable name of an operator.
pub open spec fn op_name(op: FilterOp) -> Seq<char> {
    match op {
        FilterOp::Contains => "contains"@,
        FilterOp::StartsWith => "starts-with"@,
        FilterOp::EndsWith => "ends-with"@,
        FilterOp::Equals => "equals"@,
        FilterOp::NotEquals => "not-equals"@,
        FilterOp::Less => "less"@,
        FilterOp::LessOrEqual => "less-or-equal"@,
        FilterOp::Greater => "greater"@,
        FilterOp::GreaterOrEqual => "greater-or-equal"@,
        FilterOp::Between => "between"@,
        FilterOp::IsEmpty => "is-empty"@,
        FilterOp::IsNotEmpty => "is-not-empty"@,
        FilterOp::OneOf => "one-of"@,
    }
}

/// Every operator, in declaration order.
pub open spec fn all_ops() -> Seq<FilterOp> {
    seq![
        FilterOp::Contains, FilterOp::StartsWith, FilterOp::EndsWith, FilterOp::Equals,
        FilterOp::NotEquals, FilterOp::Less, FilterOp::LessOrEqual, FilterOp::Greater,
        FilterOp::GreaterOrEqual, FilterOp::Between, FilterOp::IsEmpty, FilterOp::IsNotEmpty,
        FilterOp::OneOf,
    ]
}

/// Whether two strings have the same characters.
pub fn text_equals(a: &str, b: &str) -> (r: bool)
    ensures
        r == (a@ == b@),
{
    crate::text::chars_equal(&chars_of(a), &chars_of(b))
}

impl FilterOp {
    /// How many operands the operator takes: 0, 1, 2, or `None` for a list.
    pub fn operands(self) -> (r: Option<usize>)
        ensures
            r == match self {
                FilterOp::IsEmpty | FilterOp::IsNotEmpty => Some(0usize),
                FilterOp::Between => Some(2usize),
                FilterOp::OneOf => None,
                _ => Some(1usize),
            },
    {
        match self {
            FilterOp::IsEmpty | FilterOp::IsNotEmpty => Some(0),
            FilterOp::Between => Some(2),
            FilterOp::OneOf => None,
            _ => Some(1),
        }
    }

    /// A stable name, for `data-` attributes and wire formats.
    pub fn as_str(self) -> (r: &'static str)
        ensures
            r@ == op_name(self),
    {
        match self {
            FilterOp::Contains => "contains",
            FilterOp::StartsWith => "starts-with",
            FilterOp::EndsWith => "ends-with",
            FilterOp::Equals => "equals",
            FilterOp::NotEquals => "not-equals",
            FilterOp::Less => "less",
            FilterOp::LessOrEqual => "less-or-equal",
            FilterOp::Greater => "greater",
            FilterOp::GreaterOrEqual => "greater-or-equal",
            FilterOp::Between => "between",
            FilterOp::IsEmpty => "is-empty",
            FilterOp::IsNotEmpty => "is-not-empty",
            FilterOp::OneOf => "one-of",
        }
    }

    /// The operator named by [`as_str`](FilterOp::as_str): the first one,
    /// in declaration order, whose name is `name`.
    pub fn from_name(name: &str) -> (r: Option<Self>)
        ensures
            match r {
                Some(op) => op_name(op) == name@ && exists|i: int|
                    0 <= i < all_ops().len() && all_ops()[i] == op && forall|j: int|
                        0 <= j < i ==> op_name(#[trigger] all_ops()[j]) != name@,
                None => forall|i: int| 0 <= i < all_ops().len() ==> op_name(#[trigger] all_ops()[i]) != name@,
            },
    {
        let ops = vec![
            FilterOp::Contains, FilterOp::StartsWith, FilterOp::EndsWith, FilterOp::Equals,
            FilterOp::NotEquals, FilterOp::Less, FilterOp::LessOrEqual, FilterOp::Greater,
            FilterOp::GreaterOrEqual, FilterOp::Between, FilterOp::IsEmpty, FilterOp::IsNotEmpty,
            FilterOp::OneOf,
        ];
        assert(ops@ =~= all_ops());
        let mut i: usize = 0;
        while i < ops.len()
            invariant
                i <= ops.len(),
                ops@ == all_ops(),
                forall|j: int| 0 <= j < i ==> op_name(#[trigger] all_ops()[j]) != name@,
            decreases ops.len() - i,
        {
            let op = ops[i];
            if text_equals(op.as_str(), name) {
                return Some(op);
            }
            i = i + 1;
        }
        None
    }
}

/// A value a filter compares against: the owned counterpart of a
/// [`CellValue`], never empty. Text is also what a user types; compared
/// with a number or a date it is read as one.
#[derive(Clone, Debug, Hash)]
pub enum FilterValue {
    /// Text, or a number or date not yet read as one.
    Text(String),
    /// An integer.
    Int(i64),
    /// A boolean.
    Bool(bool),
    /// A calendar date, as its day number.
    Date(i32),
    /// A date and time.
    DateTime(Timestamp),
}

/// The name the rest of the grid uses for a [`FilterValue`].
pub type Value = FilterValue;

impl View for FilterValue {
    type V = CellModel;

    open spec fn view(&self) -> CellModel {
        match self {
            FilterValue::Text(s) => CellModel::Text(s@),
            FilterValue::Int(i) => CellModel::Int(*i as int),
            FilterValue::Bool(b) => CellModel::Bool(*b),
            FilterValue::Date(d) => CellModel::Date(*d),
            FilterValue::DateTime(t) => CellModel::DateTime(*t),
        }
    }
}

impl PartialEq for FilterValue {
    fn eq(&self, other: &Self) -> (r: bool) {
        match (self, other) {
            (FilterValue::Text(a), FilterValue::Text(b)) => *a == *b,
            (FilterValue::Int(a), FilterValue::Int(b)) => *a == *b,
            (FilterValue::Bool(a), FilterValue::Bool(b)) => *a == *b,
            (FilterValue::Date(a), FilterValue::Date(b)) => *a == *b,
            (FilterValue::DateTime(a), FilterValue::DateTime(b)) => *a == *b,
            _ => false,
        }
    }
}

impl vstd::std_specs::cmp::PartialEqSpecImpl for FilterValue {
    open spec fn obeys_eq_spec() -> bool {
        true
    }

    open spec fn eq_spec(&self, other: &Self) -> bool {
        self@ == other@
    }
}

impl Eq for FilterValue {}

/// The characters that read as `true`.
pub open spec fn true_words() -> Seq<Seq<char>> {
    seq!["true"@, "yes"@, "ja"@, "1"@]
}

/// The characters that read as `false`.
pub open spec fn false_words() -> Seq<Seq<char>> {
    seq!["false"@, "no"@, "nein"@, "0"@]
}

/// A boolean from lowercased text.
pub open spec fn bool_word(lower: Seq<char>) -> Option<CellModel> {
    if true_words().contains(lower) {
        Some(CellModel::Bool(true))
    } else if false_words().contains(lower) {
        Some(CellModel::Bool(false))
    } else {
        None
    }
}

/// What `text` reads as, as a value of `kind`: trimmed text; an integer;
/// `true`, `yes`, `ja`, `1` or `false`, `no`, `nein`, `0` in any case; or a
/// date or date and time in one of the accepted forms.
pub open spec fn parse_spec(kind: ValueKind, text: Seq<char>) -> Option<CellModel> {
    let t = trim_spec(text);
    match kind {
        ValueKind::Text => Some(CellModel::Text(t)),
        ValueKind::Number => match parse_int_spec(t) {
            Some(i) => Some(CellModel::Int(i)),
            None => None,
        },
        ValueKind::Bool => bool_word(lowercase_str(t)),
        ValueKind::Date => match parse_date_spec(t) {
            Some(d) => Some(CellModel::Date(d)),
            None => None,
        },
        ValueKind::DateTime => match parse_date_time_spec(t) {
            Some(ts) => Some(CellModel::DateTime(ts)),
            None => None,
        },
    }
}

/// How a value reads without a locale: `true`/`false`, decimal integers,
/// and dates in `chrono`'s own form. Empty for the empty value and for a day
/// number `chrono` has no date for.
pub open spec fn plain_text_spec(v: CellModel) -> Seq<char> {
    match v {
        CellModel::Empty => Seq::empty(),
        CellModel::Bool(b) => if b { "true"@ } else { "false"@ },
        CellModel::Int(i) => int_text(i),
        CellModel::Date(d) => match displayed_date(d) {
            Some(s) => s,
            None => Seq::empty(),
        },
        CellModel::DateTime(t) => match displayed_date_time(t) {
            Some(s) => s,
            None => Seq::empty(),
        },
        CellModel::Text(s) => s,
    }
}

/// How a value reads in a form input, and back through parsing: dates in
/// the ISO forms date and date-time inputs use, everything else as plain
/// text.
pub open spec fn edit_text_spec(v: CellModel) -> Seq<char> {
    match v {
        CellModel::Date(d) => match formatted_date(d, "%Y-%m-%d"@) {
            Some(s) => s,
            None => Seq::empty(),
        },
        CellModel::DateTime(t) => match formatted_date_time(t, "%Y-%m-%dT%H:%M"@) {
            Some(s) => s,
            None => Seq::empty(),
        },
        _ => plain_text_spec(v),
    }
}

/// A filter value read as `kind`, reading text if it has to; a date is
/// midnight of that day as a date and time, and any value is its plain
/// text as text.
pub open spec fn coerce_spec(v: CellModel, kind: ValueKind) -> Option<CellModel> {
    match (kind, v) {
        (ValueKind::Text, CellModel::Text(_)) => Some(v),
        (ValueKind::Number, CellModel::Int(_)) => Some(v),
        (ValueKind::Bool, CellModel::Bool(_)) => Some(v),
        (ValueKind::Date, CellModel::Date(_)) => Some(v),
        (ValueKind::DateTime, CellModel::DateTime(_)) => Some(v),
        (ValueKind::DateTime, CellModel::Date(d)) => Some(CellModel::DateTime(midnight_of(d))),
        (_, CellModel::Text(t)) => parse_spec(kind, t),
        (ValueKind::Text, _) => Some(CellModel::Text(plain_text_spec(v))),
        _ => None,
    }
}

/// Whether a character sequence is one of a list of words.
fn is_one_of(s: &Vec<char>, words: &Vec<&str>) -> (r: bool)
    ensures
        r == words@.map_values(|w: &str| w@).contains(s@),
{
    let ghost views = words@.map_values(|w: &str| w@);
    let mut i: usize = 0;
    while i < words.len()
        invariant
            i <= words.len(),
            views == words@.map_values(|w: &str| w@),
            forall|j: int| 0 <= j < i ==> views[j] != s@,
        decreases words.len() - i,
    {
        if crate::text::chars_equal(s, &chars_of(words[i])) {
            assert(views[i as int] == s@);
            return true;
        }
        i = i + 1;
    }
    false
}

/// The characters of the empty value's plain text and of a day number
/// that has no date.
fn empty_string() -> (s: String)
    ensures
        s@ == Seq::<char>::empty(),
{
    String::new()
}

/// How a value reads without a locale.
pub fn plain_text(value: &CellValue<'_>) -> (s: String)
    ensures
        s@ == plain_text_spec(value@),
{
    match value {
        CellValue::Empty => empty_string(),
        CellValue::Bool(b) => if *b {
            "true".to_owned()
        } else {
            "false".to_owned()
        },
        CellValue::Int(i) => int_string(*i),
        CellValue::Date(d) => match chrono_display_date(*d) {
            Some(s) => s,
            None => empty_string(),
        },
        CellValue::DateTime(t) => match chrono_display_date_time(*t) {
            Some(s) => s,
            None => empty_string(),
        },
        CellValue::Text(s) => (*s).to_owned(),
    }
}

impl FilterValue {
    /// An identical copy.
    pub fn duplicate(&self) -> (r: Self)
        ensures
            r@ == self@,
    {
        match self {
            FilterValue::Text(s) => FilterValue::Text(s.clone()),
            FilterValue::Int(i) => FilterValue::Int(*i),
            FilterValue::Bool(b) => FilterValue::Bool(*b),
            FilterValue::Date(d) => FilterValue::Date(*d),
            FilterValue::DateTime(t) => FilterValue::DateTime(*t),
        }
    }

    /// How this value reads in a form input, and back through
    /// [`FilterValue::parse`]: dates in the ISO forms that `type="date"` and
    /// `type="datetime-local"` inputs use.
    pub fn edit_text(&self) -> (s: String)
        ensures
            s@ == edit_text_spec(self@),
    {
        match self {
            FilterValue::Date(d) => match chrono_format_date(*d, "%Y-%m-%d") {
                Some(s) => s,
                None => empty_string(),
            },
            FilterValue::DateTime(t) => match chrono_format_date_time(*t, "%Y-%m-%dT%H:%M") {
                Some(s) => s,
                None => empty_string(),
            },
            _ => plain_text(&self.as_cell()),
        }
    }

    /// Takes an owned copy of a cell value; `None` for the empty value,
    /// which a filter expresses with [`FilterOp::IsEmpty`] instead.
    pub fn from_cell(value: &CellValue<'_>) -> (r: Option<Self>)
        ensures
            match r {
                Some(v) => !(value@ is Empty) && v@ == value@,
                None => value@ is Empty,
            },
    {
        match value {
            CellValue::Empty => None,
            CellValue::Bool(b) => Some(FilterValue::Bool(*b)),
            CellValue::Int(i) => Some(FilterValue::Int(*i)),
            CellValue::Date(d) => Some(FilterValue::Date(*d)),
            CellValue::DateTime(t) => Some(FilterValue::DateTime(*t)),
            CellValue::Text(s) => Some(FilterValue::Text((*s).to_owned())),
        }
    }

    /// Borrows this value as a cell value.
    pub fn as_cell(&self) -> (r: CellValue<'_>)
        ensures
            r@ == self@,
    {
        match self {
            FilterValue::Text(s) => CellValue::Text(s.as_str()),
            FilterValue::Int(i) => CellValue::Int(*i),
            FilterValue::Bool(b) => CellValue::Bool(*b),
            FilterValue::Date(d) => CellValue::Date(*d),
            FilterValue::DateTime(t) => CellValue::DateTime(*t),
        }
    }

    /// This value as a value of `kind`, reading text if it has to; `None`
    /// if it cannot be read as `kind`.
    pub fn coerce(&self, kind: ValueKind) -> (r: Option<Self>)
        ensures
            match r {
                Some(v) => coerce_spec(self@, kind) == Some(v@),
                None => coerce_spec(self@, kind) is None,
            },
    {
        match (kind, self) {
            (ValueKind::Text, FilterValue::Text(_))
            | (ValueKind::Number, FilterValue::Int(_))
            | (ValueKind::Bool, FilterValue::Bool(_))
            | (ValueKind::Date, FilterValue::Date(_))
            | (ValueKind::DateTime, FilterValue::DateTime(_)) => Some(self.duplicate()),
            (ValueKind::DateTime, FilterValue::Date(d)) => Some(FilterValue::DateTime(Timestamp::midnight(*d))),
            (_, FilterValue::Text(text)) => FilterValue::parse(kind, text.as_str()),
            (ValueKind::Text, _) => Some(FilterValue::Text(plain_text(&self.as_cell()))),
            _ => None,
        }
    }

    /// Reads `text` as a value of `kind`. See [`FilterValue::coerce`].
    pub fn parse(kind: ValueKind, text: &str) -> (r: Option<Self>)
        ensures
            match r {
                Some(v) => parse_spec(kind, text@) == Some(v@),
                None => parse_spec(kind, text@) is None,
            },
    {
        let trimmed = trim_text(text);
        match kind {
            ValueKind::Text => Some(FilterValue::Text(trimmed)),
            ValueKind::Number => match parse_i64(&chars_of(trimmed.as_str())) {
                Some(i) => Some(FilterValue::Int(i)),
                None => None,
            },
            ValueKind::Bool => {
                let lower = chars_of(str_lowercase(trimmed.as_str()).as_str());
                let yes = vec!["true", "yes", "ja", "1"];
                let no = vec!["false", "no", "nein", "0"];
                proof {
                    assert(yes@.map_values(|w: &str| w@) =~= true_words());
                    assert(no@.map_values(|w: &str| w@) =~= false_words());
                }
                if is_one_of(&lower, &yes) {
                    Some(FilterValue::Bool(true))
                } else if is_one_of(&lower, &no) {
                    Some(FilterValue::Bool(false))
                } else {
                    None
                }
            },
            ValueKind::Date => match parse_date(trimmed.as_str()) {
                Some(d) => Some(FilterValue::Date(d)),
                None => None,
            },
            ValueKind::DateTime => match parse_date_time(trimmed.as_str()) {
                Some(t) => Some(FilterValue::DateTime(t)),
                None => None,
            },
        }
    }
}

impl<'a> From<&'a str> for FilterValue {
    fn from(value: &'a str) -> (r: Self)
        ensures
            r@ == CellModel::Text(value@),
    {
        FilterValue::Text(value.to_owned())
    }
}

impl<'a> vstd::std_specs::convert::FromSpecImpl<&'a str> for FilterValue {
    open spec fn obeys_from_spec() -> bool {
        false
    }

    open spec fn from_spec(v: &'a str) -> Self {
        arbitrary()
    }
}

impl From<String> for FilterValue {
    fn from(value: String) -> (r: Self) {
        FilterValue::Text(value)
    }
}

impl vstd::std_specs::convert::FromSpecImpl<String> for FilterValue {
    open spec fn obeys_from_spec() -> bool {
        true
    }

    open spec fn from_spec(v: String) -> Self {
        FilterValue::Text(v)
    }
}

impl From<i64> for FilterValue {
    fn from(value: i64) -> (r: Self) {
        FilterValue::Int(value)
    }
}

impl vstd::std_specs::convert::FromSpecImpl<i64> for FilterValue {
    open spec fn obeys_from_spec() -> bool {
        true
    }

    open spec fn from_spec(v: i64) -> Self {
        FilterValue::Int(v)
    }
}

impl From<i32> for FilterValue {
    fn from(value: i32) -> (r: Self) {
        FilterValue::Int(value as i64)
    }
}

impl vstd::std_specs::convert::FromSpecImpl<i32> for FilterValue {
    open spec fn obeys_from_spec() -> bool {
        true
    }

    open spec fn from_spec(v: i32) -> Self {
        FilterValue::Int(v as i64)
    }
}

impl From<u32> for FilterValue {
    fn from(value: u32) -> (r: Self) {
        FilterValue::Int(value as i64)
    }
}

impl vstd::std_specs::convert::FromSpecImpl<u32> for FilterValue {
    open spec fn obeys_from_spec() -> bool {
        true
    }

    open spec fn from_spec(v: u32) -> Self {
        FilterValue::Int(v as i64)
    }
}

impl From<bool> for FilterValue {
    fn from(value: bool) -> (r: Self) {
        FilterValue::Bool(value)
    }
}

impl vstd::std_specs::convert::FromSpecImpl<bool> for FilterValue {
    open spec fn obeys_from_spec() -> bool {
        true
    }

    open spec fn from_spec(v: bool) -> Self {
        FilterValue::Bool(v)
    }
}

} // verus!

verus! {

/// An optional string as its characters.
pub open spec fn opt_text(text: Option<&str>) -> Option<Seq<char>> {
    match text {
        Some(t) => Some(t@),
        None => None,
    }
}

/// A character folded to lowercase if it is an ASCII capital.
pub open spec fn ascii_fold(c: char) -> int {
    if 65 <= crate::text::code(c) <= 90 {
        crate::text::code(c) + 32
    } else {
        crate::text::code(c)
    }
}

/// Whether `needle` occurs in `hay` at `start`, ignoring ASCII case.
pub open spec fn ascii_ci_at(hay: Seq<char>, needle: Seq<char>, start: int) -> bool {
    0 <= start && start + needle.len() <= hay.len() && forall|k: int|
        0 <= k < needle.len() ==> ascii_fold(#[trigger] hay[start + k]) == ascii_fold(needle[k])
}

/// Case-insensitive substring test: an empty needle is always found;
/// ASCII text compares ASCII letters without case; any other text compares
/// the full Unicode lowercase forms, whose lengths may differ from the
/// originals'.
pub open spec fn contains_ci(hay: Seq<char>, needle: Seq<char>) -> bool {
    if needle.len() == 0 {
        true
    } else if is_ascii_chars(hay) && is_ascii_chars(needle) {
        exists|start: int| ascii_ci_at(hay, needle, start)
    } else {
        has_substring(lowercase_str(hay), lowercase_str(needle))
    }
}

/// A character folded to lowercase if it is an ASCII capital.
fn ascii_fold_exec(c: char) -> (r: u32)
    ensures
        r as int == ascii_fold(c),
{
    let x = c as u32;
    if x >= 65 && x <= 90 {
        x + 32
    } else {
        x
    }
}

/// Case-insensitive substring test.
///
/// Pure ASCII inputs compare byte-wise without case; anything else compares
/// the Unicode lowercase forms.
pub fn contains_ignore_case(haystack: &str, needle: &str) -> (r: bool)
    ensures
        r == contains_ci(haystack@, needle@),
{
    if needle.is_empty() {
        return true;
    }
    if haystack.is_ascii() && needle.is_ascii() {
        let hay = chars_of(haystack);
        let pin = chars_of(needle);
        if pin.len() > hay.len() {
            assert forall|start: int| !ascii_ci_at(hay@, pin@, start) by {}
            return false;
        }
        let last = hay.len() - pin.len();
        let mut start: usize = 0;
        loop
            invariant
                start <= last,
                last == hay.len() - pin.len(),
                pin.len() <= hay.len(),
                hay@ == haystack@,
                pin@ == needle@,
                needle@.len() > 0,
                is_ascii_chars(haystack@) && is_ascii_chars(needle@),
                forall|s: int| 0 <= s < start ==> !ascii_ci_at(hay@, pin@, s),
            decreases last - start,
        {
            let mut k: usize = 0;
            let mut same = true;
            while k < pin.len()
                invariant
                    k <= pin.len(),
                    start + pin.len() <= hay.len(),
                    same ==> forall|m: int| 0 <= m < k ==> ascii_fold(#[trigger] hay@[start + m]) == ascii_fold(pin@[m]),
                    !same ==> !ascii_ci_at(hay@, pin@, start as int),
                decreases pin.len() - k,
            {
                if same && ascii_fold_exec(hay[start + k]) != ascii_fold_exec(pin[k]) {
                    same = false;
                }
                k = k + 1;
            }
            if same {
                assert(ascii_ci_at(hay@, pin@, start as int));
                return true;
            }
            if start == last {
                assert forall|s: int| !ascii_ci_at(hay@, pin@, s) by {
                    if 0 <= s <= start {
                    }
                }
                return false;
            }
            start = start + 1;
        }
    } else {
        let hay = chars_of(str_lowercase(haystack).as_str());
        let pin = chars_of(str_lowercase(needle).as_str());
        contains_chars(&hay, &pin)
    }
}

/// Whether a cell counts as empty: no value (and blank filter text, if
/// any), or blank text.
pub open spec fn is_empty_spec(value: CellModel, text: Option<Seq<char>>) -> bool {
    match value {
        CellModel::Empty => match text {
            Some(t) => is_blank(t),
            None => true,
        },
        CellModel::Text(v) => is_blank(v),
        _ => false,
    }
}

pub(crate) fn is_blank_exec(text: &str) -> (r: bool)
    ensures
        r == is_blank(text@),
{
    trim_text(text).as_str().is_empty()
}

fn is_empty(value: &CellValue<'_>, text: Option<&str>) -> (r: bool)
    ensures
        r == is_empty_spec(value@, opt_text(text)),
{
    match value {
        CellValue::Empty => match text {
            Some(t) => is_blank_exec(t),
            None => true,
        },
        CellValue::Text(v) => is_blank_exec(v),
        _ => false,
    }
}

/// The text a text operator looks for: a text operand as it is, any other
/// operand as its plain text.
pub open spec fn text_of_operand_spec(operand: CellModel) -> Seq<char> {
    match operand {
        CellModel::Text(t) => t,
        _ => plain_text_spec(operand),
    }
}

fn text_of_operand(operand: &FilterValue) -> (r: String)
    ensures
        r@ == text_of_operand_spec(operand@),
{
    match operand {
        FilterValue::Text(t) => t.clone(),
        _ => plain_text(&operand.as_cell()),
    }
}

/// What a text operator finds: a lowercase prefix, a lowercase suffix, or a
/// case-insensitive substring.
pub open spec fn text_test_spec(op: FilterOp, hay: Seq<char>, needle: Seq<char>) -> bool {
    match op {
        FilterOp::StartsWith => has_prefix(lowercase_str(hay), lowercase_str(needle)),
        FilterOp::EndsWith => has_suffix(lowercase_str(hay), lowercase_str(needle)),
        _ => contains_ci(hay, needle),
    }
}

fn text_test(op: FilterOp, haystack: &str, needle: &str) -> (r: bool)
    ensures
        r == text_test_spec(op, haystack@, needle@),
{
    match op {
        FilterOp::StartsWith => starts_with_chars(
            &chars_of(str_lowercase(haystack).as_str()),
            &chars_of(str_lowercase(needle).as_str()),
        ),
        FilterOp::EndsWith => ends_with_chars(
            &chars_of(str_lowercase(haystack).as_str()),
            &chars_of(str_lowercase(needle).as_str()),
        ),
        _ => contains_ignore_case(haystack, needle),
    }
}

/// How a cell compares with an operand of the same kind, reading a text
/// operand as the cell's kind. `None` when they cannot be compared: an
/// empty cell, or an operand that does not read as the cell's kind. Texts
/// that are the same but for case compare equal.
pub open spec fn compare_spec(value: CellModel, operand: CellModel) -> Option<Ordering> {
    match kind_of(value) {
        None => None,
        Some(kind) => match coerce_spec(operand, kind) {
            None => None,
            Some(o) => match (value, o) {
                (CellModel::Text(a), CellModel::Text(b)) => if lowercase_str(a) == lowercase_str(b) {
                    Some(Ordering::Equal)
                } else {
                    Some(cell_order(value, o, TextCollation::CaseInsensitive))
                },
                _ => Some(cell_order(value, o, TextCollation::CaseInsensitive)),
            },
        },
    }
}

fn compare(value: &CellValue<'_>, operand: &FilterValue) -> (r: Option<Ordering>)
    ensures
        r == compare_spec(value@, operand@),
{
    let kind = match ValueKind::of(value) {
        Some(kind) => kind,
        None => return None,
    };
    let operand = match operand.coerce(kind) {
        Some(o) => o,
        None => return None,
    };
    let ordering = value.cmp_with(&operand.as_cell(), TextCollation::CaseInsensitive);
    if let (CellValue::Text(a), FilterValue::Text(b)) = (value, &operand) {
        if text_equals(str_lowercase(a).as_str(), str_lowercase(b.as_str()).as_str()) {
            return Some(Ordering::Equal);
        }
    }
    Some(ordering)
}

/// Whether a cell equals an operand: compared as the cell's kind, or, for
/// a text operand the cell cannot be read against, the cell's filter text
/// compared trimmed and without case.
pub open spec fn equals_spec(value: CellModel, text: Option<Seq<char>>, operand: CellModel) -> bool {
    match compare_spec(value, operand) {
        Some(o) => o == Ordering::Equal,
        None => match (value, operand, text) {
            (CellModel::Empty, _, _) => false,
            (_, CellModel::Text(op), Some(t)) => lowercase_str(trim_spec(t)) == lowercase_str(trim_spec(op)),
            _ => false,
        },
    }
}

fn equals(value: &CellValue<'_>, text: Option<&str>, operand: &FilterValue) -> (r: bool)
    ensures
        r == equals_spec(value@, opt_text(text), operand@),
{
    match compare(value, operand) {
        Some(ordering) => match ordering {
            Ordering::Equal => true,
            _ => false,
        },
        None => match (value, operand, text) {
            (CellValue::Empty, _, _) => false,
            (_, FilterValue::Text(op), Some(t)) => text_equals(
                str_lowercase(trim_text(t).as_str()).as_str(),
                str_lowercase(trim_text(op.as_str()).as_str()).as_str(),
            ),
            _ => false,
        },
    }
}

} // verus!

verus! {

/// One condition: an operator and its operands.
#[derive(Clone, Debug, PartialEq, Eq, Hash)]
pub struct Condition {
    /// The operator.
    pub op: FilterOp,
    /// The operands: none, one, two for [`FilterOp::Between`], or the list
    /// for [`FilterOp::OneOf`].
    pub values: Vec<FilterValue>,
}

/// The content of a [`Condition`].
pub struct ConditionModel {
    /// The operator.
    pub op: FilterOp,
    /// The operands.
    pub values: Seq<CellModel>,
}

/// The models of a list of filter values.
pub open spec fn values_model(values: Seq<FilterValue>) -> Seq<CellModel> {
    values.map_values(|v: FilterValue| v@)
}

impl View for Condition {
    type V = ConditionModel;

    open spec fn view(&self) -> ConditionModel {
        ConditionModel { op: self.op, values: values_model(self.values@) }
    }
}

/// Whether an operator tests text.
pub open spec fn is_text_op(op: FilterOp) -> bool {
    op == FilterOp::Contains || op == FilterOp::StartsWith || op == FilterOp::EndsWith
}

/// Whether a comparison result passes a comparison operator.
pub open spec fn comparison_passes(op: FilterOp, o: Ordering) -> bool {
    match op {
        FilterOp::Less => o == Ordering::Less,
        FilterOp::LessOrEqual => o != Ordering::Greater,
        FilterOp::Greater => o == Ordering::Greater,
        _ => o != Ordering::Less,
    }
}

/// Whether a cell passes a condition. `text` is the column's filter text,
/// which the text operators prefer over the value; without it, a value
/// that is not text is matched by its plain form.
pub open spec fn condition_matches(c: ConditionModel, value: CellModel, text: Option<Seq<char>>) -> bool {
    let values = c.values;
    match c.op {
        FilterOp::IsEmpty => is_empty_spec(value, text),
        FilterOp::IsNotEmpty => !is_empty_spec(value, text),
        FilterOp::Contains | FilterOp::StartsWith | FilterOp::EndsWith => if values.len() == 0 {
            true
        } else {
            let needle = text_of_operand_spec(values[0]);
            match text {
                Some(t) => text_test_spec(c.op, t, needle),
                None => match value {
                    CellModel::Text(v) => text_test_spec(c.op, v, needle),
                    CellModel::Empty => false,
                    _ => text_test_spec(c.op, plain_text_spec(value), needle),
                },
            }
        },
        FilterOp::OneOf => exists|i: int| 0 <= i < values.len() && equals_spec(value, text, #[trigger] values[i]),
        FilterOp::Equals => values.len() == 0 || equals_spec(value, text, values[0]),
        FilterOp::NotEquals => values.len() == 0 || (!(value is Empty) && !equals_spec(value, text, values[0])),
        FilterOp::Less | FilterOp::LessOrEqual | FilterOp::Greater | FilterOp::GreaterOrEqual => values.len() == 0
            || match compare_spec(value, values[0]) {
            Some(o) => comparison_passes(c.op, o),
            None => false,
        },
        FilterOp::Between => if values.len() < 2 {
            true
        } else {
            match (compare_spec(value, values[0]), compare_spec(value, values[1])) {
                (Some(a), Some(b)) => (a != Ordering::Less && b != Ordering::Greater) || (a != Ordering::Greater && b
                    != Ordering::Less),
                _ => false,
            }
        },
    }
}

/// A range matches the same cells whichever of its two bounds comes first.
pub proof fn lemma_between_either_order(low: CellModel, high: CellModel, value: CellModel, text: Option<Seq<char>>)
    ensures
        condition_matches(ConditionModel { op: FilterOp::Between, values: seq![low, high] }, value, text)
            == condition_matches(ConditionModel { op: FilterOp::Between, values: seq![high, low] }, value, text),
{
}

/// An empty cell passes no comparison that has its operands: not less,
/// greater, either "or equal" form, nor a range.
pub proof fn lemma_empty_cell_passes_no_comparison(c: ConditionModel, text: Option<Seq<char>>)
    requires
        c.op is Less || c.op is LessOrEqual || c.op is Greater || c.op is GreaterOrEqual || c.op is Between,
        c.values.len() >= if c.op is Between {
            2int
        } else {
            1int
        },
    ensures
        !condition_matches(c, CellModel::Empty, text),
{
}

/// An operand read as `kind` if it can be, otherwise as it is.
pub open spec fn prepared_value(v: CellModel, kind: ValueKind) -> CellModel {
    match coerce_spec(v, kind) {
        Some(x) => x,
        None => v,
    }
}

/// A condition with its operands read as `kind`; text operators keep theirs.
pub open spec fn prepared_spec(c: ConditionModel, kind: ValueKind) -> ConditionModel {
    if is_text_op(c.op) {
        c
    } else {
        ConditionModel { op: c.op, values: c.values.map_values(|v: CellModel| prepared_value(v, kind)) }
    }
}

/// The condition with one text operand.
pub open spec fn text_condition(op: FilterOp, text: Seq<char>) -> ConditionModel {
    ConditionModel { op, values: seq![CellModel::Text(text)] }
}

/// The comparison operator a trimmed filter bar text starts with, and its
/// length: `!=`, `<=`, `>=`, then `=`, `<`, `>`.
pub open spec fn bar_operator(t: Seq<char>) -> Option<(int, FilterOp)> {
    if t.len() >= 2 && t[1] == '=' && t[0] == '!' {
        Some((2, FilterOp::NotEquals))
    } else if t.len() >= 2 && t[1] == '=' && t[0] == '<' {
        Some((2, FilterOp::LessOrEqual))
    } else if t.len() >= 2 && t[1] == '=' && t[0] == '>' {
        Some((2, FilterOp::GreaterOrEqual))
    } else if t.len() >= 1 && t[0] == '=' {
        Some((1, FilterOp::Equals))
    } else if t.len() >= 1 && t[0] == '<' {
        Some((1, FilterOp::Less))
    } else if t.len() >= 1 && t[0] == '>' {
        Some((1, FilterOp::Greater))
    } else {
        None
    }
}

/// Whether `..` starts at position `i` of `t`.
pub open spec fn dots_at(t: Seq<char>, i: int) -> bool {
    0 <= i && i + 1 < t.len() && t[i] == '.' && t[i + 1] == '.'
}

/// Where the first `..` in `t` starts, if there is one.
pub open spec fn first_dots(t: Seq<char>) -> Option<int> {
    if exists|i: int| dots_at(t, i) {
        Some(choose|i: int| dots_at(t, i) && forall|j: int| 0 <= j < i ==> !dots_at(t, j))
    } else {
        None
    }
}

/// A range `low..high` in a trimmed filter bar text, both ends trimmed and
/// not empty.
pub open spec fn bar_range(t: Seq<char>) -> Option<ConditionModel> {
    match first_dots(t) {
        Some(i) => {
            let low = trim_spec(t.take(i));
            let high = trim_spec(t.skip(i + 2));
            if low.len() > 0 && high.len() > 0 {
                Some(ConditionModel { op: FilterOp::Between, values: seq![CellModel::Text(low), CellModel::Text(high)] })
            } else {
                None
            }
        },
        None => None,
    }
}

/// What the filter bar's text means: nothing for blank text or a bare
/// operator; a comparison for a leading `!=`, `<=`, `>=`, `=`, `<` or `>`;
/// a range for `a..b`; and otherwise a substring test on the text as typed.
pub open spec fn from_text_spec(text: Seq<char>) -> Option<ConditionModel> {
    let t = trim_spec(text);
    if t.len() == 0 {
        None
    } else {
        match bar_operator(t) {
            Some((len, op)) => {
                let rest = trim_spec(t.skip(len));
                if rest.len() == 0 {
                    None
                } else {
                    Some(text_condition(op, rest))
                }
            },
            None => match bar_range(t) {
                Some(c) => Some(c),
                None => Some(text_condition(FilterOp::Contains, text)),
            },
        }
    }
}

proof fn lemma_first_dots(t: Seq<char>, i: int)
    requires
        dots_at(t, i),
        forall|j: int| 0 <= j < i ==> !dots_at(t, j),
    ensures
        first_dots(t) == Some(i),
{
    let k = choose|k: int| dots_at(t, k) && forall|j: int| 0 <= j < k ==> !dots_at(t, j);
    assert(dots_at(t, k) && forall|j: int| 0 <= j < k ==> !dots_at(t, j));
    if k < i {
        assert(!dots_at(t, k));
    }
    if i < k {
        assert(!dots_at(t, i));
    }
}

/// The characters `from..to` of `chars` as a string.
fn piece(chars: &Vec<char>, from: usize, to: usize) -> (s: String)
    requires
        from <= to <= chars.len(),
    ensures
        s@ == chars@.subrange(from as int, to as int),
{
    let mut v: Vec<char> = Vec::new();
    let mut k = from;
    while k < to
        invariant
            from <= k <= to <= chars.len(),
            v@ == chars@.subrange(from as int, k as int),
        decreases to - k,
    {
        v.push(chars[k]);
        k = k + 1;
        assert(v@ =~= chars@.subrange(from as int, k as int));
    }
    crate::text::string_of(&v)
}

/// The comparison operator a trimmed filter bar text starts with, and its
/// length; length 0 for none.
fn bar_operator_exec(t: &Vec<char>) -> (r: (usize, FilterOp))
    ensures
        match bar_operator(t@) {
            Some((len, op)) => r.0 == len && r.1 == op,
            None => r.0 == 0,
        },
{
    let n = t.len();
    if n >= 2 && t[1] == '=' && t[0] == '!' {
        (2, FilterOp::NotEquals)
    } else if n >= 2 && t[1] == '=' && t[0] == '<' {
        (2, FilterOp::LessOrEqual)
    } else if n >= 2 && t[1] == '=' && t[0] == '>' {
        (2, FilterOp::GreaterOrEqual)
    } else if n >= 1 && t[0] == '=' {
        (1, FilterOp::Equals)
    } else if n >= 1 && t[0] == '<' {
        (1, FilterOp::Less)
    } else if n >= 1 && t[0] == '>' {
        (1, FilterOp::Greater)
    } else {
        (0, FilterOp::Contains)
    }
}

/// The comparison the rest of the text after an operator makes; `None`
/// for a bare operator.
fn operator_condition(t: &Vec<char>, len: usize, op: FilterOp) -> (r: Option<Condition>)
    requires
        1 <= len <= t.len(),
    ensures
        match r {
            Some(c) => {
                let rest = trim_spec(t@.skip(len as int));
                rest.len() > 0 && c@ == text_condition(op, rest)
            },
            None => trim_spec(t@.skip(len as int)).len() == 0,
        },
{
    let rest = trim_text(piece(t, len, t.len()).as_str());
    assert(t@.subrange(len as int, t.len() as int) =~= t@.skip(len as int));
    if rest.as_str().is_empty() {
        return None;
    }
    let r = Condition::new(op, vec![FilterValue::Text(rest)]);
    assert(r@.values =~= seq![CellModel::Text(rest@)]);
    Some(r)
}

/// Where the first `..` in `t` starts.
fn find_dots(t: &Vec<char>) -> (r: Option<usize>)
    requires
        t.len() > 0,
    ensures
        match r {
            Some(i) => first_dots(t@) == Some(i as int) && i + 2 <= t.len(),
            None => first_dots(t@) is None,
        },
{
    let n = t.len();
    let mut i: usize = 0;
    while i < n - 1
        invariant
            n == t.len(),
            n > 0,
            i <= n - 1,
            forall|j: int| 0 <= j < i ==> !dots_at(t@, j),
        decreases n - i,
    {
        if t[i] == '.' && t[i + 1] == '.' {
            proof {
                lemma_first_dots(t@, i as int);
            }
            return Some(i);
        }
        i = i + 1;
    }
    assert forall|j: int| !dots_at(t@, j) by {
        if 0 <= j < i {
        }
    }
    None
}

/// The range between the texts before and after a `..` at `i`, trimmed.
fn range_at(t: &Vec<char>, i: usize) -> (r: Option<Condition>)
    requires
        i + 2 <= t.len(),
    ensures
        match r {
            Some(c) => {
                let low = trim_spec(t@.take(i as int));
                let high = trim_spec(t@.skip(i + 2));
                low.len() > 0 && high.len() > 0 && c@ == (ConditionModel {
                    op: FilterOp::Between,
                    values: seq![CellModel::Text(low), CellModel::Text(high)],
                })
            },
            None => trim_spec(t@.take(i as int)).len() == 0 || trim_spec(t@.skip(i + 2)).len() == 0,
        },
{
    let low = trim_text(piece(t, 0, i).as_str());
    let high = trim_text(piece(t, i + 2, t.len()).as_str());
    assert(t@.subrange(0, i as int) =~= t@.take(i as int));
    assert(t@.subrange(i + 2, t.len() as int) =~= t@.skip(i + 2));
    if !low.as_str().is_empty() && !high.as_str().is_empty() {
        let r = Condition::new(FilterOp::Between, vec![FilterValue::Text(low), FilterValue::Text(high)]);
        assert(r@.values =~= seq![CellModel::Text(low@), CellModel::Text(high@)]);
        Some(r)
    } else {
        None
    }
}

/// The range a trimmed filter bar text spells with `..`, if it does.
fn range_condition(t: &Vec<char>) -> (r: Option<Condition>)
    requires
        t.len() > 0,
    ensures
        match r {
            Some(c) => bar_range(t@) == Some(c@),
            None => bar_range(t@) is None,
        },
{
    match find_dots(t) {
        Some(i) => range_at(t, i),
        None => None,
    }
}

impl Condition {
    /// An identical copy.
    pub fn duplicate(&self) -> (r: Self)
        ensures
            r@ == self@,
    {
        Condition { op: self.op, values: duplicate_values(&self.values) }
    }

    /// A condition from an operator and its operands.
    pub fn new(op: FilterOp, values: Vec<FilterValue>) -> (r: Self)
        ensures
            r.op == op,
            r.values == values,
    {
        Condition { op, values }
    }

    /// Text contains `value`.
    pub fn contains<V: Into<FilterValue>>(value: V) -> (r: Self)
        ensures
            r.op == FilterOp::Contains,
            r.values.len() == 1,
            V::obeys_into_spec() ==> r.values[0] == value.into_spec(),
            call_ensures(<V as Into<FilterValue>>::into, (value,), r.values[0]),
    {
        Condition::new(FilterOp::Contains, vec![value.into()])
    }

    /// Text starts with `value`.
    pub fn starts_with<V: Into<FilterValue>>(value: V) -> (r: Self)
        ensures
            r.op == FilterOp::StartsWith,
            r.values.len() == 1,
            V::obeys_into_spec() ==> r.values[0] == value.into_spec(),
            call_ensures(<V as Into<FilterValue>>::into, (value,), r.values[0]),
    {
        Condition::new(FilterOp::StartsWith, vec![value.into()])
    }

    /// Text ends with `value`.
    pub fn ends_with<V: Into<FilterValue>>(value: V) -> (r: Self)
        ensures
            r.op == FilterOp::EndsWith,
            r.values.len() == 1,
            V::obeys_into_spec() ==> r.values[0] == value.into_spec(),
            call_ensures(<V as Into<FilterValue>>::into, (value,), r.values[0]),
    {
        Condition::new(FilterOp::EndsWith, vec![value.into()])
    }

    /// Equal to `value`.
    pub fn equals<V: Into<FilterValue>>(value: V) -> (r: Self)
        ensures
            r.op == FilterOp::Equals,
            r.values.len() == 1,
            V::obeys_into_spec() ==> r.values[0] == value.into_spec(),
            call_ensures(<V as Into<FilterValue>>::into, (value,), r.values[0]),
    {
        Condition::new(FilterOp::Equals, vec![value.into()])
    }

    /// Not equal to `value`.
    pub fn not_equals<V: Into<FilterValue>>(value: V) -> (r: Self)
        ensures
            r.op == FilterOp::NotEquals,
            r.values.len() == 1,
            V::obeys_into_spec() ==> r.values[0] == value.into_spec(),
            call_ensures(<V as Into<FilterValue>>::into, (value,), r.values[0]),
    {
        Condition::new(FilterOp::NotEquals, vec![value.into()])
    }

    /// Less than `value`.
    pub fn less<V: Into<FilterValue>>(value: V) -> (r: Self)
        ensures
            r.op == FilterOp::Less,
            r.values.len() == 1,
            V::obeys_into_spec() ==> r.values[0] == value.into_spec(),
            call_ensures(<V as Into<FilterValue>>::into, (value,), r.values[0]),
    {
        Condition::new(FilterOp::Less, vec![value.into()])
    }

    /// Less than or equal to `value`.
    pub fn less_or_equal<V: Into<FilterValue>>(value: V) -> (r: Self)
        ensures
            r.op == FilterOp::LessOrEqual,
            r.values.len() == 1,
            V::obeys_into_spec() ==> r.values[0] == value.into_spec(),
            call_ensures(<V as Into<FilterValue>>::into, (value,), r.values[0]),
    {
        Condition::new(FilterOp::LessOrEqual, vec![value.into()])
    }

    /// Greater than `value`.
    pub fn greater<V: Into<FilterValue>>(value: V) -> (r: Self)
        ensures
            r.op == FilterOp::Greater,
            r.values.len() == 1,
            V::obeys_into_spec() ==> r.values[0] == value.into_spec(),
            call_ensures(<V as Into<FilterValue>>::into, (value,), r.values[0]),
    {
        Condition::new(FilterOp::Greater, vec![value.into()])
    }

    /// Greater than or equal to `value`.
    pub fn greater_or_equal<V: Into<FilterValue>>(value: V) -> (r: Self)
        ensures
            r.op == FilterOp::GreaterOrEqual,
            r.values.len() == 1,
            V::obeys_into_spec() ==> r.values[0] == value.into_spec(),
            call_ensures(<V as Into<FilterValue>>::into, (value,), r.values[0]),
    {
        Condition::new(FilterOp::GreaterOrEqual, vec![value.into()])
    }

    /// Between `low` and `high`, both included.
    pub fn between<V: Into<FilterValue>, W: Into<FilterValue>>(low: V, high: W) -> (r: Self)
        ensures
            r.op == FilterOp::Between,
            r.values.len() == 2,
            V::obeys_into_spec() ==> r.values[0] == low.into_spec(),
            W::obeys_into_spec() ==> r.values[1] == high.into_spec(),
            call_ensures(<V as Into<FilterValue>>::into, (low,), r.values[0]),
            call_ensures(<W as Into<FilterValue>>::into, (high,), r.values[1]),
    {
        Condition::new(FilterOp::Between, vec![low.into(), high.into()])
    }

    /// No value, or empty text.
    pub fn is_empty() -> (r: Self)
        ensures
            r.op == FilterOp::IsEmpty,
            r.values.len() == 0,
    {
        Condition::new(FilterOp::IsEmpty, Vec::new())
    }

    /// Has a value.
    pub fn is_not_empty() -> (r: Self)
        ensures
            r.op == FilterOp::IsNotEmpty,
            r.values.len() == 0,
    {
        Condition::new(FilterOp::IsNotEmpty, Vec::new())
    }

    /// Equal to one of `values`.
    pub fn one_of<V: Into<FilterValue>>(values: Vec<V>) -> (r: Self)
        ensures
            r.op == FilterOp::OneOf,
            r.values.len() == values.len(),
            V::obeys_into_spec() ==> forall|i: int| 0 <= i < values.len() ==> r.values[i] == (#[trigger] values[i]).into_spec(),
            forall|i: int| 0 <= i < values.len() ==> call_ensures(<V as Into<FilterValue>>::into, (#[trigger] values[i],), r.values[i]),
    {
        let mut out: Vec<FilterValue> = Vec::new();
        let mut rest = values;
        let ghost original = rest@;
        let n = rest.len();
        while rest.len() > 0
            invariant
                out.len() + rest.len() == n,
                n == original.len(),
                rest@ == original.skip(out.len() as int),
                V::obeys_into_spec() ==> forall|j: int| 0 <= j < out.len() ==> out[j] == (#[trigger] original[j]).into_spec(),
                forall|j: int| 0 <= j < out.len() ==> call_ensures(<V as Into<FilterValue>>::into, (#[trigger] original[j],), out[j]),
            decreases rest.len(),
        {
            let v = rest.remove(0);
            proof {
                assert(original.skip(out.len() as int).drop_first() =~= original.skip(out.len() + 1));
            }
            out.push(v.into());
        }
        Condition::new(FilterOp::OneOf, out)
    }

    /// Reads the filter bar's text: a leading `=`, `!=`, `<`, `<=`, `>` or
    /// `>=` makes a comparison, `a..b` a range, and anything else a
    /// case-insensitive substring test. `None` for blank text or a bare
    /// operator.
    pub fn from_text(text: &str) -> (r: Option<Self>)
        ensures
            match r {
                Some(c) => from_text_spec(text@) == Some(c@),
                None => from_text_spec(text@) is None,
            },
    {
        let trimmed_string = trim_text(text);
        let t = chars_of(trimmed_string.as_str());
        if t.len() == 0 {
            return None;
        }
        let (len, op) = bar_operator_exec(&t);
        if len > 0 {
            return operator_condition(&t, len, op);
        }
        match range_condition(&t) {
            Some(r) => Some(r),
            None => {
                let r = Condition::new(FilterOp::Contains, vec![FilterValue::Text(text.to_owned())]);
                assert(r@.values =~= seq![CellModel::Text(text@)]);
                Some(r)
            },
        }
    }

    /// Whether a cell passes this condition.
    ///
    /// `text` is the column's filter text, used by the text operators when
    /// the value is not itself text; without it, a number or date is matched
    /// by its plain form.
    pub fn matches(&self, value: &CellValue<'_>, text: Option<&str>) -> (r: bool)
        ensures
            r == condition_matches(self@, value@, opt_text(text)),
    {
        let values = &self.values;
        let ghost model = values_model(values@);
        assert(forall|i: int| 0 <= i < values.len() ==> model[i] == (#[trigger] values@[i])@);
        match self.op {
            FilterOp::IsEmpty => is_empty(value, text),
            FilterOp::IsNotEmpty => !is_empty(value, text),
            FilterOp::Contains | FilterOp::StartsWith | FilterOp::EndsWith => {
                if values.len() == 0 {
                    return true;
                }
                let needle = text_of_operand(&values[0]);
                match text {
                    Some(t) => text_test(self.op, t, needle.as_str()),
                    None => match value {
                        CellValue::Text(v) => text_test(self.op, v, needle.as_str()),
                        CellValue::Empty => false,
                        _ => text_test(self.op, plain_text(value).as_str(), needle.as_str()),
                    },
                }
            },
            FilterOp::OneOf => {
                let mut i: usize = 0;
                while i < values.len()
                    invariant
                        i <= values.len(),
                        self.op == FilterOp::OneOf,
                        values == &self.values,
                        model == values_model(values@),
                        forall|j: int| 0 <= j < values.len() ==> model[j] == (#[trigger] values@[j])@,
                        forall|j: int| 0 <= j < i ==> !equals_spec(value@, opt_text(text), #[trigger] model[j]),
                    decreases values.len() - i,
                {
                    if equals(value, text, &values[i]) {
                        assert(equals_spec(value@, opt_text(text), model_at(model, i)));
                        return true;
                    }
                    i = i + 1;
                }
                false
            },
            FilterOp::Equals => values.len() == 0 || equals(value, text, &values[0]),
            FilterOp::NotEquals => values.len() == 0 || (!value.is_none() && !equals(value, text, &values[0])),
            FilterOp::Less | FilterOp::LessOrEqual | FilterOp::Greater | FilterOp::GreaterOrEqual => {
                if values.len() == 0 {
                    return true;
                }
                match compare(value, &values[0]) {
                    Some(o) => passes_comparison(self.op, o),
                    None => false,
                }
            },
            FilterOp::Between => {
                if values.len() < 2 {
                    return true;
                }
                match (compare(value, &values[0]), compare(value, &values[1])) {
                    (Some(a), Some(b)) => in_range(a, b),
                    _ => false,
                }
            },
        }
    }

    /// This condition with its operands read as `kind` once, instead of
    /// once per row. Operands that do not read as `kind` stay as they are.
    pub fn prepared(&self, kind: ValueKind) -> (r: Self)
        ensures
            r@ == prepared_spec(self@, kind),
    {
        let text_op = match self.op {
            FilterOp::Contains | FilterOp::StartsWith | FilterOp::EndsWith => true,
            _ => false,
        };
        if text_op {
            return self.duplicate();
        }
        let mut values: Vec<FilterValue> = Vec::new();
        let mut i: usize = 0;
        while i < self.values.len()
            invariant
                i <= self.values.len(),
                values@.len() == i,
                forall|j: int| 0 <= j < i ==> (#[trigger] values@[j])@ == prepared_value(self.values@[j]@, kind),
            decreases self.values.len() - i,
        {
            let v = match self.values[i].coerce(kind) {
                Some(c) => c,
                None => self.values[i].duplicate(),
            };
            values.push(v);
            i = i + 1;
        }
        let r = Condition::new(self.op, values);
        assert(r@.values =~= self@.values.map_values(|v: CellModel| prepared_value(v, kind)));
        r
    }
}

/// The element of `s` at position `i`.
pub open spec fn model_at(s: Seq<CellModel>, i: usize) -> CellModel {
    s[i as int]
}

/// Whether a comparison result passes a comparison operator.
fn passes_comparison(op: FilterOp, o: Ordering) -> (r: bool)
    ensures
        r == comparison_passes(op, o),
{
    match op {
        FilterOp::Less => matches!(o, Ordering::Less),
        FilterOp::LessOrEqual => !matches!(o, Ordering::Greater),
        FilterOp::Greater => matches!(o, Ordering::Greater),
        _ => !matches!(o, Ordering::Less),
    }
}

/// Whether a value lies between two bounds in either order, given how it
/// compares with each.
fn in_range(a: Ordering, b: Ordering) -> (r: bool)
    ensures
        r == ((a != Ordering::Less && b != Ordering::Greater) || (a != Ordering::Greater && b != Ordering::Less)),
{
    (!matches!(a, Ordering::Less) && !matches!(b, Ordering::Greater))
        || (!matches!(a, Ordering::Greater) && !matches!(b, Ordering::Less))
}

/// An identical copy of a list of filter values.
pub fn duplicate_values(values: &Vec<FilterValue>) -> (r: Vec<FilterValue>)
    ensures
        values_model(r@) == values_model(values@),
{
    let mut out: Vec<FilterValue> = Vec::new();
    let mut i: usize = 0;
    while i < values.len()
        invariant
            i <= values.len(),
            out@.len() == i,
            forall|j: int| 0 <= j < i ==> (#[trigger] out@[j])@ == values@[j]@,
        decreases values.len() - i,
    {
        out.push(values[i].duplicate());
        i = i + 1;
    }
    assert(values_model(out@) =~= values_model(values@));
    out
}

} // verus!

verus! {

/// The conditions on one column: all of them (AND) or any of them (OR). No
/// conditions means no filter.
#[derive(Clone, Debug, Default, PartialEq, Eq, Hash)]
pub struct ColumnFilter {
    /// The conditions.
    pub conditions: Vec<Condition>,
    /// Whether a cell must pass any condition rather than all of them.
    pub any: bool,
}

/// The content of a [`ColumnFilter`].
pub struct FilterModel {
    /// The conditions.
    pub conditions: Seq<ConditionModel>,
    /// Whether any condition suffices.
    pub any: bool,
}

/// The models of a list of conditions.
pub open spec fn conditions_model(conditions: Seq<Condition>) -> Seq<ConditionModel> {
    conditions.map_values(|c: Condition| c@)
}

impl View for ColumnFilter {
    type V = FilterModel;

    open spec fn view(&self) -> FilterModel {
        FilterModel { conditions: conditions_model(self.conditions@), any: self.any }
    }
}

/// Whether a cell passes a filter: any condition (and then also when there
/// are none), or every condition.
pub open spec fn filter_matches(f: FilterModel, value: CellModel, text: Option<Seq<char>>) -> bool {
    if f.any {
        f.conditions.len() == 0 || exists|i: int|
            0 <= i < f.conditions.len() && condition_matches(#[trigger] f.conditions[i], value, text)
    } else {
        forall|i: int| 0 <= i < f.conditions.len() ==> condition_matches(#[trigger] f.conditions[i], value, text)
    }
}

/// A filter with every condition's operands read as `kind`.
pub open spec fn prepared_filter(f: FilterModel, kind: ValueKind) -> FilterModel {
    FilterModel { conditions: f.conditions.map_values(|c: ConditionModel| prepared_spec(c, kind)), any: f.any }
}

/// An operand with the white space around a text trimmed.
pub open spec fn trimmed_operand(v: CellModel) -> CellModel {
    match v {
        CellModel::Text(t) => CellModel::Text(trim_spec(t)),
        _ => v,
    }
}

/// What the filter bar's text means on a column of `kind`: the condition
/// from [`from_text_spec`], except that a substring test becomes equality
/// with trimmed operands on every kind but text.
pub open spec fn from_bar_text_spec(text: Seq<char>, kind: ValueKind) -> Option<FilterModel> {
    match from_text_spec(text) {
        None => None,
        Some(c) => {
            let c2 = if kind != ValueKind::Text && c.op == FilterOp::Contains {
                ConditionModel { op: FilterOp::Equals, values: c.values.map_values(|v: CellModel| trimmed_operand(v)) }
            } else {
                c
            };
            Some(FilterModel { conditions: seq![c2], any: false })
        },
    }
}

impl ColumnFilter {
    /// A filter of one condition.
    pub fn new(condition: Condition) -> (r: Self)
        ensures
            r.conditions@ == seq![condition],
            !r.any,
    {
        ColumnFilter { conditions: vec![condition], any: false }
    }

    /// Adds a condition a cell must also pass.
    pub fn and(self, condition: Condition) -> (r: Self)
        ensures
            r.conditions@ == self.conditions@.push(condition),
            !r.any,
    {
        let mut conditions = self.conditions;
        conditions.push(condition);
        ColumnFilter { conditions, any: false }
    }

    /// Adds a condition a cell may pass instead.
    pub fn or(self, condition: Condition) -> (r: Self)
        ensures
            r.conditions@ == self.conditions@.push(condition),
            r.any,
    {
        let mut conditions = self.conditions;
        conditions.push(condition);
        ColumnFilter { conditions, any: true }
    }

    /// Whether this filter lets every row through: it has no conditions.
    pub fn is_empty(&self) -> (r: bool)
        ensures
            r == (self.conditions.len() == 0),
    {
        self.conditions.len() == 0
    }

    /// An identical copy.
    pub fn duplicate(&self) -> (r: Self)
        ensures
            r@ == self@,
    {
        let mut conditions: Vec<Condition> = Vec::new();
        let mut i: usize = 0;
        while i < self.conditions.len()
            invariant
                i <= self.conditions.len(),
                conditions@.len() == i,
                forall|j: int| 0 <= j < i ==> (#[trigger] conditions@[j])@ == self.conditions@[j]@,
            decreases self.conditions.len() - i,
        {
            conditions.push(self.conditions[i].duplicate());
            i = i + 1;
        }
        let r = ColumnFilter { conditions, any: self.any };
        assert(r@.conditions =~= self@.conditions);
        r
    }

    /// What the filter bar's `text` means on a column of `kind`. `None` for
    /// blank text.
    pub fn from_bar_text(text: &str, kind: ValueKind) -> (r: Option<Self>)
        ensures
            match r {
                Some(f) => from_bar_text_spec(text@, kind) == Some(f@),
                None => from_bar_text_spec(text@, kind) is None,
            },
    {
        let condition = match Condition::from_text(text) {
            Some(c) => c,
            None => return None,
        };
        let is_contains = match condition.op {
            FilterOp::Contains => true,
            _ => false,
        };
        let is_text = match kind {
            ValueKind::Text => true,
            _ => false,
        };
        if !is_text && is_contains {
            let mut values: Vec<FilterValue> = Vec::new();
            let mut i: usize = 0;
            while i < condition.values.len()
                invariant
                    i <= condition.values.len(),
                    values@.len() == i,
                    forall|j: int| 0 <= j < i ==> (#[trigger] values@[j])@ == trimmed_operand(condition.values@[j]@),
                decreases condition.values.len() - i,
            {
                let v = match &condition.values[i] {
                    FilterValue::Text(t) => FilterValue::Text(trim_text(t.as_str())),
                    other => other.duplicate(),
                };
                values.push(v);
                i = i + 1;
            }
            let c2 = Condition::new(FilterOp::Equals, values);
            assert(c2@.values =~= condition@.values.map_values(|v: CellModel| trimmed_operand(v)));
            let r = ColumnFilter::new(c2);
            assert(r@.conditions =~= seq![c2@]);
            Some(r)
        } else {
            let ghost cm = condition@;
            let r = ColumnFilter::new(condition);
            assert(r@.conditions =~= seq![cm]);
            Some(r)
        }
    }

    /// This filter with every operand read as `kind`.
    pub fn prepared(&self, kind: ValueKind) -> (r: Self)
        ensures
            r@ == prepared_filter(self@, kind),
    {
        let mut conditions: Vec<Condition> = Vec::new();
        let mut i: usize = 0;
        while i < self.conditions.len()
            invariant
                i <= self.conditions.len(),
                conditions@.len() == i,
                forall|j: int| 0 <= j < i ==> (#[trigger] conditions@[j])@ == prepared_spec(self.conditions@[j]@, kind),
            decreases self.conditions.len() - i,
        {
            conditions.push(self.conditions[i].prepared(kind));
            i = i + 1;
        }
        let r = ColumnFilter { conditions, any: self.any };
        assert(r@.conditions =~= prepared_filter(self@, kind).conditions);
        r
    }

    /// Whether a cell passes this filter. See [`Condition::matches`].
    pub fn matches(&self, value: &CellValue<'_>, text: Option<&str>) -> (r: bool)
        ensures
            r == filter_matches(self@, value@, opt_text(text)),
    {
        let ghost model = self@;
        let n = self.conditions.len();
        if self.any {
            if n == 0 {
                return true;
            }
            let mut i: usize = 0;
            while i < n
                invariant
                    i <= n,
                    n == self.conditions.len(),
                    model == self@,
                    model.any,
                    forall|j: int| 0 <= j < i ==> !condition_matches(#[trigger] model.conditions[j], value@, opt_text(text)),
                decreases n - i,
            {
                if self.conditions[i].matches(value, text) {
                    assert(condition_matches(model.conditions[i as int], value@, opt_text(text)));
                    return true;
                }
                i = i + 1;
            }
            false
        } else {
            let mut i: usize = 0;
            while i < n
                invariant
                    i <= n,
                    n == self.conditions.len(),
                    model == self@,
                    !model.any,
                    forall|j: int| 0 <= j < i ==> condition_matches(#[trigger] model.conditions[j], value@, opt_text(text)),
                decreases n - i,
            {
                if !self.conditions[i].matches(value, text) {
                    assert(!condition_matches(model.conditions[i as int], value@, opt_text(text)));
                    return false;
                }
                i = i + 1;
            }
            true
        }
    }
}

impl From<Condition> for ColumnFilter {
    fn from(condition: Condition) -> (r: Self)
        ensures
            r.conditions@ == seq![condition],
            !r.any,
    {
        ColumnFilter::new(condition)
    }
}

impl vstd::std_specs::convert::FromSpecImpl<Condition> for ColumnFilter {
    open spec fn obeys_from_spec() -> bool {
        false
    }

    open spec fn from_spec(v: Condition) -> Self {
        arbitrary()
    }
}

/// The comparison operators pass as their names say, by how the cell
/// compares with the operand: less passes a smaller cell; less or equal a
/// smaller or an equal one; greater a larger one; greater or equal a larger
/// or an equal one. A cell that cannot be compared with the operand passes
/// none of them.
pub proof fn lemma_comparisons_by_order(operand: CellModel, value: CellModel, text: Option<Seq<char>>)
    ensures
        condition_matches(ConditionModel { op: FilterOp::Less, values: seq![operand] }, value, text)
            == (compare_spec(value, operand) == Some(Ordering::Less)),
        condition_matches(ConditionModel { op: FilterOp::LessOrEqual, values: seq![operand] }, value, text)
            == (compare_spec(value, operand) == Some(Ordering::Less) || compare_spec(value, operand) == Some(
            Ordering::Equal,
        )),
        condition_matches(ConditionModel { op: FilterOp::Greater, values: seq![operand] }, value, text)
            == (compare_spec(value, operand) == Some(Ordering::Greater)),
        condition_matches(ConditionModel { op: FilterOp::GreaterOrEqual, values: seq![operand] }, value, text)
            == (compare_spec(value, operand) == Some(Ordering::Greater) || compare_spec(value, operand) == Some(
            Ordering::Equal,
        )),
{
}

/// A cell equal to the bound passes both inclusive comparisons and neither
/// strict one.
pub proof fn lemma_bound_is_inclusive(operand: CellModel, value: CellModel, text: Option<Seq<char>>)
    requires
        compare_spec(value, operand) == Some(Ordering::Equal),
    ensures
        condition_matches(ConditionModel { op: FilterOp::LessOrEqual, values: seq![operand] }, value, text),
        condition_matches(ConditionModel { op: FilterOp::GreaterOrEqual, values: seq![operand] }, value, text),
        !condition_matches(ConditionModel { op: FilterOp::Less, values: seq![operand] }, value, text),
        !condition_matches(ConditionModel { op: FilterOp::Greater, values: seq![operand] }, value, text),
{
}

/// What the filter bar reads, by the prefix of its trimmed text: `!=` is
/// not equal, `<=` less or equal, `>=` greater or equal, then `=` equal,
/// `<` less and `>` greater, each with the rest of the text, trimmed, as
/// its operand, as long as that rest is not blank.
pub proof fn lemma_bar_prefixes(text: Seq<char>)
    ensures
        ({
            let t = trim_spec(text);
            let rest2 = trim_spec(t.skip(2));
            let rest1 = trim_spec(t.skip(1));
            &&& (t.len() >= 2 && t[0] == '!' && t[1] == '=' && rest2.len() > 0) ==> from_text_spec(text) == Some(
                ConditionModel { op: FilterOp::NotEquals, values: seq![CellModel::Text(rest2)] },
            )
            &&& (t.len() >= 2 && t[0] == '<' && t[1] == '=' && rest2.len() > 0) ==> from_text_spec(text) == Some(
                ConditionModel { op: FilterOp::LessOrEqual, values: seq![CellModel::Text(rest2)] },
            )
            &&& (t.len() >= 2 && t[0] == '>' && t[1] == '=' && rest2.len() > 0) ==> from_text_spec(text) == Some(
                ConditionModel { op: FilterOp::GreaterOrEqual, values: seq![CellModel::Text(rest2)] },
            )
            &&& (t.len() >= 1 && t[0] == '=' && rest1.len() > 0) ==> from_text_spec(text) == Some(
                ConditionModel { op: FilterOp::Equals, values: seq![CellModel::Text(rest1)] },
            )
            &&& (t.len() >= 1 && t[0] == '<' && !(t.len() >= 2 && t[1] == '=') && rest1.len() > 0) ==> from_text_spec(
                text,
            ) == Some(ConditionModel { op: FilterOp::Less, values: seq![CellModel::Text(rest1)] })
            &&& (t.len() >= 1 && t[0] == '>' && !(t.len() >= 2 && t[1] == '=') && rest1.len() > 0) ==> from_text_spec(
                text,
            ) == Some(ConditionModel { op: FilterOp::Greater, values: seq![CellModel::Text(rest1)] })
            &&& (t.len() >= 2 && (t[0] == '<' || t[0] == '>' || t[0] == '!') && t[1] == '=' && rest2.len() == 0)
                ==> from_text_spec(text) is None
        }),
{
}

/// A filter that any of its conditions may satisfy lets a cell through
/// when one of its conditions does, and only then (with no conditions,
/// every cell).
pub proof fn lemma_any_filter_passes_by_one(f: FilterModel, value: CellModel, text: Option<Seq<char>>, i: int)
    requires
        f.any,
        0 <= i < f.conditions.len(),
    ensures
        condition_matches(f.conditions[i], value, text) ==> filter_matches(f, value, text),
        (forall|j: int| 0 <= j < f.conditions.len() ==> !condition_matches(#[trigger] f.conditions[j], value, text))
            ==> !filter_matches(f, value, text),
{
}

/// A filter whose conditions must all hold lets a cell through only when
/// each condition does.
pub proof fn lemma_all_filter_needs_each(f: FilterModel, value: CellModel, text: Option<Seq<char>>, i: int)
    requires
        !f.any,
        0 <= i < f.conditions.len(),
    ensures
        filter_matches(f, value, text) ==> condition_matches(f.conditions[i], value, text),
        (forall|j: int| 0 <= j < f.conditions.len() ==> condition_matches(#[trigger] f.conditions[j], value, text))
            ==> filter_matches(f, value, text),
{
}

/// Adding a condition with `or` to a filter with conditions adds a way to
/// pass: the new filter lets a cell through exactly when the old one, read
/// as "any", or the new condition does. So it never drops a cell the old
/// filter let through.
pub proof fn lemma_or_adds_a_way_to_pass(
    conditions: Seq<ConditionModel>,
    c: ConditionModel,
    value: CellModel,
    text: Option<Seq<char>>,
)
    requires
        conditions.len() > 0,
    ensures
        filter_matches(FilterModel { conditions: conditions.push(c), any: true }, value, text) == (filter_matches(
            FilterModel { conditions, any: true },
            value,
            text,
        ) || condition_matches(c, value, text)),
        conditions.len() == 1 ==> filter_matches(FilterModel { conditions: conditions.push(c), any: true }, value, text)
            == (condition_matches(conditions[0], value, text) || condition_matches(c, value, text)),
{
    let all = conditions.push(c);
    let n = conditions.len() as int;
    assert(all[n] == c);
    if filter_matches(FilterModel { conditions, any: true }, value, text) {
        let i = choose|i: int| 0 <= i < conditions.len() && condition_matches(#[trigger] conditions[i], value, text);
        assert(all[i] == conditions[i]);
    }
    if filter_matches(FilterModel { conditions: all, any: true }, value, text) {
        let i = choose|i: int| 0 <= i < all.len() && condition_matches(#[trigger] all[i], value, text);
        if i < n {
            assert(all[i] == conditions[i]);
        }
    }
    if conditions.len() == 1 {
        if condition_matches(conditions[0], value, text) {
            assert(all[0] == conditions[0]);
        }
    }
}

/// Adding a condition with `and` adds a requirement: the new filter lets a
/// cell through exactly when the old one, read as "all", and the new
/// condition do.
pub proof fn lemma_and_adds_a_requirement(
    conditions: Seq<ConditionModel>,
    c: ConditionModel,
    value: CellModel,
    text: Option<Seq<char>>,
)
    ensures
        filter_matches(FilterModel { conditions: conditions.push(c), any: false }, value, text) == (filter_matches(
            FilterModel { conditions, any: false },
            value,
            text,
        ) && condition_matches(c, value, text)),
{
    let all = conditions.push(c);
    let n = conditions.len() as int;
    assert(all[n] == c);
    if filter_matches(FilterModel { conditions, any: false }, value, text) && condition_matches(c, value, text) {
        let f0 = FilterModel { conditions, any: false };
        assert forall|j: int| 0 <= j < all.len() implies condition_matches(#[trigger] all[j], value, text) by {
            if j < n {
                assert(all[j] == conditions[j]);
                assert(condition_matches(f0.conditions[j], value, text));
            }
        }
    }
    if filter_matches(FilterModel { conditions: all, any: false }, value, text) {
        let f1 = FilterModel { conditions: all, any: false };
        assert forall|j: int| 0 <= j < conditions.len() implies condition_matches(#[trigger] conditions[j], value, text) by {
            assert(all[j] == conditions[j]);
            assert(condition_matches(f1.conditions[j], value, text));
        }
        assert(condition_matches(f1.conditions[n], value, text));
        assert(filter_matches(FilterModel { conditions, any: false }, value, text));
    }
}

/// Whether a trimmed filter bar text starts with none of the comparison
/// operators `!=`, `<=`, `>=`, `=`, `<`, `>`.
pub open spec fn no_bar_operator(t: Seq<char>) -> bool {
    t.len() > 0 && t[0] != '<' && t[0] != '>' && t[0] != '=' && !(t.len() >= 2 && t[0] == '!' && t[1] == '=')
}

/// Filter bar text without an operator in front is a range when it holds
/// `..` with text on both sides (split at the first `..`, both ends
/// trimmed), and otherwise a substring test on the text as typed.
pub proof fn lemma_bar_ranges_and_substrings(text: Seq<char>, i: int)
    ensures
        ({
            let t = trim_spec(text);
            &&& (no_bar_operator(t) && dots_at(t, i) && (forall|j: int| 0 <= j < i ==> !dots_at(t, j)) && trim_spec(
                t.take(i),
            ).len() > 0 && trim_spec(t.skip(i + 2)).len() > 0) ==> from_text_spec(text) == Some(
                ConditionModel {
                    op: FilterOp::Between,
                    values: seq![CellModel::Text(trim_spec(t.take(i))), CellModel::Text(trim_spec(t.skip(i + 2)))],
                },
            )
            &&& (no_bar_operator(t) && (forall|j: int| !dots_at(t, j))) ==> from_text_spec(text) == Some(
                ConditionModel { op: FilterOp::Contains, values: seq![CellModel::Text(text)] },
            )
        }),
{
    let t = trim_spec(text);
    if no_bar_operator(t) && dots_at(t, i) && (forall|j: int| 0 <= j < i ==> !dots_at(t, j)) {
        lemma_first_dots(t, i);
    }
}

/// Not equal passes exactly the cells with a value that equal does not.
pub proof fn lemma_not_equals_is_the_rest(operand: CellModel, value: CellModel, text: Option<Seq<char>>)
    ensures
        condition_matches(ConditionModel { op: FilterOp::NotEquals, values: seq![operand] }, value, text) == (!(
        value is Empty) && !condition_matches(ConditionModel { op: FilterOp::Equals, values: seq![operand] }, value, text)),
{
}

/// "Is not empty" passes exactly the cells "is empty" does not.
pub proof fn lemma_not_empty_is_the_rest(value: CellModel, text: Option<Seq<char>>)
    ensures
        condition_matches(ConditionModel { op: FilterOp::IsNotEmpty, values: Seq::empty() }, value, text) == !condition_matches(
            ConditionModel { op: FilterOp::IsEmpty, values: Seq::empty() },
            value,
            text,
        ),
{
}

/// A range passes exactly the cells at least one bound and at most the
/// other, whichever order the bounds come in.
pub proof fn lemma_between_is_two_comparisons(low: CellModel, high: CellModel, value: CellModel, text: Option<Seq<char>>)
    ensures
        condition_matches(ConditionModel { op: FilterOp::Between, values: seq![low, high] }, value, text) == ((
        condition_matches(ConditionModel { op: FilterOp::GreaterOrEqual, values: seq![low] }, value, text)
            && condition_matches(ConditionModel { op: FilterOp::LessOrEqual, values: seq![high] }, value, text)) || (
        condition_matches(ConditionModel { op: FilterOp::GreaterOrEqual, values: seq![high] }, value, text)
            && condition_matches(ConditionModel { op: FilterOp::LessOrEqual, values: seq![low] }, value, text))),
{
}

/// "One of" passes exactly the cells equal to one of its operands.
pub proof fn lemma_one_of_is_any_equals(values: Seq<CellModel>, value: CellModel, text: Option<Seq<char>>)
    ensures
        condition_matches(ConditionModel { op: FilterOp::OneOf, values }, value, text) == exists|i: int|
            0 <= i < values.len() && condition_matches(
                ConditionModel { op: FilterOp::Equals, values: seq![#[trigger] values[i]] },
                value,
                text,
            ),
{
    if condition_matches(ConditionModel { op: FilterOp::OneOf, values }, value, text) {
        let i = choose|i: int| 0 <= i < values.len() && equals_spec(value, text, #[trigger] values[i]);
        assert(condition_matches(ConditionModel { op: FilterOp::Equals, values: seq![values[i]] }, value, text));
    }
    if exists|i: int|
        0 <= i < values.len() && condition_matches(
            ConditionModel { op: FilterOp::Equals, values: seq![#[trigger] values[i]] },
            value,
            text,
        ) {
        let i = choose|i: int|
            0 <= i < values.len() && condition_matches(
                ConditionModel { op: FilterOp::Equals, values: seq![#[trigger] values[i]] },
                value,
                text,
            );
        assert(equals_spec(value, text, values[i]));
    }
}

/// A cell that compares equal to the operand passes equality and both
/// inclusive comparisons; one that compares otherwise passes neither
/// equality nor "one of" that operand alone.
pub proof fn lemma_equal_cells(operand: CellModel, value: CellModel, text: Option<Seq<char>>)
    ensures
        compare_spec(value, operand) == Some(Ordering::Equal) ==> condition_matches(
            ConditionModel { op: FilterOp::Equals, values: seq![operand] },
            value,
            text,
        ),
        (compare_spec(value, operand) matches Some(o) && o != Ordering::Equal) ==> !condition_matches(
            ConditionModel { op: FilterOp::Equals, values: seq![operand] },
            value,
            text,
        ),
{
}

/// The text operators on a text cell without filter text, ignoring case:
/// "starts with" passes when the cell's lowercase text begins with the
/// operand's, "ends with" when it ends with it, and "contains", for text
/// beyond ASCII, when it holds it anywhere; none passes an empty cell.
pub proof fn lemma_text_operators(v: Seq<char>, n: Seq<char>)
    ensures
        condition_matches(ConditionModel { op: FilterOp::StartsWith, values: seq![CellModel::Text(n)] }, CellModel::Text(v), None)
            == has_prefix(lowercase_str(v), lowercase_str(n)),
        condition_matches(ConditionModel { op: FilterOp::EndsWith, values: seq![CellModel::Text(n)] }, CellModel::Text(v), None)
            == has_suffix(lowercase_str(v), lowercase_str(n)),
        !(is_ascii_chars(v) && is_ascii_chars(n)) && n.len() > 0 ==> condition_matches(
            ConditionModel { op: FilterOp::Contains, values: seq![CellModel::Text(n)] },
            CellModel::Text(v),
            None,
        ) == has_substring(lowercase_str(v), lowercase_str(n)),
        n.len() == 0 ==> condition_matches(
            ConditionModel { op: FilterOp::Contains, values: seq![CellModel::Text(n)] },
            CellModel::Text(v),
            None,
        ),
        !condition_matches(ConditionModel { op: FilterOp::StartsWith, values: seq![CellModel::Text(n)] }, CellModel::Empty, None),
        !condition_matches(ConditionModel { op: FilterOp::EndsWith, values: seq![CellModel::Text(n)] }, CellModel::Empty, None),
        !condition_matches(ConditionModel { op: FilterOp::Contains, values: seq![CellModel::Text(n)] }, CellModel::Empty, None),
{
}

} // verus!
