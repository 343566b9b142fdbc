//! Editing: reading an edited value as the type of a row's field, and
//! keeping track of changes that have not been saved yet.
//!
//! The grid never owns the rows. An edit works on a copy of a row, and the
//! application decides what saving means; see [`Changes`] for edits
//! collected into one batch.

use crate::column::ColumnSpec;
use crate::locale::GridLocale;
use crate::filter::{
    coerce_spec, edit_text_spec, false_words, is_blank_exec, kind_of, parse_spec, true_words,
    values_model, FilterValue, Value, ValueKind,
};
use crate::rowsort::Cell;
use crate::numbers::{int_text, lemma_int_text_parses, lemma_int_text_shape};
use crate::text::{is_blank, is_white, lowercase_str, trim_spec, trim_start_spec};
use crate::value::CellModel;
use vstd::prelude::*;

verus! {

/// Why an edit was refused.
#[derive(Clone, Debug, PartialEq, Eq)]
pub enum EditError {
    /// The cell may not be empty.
    Required,
    /// The text could not be read as this kind of value.
    Invalid(ValueKind),
    /// The value is not one of the column's choices.
    NotAChoice,
    /// Refused by a validator, with its message.
    Message(String),
}

impl EditError {
    /// The message to show, in the locale's language.
    pub fn message(&self, locale: &GridLocale) -> (r: String)
        ensures
            r@ == match self {
                EditError::Required => locale.edit_required@,
                EditError::Invalid(ValueKind::Number) => locale.edit_invalid_number@,
                EditError::Invalid(ValueKind::Date) => locale.edit_invalid_date@,
                EditError::Invalid(ValueKind::DateTime) => locale.edit_invalid_date@,
                EditError::Invalid(_) => locale.edit_invalid@,
                EditError::NotAChoice => locale.edit_not_a_choice@,
                EditError::Message(m) => m@,
            },
    {
        match self {
            EditError::Required => locale.edit_required.clone(),
            EditError::Invalid(ValueKind::Number) => locale.edit_invalid_number.clone(),
            EditError::Invalid(ValueKind::Date) => locale.edit_invalid_date.clone(),
            EditError::Invalid(ValueKind::DateTime) => locale.edit_invalid_date.clone(),
            EditError::Invalid(_) => locale.edit_invalid.clone(),
            EditError::NotAChoice => locale.edit_not_a_choice.clone(),
            EditError::Message(m) => m.clone(),
        }
    }
}

impl From<String> for EditError {
    fn from(message: String) -> (r: Self)
        ensures
            r == EditError::Message(message),
    {
        EditError::Message(message)
    }
}

impl vstd::std_specs::convert::FromSpecImpl<String> for EditError {
    open spec fn obeys_from_spec() -> bool {
        false
    }

    open spec fn from_spec(v: String) -> Self {
        arbitrary()
    }
}

impl<'a> From<&'a str> for EditError {
    fn from(message: &'a str) -> (r: Self)
        ensures
            r matches EditError::Message(m) && m@ == message@,
    {
        EditError::Message(message.to_owned())
    }
}

impl<'a> vstd::std_specs::convert::FromSpecImpl<&'a str> for EditError {
    open spec fn obeys_from_spec() -> bool {
        false
    }

    open spec fn from_spec(v: &'a str) -> Self {
        arbitrary()
    }
}

/// The content of an edited value: `None` for an empty cell.
pub open spec fn edited(value: Option<FilterValue>) -> Option<CellModel> {
    match value {
        Some(v) => Some(v@),
        None => None,
    }
}

/// An edited value read as a number: refused when empty or not a number.
pub open spec fn number_of(value: Option<CellModel>) -> Result<int, EditError> {
    match value {
        None => Err(EditError::Required),
        Some(v) => match coerce_spec(v, ValueKind::Number) {
            Some(CellModel::Int(i)) => Ok(i),
            _ => Err(EditError::Invalid(ValueKind::Number)),
        },
    }
}

/// An edited value read as a number between `low` and `high`.
pub open spec fn number_within(value: Option<CellModel>, low: int, high: int) -> Result<int, EditError> {
    match number_of(value) {
        Ok(i) => if low <= i <= high {
            Ok(i)
        } else {
            Err(EditError::Invalid(ValueKind::Number))
        },
        Err(e) => Err(e),
    }
}

/// Whether an integer result is the number result `spec`.
pub open spec fn same_number<N>(r: Result<N, EditError>, spec: Result<int, EditError>, as_int: spec_fn(N) -> int) -> bool {
    match r {
        Ok(x) => spec == Ok::<int, EditError>(as_int(x)),
        Err(e) => spec == Err::<int, EditError>(e),
    }
}

/// Turns an edited value into the type of a row's field.
///
/// Implemented for `String`, `bool`, the integer types, and an [`Option`]
/// of any of them, which is the only one that accepts an empty cell.
pub trait FromValue: Sized {
    /// Converts `value`; `None` is an empty cell.
    fn from_value(value: Option<FilterValue>) -> Result<Self, EditError>;
}

impl FromValue for String {
    /// Empty text for an empty cell; any other value as its edit text.
    fn from_value(value: Option<FilterValue>) -> (r: Result<Self, EditError>)
        ensures
            r matches Ok(s) && s@ == match value {
                None => Seq::<char>::empty(),
                Some(v) => edit_text_spec(v@),
            },
    {
        match value {
            None => Ok(String::new()),
            Some(FilterValue::Text(text)) => Ok(text),
            Some(other) => Ok(other.edit_text()),
        }
    }
}

impl FromValue for bool {
    fn from_value(value: Option<FilterValue>) -> (r: Result<Self, EditError>)
        ensures
            r == match edited(value) {
                None => Err(EditError::Required),
                Some(v) => match coerce_spec(v, ValueKind::Bool) {
                    Some(CellModel::Bool(b)) => Ok(b),
                    _ => Err(EditError::Invalid(ValueKind::Bool)),
                },
            },
    {
        match value {
            None => Err(EditError::Required),
            Some(v) => match v.coerce(ValueKind::Bool) {
                Some(FilterValue::Bool(b)) => Ok(b),
                _ => Err(EditError::Invalid(ValueKind::Bool)),
            },
        }
    }
}

/// Reads a number, for the integer conversions.
fn number(value: Option<FilterValue>) -> (r: Result<i64, EditError>)
    ensures
        same_number(r, number_of(edited(value)), |x: i64| x as int),
{
    match value {
        None => Err(EditError::Required),
        Some(v) => match v.coerce(ValueKind::Number) {
            Some(FilterValue::Int(i)) => Ok(i),
            _ => Err(EditError::Invalid(ValueKind::Number)),
        },
    }
}

impl FromValue for i64 {
    fn from_value(value: Option<FilterValue>) -> (r: Result<Self, EditError>)
        ensures
            same_number(r, number_of(edited(value)), |x: i64| x as int),
    {
        number(value)
    }
}

impl FromValue for i32 {
    /// Refuses numbers out of the type's range.
    fn from_value(value: Option<FilterValue>) -> (r: Result<Self, EditError>)
        ensures
            same_number(r, number_within(edited(value), i32::MIN as int, i32::MAX as int), |x: i32| x as int),
    {
        match number(value) {
            Ok(v) => if i32::MIN as i64 <= v && v <= i32::MAX as i64 {
                Ok(v as i32)
            } else {
                Err(EditError::Invalid(ValueKind::Number))
            },
            Err(e) => Err(e),
        }
    }
}

impl FromValue for i16 {
    /// Refuses numbers out of the type's range.
    fn from_value(value: Option<FilterValue>) -> (r: Result<Self, EditError>)
        ensures
            same_number(r, number_within(edited(value), i16::MIN as int, i16::MAX as int), |x: i16| x as int),
    {
        match number(value) {
            Ok(v) => if i16::MIN as i64 <= v && v <= i16::MAX as i64 {
                Ok(v as i16)
            } else {
                Err(EditError::Invalid(ValueKind::Number))
            },
            Err(e) => Err(e),
        }
    }
}

impl FromValue for i8 {
    /// Refuses numbers out of the type's range.
    fn from_value(value: Option<FilterValue>) -> (r: Result<Self, EditError>)
        ensures
            same_number(r, number_within(edited(value), i8::MIN as int, i8::MAX as int), |x: i8| x as int),
    {
        match number(value) {
            Ok(v) => if i8::MIN as i64 <= v && v <= i8::MAX as i64 {
                Ok(v as i8)
            } else {
                Err(EditError::Invalid(ValueKind::Number))
            },
            Err(e) => Err(e),
        }
    }
}

impl FromValue for isize {
    /// Refuses numbers out of the type's range.
    fn from_value(value: Option<FilterValue>) -> (r: Result<Self, EditError>)
        ensures
            same_number(r, number_within(edited(value), isize::MIN as int, isize::MAX as int), |x: isize| x as int),
    {
        match number(value) {
            Ok(v) => if isize::MIN as i64 <= v && v as i128 <= isize::MAX as i128 {
                Ok(v as isize)
            } else {
                Err(EditError::Invalid(ValueKind::Number))
            },
            Err(e) => Err(e),
        }
    }
}

impl FromValue for u64 {
    /// Refuses negative numbers.
    fn from_value(value: Option<FilterValue>) -> (r: Result<Self, EditError>)
        ensures
            same_number(r, number_within(edited(value), 0, u64::MAX as int), |x: u64| x as int),
    {
        match number(value) {
            Ok(v) => if 0 <= v {
                Ok(v as u64)
            } else {
                Err(EditError::Invalid(ValueKind::Number))
            },
            Err(e) => Err(e),
        }
    }
}

impl FromValue for u32 {
    /// Refuses numbers out of the type's range, such as negative ones.
    fn from_value(value: Option<FilterValue>) -> (r: Result<Self, EditError>)
        ensures
            same_number(r, number_within(edited(value), 0, u32::MAX as int), |x: u32| x as int),
    {
        match number(value) {
            Ok(v) => if 0 <= v && v <= u32::MAX as i64 {
                Ok(v as u32)
            } else {
                Err(EditError::Invalid(ValueKind::Number))
            },
            Err(e) => Err(e),
        }
    }
}

impl FromValue for u16 {
    /// Refuses numbers out of the type's range, such as negative ones.
    fn from_value(value: Option<FilterValue>) -> (r: Result<Self, EditError>)
        ensures
            same_number(r, number_within(edited(value), 0, u16::MAX as int), |x: u16| x as int),
    {
        match number(value) {
            Ok(v) => if 0 <= v && v <= u16::MAX as i64 {
                Ok(v as u16)
            } else {
                Err(EditError::Invalid(ValueKind::Number))
            },
            Err(e) => Err(e),
        }
    }
}

impl FromValue for u8 {
    /// Refuses numbers out of the type's range, such as negative ones.
    fn from_value(value: Option<FilterValue>) -> (r: Result<Self, EditError>)
        ensures
            same_number(r, number_within(edited(value), 0, u8::MAX as int), |x: u8| x as int),
    {
        match number(value) {
            Ok(v) => if 0 <= v && v <= u8::MAX as i64 {
                Ok(v as u8)
            } else {
                Err(EditError::Invalid(ValueKind::Number))
            },
            Err(e) => Err(e),
        }
    }
}

impl FromValue for usize {
    /// Refuses numbers out of the type's range, such as negative ones.
    fn from_value(value: Option<FilterValue>) -> (r: Result<Self, EditError>)
        ensures
            same_number(r, number_within(edited(value), 0, usize::MAX as int), |x: usize| x as int),
    {
        match number(value) {
            Ok(v) => if 0 <= v && v as u128 <= usize::MAX as u128 {
                Ok(v as usize)
            } else {
                Err(EditError::Invalid(ValueKind::Number))
            },
            Err(e) => Err(e),
        }
    }
}

impl<V: FromValue> FromValue for Option<V> {
    /// `None` for an empty cell; any other value as `V` reads it: what
    /// `V` reads, or the error it refuses the value with.
    fn from_value(value: Option<FilterValue>) -> (r: Result<Self, EditError>)
        ensures
            value is None ==> (r matches Ok(x) && x is None),
            value is Some ==> match r {
                Ok(Some(x)) => call_ensures(V::from_value, (value,), Ok::<V, EditError>(x)),
                Ok(None) => false,
                Err(e) => call_ensures(V::from_value, (value,), Err::<V, EditError>(e)),
            },
    {
        match value {
            None => Ok(None),
            Some(v) => match V::from_value(Some(v)) {
                Ok(x) => Ok(Some(x)),
                Err(e) => Err(e),
            },
        }
    }
}


/// What an edit's text gives a column of `kind`: an empty cell for blank
/// text, the text as typed (spaces at either end included) for a text
/// column, otherwise the value it reads as; `None` when it reads as none.
pub open spec fn edit_reading(text: Seq<char>, kind: ValueKind) -> Option<Option<CellModel>> {
    if is_blank(text) {
        Some(None)
    } else if kind == ValueKind::Text {
        Some(Some(CellModel::Text(text)))
    } else {
        match parse_spec(kind, text) {
            Some(v) => Some(Some(v)),
            None => None,
        }
    }
}

/// Whether a column limited to `choices` takes `value`: an empty cell
/// always, any value when there are no choices, otherwise one of them.
pub open spec fn takes_choice(choices: Seq<CellModel>, value: Option<CellModel>) -> bool {
    match value {
        None => true,
        Some(v) => choices.len() == 0 || choices.contains(v),
    }
}

/// Whether `value` is among `values`.
fn contains_value(values: &Vec<FilterValue>, value: &FilterValue) -> (r: bool)
    ensures
        r == values_model(values@).contains(value@),
{
    let ghost model = values_model(values@);
    let mut i: usize = 0;
    while i < values.len()
        invariant
            i <= values.len(),
            model == values_model(values@),
            forall|j: int| 0 <= j < i ==> model[j] != value@,
        decreases values.len() - i,
    {
        if values[i] == *value {
            assert(model[i as int] == value@);
            return true;
        }
        i = i + 1;
    }
    false
}

impl ColumnSpec {
    /// The value an edit of `text` gives this column, read as `kind` and
    /// checked against the column's choices: what its setter is handed.
    /// `None` is an empty cell.
    ///
    /// Refused with [`EditError::Message`] and no text when the column
    /// cannot be edited, [`EditError::Invalid`] when the text does not read
    /// as `kind`, and [`EditError::NotAChoice`] for a value outside the
    /// choices.
    pub fn edit_value(&self, text: &str, kind: ValueKind) -> (r: Result<Option<Value>, EditError>)
        ensures
            match r {
                Ok(v) => self.editable && edit_reading(text@, kind) == Some(edited(v))
                    && takes_choice(values_model(self.choices@), edited(v)),
                Err(EditError::Message(m)) => !self.editable && m@.len() == 0,
                Err(EditError::Invalid(k)) => self.editable && k == kind && edit_reading(text@, kind) is None,
                Err(EditError::NotAChoice) => self.editable && (edit_reading(text@, kind) matches Some(v)
                    && !takes_choice(values_model(self.choices@), v)),
                Err(EditError::Required) => false,
            },
    {
        if !self.editable {
            return Err(EditError::Message(String::new()));
        }
        let value = if is_blank_exec(text) {
            None
        } else if kind == ValueKind::Text {
            Some(FilterValue::Text(text.to_owned()))
        } else {
            match FilterValue::parse(kind, text) {
                Some(v) => Some(v),
                None => return Err(EditError::Invalid(kind)),
            }
        };
        if let Some(v) = &value {
            if self.choices.len() > 0 && !contains_value(&self.choices, v) {
                return Err(EditError::NotAChoice);
            }
        }
        Ok(value)
    }

    /// The text an editor for this column starts with: the cell's value in
    /// the form [`ColumnSpec::edit_value`] reads back; empty for an empty
    /// cell or a column without a value.
    pub fn edit_text(&self, cell: &Cell) -> (s: String)
        ensures
            s@ == if self.has_value {
                edit_text_spec(cell.value@)
            } else {
                Seq::<char>::empty()
            },
    {
        match FilterValue::from_cell(&self.read(cell)) {
            Some(v) => v.edit_text(),
            None => String::new(),
        }
    }
}

/// Reads an editor's text as a checkbox state: ticked for the words a
/// boolean reads as true (`true`, `yes`, `ja`, `1`, in any case, with white
/// space around them).
pub fn checked(text: &str) -> (r: bool)
    ensures
        r == (parse_spec(ValueKind::Bool, text@) == Some(CellModel::Bool(true))),
{
    match FilterValue::parse(ValueKind::Bool, text) {
        Some(FilterValue::Bool(b)) => b,
        _ => false,
    }
}

/// What an editor starts with reads back as the value the cell held: a
/// number, text that is not blank, or a boolean, written as
/// [`ColumnSpec::edit_text`] writes it, is read by
/// [`ColumnSpec::edit_value`] as that value again, so an editable column
/// without choices takes it back unchanged. A boolean is written `true` or
/// `false`, which lowercasing leaves as it is.
pub proof fn lemma_edit_text_reads_back(v: CellModel)
    requires
        (v matches CellModel::Int(i) && i64::MIN <= i <= i64::MAX) || (v matches CellModel::Text(t) && !is_blank(t)) || (
        v is Bool && lowercase_str(edit_text_spec(v)) == edit_text_spec(v)),
    ensures
        kind_of(v) matches Some(kind) && edit_reading(edit_text_spec(v), kind) == Some(Some(v)),
        takes_choice(Seq::empty(), Some(v)),
{
    if let CellModel::Int(i) = v {
        let t = int_text(i);
        lemma_int_text_shape(i);
        lemma_int_text_parses(i);
        assert(!is_white(t[0]));
        assert(!is_white(t.last()));
        assert(trim_start_spec(t) == t);
        assert(trim_spec(t) == t);
    }
    if let CellModel::Bool(b) = v {
        let t = edit_text_spec(v);
        assert(t == if b { "true"@ } else { "false"@ });
        reveal_strlit("true");
        reveal_strlit("false");
        assert(!is_white(t[0]));
        assert(!is_white(t.last()));
        assert(trim_start_spec(t) == t);
        assert(trim_spec(t) == t);
        assert(true_words()[0] == "true"@);
        assert(false_words()[0] == "false"@);
        if b {
            assert(true_words().contains(t));
        } else {
            assert(!true_words().contains(t)) by {
                reveal_strlit("yes");
                reveal_strlit("ja");
                reveal_strlit("1");
                assert(true_words()[1] == "yes"@);
                assert(true_words()[2] == "ja"@);
                assert(true_words()[3] == "1"@);
            }
            assert(false_words().contains(t));
        }
    }
}

} // verus!
