//! The typed value a column reads from a row, and the total order over it.

use crate::order::{
    int_order, lemma_lex_equal, lemma_lex_reverse, lemma_lex_transitive, lex_order,
    reverse_order, then_order,
};
use crate::sort::TextCollation;
use crate::text::{char_at, chars_equal, chars_of, fold_chars, fold_text, suffix_from};
use std::cmp::Ordering;
use vstd::prelude::*;

verus! {

/// A date and time of day without a time zone: the day counted from the
/// first of January of year 1 (day 1), the seconds since midnight and the
/// nanoseconds within the second (a leap second runs past one billion).
#[derive(Clone, Copy, Debug, PartialEq, Eq, Structural, Hash)]
pub struct Timestamp {
    /// Days since the common era began; 1 January 1 is day 1.
    pub days: i32,
    /// Seconds since midnight.
    pub seconds: u32,
    /// Nanoseconds within the second.
    pub nanos: u32,
}

impl Timestamp {
    /// Midnight at the start of a day.
    pub fn midnight(days: i32) -> (t: Self)
        ensures
            t == midnight_of(days),
    {
        Timestamp { days, seconds: 0, nanos: 0 }
    }
}

/// An `i64` as an integer.
pub open spec fn int_of_i64(x: i64) -> int {
    x as int
}

/// An `i32` as an integer.
pub open spec fn int_of_i32(x: i32) -> int {
    x as int
}

/// A `u32` as an integer.
pub open spec fn int_of_u32(x: u32) -> int {
    x as int
}

/// A `u8` as an integer.
pub open spec fn int_of_u8(x: u8) -> int {
    x as int
}

/// Midnight at the start of a day.
pub open spec fn midnight_of(days: i32) -> Timestamp {
    Timestamp { days, seconds: 0, nanos: 0 }
}

/// Chronological order of two timestamps.
pub open spec fn timestamp_order(a: Timestamp, b: Timestamp) -> Ordering {
    then_order(
        int_order(int_of_i32(a.days), int_of_i32(b.days)),
        then_order(int_order(int_of_u32(a.seconds), int_of_u32(b.seconds)), int_order(int_of_u32(a.nanos), int_of_u32(b.nanos))),
    )
}

/// A typed value read from one cell of a row.
///
/// Sorting, filtering, formatting and aggregates all work from it. Text
/// borrows from the row.
#[derive(Clone, Copy, Debug)]
pub enum CellValue<'a> {
    /// No value: sorts last in ascending order.
    Empty,
    /// A boolean; `false` sorts before `true`.
    Bool(bool),
    /// An integer.
    Int(i64),
    /// A calendar date, as the day counted from 1 January of year 1 (day 1).
    Date(i32),
    /// A date and time of day.
    DateTime(Timestamp),
    /// Text borrowed from the row.
    Text(&'a str),
}

/// The mathematical content of a [`CellValue`]: text as its characters.
pub enum CellModel {
    /// No value.
    Empty,
    /// A boolean.
    Bool(bool),
    /// An integer.
    Int(int),
    /// A date.
    Date(i32),
    /// A date and time.
    DateTime(Timestamp),
    /// Text.
    Text(Seq<char>),
}

impl<'a> View for CellValue<'a> {
    type V = CellModel;

    open spec fn view(&self) -> CellModel {
        match self {
            CellValue::Empty => CellModel::Empty,
            CellValue::Bool(b) => CellModel::Bool(*b),
            CellValue::Int(i) => CellModel::Int(*i as int),
            CellValue::Date(d) => CellModel::Date(*d),
            CellValue::DateTime(t) => CellModel::DateTime(*t),
            CellValue::Text(s) => CellModel::Text(s@),
        }
    }
}

/// Where a kind of value sits when two different kinds meet: booleans,
/// numbers, dates, text, and the empty value last.
pub open spec fn rank_of(v: CellModel) -> int {
    match v {
        CellModel::Bool(_) => 0,
        CellModel::Int(_) => 1,
        CellModel::Date(_) | CellModel::DateTime(_) => 2,
        CellModel::Text(_) => 3,
        CellModel::Empty => 4,
    }
}

/// A date or date and time as a timestamp, a date counting as midnight.
pub open spec fn temporal_of(v: CellModel) -> Timestamp {
    match v {
        CellModel::Date(d) => midnight_of(d),
        CellModel::DateTime(t) => t,
        _ => midnight_of(0),
    }
}

/// How two texts compare under a collation.
///
/// Case-sensitive is code-point order. Case-insensitive compares the case
/// folded characters first and falls back to code-point order for texts
/// that differ only in case, so that only identical texts compare equal.
pub open spec fn text_order(a: Seq<char>, b: Seq<char>, collation: TextCollation) -> Ordering {
    match collation {
        TextCollation::CaseSensitive => lex_order(a, b),
        TextCollation::CaseInsensitive => then_order(lex_order(fold_chars(a), fold_chars(b)), lex_order(a, b)),
    }
}

/// How two values compare: the total order the grid sorts by.
pub open spec fn cell_order(a: CellModel, b: CellModel, collation: TextCollation) -> Ordering {
    match (a, b) {
        (CellModel::Empty, CellModel::Empty) => Ordering::Equal,
        (CellModel::Bool(x), CellModel::Bool(y)) => int_order(if x { 1 } else { 0 }, if y { 1 } else { 0 }),
        (CellModel::Int(x), CellModel::Int(y)) => int_order(x, y),
        (CellModel::Text(x), CellModel::Text(y)) => text_order(x, y, collation),
        _ => if rank_of(a) == 2 && rank_of(b) == 2 {
            timestamp_order(temporal_of(a), temporal_of(b))
        } else {
            int_order(rank_of(a), rank_of(b))
        },
    }
}

/// What a value is identified with by `==`: a date is the same as midnight
/// of that day.
pub open spec fn canonical(v: CellModel) -> CellModel {
    match v {
        CellModel::Date(d) => CellModel::DateTime(midnight_of(d)),
        _ => v,
    }
}

/// Text order calls two texts equal exactly when they are the same.
pub proof fn lemma_text_equal(a: Seq<char>, b: Seq<char>, collation: TextCollation)
    ensures
        (text_order(a, b, collation) == Ordering::Equal) == (a == b),
{
    lemma_lex_equal(a, b);
    lemma_lex_equal(fold_chars(a), fold_chars(b));
}

/// Swapping two texts reverses their order.
pub proof fn lemma_text_reverse(a: Seq<char>, b: Seq<char>, collation: TextCollation)
    ensures
        text_order(b, a, collation) == reverse_order(text_order(a, b, collation)),
{
    lemma_lex_reverse(a, b);
    lemma_lex_reverse(fold_chars(a), fold_chars(b));
}

/// Text order is transitive.
pub proof fn lemma_text_transitive(a: Seq<char>, b: Seq<char>, c: Seq<char>, collation: TextCollation)
    requires
        text_order(a, b, collation) != Ordering::Greater,
        text_order(b, c, collation) != Ordering::Greater,
    ensures
        text_order(a, c, collation) == then_order(text_order(a, b, collation), text_order(b, c, collation)),
{
    lemma_text_equal(a, b, collation);
    lemma_text_equal(b, c, collation);
    match collation {
        TextCollation::CaseSensitive => {
            lemma_lex_transitive(a, b, c);
        },
        TextCollation::CaseInsensitive => {
            let (fa, fb, fc) = (fold_chars(a), fold_chars(b), fold_chars(c));
            lemma_lex_equal(fa, fb);
            lemma_lex_equal(fb, fc);
            lemma_lex_equal(fa, fc);
            lemma_lex_transitive(fa, fb, fc);
            if lex_order(fa, fb) == Ordering::Equal && lex_order(fb, fc) == Ordering::Equal {
                lemma_lex_transitive(a, b, c);
            }
        },
    }
}

/// Every value is equal to itself.
pub proof fn lemma_cell_reflexive(a: CellModel, collation: TextCollation)
    ensures
        cell_order(a, a, collation) == Ordering::Equal,
{
    if let CellModel::Text(x) = a {
        lemma_text_equal(x, x, collation);
    }
}

/// Swapping two values reverses their order.
pub proof fn lemma_cell_reverse(a: CellModel, b: CellModel, collation: TextCollation)
    ensures
        cell_order(b, a, collation) == reverse_order(cell_order(a, b, collation)),
{
    if let (CellModel::Text(x), CellModel::Text(y)) = (a, b) {
        lemma_text_reverse(x, y, collation);
    }
}

/// The order is transitive: `a <= b <= c` gives `a <= c`, strictly when
/// either step is strict.
pub proof fn lemma_cell_transitive(a: CellModel, b: CellModel, c: CellModel, collation: TextCollation)
    requires
        cell_order(a, b, collation) != Ordering::Greater,
        cell_order(b, c, collation) != Ordering::Greater,
    ensures
        cell_order(a, c, collation) == then_order(cell_order(a, b, collation), cell_order(b, c, collation)),
{
    if let (CellModel::Text(x), CellModel::Text(y), CellModel::Text(z)) = (a, b, c) {
        lemma_text_transitive(x, y, z, collation);
    }
}

/// Two values compare equal exactly when they are the same value, a date
/// being the same as midnight of that day.
pub proof fn lemma_cell_equal(a: CellModel, b: CellModel, collation: TextCollation)
    ensures
        (cell_order(a, b, collation) == Ordering::Equal) == (canonical(a) == canonical(b)),
{
    if let (CellModel::Text(x), CellModel::Text(y)) = (a, b) {
        lemma_text_equal(x, y, collation);
    }
}

/// Whether `a` sorts no later than `b`.
pub open spec fn cell_le(a: CellModel, b: CellModel, collation: TextCollation) -> bool {
    cell_order(a, b, collation) != Ordering::Greater
}

/// Any two values are ordered one way or the other, and the order chains.
pub proof fn lemma_cell_le(a: CellModel, b: CellModel, c: CellModel, collation: TextCollation)
    ensures
        cell_le(a, a, collation),
        !cell_le(a, b, collation) ==> cell_le(b, a, collation),
        cell_le(a, b, collation) && cell_le(b, c, collation) ==> cell_le(a, c, collation),
{
    lemma_cell_reflexive(a, collation);
    lemma_cell_reverse(a, b, collation);
    if cell_le(a, b, collation) && cell_le(b, c, collation) {
        lemma_cell_transitive(a, b, c, collation);
    }
}

/// Whether two values are equal as `==` compares them.
pub open spec fn cells_equal(a: CellModel, b: CellModel) -> bool {
    cell_order(a, b, TextCollation::CaseInsensitive) == Ordering::Equal
}

/// `==` on values is sameness, a date being the same as midnight of that
/// day.
pub proof fn lemma_cells_equal(a: CellModel, b: CellModel)
    ensures
        cells_equal(a, b) == (canonical(a) == canonical(b)),
{
    lemma_cell_equal(a, b, TextCollation::CaseInsensitive);
}

/// Compares two character sequences in code-point order.
pub fn lex_compare(a: &Vec<char>, b: &Vec<char>) -> (r: Ordering)
    ensures
        r == lex_order(a@, b@),
{
    let mut i: usize = 0;
    assert(suffix_from(a@, 0) =~= a@ && suffix_from(b@, 0) =~= b@);
    while i < a.len() && i < b.len() && a[i] == b[i]
        invariant
            i <= a.len(),
            i <= b.len(),
            lex_order(a@, b@) == lex_order(suffix_from(a@, i), suffix_from(b@, i)),
        decreases a.len() - i,
    {
        let ghost prev = i;
        i = i + 1;
        proof {
            assert(suffix_from(a@, prev).drop_first() =~= suffix_from(a@, i));
            assert(suffix_from(b@, prev).drop_first() =~= suffix_from(b@, i));
        }
    }
    let ghost (sa, sb) = (suffix_from(a@, i), suffix_from(b@, i));
    if i == a.len() {
        if i == b.len() {
            Ordering::Equal
        } else {
            Ordering::Less
        }
    } else if i == b.len() {
        Ordering::Greater
    } else if a[i] < b[i] {
        assert(sa[0] == char_at(a@, i) && sb[0] == char_at(b@, i));
        Ordering::Less
    } else {
        assert(sa[0] == char_at(a@, i) && sb[0] == char_at(b@, i));
        Ordering::Greater
    }
}

/// Compares two strings under a collation.
fn compare_text(a: &str, b: &str, collation: TextCollation) -> (r: Ordering)
    ensures
        r == text_order(a@, b@, collation),
{
    let ca = chars_of(a);
    let cb = chars_of(b);
    match collation {
        TextCollation::CaseSensitive => lex_compare(&ca, &cb),
        TextCollation::CaseInsensitive => {
            // Identical strings are common in grouping columns; settle them
            // without folding.
            if chars_equal(&ca, &cb) {
                proof {
                    lemma_text_equal(a@, b@, collation);
                }
                return Ordering::Equal;
            }
            let folded = compare_folded(a, b);
            match folded {
                Ordering::Equal => lex_compare(&ca, &cb),
                _ => folded,
            }
        },
    }
}

/// Case-insensitive comparison: the case-folded characters in code-point
/// order.
fn compare_folded(a: &str, b: &str) -> (r: Ordering)
    ensures
        r == lex_order(fold_chars(a@), fold_chars(b@)),
{
    let fa = fold_text(a);
    let fb = fold_text(b);
    lex_compare(&fa, &fb)
}

impl<'a> CellValue<'a> {
    /// Compares two values using an explicit [`TextCollation`].
    pub fn cmp_with(&self, other: &Self, collation: TextCollation) -> (r: Ordering)
        ensures
            r == cell_order(self@, other@, collation),
    {
        match (self, other) {
            (CellValue::Empty, CellValue::Empty) => Ordering::Equal,
            (CellValue::Bool(a), CellValue::Bool(b)) => {
                if *a == *b {
                    Ordering::Equal
                } else if !*a {
                    Ordering::Less
                } else {
                    Ordering::Greater
                }
            },
            (CellValue::Int(a), CellValue::Int(b)) => compare_i64(*a, *b),
            (CellValue::Text(a), CellValue::Text(b)) => compare_text(a, b, collation),
            _ => {
                let (ra, rb) = (self.rank(), other.rank());
                if ra == 2 && rb == 2 {
                    compare_timestamps(self.temporal(), other.temporal())
                } else {
                    compare_u8(ra, rb)
                }
            },
        }
    }

    /// Compares two values with case-insensitive text.
    pub fn cmp(&self, other: &Self) -> (r: Ordering)
        ensures
            r == cell_order(self@, other@, TextCollation::CaseInsensitive),
    {
        self.cmp_with(other, TextCollation::CaseInsensitive)
    }

    /// Where this variant sits when two different variants meet.
    fn rank(&self) -> (r: u8)
        ensures
            int_of_u8(r) == rank_of(self@),
    {
        match self {
            CellValue::Bool(_) => 0,
            CellValue::Int(_) => 1,
            CellValue::Date(_) | CellValue::DateTime(_) => 2,
            CellValue::Text(_) => 3,
            CellValue::Empty => 4,
        }
    }

    /// A date or date and time as a timestamp.
    fn temporal(&self) -> (t: Timestamp)
        ensures
            t == temporal_of(self@),
    {
        match self {
            CellValue::Date(d) => Timestamp::midnight(*d),
            CellValue::DateTime(t) => *t,
            _ => Timestamp::midnight(0),
        }
    }

    /// Returns `true` for [`CellValue::Empty`].
    pub fn is_none(&self) -> (b: bool)
        ensures
            b == (self@ is Empty),
    {
        matches!(self, CellValue::Empty)
    }

    /// Whether this is a number.
    pub fn is_numeric(&self) -> (b: bool)
        ensures
            b == (self@ is Int),
    {
        matches!(self, CellValue::Int(_))
    }
}

fn compare_i64(a: i64, b: i64) -> (r: Ordering)
    ensures
        r == int_order(int_of_i64(a), int_of_i64(b)),
{
    if a < b {
        Ordering::Less
    } else if a > b {
        Ordering::Greater
    } else {
        Ordering::Equal
    }
}

fn compare_u8(a: u8, b: u8) -> (r: Ordering)
    ensures
        r == int_order(int_of_u8(a), int_of_u8(b)),
{
    if a < b {
        Ordering::Less
    } else if a > b {
        Ordering::Greater
    } else {
        Ordering::Equal
    }
}

fn compare_u32(a: u32, b: u32) -> (r: Ordering)
    ensures
        r == int_order(int_of_u32(a), int_of_u32(b)),
{
    if a < b {
        Ordering::Less
    } else if a > b {
        Ordering::Greater
    } else {
        Ordering::Equal
    }
}

fn compare_i32(a: i32, b: i32) -> (r: Ordering)
    ensures
        r == int_order(int_of_i32(a), int_of_i32(b)),
{
    if a < b {
        Ordering::Less
    } else if a > b {
        Ordering::Greater
    } else {
        Ordering::Equal
    }
}

/// Compares two timestamps chronologically.
pub fn compare_timestamps(a: Timestamp, b: Timestamp) -> (r: Ordering)
    ensures
        r == timestamp_order(a, b),
{
    let days = compare_i32(a.days, b.days);
    let seconds = compare_u32(a.seconds, b.seconds);
    let nanos = compare_u32(a.nanos, b.nanos);
    match days {
        Ordering::Equal => match seconds {
            Ordering::Equal => nanos,
            _ => seconds,
        },
        _ => days,
    }
}

impl<'a> PartialEq for CellValue<'a> {
    fn eq(&self, other: &Self) -> (r: bool) {
        match self.cmp(other) {
            Ordering::Equal => true,
            _ => false,
        }
    }
}

impl<'a> vstd::std_specs::cmp::PartialEqSpecImpl for CellValue<'a> {
    open spec fn obeys_eq_spec() -> bool {
        true
    }

    open spec fn eq_spec(&self, other: &Self) -> bool {
        cell_order(self@, other@, TextCollation::CaseInsensitive) == Ordering::Equal
    }
}

impl<'a> Eq for CellValue<'a> {}

impl<'a> PartialOrd for CellValue<'a> {
    fn partial_cmp(&self, other: &Self) -> (r: Option<Ordering>) {
        Some(self.cmp(other))
    }
}

impl<'a> vstd::std_specs::cmp::PartialOrdSpecImpl for CellValue<'a> {
    open spec fn obeys_partial_cmp_spec() -> bool {
        true
    }

    open spec fn partial_cmp_spec(&self, other: &Self) -> Option<Ordering> {
        Some(cell_order(self@, other@, TextCollation::CaseInsensitive))
    }
}

impl<'a> From<&'a str> for CellValue<'a> {
    fn from(value: &'a str) -> (r: Self) {
        CellValue::Text(value)
    }
}

impl<'a> vstd::std_specs::convert::FromSpecImpl<&'a str> for CellValue<'a> {
    open spec fn obeys_from_spec() -> bool {
        true
    }

    open spec fn from_spec(v: &'a str) -> Self {
        CellValue::Text(v)
    }
}

impl<'a> From<bool> for CellValue<'a> {
    fn from(value: bool) -> (r: Self) {
        CellValue::Bool(value)
    }
}

impl<'a> vstd::std_specs::convert::FromSpecImpl<bool> for CellValue<'a> {
    open spec fn obeys_from_spec() -> bool {
        true
    }

    open spec fn from_spec(v: bool) -> Self {
        CellValue::Bool(v)
    }
}

impl<'a> From<i64> for CellValue<'a> {
    fn from(value: i64) -> (r: Self) {
        CellValue::Int(value)
    }
}

impl<'a> vstd::std_specs::convert::FromSpecImpl<i64> for CellValue<'a> {
    open spec fn obeys_from_spec() -> bool {
        true
    }

    open spec fn from_spec(v: i64) -> Self {
        CellValue::Int(v)
    }
}

impl<'a> From<i32> for CellValue<'a> {
    fn from(value: i32) -> (r: Self) {
        CellValue::Int(value as i64)
    }
}

impl<'a> vstd::std_specs::convert::FromSpecImpl<i32> for CellValue<'a> {
    open spec fn obeys_from_spec() -> bool {
        true
    }

    open spec fn from_spec(v: i32) -> Self {
        CellValue::Int(v as i64)
    }
}

impl<'a> From<u32> for CellValue<'a> {
    fn from(value: u32) -> (r: Self) {
        CellValue::Int(value as i64)
    }
}

impl<'a> vstd::std_specs::convert::FromSpecImpl<u32> for CellValue<'a> {
    open spec fn obeys_from_spec() -> bool {
        true
    }

    open spec fn from_spec(v: u32) -> Self {
        CellValue::Int(v as i64)
    }
}

impl<'a> From<Option<u32>> for CellValue<'a> {
    fn from(value: Option<u32>) -> (r: Self) {
        match value {
            None => CellValue::Empty,
            Some(v) => CellValue::Int(v as i64),
        }
    }
}

impl<'a> vstd::std_specs::convert::FromSpecImpl<Option<u32>> for CellValue<'a> {
    open spec fn obeys_from_spec() -> bool {
        true
    }

    open spec fn from_spec(v: Option<u32>) -> Self {
        match v {
            None => CellValue::Empty,
            Some(x) => CellValue::Int(x as i64),
        }
    }
}

impl<'a> From<Option<&'a str>> for CellValue<'a> {
    fn from(value: Option<&'a str>) -> (r: Self) {
        match value {
            None => CellValue::Empty,
            Some(v) => CellValue::Text(v),
        }
    }
}

impl<'a> vstd::std_specs::convert::FromSpecImpl<Option<&'a str>> for CellValue<'a> {
    open spec fn obeys_from_spec() -> bool {
        true
    }

    open spec fn from_spec(v: Option<&'a str>) -> Self {
        match v {
            None => CellValue::Empty,
            Some(x) => CellValue::Text(x),
        }
    }
}

} // verus!
