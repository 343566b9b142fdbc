//! Every text the grid shows and every number and date format it uses, in
//! one place.

use crate::dates::{
    chrono_display_date, chrono_display_date_time, chrono_format_date, chrono_format_date_time,
    displayed_date, displayed_date_time, formatted_date, formatted_date_time,
};
use crate::filter::FilterOp;
use crate::format::CellFormat;
use crate::numbers::{int_text, nat_chars, nat_text};
use crate::text::{char_is_alphabetic, chars_of, is_letter, matches_at, occurs_at, string_of};
use crate::value::{CellModel, CellValue, Timestamp};
use vstd::prelude::*;

verus! {

/// The texts and formats of one language.
///
/// Everything the grid itself writes comes from here, so that switching
/// the locale switches all of it. English is the default;
/// [`GridLocale::german`] is the second locale that ships. Texts with a
/// placeholder in braces, such as `{count}`, are templates; the method of
/// the same name fills them in.
#[derive(Clone, Debug, PartialEq, Eq)]
pub struct GridLocale {
    /// Separates the integer part from the decimals: `.` or `,`.
    pub decimal_separator: char,
    /// Groups thousands in formatted numbers: `,`, `.`, or a space.
    pub group_separator: char,
    /// Whether the currency symbol follows the amount (`1,00 €`) rather than
    /// preceding it (`$1.00`).
    pub currency_after: bool,
    /// Whether a space separates a percentage from its sign (`25 %`).
    pub percent_space: bool,
    /// The `chrono` pattern for dates, such as `"%d.%m.%Y"`.
    pub date_pattern: String,
    /// The `chrono` pattern for a date with a time.
    pub date_time_pattern: String,
    /// How `true` reads.
    pub yes: String,
    /// How `false` reads.
    pub no: String,
    /// Label and placeholder of the search box.
    pub search: String,
    /// Shown when no row matches.
    pub no_rows: String,
    /// Accessible name of the pagination.
    pub pagination: String,
    /// Accessible name of the button to the previous page.
    pub previous_page: String,
    /// Visible text of the button to the previous page.
    pub previous: String,
    /// Accessible name of the button to the next page.
    pub next_page: String,
    /// Visible text of the button to the next page.
    pub next: String,
    /// Where the pagination is, with `{page}` and `{count}`.
    pub page_of: String,
    /// Announced while a remote grid loads.
    pub loading: String,
    /// Button that repeats a failed request.
    pub retry: String,
    /// Accessible name of a column's filter input, with `{column}`.
    pub filter_column: String,
    /// Label of the menu that shows and hides columns.
    pub columns: String,
    /// How many rows match, for exactly one row.
    pub row_count_one: String,
    /// How many rows match, with `{count}`.
    pub row_count: String,
    /// How many rows are selected, with `{count}`.
    pub selected_count: String,
    /// Accessible name of the button that opens a column's filter menu, with `{column}`.
    pub filter_menu: String,
    /// Tab of the filter menu with conditions.
    pub filter_by_condition: String,
    /// Tab of the filter menu with the value list.
    pub filter_by_values: String,
    /// Accessible name of an operator choice.
    pub filter_operator: String,
    /// Accessible name of an operand input.
    pub filter_value: String,
    /// Accessible name of the second operand of a range.
    pub filter_value_to: String,
    /// Combines two conditions so both must hold.
    pub filter_and: String,
    /// Combines two conditions so either may hold.
    pub filter_or: String,
    /// The operator choice that leaves the second condition out.
    pub filter_none: String,
    /// Applies the filter menu.
    pub filter_apply: String,
    /// Removes the column's filters.
    pub filter_clear: String,
    /// Search box of the value list.
    pub filter_search_values: String,
    /// Ticks or unticks every value in the list.
    pub filter_select_all: String,
    /// The entry for rows without a value.
    pub filter_empty_value: String,
    /// Shown when the value list is cut short, with `{count}`.
    pub filter_more_values: String,
    /// Operator name.
    pub op_contains: String,
    /// Operator name.
    pub op_starts_with: String,
    /// Operator name.
    pub op_ends_with: String,
    /// Operator name.
    pub op_equals: String,
    /// Operator name.
    pub op_not_equals: String,
    /// Operator name.
    pub op_less: String,
    /// Operator name.
    pub op_less_or_equal: String,
    /// Operator name.
    pub op_greater: String,
    /// Operator name.
    pub op_greater_or_equal: String,
    /// Operator name.
    pub op_between: String,
    /// Operator name.
    pub op_is_empty: String,
    /// Operator name.
    pub op_is_not_empty: String,
    /// Operator name.
    pub op_one_of: String,
    /// An edit left a cell empty that needs a value.
    pub edit_required: String,
    /// An edit's text is not a number.
    pub edit_invalid_number: String,
    /// An edit's text is not a date.
    pub edit_invalid_date: String,
    /// An edit's text cannot be read as the column's value.
    pub edit_invalid: String,
    /// An edit's value is not one of the column's choices.
    pub edit_not_a_choice: String,
}

/// Whether `l` holds the English texts and formats.
pub open spec fn is_english(l: GridLocale) -> bool {
    &&& l.decimal_separator == '.'
    &&& l.group_separator == ','
    &&& l.currency_after == false
    &&& l.percent_space == false
    &&& l.date_pattern@ == "%m/%d/%Y"@
    &&& l.date_time_pattern@ == "%m/%d/%Y %H:%M"@
    &&& l.yes@ == "Yes"@
    &&& l.no@ == "No"@
    &&& l.search@ == "Search"@
    &&& l.no_rows@ == "No matching rows"@
    &&& l.pagination@ == "Pagination"@
    &&& l.previous_page@ == "Previous page"@
    &&& l.previous@ == "Previous"@
    &&& l.next_page@ == "Next page"@
    &&& l.next@ == "Next"@
    &&& l.page_of@ == "Page {page} of {count}"@
    &&& l.loading@ == "Loading…"@
    &&& l.retry@ == "Retry"@
    &&& l.filter_column@ == "Filter {column}"@
    &&& l.columns@ == "Columns"@
    &&& l.row_count_one@ == "1 row"@
    &&& l.row_count@ == "{count} rows"@
    &&& l.selected_count@ == "{count} selected"@
    &&& l.filter_menu@ == "Filter options for {column}"@
    &&& l.filter_by_condition@ == "Condition"@
    &&& l.filter_by_values@ == "Values"@
    &&& l.filter_operator@ == "Operator"@
    &&& l.filter_value@ == "Value"@
    &&& l.filter_value_to@ == "Up to"@
    &&& l.filter_and@ == "and"@
    &&& l.filter_or@ == "or"@
    &&& l.filter_none@ == "(none)"@
    &&& l.filter_apply@ == "Apply"@
    &&& l.filter_clear@ == "Clear"@
    &&& l.filter_search_values@ == "Search values"@
    &&& l.filter_select_all@ == "Select all"@
    &&& l.filter_empty_value@ == "(Empty)"@
    &&& l.filter_more_values@ == "Only the first {count} values are listed"@
    &&& l.op_contains@ == "contains"@
    &&& l.op_starts_with@ == "starts with"@
    &&& l.op_ends_with@ == "ends with"@
    &&& l.op_equals@ == "equals"@
    &&& l.op_not_equals@ == "does not equal"@
    &&& l.op_less@ == "less than"@
    &&& l.op_less_or_equal@ == "at most"@
    &&& l.op_greater@ == "greater than"@
    &&& l.op_greater_or_equal@ == "at least"@
    &&& l.op_between@ == "between"@
    &&& l.op_is_empty@ == "is empty"@
    &&& l.op_is_not_empty@ == "is not empty"@
    &&& l.op_one_of@ == "is one of"@
    &&& l.edit_required@ == "Please enter a value"@
    &&& l.edit_invalid_number@ == "Please enter a number"@
    &&& l.edit_invalid_date@ == "Please enter a date"@
    &&& l.edit_invalid@ == "Please enter a valid value"@
    &&& l.edit_not_a_choice@ == "Please pick one of the choices"@
}

/// Whether `l` holds the German texts and formats.
pub open spec fn is_german(l: GridLocale) -> bool {
    &&& l.decimal_separator == ','
    &&& l.group_separator == '.'
    &&& l.currency_after == true
    &&& l.percent_space == true
    &&& l.date_pattern@ == "%d.%m.%Y"@
    &&& l.date_time_pattern@ == "%d.%m.%Y %H:%M"@
    &&& l.yes@ == "Ja"@
    &&& l.no@ == "Nein"@
    &&& l.search@ == "Suchen"@
    &&& l.no_rows@ == "Keine passenden Zeilen"@
    &&& l.pagination@ == "Seitennavigation"@
    &&& l.previous_page@ == "Vorherige Seite"@
    &&& l.previous@ == "Zurück"@
    &&& l.next_page@ == "Nächste Seite"@
    &&& l.next@ == "Weiter"@
    &&& l.page_of@ == "Seite {page} von {count}"@
    &&& l.loading@ == "Wird geladen …"@
    &&& l.retry@ == "Erneut versuchen"@
    &&& l.filter_column@ == "{column} filtern"@
    &&& l.columns@ == "Spalten"@
    &&& l.row_count_one@ == "1 Zeile"@
    &&& l.row_count@ == "{count} Zeilen"@
    &&& l.selected_count@ == "{count} ausgewählt"@
    &&& l.filter_menu@ == "Filteroptionen für {column}"@
    &&& l.filter_by_condition@ == "Bedingung"@
    &&& l.filter_by_values@ == "Werte"@
    &&& l.filter_operator@ == "Operator"@
    &&& l.filter_value@ == "Wert"@
    &&& l.filter_value_to@ == "Bis"@
    &&& l.filter_and@ == "und"@
    &&& l.filter_or@ == "oder"@
    &&& l.filter_none@ == "(keine)"@
    &&& l.filter_apply@ == "Anwenden"@
    &&& l.filter_clear@ == "Zurücksetzen"@
    &&& l.filter_search_values@ == "Werte durchsuchen"@
    &&& l.filter_select_all@ == "Alle auswählen"@
    &&& l.filter_empty_value@ == "(Leer)"@
    &&& l.filter_more_values@ == "Nur die ersten {count} Werte werden angezeigt"@
    &&& l.op_contains@ == "enthält"@
    &&& l.op_starts_with@ == "beginnt mit"@
    &&& l.op_ends_with@ == "endet mit"@
    &&& l.op_equals@ == "gleich"@
    &&& l.op_not_equals@ == "ungleich"@
    &&& l.op_less@ == "kleiner als"@
    &&& l.op_less_or_equal@ == "höchstens"@
    &&& l.op_greater@ == "größer als"@
    &&& l.op_greater_or_equal@ == "mindestens"@
    &&& l.op_between@ == "zwischen"@
    &&& l.op_is_empty@ == "ist leer"@
    &&& l.op_is_not_empty@ == "ist nicht leer"@
    &&& l.op_one_of@ == "ist eines von"@
    &&& l.edit_required@ == "Bitte einen Wert eingeben"@
    &&& l.edit_invalid_number@ == "Bitte eine Zahl eingeben"@
    &&& l.edit_invalid_date@ == "Bitte ein Datum eingeben"@
    &&& l.edit_invalid@ == "Bitte einen gültigen Wert eingeben"@
    &&& l.edit_not_a_choice@ == "Bitte einen der Werte wählen"@
}

impl Default for GridLocale {
    fn default() -> (r: Self)
        ensures
            is_english(r),
    {
        Self::english()
    }
}

impl GridLocale {
    /// English, the default.
    pub fn english() -> (r: Self)
        ensures
            is_english(r),
    {
        GridLocale {
            decimal_separator: '.',
            group_separator: ',',
            currency_after: false,
            percent_space: false,
            date_pattern: "%m/%d/%Y".to_owned(),
            date_time_pattern: "%m/%d/%Y %H:%M".to_owned(),
            yes: "Yes".to_owned(),
            no: "No".to_owned(),
            search: "Search".to_owned(),
            no_rows: "No matching rows".to_owned(),
            pagination: "Pagination".to_owned(),
            previous_page: "Previous page".to_owned(),
            previous: "Previous".to_owned(),
            next_page: "Next page".to_owned(),
            next: "Next".to_owned(),
            page_of: "Page {page} of {count}".to_owned(),
            loading: "Loading…".to_owned(),
            retry: "Retry".to_owned(),
            filter_column: "Filter {column}".to_owned(),
            columns: "Columns".to_owned(),
            row_count_one: "1 row".to_owned(),
            row_count: "{count} rows".to_owned(),
            selected_count: "{count} selected".to_owned(),
            filter_menu: "Filter options for {column}".to_owned(),
            filter_by_condition: "Condition".to_owned(),
            filter_by_values: "Values".to_owned(),
            filter_operator: "Operator".to_owned(),
            filter_value: "Value".to_owned(),
            filter_value_to: "Up to".to_owned(),
            filter_and: "and".to_owned(),
            filter_or: "or".to_owned(),
            filter_none: "(none)".to_owned(),
            filter_apply: "Apply".to_owned(),
            filter_clear: "Clear".to_owned(),
            filter_search_values: "Search values".to_owned(),
            filter_select_all: "Select all".to_owned(),
            filter_empty_value: "(Empty)".to_owned(),
            filter_more_values: "Only the first {count} values are listed".to_owned(),
            op_contains: "contains".to_owned(),
            op_starts_with: "starts with".to_owned(),
            op_ends_with: "ends with".to_owned(),
            op_equals: "equals".to_owned(),
            op_not_equals: "does not equal".to_owned(),
            op_less: "less than".to_owned(),
            op_less_or_equal: "at most".to_owned(),
            op_greater: "greater than".to_owned(),
            op_greater_or_equal: "at least".to_owned(),
            op_between: "between".to_owned(),
            op_is_empty: "is empty".to_owned(),
            op_is_not_empty: "is not empty".to_owned(),
            op_one_of: "is one of".to_owned(),
            edit_required: "Please enter a value".to_owned(),
            edit_invalid_number: "Please enter a number".to_owned(),
            edit_invalid_date: "Please enter a date".to_owned(),
            edit_invalid: "Please enter a valid value".to_owned(),
            edit_not_a_choice: "Please pick one of the choices".to_owned(),
        }
    }

    /// German.
    pub fn german() -> (r: Self)
        ensures
            is_german(r),
    {
        GridLocale {
            decimal_separator: ',',
            group_separator: '.',
            currency_after: true,
            percent_space: true,
            date_pattern: "%d.%m.%Y".to_owned(),
            date_time_pattern: "%d.%m.%Y %H:%M".to_owned(),
            yes: "Ja".to_owned(),
            no: "Nein".to_owned(),
            search: "Suchen".to_owned(),
            no_rows: "Keine passenden Zeilen".to_owned(),
            pagination: "Seitennavigation".to_owned(),
            previous_page: "Vorherige Seite".to_owned(),
            previous: "Zurück".to_owned(),
            next_page: "Nächste Seite".to_owned(),
            next: "Weiter".to_owned(),
            page_of: "Seite {page} von {count}".to_owned(),
            loading: "Wird geladen …".to_owned(),
            retry: "Erneut versuchen".to_owned(),
            filter_column: "{column} filtern".to_owned(),
            columns: "Spalten".to_owned(),
            row_count_one: "1 Zeile".to_owned(),
            row_count: "{count} Zeilen".to_owned(),
            selected_count: "{count} ausgewählt".to_owned(),
            filter_menu: "Filteroptionen für {column}".to_owned(),
            filter_by_condition: "Bedingung".to_owned(),
            filter_by_values: "Werte".to_owned(),
            filter_operator: "Operator".to_owned(),
            filter_value: "Wert".to_owned(),
            filter_value_to: "Bis".to_owned(),
            filter_and: "und".to_owned(),
            filter_or: "oder".to_owned(),
            filter_none: "(keine)".to_owned(),
            filter_apply: "Anwenden".to_owned(),
            filter_clear: "Zurücksetzen".to_owned(),
            filter_search_values: "Werte durchsuchen".to_owned(),
            filter_select_all: "Alle auswählen".to_owned(),
            filter_empty_value: "(Leer)".to_owned(),
            filter_more_values: "Nur die ersten {count} Werte werden angezeigt".to_owned(),
            op_contains: "enthält".to_owned(),
            op_starts_with: "beginnt mit".to_owned(),
            op_ends_with: "endet mit".to_owned(),
            op_equals: "gleich".to_owned(),
            op_not_equals: "ungleich".to_owned(),
            op_less: "kleiner als".to_owned(),
            op_less_or_equal: "höchstens".to_owned(),
            op_greater: "größer als".to_owned(),
            op_greater_or_equal: "mindestens".to_owned(),
            op_between: "zwischen".to_owned(),
            op_is_empty: "ist leer".to_owned(),
            op_is_not_empty: "ist nicht leer".to_owned(),
            op_one_of: "ist eines von".to_owned(),
            edit_required: "Bitte einen Wert eingeben".to_owned(),
            edit_invalid_number: "Bitte eine Zahl eingeben".to_owned(),
            edit_invalid_date: "Bitte ein Datum eingeben".to_owned(),
            edit_invalid: "Bitte einen gültigen Wert eingeben".to_owned(),
            edit_not_a_choice: "Bitte einen der Werte wählen".to_owned(),
        }
    }
}

/// `{key}`: how a template marks where a value goes.
pub open spec fn placeholder(key: Seq<char>) -> Seq<char> {
    seq!['{'] + key + seq!['}']
}

/// `t` with each occurrence of `pat`, found from the left and not
/// overlapping, replaced by `rep`.
pub open spec fn replace_all(t: Seq<char>, pat: Seq<char>, rep: Seq<char>) -> Seq<char>
    recommends
        pat.len() > 0,
    decreases t.len(),
{
    if t.len() == 0 {
        t
    } else if pat.len() > 0 && occurs_at(t, pat, 0) {
        rep + replace_all(t.skip(pat.len() as int), pat, rep)
    } else {
        seq![t[0]] + replace_all(t.drop_first(), pat, rep)
    }
}

/// A template with each `{key}` replaced by its value, the pairs taken in
/// order.
pub open spec fn fill_spec(t: Seq<char>, values: Seq<(Seq<char>, Seq<char>)>) -> Seq<char>
    decreases values.len(),
{
    if values.len() == 0 {
        t
    } else {
        replace_all(fill_spec(t, values.drop_last()), placeholder(values.last().0), values.last().1)
    }
}

/// The first `k` digits of `d` with `sep` before each digit that starts a
/// group of three counted from the end.
pub open spec fn grouped_upto(d: Seq<char>, sep: char, k: int) -> Seq<char>
    decreases k,
{
    if k <= 0 {
        Seq::empty()
    } else {
        let prev = grouped_upto(d, sep, k - 1);
        let p = k - 1;
        if p > 0 && (d.len() - p) % 3 == 0 {
            prev.push(sep).push(d[p])
        } else {
            prev.push(d[p])
        }
    }
}

/// Digits with `sep` between groups of three, counted from the end.
pub open spec fn grouped(d: Seq<char>, sep: char) -> Seq<char> {
    grouped_upto(d, sep, d.len() as int)
}

/// Appends `s` to `out`.
fn push_all(out: &mut Vec<char>, s: &Vec<char>)
    ensures
        final(out)@ == old(out)@ + s@,
{
    let ghost start = out@;
    let mut i: usize = 0;
    while i < s.len()
        invariant
            i <= s@.len(),
            out@ == start + s@.take(i as int),
        decreases s.len() - i,
    {
        out.push(s[i]);
        i = i + 1;
        assert(out@ =~= start + s@.take(i as int));
    }
    assert(s@.take(i as int) =~= s@);
}

/// Replaces each occurrence of `pat` in `t`, from the left, by `rep`.
fn replace_chars(t: &Vec<char>, pat: &Vec<char>, rep: &Vec<char>) -> (r: Vec<char>)
    requires
        pat@.len() > 0,
    ensures
        r@ == replace_all(t@, pat@, rep@),
{
    let mut out: Vec<char> = Vec::new();
    let mut i: usize = 0;
    assert(t@.skip(0) =~= t@);
    while i < t.len()
        invariant
            i <= t@.len(),
            pat@.len() > 0,
            out@ + replace_all(t@.skip(i as int), pat@, rep@) == replace_all(t@, pat@, rep@),
        decreases t.len() - i,
    {
        let ghost rest = t@.skip(i as int);
        let found = pat.len() <= t.len() - i && matches_at(t, pat, i);
        proof {
            if i + pat@.len() <= t@.len() {
                assert(t@.subrange(i as int, i + pat@.len()) =~= rest.subrange(0, pat@.len() as int));
            }
            assert(found == occurs_at(rest, pat@, 0));
        }
        if found {
            let ghost before = out@;
            push_all(&mut out, rep);
            proof {
                assert(rest.skip(pat@.len() as int) =~= t@.skip(i + pat@.len()));
                assert(before + (rep@ + replace_all(rest.skip(pat@.len() as int), pat@, rep@)) =~= out@ + replace_all(
                    t@.skip(i + pat@.len()),
                    pat@,
                    rep@,
                ));
            }
            i = i + pat.len();
        } else {
            let ghost before = out@;
            out.push(t[i]);
            proof {
                assert(rest.drop_first() =~= t@.skip(i + 1));
                assert(rest[0] == t@[i as int]);
                assert(before + (seq![rest[0]] + replace_all(rest.drop_first(), pat@, rep@)) =~= out@ + replace_all(
                    t@.skip(i + 1),
                    pat@,
                    rep@,
                ));
            }
            i = i + 1;
        }
    }
    assert(t@.skip(i as int) =~= Seq::<char>::empty());
    assert(out@ + Seq::<char>::empty() =~= out@);
    out
}

/// The values of a template as characters.
pub open spec fn values_model(values: Seq<(&str, &str)>) -> Seq<(Seq<char>, Seq<char>)> {
    values.map_values(|e: (&str, &str)| (e.0@, e.1@))
}

/// Replaces each `{key}` in `template` with its value.
fn fill(template: &str, values: Vec<(&str, &str)>) -> (r: String)
    ensures
        r@ == fill_spec(template@, values_model(values@)),
{
    let mut text = chars_of(template);
    let mut i: usize = 0;
    while i < values.len()
        invariant
            i <= values@.len(),
            text@ == fill_spec(template@, values_model(values@.take(i as int))),
        decreases values.len() - i,
    {
        let (key, value) = values[i];
        let mut pat: Vec<char> = Vec::new();
        pat.push('{');
        push_all(&mut pat, &chars_of(key));
        pat.push('}');
        assert(pat@ =~= placeholder(key@));
        text = replace_chars(&text, &pat, &chars_of(value));
        proof {
            let m = values_model(values@.take(i + 1));
            assert(m.drop_last() =~= values_model(values@.take(i as int)));
            assert(m.last() == (key@, value@));
        }
        i = i + 1;
    }
    assert(values@.take(i as int) =~= values@);
    string_of(&text)
}

/// Inserts `separator` between groups of three digits, counted from the
/// end.
fn group(digits: &Vec<char>, separator: char) -> (r: Vec<char>)
    ensures
        r@ == grouped(digits@, separator),
{
    let n = digits.len();
    let mut out: Vec<char> = Vec::new();
    let mut p: usize = 0;
    while p < n
        invariant
            p <= n,
            n == digits@.len(),
            out@ == grouped_upto(digits@, separator, p as int),
        decreases n - p,
    {
        if p > 0 && (n - p) % 3 == 0 {
            out.push(separator);
        }
        out.push(digits[p]);
        p = p + 1;
    }
    out
}

/// A count with thousands grouping, as the locale writes it.
pub open spec fn integer_text(l: GridLocale, n: nat) -> Seq<char> {
    grouped(nat_text(n), l.group_separator)
}

/// The locale's name of a filter operator.
pub open spec fn operator_text(l: GridLocale, op: FilterOp) -> Seq<char> {
    match op {
        FilterOp::Contains => l.op_contains@,
        FilterOp::StartsWith => l.op_starts_with@,
        FilterOp::EndsWith => l.op_ends_with@,
        FilterOp::Equals => l.op_equals@,
        FilterOp::NotEquals => l.op_not_equals@,
        FilterOp::Less => l.op_less@,
        FilterOp::LessOrEqual => l.op_less_or_equal@,
        FilterOp::Greater => l.op_greater@,
        FilterOp::GreaterOrEqual => l.op_greater_or_equal@,
        FilterOp::Between => l.op_between@,
        FilterOp::IsEmpty => l.op_is_empty@,
        FilterOp::IsNotEmpty => l.op_is_not_empty@,
        FilterOp::OneOf => l.op_one_of@,
    }
}

impl GridLocale {
    /// A count with thousands grouping, as used in the texts.
    pub fn integer(&self, value: usize) -> (r: String)
        ensures
            r@ == integer_text(*self, value as nat),
    {
        string_of(&self.integer_chars(value))
    }

    /// [`integer`](GridLocale::integer) as characters.
    fn integer_chars(&self, value: usize) -> (r: Vec<char>)
        ensures
            r@ == integer_text(*self, value as nat),
    {
        group(&nat_chars(value as u128), self.group_separator)
    }

    /// "Page 2 of 5": fills `{page}` and `{count}` into the page template.
    pub fn page_of(&self, page: usize, count: usize) -> (r: String)
        ensures
            r@ == fill_spec(
                self.page_of@,
                seq![("page"@, integer_text(*self, page as nat)), ("count"@, integer_text(*self, count as nat))],
            ),
    {
        let page_text = self.integer(page);
        let count_text = self.integer(count);
        let values = vec![("page", page_text.as_str()), ("count", count_text.as_str())];
        assert(values_model(values@) =~= seq![("page"@, page_text@), ("count"@, count_text@)]);
        fill(self.page_of.as_str(), values)
    }

    /// "Filter Name", the accessible name of a column's filter input.
    pub fn filter_column(&self, column: &str) -> (r: String)
        ensures
            r@ == fill_spec(self.filter_column@, seq![("column"@, column@)]),
    {
        let values = vec![("column", column)];
        assert(values_model(values@) =~= seq![("column"@, column@)]);
        fill(self.filter_column.as_str(), values)
    }

    /// "12 rows", or "1 row".
    pub fn row_count(&self, count: usize) -> (r: String)
        ensures
            r@ == if count == 1 {
                self.row_count_one@
            } else {
                fill_spec(self.row_count@, seq![("count"@, integer_text(*self, count as nat))])
            },
    {
        if count == 1 {
            self.row_count_one.clone()
        } else {
            let count_text = self.integer(count);
            let values = vec![("count", count_text.as_str())];
            assert(values_model(values@) =~= seq![("count"@, count_text@)]);
            fill(self.row_count.as_str(), values)
        }
    }

    /// "Filter options for Name", the accessible name of a filter menu's
    /// button.
    pub fn filter_menu(&self, column: &str) -> (r: String)
        ensures
            r@ == fill_spec(self.filter_menu@, seq![("column"@, column@)]),
    {
        let values = vec![("column", column)];
        assert(values_model(values@) =~= seq![("column"@, column@)]);
        fill(self.filter_menu.as_str(), values)
    }

    /// "Only the first 1,000 values are listed".
    pub fn filter_more_values(&self, count: usize) -> (r: String)
        ensures
            r@ == fill_spec(self.filter_more_values@, seq![("count"@, integer_text(*self, count as nat))]),
    {
        let count_text = self.integer(count);
        let values = vec![("count", count_text.as_str())];
        assert(values_model(values@) =~= seq![("count"@, count_text@)]);
        fill(self.filter_more_values.as_str(), values)
    }

    /// The name of a filter operator, as a menu lists it.
    pub fn operator(&self, op: FilterOp) -> (r: &str)
        ensures
            r@ == operator_text(*self, op),
    {
        match op {
            FilterOp::Contains => self.op_contains.as_str(),
            FilterOp::StartsWith => self.op_starts_with.as_str(),
            FilterOp::EndsWith => self.op_ends_with.as_str(),
            FilterOp::Equals => self.op_equals.as_str(),
            FilterOp::NotEquals => self.op_not_equals.as_str(),
            FilterOp::Less => self.op_less.as_str(),
            FilterOp::LessOrEqual => self.op_less_or_equal.as_str(),
            FilterOp::Greater => self.op_greater.as_str(),
            FilterOp::GreaterOrEqual => self.op_greater_or_equal.as_str(),
            FilterOp::Between => self.op_between.as_str(),
            FilterOp::IsEmpty => self.op_is_empty.as_str(),
            FilterOp::IsNotEmpty => self.op_is_not_empty.as_str(),
            FilterOp::OneOf => self.op_one_of.as_str(),
        }
    }

    /// "3 selected".
    pub fn selected_count(&self, count: usize) -> (r: String)
        ensures
            r@ == fill_spec(self.selected_count@, seq![("count"@, integer_text(*self, count as nat))]),
    {
        let count_text = self.integer(count);
        let values = vec![("count", count_text.as_str())];
        assert(values_model(values@) =~= seq![("count"@, count_text@)]);
        fill(self.selected_count.as_str(), values)
    }
}

/// The pattern a date or date and time is written in: the format's own,
/// the locale's date-time pattern for a date and time under a date-time
/// format, the locale's date pattern under a date format or for a date,
/// and the date-time pattern otherwise.
pub open spec fn temporal_pattern(l: GridLocale, format: CellFormat, v: CellModel) -> Seq<char> {
    match format {
        CellFormat::DatePattern(p) => p@,
        CellFormat::DateTime if v is DateTime => l.date_time_pattern@,
        CellFormat::Date => l.date_pattern@,
        _ => if v is Date {
            l.date_pattern@
        } else {
            l.date_time_pattern@
        },
    }
}

/// A date or date and time written in its pattern; where the pattern
/// cannot be written, in the ISO form instead; empty for a day number that
/// is no date.
pub open spec fn temporal_text(l: GridLocale, format: CellFormat, v: CellModel) -> Seq<char> {
    let pattern = temporal_pattern(l, format, v);
    let (written, fallback) = match v {
        CellModel::Date(d) => (formatted_date(d, pattern), displayed_date(d)),
        CellModel::DateTime(t) => (formatted_date_time(t, pattern), displayed_date_time(t)),
        _ => (None, None),
    };
    match written {
        Some(s) => s,
        None => match fallback {
            Some(s) => s,
            None => Seq::empty(),
        },
    }
}

/// A value as it is: booleans as the locale's yes and no, integers without
/// grouping, dates in the locale's patterns, text as it is.
pub open spec fn plain_text(l: GridLocale, v: CellModel) -> Seq<char> {
    match v {
        CellModel::Empty => Seq::empty(),
        CellModel::Bool(b) => if b {
            l.yes@
        } else {
            l.no@
        },
        CellModel::Int(i) => int_text(i),
        CellModel::Date(_) => temporal_text(l, CellFormat::Plain, v),
        CellModel::DateTime(_) => temporal_text(l, CellFormat::Plain, v),
        CellModel::Text(t) => t,
    }
}

/// `n` zeros.
pub open spec fn zeros(n: nat) -> Seq<char> {
    Seq::new(n, |i: int| '0')
}

/// An integer's magnitude with grouping, followed by `decimals` zeros after
/// the decimal separator.
pub open spec fn unsigned_fixed(l: GridLocale, v: int, decimals: nat) -> Seq<char> {
    let magnitude = if v < 0 {
        -v
    } else {
        v
    };
    grouped(nat_text(magnitude as nat), l.group_separator) + if decimals > 0 {
        seq![l.decimal_separator] + zeros(decimals)
    } else {
        Seq::empty()
    }
}

/// An integer with grouping and `decimals` zero decimals.
pub open spec fn fixed_text(l: GridLocale, v: int, decimals: nat) -> Seq<char> {
    if v < 0 {
        seq!['-'] + unsigned_fixed(l, v, decimals)
    } else {
        unsigned_fixed(l, v, decimals)
    }
}

/// Whether every character of `s` is a letter.
pub open spec fn all_letters(s: Seq<char>) -> bool {
    forall|i: int| 0 <= i < s.len() ==> is_letter(#[trigger] s[i])
}

/// An amount of money: the symbol after the amount, or before its digits
/// and after its sign, with a space between a code of letters and the
/// digits.
pub open spec fn currency_text(l: GridLocale, v: int, symbol: Seq<char>, decimals: nat) -> Seq<char> {
    if l.currency_after {
        fixed_text(l, v, decimals) + seq!['\u{a0}'] + symbol
    } else {
        let gap = if all_letters(symbol) {
            seq!['\u{a0}']
        } else {
            Seq::empty()
        };
        (if v < 0 {
            seq!['-']
        } else {
            Seq::empty()
        }) + symbol + gap + unsigned_fixed(l, v, decimals)
    }
}

/// A fraction as a percentage.
pub open spec fn percent_text(l: GridLocale, v: int, decimals: nat) -> Seq<char> {
    fixed_text(l, v * 100, decimals) + if l.percent_space {
        seq!['\u{a0}', '%']
    } else {
        seq!['%']
    }
}

/// A value formatted as text: number formats for integers, the date
/// patterns for dates, and plain for everything else; empty for no value.
pub open spec fn format_text(l: GridLocale, v: CellModel, format: CellFormat) -> Seq<char> {
    match v {
        CellModel::Empty => Seq::empty(),
        CellModel::Int(i) => match format {
            CellFormat::Number { decimals } => fixed_text(l, i, decimals as nat),
            CellFormat::Currency { symbol, decimals } => currency_text(l, i, symbol@, decimals as nat),
            CellFormat::Percent { decimals } => percent_text(l, i, decimals as nat),
            _ => plain_text(l, v),
        },
        CellModel::Date(_) => temporal_text(l, format, v),
        CellModel::DateTime(_) => temporal_text(l, format, v),
        _ => plain_text(l, v),
    }
}

/// `n` zeros.
fn zero_chars(n: u8) -> (r: Vec<char>)
    ensures
        r@ == zeros(n as nat),
{
    let mut r: Vec<char> = Vec::new();
    let mut i: u8 = 0;
    while i < n
        invariant
            i <= n,
            r@ == zeros(i as nat),
        decreases n - i,
    {
        r.push('0');
        i = i + 1;
        assert(r@ =~= zeros(i as nat));
    }
    r
}

/// Whether every character of `s` is a letter.
fn all_letters_exec(s: &Vec<char>) -> (r: bool)
    ensures
        r == all_letters(s@),
{
    let mut i: usize = 0;
    while i < s.len()
        invariant
            i <= s@.len(),
            forall|j: int| 0 <= j < i ==> is_letter(#[trigger] s@[j]),
        decreases s.len() - i,
    {
        if !char_is_alphabetic(s[i]) {
            return false;
        }
        i = i + 1;
    }
    true
}

impl GridLocale {
    /// An integer's magnitude with grouping and zero decimals.
    fn unsigned_fixed_chars(&self, v: i128, decimals: u8) -> (r: Vec<char>)
        requires
            v > i128::MIN,
        ensures
            r@ == unsigned_fixed(*self, v as int, decimals as nat),
    {
        let magnitude: u128 = if v < 0 {
            (0 - v) as u128
        } else {
            v as u128
        };
        let mut out = group(&nat_chars(magnitude), self.group_separator);
        if decimals > 0 {
            out.push(self.decimal_separator);
            push_all(&mut out, &zero_chars(decimals));
        }
        proof {
            if decimals > 0 {
                assert(out@ =~= unsigned_fixed(*self, v as int, decimals as nat));
            } else {
                assert(out@ =~= unsigned_fixed(*self, v as int, decimals as nat));
            }
        }
        out
    }

    /// An integer with grouping and zero decimals.
    fn fixed_chars(&self, v: i128, decimals: u8) -> (r: Vec<char>)
        requires
            v > i128::MIN,
        ensures
            r@ == fixed_text(*self, v as int, decimals as nat),
    {
        let digits = self.unsigned_fixed_chars(v, decimals);
        if v < 0 {
            let mut out: Vec<char> = Vec::new();
            out.push('-');
            push_all(&mut out, &digits);
            out
        } else {
            digits
        }
    }

    /// A date or date and time in its pattern.
    fn temporal_chars(&self, value: &CellValue<'_>, format: &CellFormat) -> (r: Vec<char>)
        ensures
            r@ == temporal_text(*self, *format, value@),
    {
        let pattern: &str = match format {
            CellFormat::DatePattern(p) => p.as_str(),
            CellFormat::DateTime if matches!(value, CellValue::DateTime(_)) => self.date_time_pattern.as_str(),
            CellFormat::Date => self.date_pattern.as_str(),
            _ => if matches!(value, CellValue::Date(_)) {
                self.date_pattern.as_str()
            } else {
                self.date_time_pattern.as_str()
            },
        };
        let (written, fallback) = match value {
            CellValue::Date(d) => (chrono_format_date(*d, pattern), chrono_display_date(*d)),
            CellValue::DateTime(t) => (chrono_format_date_time(*t, pattern), chrono_display_date_time(*t)),
            _ => (None, None),
        };
        match written {
            Some(s) => chars_of(s.as_str()),
            None => match fallback {
                Some(s) => chars_of(s.as_str()),
                None => Vec::new(),
            },
        }
    }

    /// A value as it is.
    fn plain_chars(&self, value: &CellValue<'_>) -> (r: Vec<char>)
        ensures
            r@ == plain_text(*self, value@),
    {
        match value {
            CellValue::Empty => Vec::new(),
            CellValue::Bool(b) => if *b {
                chars_of(self.yes.as_str())
            } else {
                chars_of(self.no.as_str())
            },
            CellValue::Int(i) => crate::numbers::int_chars(*i),
            CellValue::Date(_) => self.temporal_chars(value, &CellFormat::Plain),
            CellValue::DateTime(_) => self.temporal_chars(value, &CellFormat::Plain),
            CellValue::Text(t) => chars_of(t),
        }
    }

    /// Formats a value as text.
    ///
    /// A format that does not fit the value falls back to plain: text
    /// stays text under a number format, and a number is not a date. No
    /// value is always empty.
    pub fn format(&self, value: &CellValue<'_>, format: &CellFormat) -> (r: String)
        ensures
            r@ == format_text(*self, value@, *format),
    {
        let chars = match value {
            CellValue::Empty => Vec::new(),
            CellValue::Int(i) => match format {
                CellFormat::Number { decimals } => self.fixed_chars(*i as i128, *decimals),
                CellFormat::Currency { symbol, decimals } => {
                    let symbol_chars = chars_of(symbol.as_str());
                    if self.currency_after {
                        let mut out = self.fixed_chars(*i as i128, *decimals);
                        out.push('\u{a0}');
                        push_all(&mut out, &symbol_chars);
                        out
                    } else {
                        let mut out: Vec<char> = Vec::new();
                        if *i < 0 {
                            out.push('-');
                        }
                        push_all(&mut out, &symbol_chars);
                        if all_letters_exec(&symbol_chars) {
                            out.push('\u{a0}');
                        }
                        push_all(&mut out, &self.unsigned_fixed_chars(*i as i128, *decimals));
                        proof {
                            let gap = if all_letters(symbol@) {
                                seq!['\u{a0}']
                            } else {
                                Seq::<char>::empty()
                            };
                            let sign = if *i < 0 {
                                seq!['-']
                            } else {
                                Seq::<char>::empty()
                            };
                            assert(out@ =~= sign + symbol@ + gap + unsigned_fixed(*self, *i as int, *decimals as nat));
                        }
                        out
                    }
                },
                CellFormat::Percent { decimals } => {
                    let mut out = self.fixed_chars((*i as i128) * 100, *decimals);
                    if self.percent_space {
                        out.push('\u{a0}');
                    }
                    out.push('%');
                    proof {
                        if self.percent_space {
                            assert(out@ =~= fixed_text(*self, *i as int * 100, *decimals as nat) + seq!['\u{a0}', '%']);
                        } else {
                            assert(out@ =~= fixed_text(*self, *i as int * 100, *decimals as nat) + seq!['%']);
                        }
                    }
                    out
                },
                _ => self.plain_chars(value),
            },
            CellValue::Date(_) => self.temporal_chars(value, format),
            CellValue::DateTime(_) => self.temporal_chars(value, format),
            _ => self.plain_chars(value),
        };
        string_of(&chars)
    }
}

} // verus!
