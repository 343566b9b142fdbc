//! How a column turns its value into text, and how it lays that text out.

use vstd::prelude::*;

verus! {

/// How a column's value is turned into text. The separators, symbol
/// placement and date patterns come from the [`GridLocale`](crate::GridLocale).
/// A format that does not fit the value falls back to
/// [`Plain`](CellFormat::Plain) for that value.
#[derive(Clone, Debug, Default, PartialEq, Eq, Hash)]
pub enum CellFormat {
    /// The value as it is: integers without grouping, booleans as the
    /// locale's yes and no, dates in the locale's date pattern.
    #[default]
    Plain,
    /// A number with a fixed count of decimals and thousands grouping.
    Number {
        /// Digits after the decimal separator.
        decimals: u8,
    },
    /// A number as an amount of money.
    Currency {
        /// The currency symbol or code, such as `€` or `CHF`.
        symbol: String,
        /// Digits after the decimal separator.
        decimals: u8,
    },
    /// A fraction as a percentage: a value of `1` reads `100%`.
    Percent {
        /// Digits after the decimal separator.
        decimals: u8,
    },
    /// A date or date and time in the locale's date pattern.
    Date,
    /// A date and time in the locale's date-time pattern.
    DateTime,
    /// A date or date and time in an explicit `chrono` pattern.
    DatePattern(String),
}

/// Horizontal alignment of a cell's content, following the writing
/// direction.
#[derive(Clone, Copy, Debug, Default, PartialEq, Eq, Structural, Hash)]
pub enum CellAlign {
    /// At the start of the line.
    #[default]
    Start,
    /// Centered.
    Center,
    /// At the end of the line.
    End,
}

/// What happens to cell content wider than its column.
#[derive(Clone, Copy, Debug, Default, PartialEq, Eq, Structural, Hash)]
pub enum CellOverflow {
    /// Cut off with an ellipsis.
    #[default]
    Truncate,
    /// Cut off with an ellipsis, with the full text as a tooltip.
    TruncateWithTooltip,
    /// Wrapped onto further lines.
    Wrap,
}

/// Whether a format is for numbers.
pub open spec fn is_numeric_format(f: CellFormat) -> bool {
    f is Number || f is Currency || f is Percent
}

impl CellFormat {
    /// A number with `decimals` decimals and thousands grouping.
    pub fn number(decimals: u8) -> (r: Self)
        ensures
            r == (CellFormat::Number { decimals }),
    {
        CellFormat::Number { decimals }
    }

    /// An amount of money in the given currency.
    pub fn currency(symbol: &str, decimals: u8) -> (r: Self)
        ensures
            r matches CellFormat::Currency { symbol: s, decimals: d } && s@ == symbol@ && d == decimals,
    {
        CellFormat::Currency { symbol: symbol.to_owned(), decimals }
    }

    /// A fraction shown as a percentage with `decimals` decimals.
    pub fn percent(decimals: u8) -> (r: Self)
        ensures
            r == (CellFormat::Percent { decimals }),
    {
        CellFormat::Percent { decimals }
    }

    /// Dates in an explicit `chrono` pattern.
    pub fn date_pattern(pattern: &str) -> (r: Self)
        ensures
            r matches CellFormat::DatePattern(p) && p@ == pattern@,
    {
        CellFormat::DatePattern(pattern.to_owned())
    }

    /// Whether this format is for numbers.
    pub fn is_numeric(&self) -> (r: bool)
        ensures
            r == is_numeric_format(*self),
    {
        match self {
            CellFormat::Number { .. } | CellFormat::Currency { .. } | CellFormat::Percent { .. } => true,
            _ => false,
        }
    }

    /// The alignment a column with this format gets unless it sets its own:
    /// numbers at the end, so that their digits align; everything else at
    /// the start.
    pub fn default_align(&self) -> (r: CellAlign)
        ensures
            r == (if is_numeric_format(*self) { CellAlign::End } else { CellAlign::Start }),
    {
        if self.is_numeric() {
            CellAlign::End
        } else {
            CellAlign::Start
        }
    }

    /// An identical copy.
    pub fn duplicate(&self) -> (r: Self)
        ensures
            r == *self,
    {
        match self {
            CellFormat::Plain => CellFormat::Plain,
            CellFormat::Number { decimals } => CellFormat::Number { decimals: *decimals },
            CellFormat::Currency { symbol, decimals } => CellFormat::Currency { symbol: symbol.clone(), decimals: *decimals },
            CellFormat::Percent { decimals } => CellFormat::Percent { decimals: *decimals },
            CellFormat::Date => CellFormat::Date,
            CellFormat::DateTime => CellFormat::DateTime,
            CellFormat::DatePattern(p) => CellFormat::DatePattern(p.clone()),
        }
    }
}

impl CellAlign {
    /// The CSS keyword for this alignment, as used by `text-align`.
    pub fn as_str(self) -> (r: &'static str)
        ensures
            r@ == match self {
                CellAlign::Start => "start"@,
                CellAlign::Center => "center"@,
                CellAlign::End => "end"@,
            },
    {
        match self {
            CellAlign::Start => "start",
            CellAlign::Center => "center",
            CellAlign::End => "end",
        }
    }
}

impl CellOverflow {
    /// A stable name for this mode, for use in a `data-` attribute.
    pub fn as_str(self) -> (r: &'static str)
        ensures
            r@ == match self {
                CellOverflow::Truncate => "truncate"@,
                CellOverflow::TruncateWithTooltip => "truncate-tooltip"@,
                CellOverflow::Wrap => "wrap"@,
            },
    {
        match self {
            CellOverflow::Truncate => "truncate",
            CellOverflow::TruncateWithTooltip => "truncate-tooltip",
            CellOverflow::Wrap => "wrap",
        }
    }
}

} // verus!
