//! Three-way comparisons as spec functions, and the lexicographic order on
//! character sequences that text sorting is built from.

use crate::text::code;
use std::cmp::Ordering;
use vstd::prelude::*;

verus! {

/// Compares two integers.
pub open spec fn int_order(a: int, b: int) -> Ordering {
    if a < b {
        Ordering::Less
    } else if a > b {
        Ordering::Greater
    } else {
        Ordering::Equal
    }
}

/// The opposite ordering.
pub open spec fn reverse_order(o: Ordering) -> Ordering {
    match o {
        Ordering::Less => Ordering::Greater,
        Ordering::Equal => Ordering::Equal,
        Ordering::Greater => Ordering::Less,
    }
}

/// `first`, unless that is `Equal`, then `second`: the lexicographic
/// combination of two comparisons.
pub open spec fn then_order(first: Ordering, second: Ordering) -> Ordering {
    match first {
        Ordering::Equal => second,
        _ => first,
    }
}

/// Lexicographic order on sequences of characters by code point, which is
/// also the byte order of their UTF-8 encodings.
pub open spec fn lex_order(a: Seq<char>, b: Seq<char>) -> Ordering
    decreases a.len(),
{
    if a.len() == 0 {
        if b.len() == 0 {
            Ordering::Equal
        } else {
            Ordering::Less
        }
    } else if b.len() == 0 {
        Ordering::Greater
    } else if code(a[0]) != code(b[0]) {
        int_order(code(a[0]), code(b[0]))
    } else {
        lex_order(a.drop_first(), b.drop_first())
    }
}

/// Two characters are equal exactly when their code points are.
pub proof fn lemma_code_injective(x: char, y: char)
    ensures
        (code(x) == code(y)) == (x == y),
{
}

/// The lexicographic order calls two sequences equal exactly when they are.
pub proof fn lemma_lex_equal(a: Seq<char>, b: Seq<char>)
    ensures
        (lex_order(a, b) == Ordering::Equal) == (a == b),
    decreases a.len(),
{
    if a.len() > 0 && b.len() > 0 {
        lemma_code_injective(a[0], b[0]);
    }
    if a.len() == 0 && b.len() == 0 {
        assert(a =~= b);
    }
    if a.len() > 0 && b.len() > 0 && code(a[0]) == code(b[0]) {
        lemma_lex_equal(a.drop_first(), b.drop_first());
        if a.drop_first() == b.drop_first() {
            assert(a =~= seq![a[0]] + a.drop_first());
            assert(b =~= seq![b[0]] + b.drop_first());
        }
        if a == b {
            assert(a.drop_first() =~= b.drop_first());
        }
    } else if a.len() > 0 && b.len() > 0 {
        assert(a[0] != b[0]);
    }
}

/// Swapping the arguments reverses the lexicographic order.
pub proof fn lemma_lex_reverse(a: Seq<char>, b: Seq<char>)
    ensures
        lex_order(b, a) == reverse_order(lex_order(a, b)),
    decreases a.len(),
{
    if a.len() > 0 && b.len() > 0 && code(a[0]) == code(b[0]) {
        lemma_lex_reverse(a.drop_first(), b.drop_first());
    }
}

/// The lexicographic order is transitive: `a <= b <= c` gives `a <= c`,
/// strictly when either step is strict.
pub proof fn lemma_lex_transitive(a: Seq<char>, b: Seq<char>, c: Seq<char>)
    requires
        lex_order(a, b) != Ordering::Greater,
        lex_order(b, c) != Ordering::Greater,
    ensures
        lex_order(a, c) == then_order(lex_order(a, b), lex_order(b, c)),
    decreases a.len(),
{
    lemma_lex_equal(a, b);
    lemma_lex_equal(b, c);
    if a.len() > 0 && b.len() > 0 && c.len() > 0 {
        if code(a[0]) == code(b[0]) && code(b[0]) == code(c[0]) {
            lemma_lex_transitive(a.drop_first(), b.drop_first(), c.drop_first());
        }
    }
}

/// A transitivity step for any comparison that is reversible and transitive
/// in the sense of [`lemma_lex_transitive`]: the first two steps of `then_order`
/// combine.
pub proof fn lemma_then_le(x: Ordering, y: Ordering)
    ensures
        (x != Ordering::Greater && y != Ordering::Greater) ==> then_order(x, y) != Ordering::Greater,
        then_order(x, y) == Ordering::Equal <==> (x == Ordering::Equal && y == Ordering::Equal),
{
}

} // verus!
