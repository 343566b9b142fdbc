//! Text primitives the grid compares and searches with: code-point order,
//! Unicode case folding, trimming and substring tests.

use vstd::prelude::*;

verus! {

/// What `char::to_lowercase` yields for `c`: its lowercase mapping, one or
/// more characters.
pub uninterp spec fn lowercase_of(c: char) -> Seq<char>;

/// What `str::to_lowercase` yields for a string.
pub uninterp spec fn lowercase_str(s: Seq<char>) -> Seq<char>;

/// Whether `c` has the Unicode `White_Space` property, which
/// `char::is_whitespace` tests: tab, line feed, vertical tab, form feed,
/// carriage return, space, next line, no-break space, ogham space mark, the
/// spaces from en quad to hair space, the line and paragraph separators,
/// narrow no-break space, medium mathematical space and ideographic space.
pub open spec fn is_white(c: char) -> bool {
    let n = code(c);
    ||| 0x9 <= n <= 0xD
    ||| n == 0x20
    ||| n == 0x85
    ||| n == 0xA0
    ||| n == 0x1680
    ||| 0x2000 <= n <= 0x200A
    ||| n == 0x2028
    ||| n == 0x2029
    ||| n == 0x202F
    ||| n == 0x205F
    ||| n == 0x3000
}

/// The lowercase mapping of one character, by `char::to_lowercase`.
///
/// Trusted: the result equals `lowercase_of(c)`; what the mapping is, is the
/// Unicode table that std carries and is not restated here.
#[verifier::external_body]
fn char_lowercase(c: char) -> (r: Vec<char>)
    ensures
        r@ == lowercase_of(c),
{
    c.to_lowercase().collect()
}

/// The lowercase form of a string, by `str::to_lowercase`.
///
/// Trusted: the result's characters equal `lowercase_str(s@)`; the mapping
/// itself (including the final-sigma rule) is not restated, except on
/// ASCII text, where Unicode's lowercase mapping takes `A` to `Z` to `a` to
/// `z` and leaves every other character as it is.
#[verifier::external_body]
pub(crate) fn str_lowercase(s: &str) -> (r: String)
    ensures
        r@ == lowercase_str(s@),
        vstd::utf8::is_ascii_chars(s@) ==> r@.len() == s@.len() && forall|i: int|
            0 <= i < s@.len() ==> code(#[trigger] r@[i]) == if 65 <= code(s@[i]) <= 90 {
                code(s@[i]) + 32
            } else {
                code(s@[i])
            },
{
    s.to_lowercase()
}

/// Whether `c` is white space: whether it has the Unicode `White_Space`
/// property, as `char::is_whitespace` answers.
fn char_is_whitespace(c: char) -> (r: bool)
    ensures
        r == is_white(c),
{
    let n: u32 = c as u32;
    (0x9 <= n && n <= 0xD) || n == 0x20 || n == 0x85 || n == 0xA0 || n == 0x1680 || (0x2000 <= n && n
        <= 0x200A) || n == 0x2028 || n == 0x2029 || n == 0x202F || n == 0x205F || n == 0x3000
}

/// Whether `c` is a letter by the Unicode `Alphabetic` property, as
/// `char::is_alphabetic` answers.
pub uninterp spec fn is_letter(c: char) -> bool;

/// Whether `c` is alphabetic, by `char::is_alphabetic`.
///
/// Trusted: the result equals `is_letter(c)`; which characters count is
/// the Unicode property table and is not restated.
#[verifier::external_body]
pub(crate) fn char_is_alphabetic(c: char) -> (r: bool)
    ensures
        r == is_letter(c),
{
    c.is_alphabetic()
}

/// Appends one character to a string, by `String::push`.
///
/// Trusted: the string afterwards is the string before followed by `c`, as
/// the method's documentation says.
#[verifier::external_body]
pub(crate) fn push_char(s: &mut String, c: char)
    ensures
        final(s)@ == old(s)@.push(c),
{
    s.push(c)
}

/// The code point of a character.
pub open spec fn code(c: char) -> int {
    c as int
}

/// The characters of `s` from position `i` on.
pub open spec fn suffix_from(s: Seq<char>, i: usize) -> Seq<char> {
    s.skip(i as int)
}

/// The character of `s` at position `i`.
pub open spec fn char_at(s: Seq<char>, i: usize) -> char {
    s[i as int]
}

/// The characters of `s`, in order.
pub fn chars_of(s: &str) -> (v: Vec<char>)
    ensures
        v@ == s@,
{
    let mut v: Vec<char> = Vec::new();
    for c in it: s.chars()
        invariant
            v@ == it.seq().take(it.index() as int),
            it.seq() == s@,
    {
        v.push(c);
        assert(v@ =~= it.seq().take(it.index() as int + 1));
    }
    proof {
        assert(v@ =~= s@);
    }
    v
}

/// A string holding exactly `chars`.
pub fn string_of(chars: &Vec<char>) -> (s: String)
    ensures
        s@ == chars@,
{
    let mut s = String::new();
    let mut i: usize = 0;
    while i < chars.len()
        invariant
            i <= chars.len(),
            s@ == chars@.take(i as int),
        decreases chars.len() - i,
    {
        push_char(&mut s, chars[i]);
        i = i + 1;
        assert(s@ =~= chars@.take(i as int));
    }
    assert(chars@.take(chars.len() as int) =~= chars@);
    s
}

/// Case folding of a sequence: each character replaced by its lowercase
/// mapping, as `chars().flat_map(char::to_lowercase)` yields it.
pub open spec fn fold_chars(s: Seq<char>) -> Seq<char>
    decreases s.len(),
{
    if s.len() == 0 {
        Seq::empty()
    } else {
        fold_chars(s.drop_last()) + lowercase_of(s.last())
    }
}

/// The case-folded characters of `s`.
pub fn fold_text(s: &str) -> (v: Vec<char>)
    ensures
        v@ == fold_chars(s@),
{
    let chars = chars_of(s);
    let mut v: Vec<char> = Vec::new();
    let mut i: usize = 0;
    while i < chars.len()
        invariant
            i <= chars.len(),
            chars@ == s@,
            v@ == fold_chars(chars@.take(i as int)),
        decreases chars.len() - i,
    {
        let lower = char_lowercase(chars[i]);
        let mut j: usize = 0;
        let ghost before = v@;
        while j < lower.len()
            invariant
                j <= lower.len(),
                v@ == before + lower@.take(j as int),
            decreases lower.len() - j,
        {
            v.push(lower[j]);
            j = j + 1;
            assert(v@ =~= before + lower@.take(j as int));
        }
        assert(lower@.take(lower.len() as int) =~= lower@);
        assert(chars@.take(i as int + 1).drop_last() =~= chars@.take(i as int));
        i = i + 1;
    }
    assert(chars@.take(chars.len() as int) =~= chars@);
    v
}

/// White space stripped from both ends, as `str::trim` does.
pub open spec fn trim_start_spec(s: Seq<char>) -> Seq<char>
    decreases s.len(),
{
    if s.len() > 0 && is_white(s[0]) {
        trim_start_spec(s.drop_first())
    } else {
        s
    }
}

/// White space stripped from the end.
pub open spec fn trim_end_spec(s: Seq<char>) -> Seq<char>
    decreases s.len(),
{
    if s.len() > 0 && is_white(s.last()) {
        trim_end_spec(s.drop_last())
    } else {
        s
    }
}

/// White space stripped from both ends.
pub open spec fn trim_spec(s: Seq<char>) -> Seq<char> {
    trim_end_spec(trim_start_spec(s))
}

proof fn lemma_trim_start_skip(s: Seq<char>, i: int)
    requires
        0 <= i <= s.len(),
        forall|k: int| 0 <= k < i ==> is_white(#[trigger] s[k]),
    ensures
        trim_start_spec(s) == trim_start_spec(s.skip(i)),
    decreases i,
{
    if i > 0 {
        assert(s.skip(1) =~= s.drop_first());
        lemma_trim_start_skip(s.drop_first(), i - 1);
        assert(s.drop_first().skip(i - 1) =~= s.skip(i));
    } else {
        assert(s.skip(0) =~= s);
    }
}

proof fn lemma_trim_end_take(s: Seq<char>, j: int)
    requires
        0 <= j <= s.len(),
        forall|k: int| j <= k < s.len() ==> is_white(#[trigger] s[k]),
    ensures
        trim_end_spec(s) == trim_end_spec(s.take(j)),
    decreases s.len() - j,
{
    if j < s.len() {
        assert(s.take(s.len() - 1) =~= s.drop_last());
        lemma_trim_end_take(s.drop_last(), j);
        assert(s.drop_last().take(j) =~= s.take(j));
    } else {
        assert(s.take(j) =~= s);
    }
}

/// `s` with white space removed from both ends.
pub fn trim_chars(s: &Vec<char>) -> (r: Vec<char>)
    ensures
        r@ == trim_spec(s@),
{
    let n = s.len();
    let mut i: usize = 0;
    while i < n && char_is_whitespace(s[i])
        invariant
            i <= n,
            n == s.len(),
            forall|k: int| 0 <= k < i ==> is_white(#[trigger] s@[k]),
        decreases n - i,
    {
        i = i + 1;
    }
    proof {
        lemma_trim_start_skip(s@, i as int);
        if i < n {
            assert(!is_white(s@.skip(i as int)[0]));
        }
    }
    let mut j: usize = n;
    while j > i && char_is_whitespace(s[j - 1])
        invariant
            i <= j <= n,
            n == s.len(),
            forall|k: int| j <= k < n ==> is_white(#[trigger] s@[k]),
        decreases j,
    {
        j = j - 1;
    }
    let ghost mid = s@.skip(i as int);
    proof {
        assert(trim_start_spec(s@) == mid);
        lemma_trim_end_take(mid, j - i);
        assert(mid.take(j - i) =~= s@.subrange(i as int, j as int));
        if j > i {
            assert(!is_white(s@.subrange(i as int, j as int).last()));
        }
    }
    let mut r: Vec<char> = Vec::new();
    let mut k: usize = i;
    while k < j
        invariant
            i <= k <= j <= n,
            n == s.len(),
            r@ == s@.subrange(i as int, k as int),
        decreases j - k,
    {
        r.push(s[k]);
        k = k + 1;
        assert(r@ =~= s@.subrange(i as int, k as int));
    }
    r
}

/// `text` with white space removed from both ends.
pub fn trim_text(text: &str) -> (r: String)
    ensures
        r@ == trim_spec(text@),
{
    let chars = chars_of(text);
    let trimmed = trim_chars(&chars);
    string_of(&trimmed)
}

/// Whether `text` is empty or white space only.
pub open spec fn is_blank(text: Seq<char>) -> bool {
    trim_spec(text).len() == 0
}

/// Whether `needle` occurs in `hay` at `start`.
pub open spec fn occurs_at(hay: Seq<char>, needle: Seq<char>, start: int) -> bool {
    0 <= start && start + needle.len() <= hay.len() && hay.subrange(start, start + needle.len()) == needle
}

/// Whether `needle` is a contiguous part of `hay`.
pub open spec fn has_substring(hay: Seq<char>, needle: Seq<char>) -> bool {
    exists|start: int| occurs_at(hay, needle, start)
}

/// Whether `hay` begins with `prefix`.
pub open spec fn has_prefix(hay: Seq<char>, prefix: Seq<char>) -> bool {
    occurs_at(hay, prefix, 0)
}

/// Whether `hay` ends with `suffix`.
pub open spec fn has_suffix(hay: Seq<char>, suffix: Seq<char>) -> bool {
    occurs_at(hay, suffix, hay.len() - suffix.len())
}

/// Whether `needle` occurs in `hay` at `start`.
pub(crate) fn matches_at(hay: &Vec<char>, needle: &Vec<char>, start: usize) -> (b: bool)
    requires
        start + needle.len() <= hay.len(),
    ensures
        b == occurs_at(hay@, needle@, start as int),
{
    let mut k: usize = 0;
    while k < needle.len()
        invariant
            start + needle.len() <= hay.len(),
            k <= needle.len(),
            forall|m: int| 0 <= m < k ==> hay@[start + m] == needle@[m],
        decreases needle.len() - k,
    {
        if hay[start + k] != needle[k] {
            proof {
                let sub = hay@.subrange(start as int, start + needle.len());
                assert(sub[k as int] != needle@[k as int]);
            }
            return false;
        }
        k = k + 1;
    }
    assert(hay@.subrange(start as int, start + needle.len()) =~= needle@);
    true
}

/// Whether `needle` occurs anywhere in `hay`.
pub fn contains_chars(hay: &Vec<char>, needle: &Vec<char>) -> (b: bool)
    ensures
        b == has_substring(hay@, needle@),
{
    if needle.len() > hay.len() {
        assert forall|start: int| !occurs_at(hay@, needle@, start) by {}
        return false;
    }
    let last = hay.len() - needle.len();
    let mut start: usize = 0;
    while start < last
        invariant
            last == hay.len() - needle.len(),
            needle.len() <= hay.len(),
            start <= last,
            forall|s: int| 0 <= s < start ==> !occurs_at(hay@, needle@, s),
        decreases last - start,
    {
        if matches_at(hay, needle, start) {
            return true;
        }
        start = start + 1;
    }
    if matches_at(hay, needle, last) {
        return true;
    }
    assert forall|s: int| !occurs_at(hay@, needle@, s) by {
        if 0 <= s < start {
        }
    }
    false
}

/// Whether `hay` begins with `prefix`.
pub fn starts_with_chars(hay: &Vec<char>, prefix: &Vec<char>) -> (b: bool)
    ensures
        b == has_prefix(hay@, prefix@),
{
    if prefix.len() > hay.len() {
        return false;
    }
    matches_at(hay, prefix, 0)
}

/// Whether `hay` ends with `suffix`.
pub fn ends_with_chars(hay: &Vec<char>, suffix: &Vec<char>) -> (b: bool)
    ensures
        b == has_suffix(hay@, suffix@),
{
    if suffix.len() > hay.len() {
        return false;
    }
    matches_at(hay, suffix, hay.len() - suffix.len())
}

/// Whether two character sequences are equal.
pub fn chars_equal(a: &Vec<char>, b: &Vec<char>) -> (r: bool)
    ensures
        r == (a@ == b@),
{
    if a.len() != b.len() {
        return false;
    }
    let r = matches_at(a, b, 0);
    proof {
        if r {
            assert(a@.subrange(0, b@.len() as int) =~= a@);
        } else {
            assert(a@.subrange(0, b@.len() as int) =~= a@);
        }
    }
    r
}

/// `String::from` on a string slice, which `Into<String>` calls for the
/// setters that take text.
///
/// Trusted: the new string holds the slice's characters, as the
/// documentation ("Converts a `&str` into a `String`") says.
pub assume_specification<'a>[ <String as From<&'a str>>::from ](s: &str) -> (r: String)
    ensures
        r@ == s@,
;

/// `From<T> for T`, std's identity conversion, which `Into<ColumnId>`
/// calls when a setter is handed a `ColumnId` itself.
///
/// Trusted: it returns its argument unchanged, as its documentation says.
pub assume_specification<Z>[ <Z as From<Z>>::from ](t: Z) -> (r: Z)
    ensures
        r == t,
;

} // verus!
