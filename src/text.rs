//! Characters and strings: the identifier class, Unicode white space, trimming
//! and the lexicographic order of strings.

use vstd::prelude::*;

verus! {

/// A character of the identifier class: a lowercase ASCII letter, a digit or `_`.
pub open spec fn is_ident_char(c: char) -> bool {
    ('a' <= c && c <= 'z') || ('0' <= c && c <= '9') || c == '_'
}

/// A non-empty string made of identifier characters only.
pub open spec fn is_ident(s: Seq<char>) -> bool {
    s.len() > 0 && forall|i: int| 0 <= i < s.len() ==> is_ident_char(#[trigger] s[i])
}

/// The Unicode `White_Space` property, the set of characters that `str::trim` removes.
pub open spec fn is_space(c: char) -> bool {
    ('\u{9}' <= c && c <= '\u{d}') || c == ' ' || c == '\u{85}' || c == '\u{a0}'
        || c == '\u{1680}' || ('\u{2000}' <= c && c <= '\u{200a}') || c == '\u{2028}'
        || c == '\u{2029}' || c == '\u{202f}' || c == '\u{205f}' || c == '\u{3000}'
}

/// Strict lexicographic order of strings, character by character.
pub open spec fn lex_lt(a: Seq<char>, b: Seq<char>) -> bool
    decreases a.len(),
{
    if a.len() == 0 {
        b.len() > 0
    } else if b.len() == 0 {
        false
    } else if a[0] != b[0] {
        a[0] < b[0]
    } else {
        lex_lt(a.drop_first(), b.drop_first())
    }
}

/// Whether `c` is an identifier character.
pub fn ident_char(c: char) -> (r: bool)
    ensures
        r == is_ident_char(c),
{
    ('a' <= c && c <= 'z') || ('0' <= c && c <= '9') || c == '_'
}

/// Whether `c` is white space.
pub fn space_char(c: char) -> (r: bool)
    ensures
        r == is_space(c),
{
    ('\u{9}' <= c && c <= '\u{d}') || c == ' ' || c == '\u{85}' || c == '\u{a0}'
        || c == '\u{1680}' || ('\u{2000}' <= c && c <= '\u{200a}') || c == '\u{2028}'
        || c == '\u{2029}' || c == '\u{202f}' || c == '\u{205f}' || c == '\u{3000}'
}

/// The characters of `s`, in order.
pub fn chars_of(s: &str) -> (r: Vec<char>)
    ensures
        r@ == s@,
{
    let mut r: Vec<char> = Vec::new();
    for c in it: s.chars()
        invariant
            r@ == it.seq().subrange(0, it.index() as int),
    {
        r.push(c);
    }
    r
}

/// First position at or after `i` that does not hold white space.
pub open spec fn skip_space(s: Seq<char>, i: int) -> int
    decreases s.len() - i,
{
    if 0 <= i < s.len() && is_space(s[i]) {
        skip_space(s, i + 1)
    } else {
        i
    }
}

/// Last position at or before `j` whose preceding character is not white space.
pub open spec fn skip_space_back(s: Seq<char>, j: int) -> int
    decreases j,
{
    if 0 < j <= s.len() && is_space(s[j - 1]) {
        skip_space_back(s, j - 1)
    } else {
        j
    }
}

/// `s` without its leading and trailing white space.
pub open spec fn trimmed(s: Seq<char>) -> Seq<char> {
    let lo = skip_space(s, 0);
    let hi = skip_space_back(s, s.len() as int);
    if lo < hi {
        s.subrange(lo, hi)
    } else {
        Seq::empty()
    }
}

/// End of the longest run of identifier characters in `s` that starts at `i`.
pub open spec fn ident_end(s: Seq<char>, i: int) -> int
    decreases s.len() - i,
{
    if 0 <= i < s.len() && is_ident_char(s[i]) {
        ident_end(s, i + 1)
    } else {
        i
    }
}

/// End of the run of `' '` characters in `s` that starts at `i`.
pub open spec fn blanks_end(s: Seq<char>, i: int) -> int
    decreases s.len() - i,
{
    if 0 <= i < s.len() && s[i] == ' ' {
        blanks_end(s, i + 1)
    } else {
        i
    }
}

proof fn lemma_skip_space_bounds(s: Seq<char>, i: int)
    requires
        0 <= i <= s.len(),
    ensures
        i <= skip_space(s, i) <= s.len(),
        forall|k: int| i <= k < skip_space(s, i) ==> is_space(#[trigger] s[k]),
        skip_space(s, i) < s.len() ==> !is_space(s[skip_space(s, i)]),
    decreases s.len() - i,
{
    if i < s.len() && is_space(s[i]) {
        lemma_skip_space_bounds(s, i + 1);
    }
}

proof fn lemma_skip_space_back_bounds(s: Seq<char>, j: int)
    requires
        0 <= j <= s.len(),
    ensures
        0 <= skip_space_back(s, j) <= j,
        forall|k: int| skip_space_back(s, j) <= k < j ==> is_space(#[trigger] s[k]),
        skip_space_back(s, j) > 0 ==> !is_space(s[skip_space_back(s, j) - 1]),
    decreases j,
{
    if 0 < j && is_space(s[j - 1]) {
        lemma_skip_space_back_bounds(s, j - 1);
    }
}

/// Bounds of a run of identifier characters.
pub proof fn lemma_ident_end(s: Seq<char>, i: int)
    requires
        0 <= i <= s.len(),
    ensures
        i <= ident_end(s, i) <= s.len(),
        forall|k: int| i <= k < ident_end(s, i) ==> is_ident_char(#[trigger] s[k]),
        ident_end(s, i) < s.len() ==> !is_ident_char(s[ident_end(s, i)]),
    decreases s.len() - i,
{
    if i < s.len() && is_ident_char(s[i]) {
        lemma_ident_end(s, i + 1);
    }
}

/// A run of identifier characters from `i` that stops at `j` ends there.
pub proof fn lemma_ident_end_at(s: Seq<char>, i: int, j: int)
    requires
        0 <= i <= j <= s.len(),
        forall|k: int| i <= k < j ==> is_ident_char(#[trigger] s[k]),
        j == s.len() || !is_ident_char(s[j]),
    ensures
        ident_end(s, i) == j,
    decreases j - i,
{
    if i < j {
        lemma_ident_end_at(s, i + 1, j);
    }
}

/// A line made of white space only trims to nothing.
pub proof fn lemma_trimmed_blank(s: Seq<char>)
    requires
        forall|k: int| 0 <= k < s.len() ==> is_space(#[trigger] s[k]),
    ensures
        trimmed(s).len() == 0,
{
    assert forall|i: int| 0 <= i <= s.len() implies skip_space(s, i) == s.len() by {
        lemma_skip_space_to_end(s, i);
    }
    lemma_skip_space_back_bounds(s, s.len() as int);
}

proof fn lemma_skip_space_to_end(s: Seq<char>, i: int)
    requires
        0 <= i <= s.len(),
        forall|k: int| 0 <= k < s.len() ==> is_space(#[trigger] s[k]),
    ensures
        skip_space(s, i) == s.len(),
    decreases s.len() - i,
{
    if i < s.len() {
        lemma_skip_space_to_end(s, i + 1);
    }
}

/// A line that does not start with white space trims to a line that starts
/// with the same character.
pub proof fn lemma_trimmed_first(s: Seq<char>)
    requires
        s.len() > 0,
        !is_space(s[0]),
    ensures
        trimmed(s).len() > 0,
        trimmed(s)[0] == s[0],
{
    lemma_skip_space_back_bounds(s, s.len() as int);
}

/// A line that neither starts nor ends with white space is its own trimmed form.
pub proof fn lemma_trimmed_unpadded(s: Seq<char>)
    requires
        s.len() > 0,
        !is_space(s[0]),
        !is_space(s[s.len() - 1]),
    ensures
        trimmed(s) == s,
{
    assert(s.subrange(0, s.len() as int) =~= s);
}

/// Position where the longest run of identifier characters from `i` ends.
pub fn scan_ident(s: &Vec<char>, i: usize) -> (r: usize)
    requires
        i <= s.len(),
    ensures
        r == ident_end(s@, i as int),
        i <= r <= s.len(),
{
    let mut j: usize = i;
    while j < s.len() && ident_char(s[j])
        invariant
            i <= j <= s.len(),
            ident_end(s@, j as int) == ident_end(s@, i as int),
        decreases s.len() - j,
    {
        j = j + 1;
    }
    j
}

/// Position where the run of blanks from `i` ends.
pub fn scan_blanks(s: &Vec<char>, i: usize) -> (r: usize)
    requires
        i <= s.len(),
    ensures
        r == blanks_end(s@, i as int),
        i <= r <= s.len(),
{
    let mut j: usize = i;
    while j < s.len() && s[j] == ' '
        invariant
            i <= j <= s.len(),
            blanks_end(s@, j as int) == blanks_end(s@, i as int),
        decreases s.len() - j,
    {
        j = j + 1;
    }
    j
}

/// The bounds `(lo, hi)` of `s` without its leading and trailing white space;
/// `lo == hi` where `s` holds white space only.
pub fn trim_bounds(s: &Vec<char>) -> (r: (usize, usize))
    ensures
        r.0 <= r.1 <= s.len(),
        s@.subrange(r.0 as int, r.1 as int) == trimmed(s@),
{
    let mut lo: usize = 0;
    while lo < s.len() && space_char(s[lo])
        invariant
            lo <= s.len(),
            skip_space(s@, lo as int) == skip_space(s@, 0),
        decreases s.len() - lo,
    {
        lo = lo + 1;
    }
    let mut hi: usize = s.len();
    while hi > lo && space_char(s[hi - 1])
        invariant
            lo <= hi <= s.len(),
            skip_space_back(s@, hi as int) == skip_space_back(s@, s.len() as int),
        decreases hi,
    {
        hi = hi - 1;
    }
    proof {
        lemma_skip_space_bounds(s@, 0);
        lemma_skip_space_back_bounds(s@, hi as int);
        assert(skip_space(s@, lo as int) == lo);
        if hi > lo {
            assert(skip_space_back(s@, hi as int) == hi);
        }
        if hi == lo {
            assert(s@.subrange(lo as int, hi as int) =~= Seq::<char>::empty());
        }
    }
    (lo, hi)
}

} // verus!
