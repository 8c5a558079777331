//! Character-level helpers over strings: whitespace, trimming, substring
//! search and whole-word keyword search.
use vstd::prelude::*;

verus! {

/// Unicode `White_Space`, the set that `char::is_whitespace` and `str::trim` use.
pub open spec fn is_ws(c: char) -> bool {
    ('\t' <= c && c <= '\r') || c == ' ' || c == '\u{85}' || c == '\u{a0}' || c == '\u{1680}' || (
    '\u{2000}' <= c && c <= '\u{200a}') || c == '\u{2028}' || c == '\u{2029}' || c == '\u{202f}'
        || c == '\u{205f}' || c == '\u{3000}'
}

/// Whether `c` is whitespace in the sense of Unicode `White_Space`.
pub fn is_whitespace(c: char) -> (r: bool)
    ensures
        r == is_ws(c),
{
    ('\t' <= c && c <= '\r') || c == ' ' || c == '\u{85}' || c == '\u{a0}' || c == '\u{1680}' || (
    '\u{2000}' <= c && c <= '\u{200a}') || c == '\u{2028}' || c == '\u{2029}' || c == '\u{202f}'
        || c == '\u{205f}' || c == '\u{3000}'
}

/// `s` without its leading whitespace.
pub open spec fn trim_start(s: Seq<char>) -> Seq<char>
    decreases s.len(),
{
    if s.len() > 0 && is_ws(s[0]) {
        trim_start(s.drop_first())
    } else {
        s
    }
}

/// `s` without its trailing whitespace.
pub open spec fn trim_end(s: Seq<char>) -> Seq<char>
    decreases s.len(),
{
    if s.len() > 0 && is_ws(s.last()) {
        trim_end(s.drop_last())
    } else {
        s
    }
}

/// `s` without leading and trailing whitespace.
pub open spec fn trim(s: Seq<char>) -> Seq<char> {
    trim_end(trim_start(s))
}

pub proof fn lemma_trim_start_len(s: Seq<char>)
    ensures
        trim_start(s).len() <= s.len(),
    decreases s.len(),
{
    if s.len() > 0 && is_ws(s[0]) {
        lemma_trim_start_len(s.drop_first());
    }
}

pub proof fn lemma_trim_end_len(s: Seq<char>)
    ensures
        trim_end(s).len() <= s.len(),
    decreases s.len(),
{
    if s.len() > 0 && is_ws(s.last()) {
        lemma_trim_end_len(s.drop_last());
    }
}

pub proof fn lemma_trim_len(s: Seq<char>)
    ensures
        trim(s).len() <= s.len(),
{
    lemma_trim_start_len(s);
    lemma_trim_end_len(trim_start(s));
}

/// The part of `s` without leading and trailing whitespace.
pub fn trim_str(s: &str) -> (r: &str)
    ensures
        r@ == trim(s@),
{
    let n = s.unicode_len();
    let mut lo: usize = 0;
    assert(s@.subrange(0, n as int) =~= s@);
    while lo < n && is_whitespace(s.get_char(lo))
        invariant
            lo <= n,
            n == s@.len(),
            trim_start(s@) == trim_start(s@.subrange(lo as int, n as int)),
        decreases n - lo,
    {
        assert(s@.subrange(lo as int, n as int).drop_first() =~= s@.subrange(
            lo + 1,
            n as int,
        ));
        lo = lo + 1;
    }
    let ghost t = s@.subrange(lo as int, n as int);
    let mut hi: usize = n;
    while hi > lo && is_whitespace(s.get_char(hi - 1))
        invariant
            lo <= hi <= n,
            n == s@.len(),
            t == s@.subrange(lo as int, n as int),
            trim_end(t) == trim_end(s@.subrange(lo as int, hi as int)),
        decreases hi,
    {
        assert(s@.subrange(lo as int, hi as int).drop_last() =~= s@.subrange(
            lo as int,
            hi - 1,
        ));
        hi = hi - 1;
    }
    s.substring_char(lo, hi)
}

/// Whether `pat` occurs in `s` at position `i`.
pub open spec fn occurs_at(s: Seq<char>, pat: Seq<char>, i: int) -> bool {
    0 <= i && i + pat.len() <= s.len() && s.subrange(i, i + pat.len()) == pat
}

/// The first position at or after `i` where `pat` occurs in `s`.
pub open spec fn find_from(s: Seq<char>, pat: Seq<char>, i: int) -> Option<int>
    decreases s.len() + 1 - i,
{
    if i < 0 || i + pat.len() > s.len() {
        None
    } else if occurs_at(s, pat, i) {
        Some(i)
    } else {
        find_from(s, pat, i + 1)
    }
}

/// Whether `pat` occurs anywhere in `s`.
pub open spec fn contains_seq(s: Seq<char>, pat: Seq<char>) -> bool {
    exists|i: int| occurs_at(s, pat, i)
}

fn occurs_at_exec(s: &str, n: usize, pat: &str, i: usize) -> (r: bool)
    requires
        n == s@.len(),
        i + pat@.len() <= n,
    ensures
        r == occurs_at(s@, pat@, i as int),
{
    let m = pat.unicode_len();
    let mut j: usize = 0;
    while j < m
        invariant
            j <= m,
            m == pat@.len(),
            n == s@.len(),
            i + m <= n,
            s@.subrange(i as int, i + j) =~= pat@.subrange(0, j as int),
        decreases m - j,
    {
        if s.get_char(i + j) != pat.get_char(j) {
            assert(s@.subrange(i as int, i + m)[j as int] != pat@[j as int]);
            return false;
        }
        j = j + 1;
    }
    assert(pat@.subrange(0, m as int) =~= pat@);
    true
}

/// The first position (counted in characters) where `pat` occurs in `s`.
pub fn find_str(s: &str, pat: &str) -> (r: Option<usize>)
    ensures
        r matches Some(k) ==> find_from(s@, pat@, 0) == Some(k as int),
        r is None ==> find_from(s@, pat@, 0) is None,
{
    let n = s.unicode_len();
    let m = pat.unicode_len();
    if m > n {
        return None;
    }
    let mut i: usize = 0;
    loop
        invariant
            n == s@.len(),
            m == pat@.len(),
            m <= n,
            i <= n - m,
            find_from(s@, pat@, 0) == find_from(s@, pat@, i as int),
        decreases n - m - i,
    {
        if occurs_at_exec(s, n, pat, i) {
            return Some(i);
        }
        if i == n - m {
            assert(find_from(s@, pat@, i + 1) is None);
            return None;
        }
        i = i + 1;
    }
}

pub proof fn lemma_find_from_occurs(s: Seq<char>, pat: Seq<char>, i: int)
    requires
        0 <= i,
    ensures
        find_from(s, pat, i) matches Some(k) ==> occurs_at(s, pat, k) && i <= k,
        find_from(s, pat, i) is None ==> forall|k: int| i <= k ==> !occurs_at(s, pat, k),
    decreases s.len() + 1 - i,
{
    if i < 0 || i + pat.len() > s.len() {
    } else if occurs_at(s, pat, i) {
    } else {
        lemma_find_from_occurs(s, pat, i + 1);
        assert forall|k: int| i <= k && find_from(s, pat, i) is None implies !occurs_at(
            s,
            pat,
            k,
        ) by {
            if k == i {
            }
        }
    }
}

/// Whether `needle` occurs in `haystack`.
pub fn contains_str(haystack: &str, needle: &str) -> (r: bool)
    ensures
        r == contains_seq(haystack@, needle@),
{
    let r = find_str(haystack, needle);
    proof {
        lemma_find_from_occurs(haystack@, needle@, 0);
        if r is None {
            assert forall|k: int| !occurs_at(haystack@, needle@, k) by {
                if k >= 0 {
                }
            }
        }
    }
    r.is_some()
}

/// The code of `c` with an ASCII capital turned into its small letter.
pub open spec fn ascii_lower(c: char) -> u32 {
    if 'A' <= c && c <= 'Z' {
        (c as u32 + 32) as u32
    } else {
        c as u32
    }
}

/// Whether `c` and `k` are the same character up to ASCII case.
pub open spec fn fold_eq(c: char, k: char) -> bool {
    ascii_lower(c) == ascii_lower(k)
}

fn ascii_lower_exec(c: char) -> (r: u32)
    ensures
        r == ascii_lower(c),
{
    if 'A' <= c && c <= 'Z' {
        (c as u32) + 32
    } else {
        c as u32
    }
}

fn fold_eq_exec(c: char, k: char) -> (r: bool)
    ensures
        r == fold_eq(c, k),
{
    ascii_lower_exec(c) == ascii_lower_exec(k)
}

/// Whether `s` spells `word` at position `i`, up to ASCII case on both sides.
pub open spec fn folds_at(s: Seq<char>, word: Seq<char>, i: int) -> bool {
    0 <= i && i + word.len() <= s.len() && forall|j: int|
        0 <= j < word.len() ==> #[trigger] fold_eq(s[i + j], word[j])
}

/// Whether `s` as a whole spells `word`, up to ASCII case.
pub open spec fn folds_to(s: Seq<char>, word: Seq<char>) -> bool {
    s.len() == word.len() && folds_at(s, word, 0)
}

fn folds_at_exec(s: &str, n: usize, word: &str, i: usize) -> (r: bool)
    requires
        n == s@.len(),
        i + word@.len() <= n,
    ensures
        r == folds_at(s@, word@, i as int),
{
    let m = word.unicode_len();
    let mut j: usize = 0;
    while j < m
        invariant
            j <= m,
            m == word@.len(),
            n == s@.len(),
            i + m <= n,
            forall|l: int| 0 <= l < j ==> #[trigger] fold_eq(s@[i + l], word@[l]),
        decreases m - j,
    {
        if !fold_eq_exec(s.get_char(i + j), word.get_char(j)) {
            return false;
        }
        j = j + 1;
    }
    true
}

/// Whether `s` spells `word`, up to ASCII case on both sides.
pub fn folds_to_str(s: &str, word: &str) -> (r: bool)
    ensures
        r == folds_to(s@, word@),
{
    let n = s.unicode_len();
    let m = word.unicode_len();
    if n != m {
        return false;
    }
    folds_at_exec(s, n, word, 0)
}

/// A whole-word occurrence of `word` at `i`: the characters spell it up to
/// ASCII case on both sides, and the neighbours on both sides are whitespace or the ends.
pub open spec fn keyword_at(s: Seq<char>, word: Seq<char>, i: int) -> bool {
    folds_at(s, word, i) && (i == 0 || is_ws(s[i - 1])) && (i + word.len() == s.len() || is_ws(
        s[i + word.len()],
    ))
}

/// The first whole-word occurrence of `word` at or after `i`.
pub open spec fn find_keyword_from(s: Seq<char>, word: Seq<char>, i: int) -> Option<int>
    decreases s.len() + 1 - i,
{
    if i < 0 || i + word.len() > s.len() {
        None
    } else if keyword_at(s, word, i) {
        Some(i)
    } else {
        find_keyword_from(s, word, i + 1)
    }
}

pub proof fn lemma_find_keyword_bounds(s: Seq<char>, word: Seq<char>, i: int)
    ensures
        find_keyword_from(s, word, i) matches Some(k) ==> i <= k && k + word.len() <= s.len()
            && keyword_at(s, word, k),
    decreases s.len() + 1 - i,
{
    if i < 0 || i + word.len() > s.len() {
    } else if keyword_at(s, word, i) {
    } else {
        lemma_find_keyword_bounds(s, word, i + 1);
    }
}

/// The first whole-word occurrence of `word` in `s`, comparing both up to ASCII case.
pub fn find_keyword(s: &str, word: &str) -> (r: Option<usize>)
    ensures
        r matches Some(k) ==> find_keyword_from(s@, word@, 0) == Some(k as int),
        r is None ==> find_keyword_from(s@, word@, 0) is None,
{
    let n = s.unicode_len();
    let m = word.unicode_len();
    if m > n {
        return None;
    }
    let mut i: usize = 0;
    loop
        invariant
            n == s@.len(),
            m == word@.len(),
            m <= n,
            i <= n - m,
            find_keyword_from(s@, word@, 0) == find_keyword_from(s@, word@, i as int),
        decreases n - m - i,
    {
        if folds_at_exec(s, n, word, i) {
            let before_ok = i == 0 || is_whitespace(s.get_char(i - 1));
            let after_ok = i + m == n || is_whitespace(s.get_char(i + m));
            if before_ok && after_ok {
                return Some(i);
            }
        }
        if i == n - m {
            assert(find_keyword_from(s@, word@, i + 1) is None);
            return None;
        }
        i = i + 1;
    }
}

/// Whether `a` and `b` hold the same characters.
pub fn same_text(a: &str, b: &str) -> (r: bool)
    ensures
        r == (a@ == b@),
{
    let n = a.unicode_len();
    if n != b.unicode_len() {
        return false;
    }
    let r = occurs_at_exec(a, n, b, 0);
    assert(a@.subrange(0, n as int) =~= a@);
    r
}

/// What `str::to_lowercase` returns for a string with the characters `s`.
pub uninterp spec fn lower_of(s: Seq<char>) -> Seq<char>;

/// Relies on `str::to_lowercase`: Unicode lowercase mapping, whose result
/// depends on the characters of `s` alone.
#[verifier::external_body]
pub(crate) fn lowercase(s: &str) -> (r: String)
    ensures
        r@ == lower_of(s@),
{
    s.to_lowercase()
}

} // verus!
