//! Character-level text model shared by the whole library.
//!
//! Strings are modelled by their sequence of Unicode scalar values (`Seq<char>`);
//! the functions here give the meaning of the usual string operations
//! (`trim`, `lines`, `split`, `join`, substring search …) over that model,
//! together with executable versions on `Vec<char>` / `&[char]`.
use vstd::prelude::*;

verus! {

// ---------------------------------------------------------------- conversions

/// The characters of a string slice, as a vector.
pub fn chars_of(s: &str) -> (v: Vec<char>)
    ensures
        v@ == s@,
{
    let mut v: Vec<char> = Vec::new();
    for c in it: s.chars()
        invariant
            v@ == it.seq().take(it.index() as int),
    {
        v.push(c);
    }
    v
}

/// Appends one character to a string (`String::push`).
#[verifier::external_body]
pub(crate) fn push_char(s: &mut String, c: char)
    ensures
        final(s)@ == old(s)@.push(c),
{
    s.push(c);
}

/// A string holding exactly the given characters.
pub fn string_of(v: &[char]) -> (s: String)
    ensures
        s@ == v@,
{
    let mut s = String::new();
    let mut i: usize = 0;
    while i < v.len()
        invariant
            i <= v@.len(),
            s@ == v@.take(i as int),
        decreases v@.len() - i,
    {
        push_char(&mut s, v[i]);
        assert(v@.take(i as int).push(v@[i as int]) =~= v@.take(i + 1));
        i = i + 1;
    }
    assert(v@.take(v@.len() as int) =~= v@);
    s
}

/// Strings of a vector of character vectors.
pub fn strings_of(v: &Vec<Vec<char>>) -> (r: Vec<String>)
    ensures
        r@.len() == v@.len(),
        forall|i: int| 0 <= i < v@.len() ==> #[trigger] r@[i]@ == v@[i]@,
{
    let mut r: Vec<String> = Vec::new();
    let mut i: usize = 0;
    while i < v.len()
        invariant
            i <= v@.len(),
            r@.len() == i,
            forall|k: int| 0 <= k < i ==> #[trigger] r@[k]@ == v@[k]@,
        decreases v@.len() - i,
    {
        r.push(string_of(v[i].as_slice()));
        i = i + 1;
    }
    r
}

/// Character vectors of a slice of strings.
pub fn char_vecs(v: &[String]) -> (r: Vec<Vec<char>>)
    ensures
        views(r@) == str_views(v@),
{
    let mut r: Vec<Vec<char>> = Vec::new();
    let mut i: usize = 0;
    while i < v.len()
        invariant
            i <= v@.len(),
            r@.len() == i,
            forall|k: int| 0 <= k < i ==> #[trigger] r@[k]@ == v@[k]@,
        decreases v@.len() - i,
    {
        r.push(chars_of(v[i].as_str()));
        i = i + 1;
    }
    assert(views(r@) =~= str_views(v@));
    r
}

/// The views of a sequence of character vectors.
pub open spec fn views(v: Seq<Vec<char>>) -> Seq<Seq<char>> {
    Seq::new(v.len(), |i: int| v[i]@)
}

/// The views of a sequence of strings.
pub open spec fn str_views(v: Seq<String>) -> Seq<Seq<char>> {
    Seq::new(v.len(), |i: int| v[i]@)
}

/// A copy of `v[a..b]`.
pub fn subvec(v: &[char], a: usize, b: usize) -> (r: Vec<char>)
    requires
        a <= b <= v@.len(),
    ensures
        r@ == v@.subrange(a as int, b as int),
{
    let mut r: Vec<char> = Vec::new();
    let mut i = a;
    while i < b
        invariant
            a <= i <= b,
            b <= v@.len(),
            r@ == v@.subrange(a as int, i as int),
        decreases b - i,
    {
        r.push(v[i]);
        assert(v@.subrange(a as int, i as int).push(v@[i as int]) =~= v@.subrange(
            a as int,
            i + 1,
        ));
        i = i + 1;
    }
    r
}

/// A copy of the characters.
pub fn copy_chars(v: &[char]) -> (r: Vec<char>)
    ensures
        r@ == v@,
{
    let r = subvec(v, 0, v.len());
    assert(v@.subrange(0, v@.len() as int) =~= v@);
    r
}

/// Appends `src` to `dst`.
pub fn append(dst: &mut Vec<char>, src: &[char])
    ensures
        final(dst)@ == old(dst)@ + src@,
{
    let ghost d0 = dst@;
    let mut i: usize = 0;
    while i < src.len()
        invariant
            i <= src@.len(),
            dst@ == d0 + src@.take(i as int),
        decreases src@.len() - i,
    {
        dst.push(src[i]);
        assert(d0 + src@.take(i as int).push(src@[i as int]) =~= d0 + src@.take(i + 1));
        i = i + 1;
    }
    assert(src@.take(src@.len() as int) =~= src@);
}

/// Appends the characters of a string slice to `dst`.
pub fn append_str(dst: &mut Vec<char>, src: &str)
    ensures
        final(dst)@ == old(dst)@ + src@,
{
    let v = chars_of(src);
    append(dst, v.as_slice());
}

/// Two character slices are equal.
pub fn eq_chars(a: &[char], b: &[char]) -> (r: bool)
    ensures
        r == (a@ == b@),
{
    if a.len() != b.len() {
        return false;
    }
    let mut i: usize = 0;
    while i < a.len()
        invariant
            a@.len() == b@.len(),
            i <= a@.len(),
            forall|k: int| 0 <= k < i ==> a@[k] == b@[k],
        decreases a@.len() - i,
    {
        if a[i] != b[i] {
            return false;
        }
        i = i + 1;
    }
    assert(a@ =~= b@);
    true
}

// ---------------------------------------------------------------- whitespace

/// Unicode `White_Space` (the property that `char::is_whitespace` tests).
pub open spec fn is_ws(c: char) -> bool {
    ||| ('\u{9}' <= c && c <= '\u{d}')
    ||| c == ' '
    ||| c == '\u{85}'
    ||| c == '\u{a0}'
    ||| c == '\u{1680}'
    ||| ('\u{2000}' <= c && c <= '\u{200a}')
    ||| c == '\u{2028}'
    ||| c == '\u{2029}'
    ||| c == '\u{202f}'
    ||| c == '\u{205f}'
    ||| c == '\u{3000}'
}

/// Whether `c` has the Unicode `White_Space` property.
pub fn is_whitespace(c: char) -> (b: bool)
    ensures
        b == is_ws(c),
{
    ('\u{9}' <= c && c <= '\u{d}') || c == ' ' || c == '\u{85}' || c == '\u{a0}' || c
        == '\u{1680}' || ('\u{2000}' <= c && c <= '\u{200a}') || c == '\u{2028}' || c
        == '\u{2029}' || c == '\u{202f}' || c == '\u{205f}' || c == '\u{3000}'
}

/// Unicode general category `Cc` (what `char::is_control` tests).
pub open spec fn is_ctrl(c: char) -> bool {
    c <= '\u{1f}' || ('\u{7f}' <= c && c <= '\u{9f}')
}

/// Whether `c` is a control character.
pub fn is_control(c: char) -> (b: bool)
    ensures
        b == is_ctrl(c),
{
    c <= '\u{1f}' || ('\u{7f}' <= c && c <= '\u{9f}')
}

/// First index `>= i` that is not whitespace (or the length).
pub open spec fn ws_skip(s: Seq<char>, i: int) -> int
    decreases s.len() - i,
{
    if 0 <= i < s.len() && is_ws(s[i]) {
        ws_skip(s, i + 1)
    } else {
        i
    }
}

/// Index just after the last non-whitespace character before `j` (or 0).
pub open spec fn ws_back(s: Seq<char>, j: int) -> int
    decreases j,
{
    if 0 < j <= s.len() && is_ws(s[j - 1]) {
        ws_back(s, j - 1)
    } else {
        j
    }
}

/// `str::trim_start`.
pub open spec fn trim_start_s(s: Seq<char>) -> Seq<char> {
    s.skip(ws_skip(s, 0))
}

/// `str::trim_end`.
pub open spec fn trim_end_s(s: Seq<char>) -> Seq<char> {
    s.take(ws_back(s, s.len() as int))
}

/// `str::trim`.
pub open spec fn trim_s(s: Seq<char>) -> Seq<char> {
    trim_end_s(trim_start_s(s))
}

pub proof fn lemma_ws_skip(s: Seq<char>, i: int)
    requires
        0 <= i <= s.len(),
    ensures
        i <= ws_skip(s, i) <= s.len(),
        ws_skip(s, i) < s.len() ==> !is_ws(s[ws_skip(s, i)]),
        forall|k: int| i <= k < ws_skip(s, i) ==> is_ws(#[trigger] s[k]),
    decreases s.len() - i,
{
    if i < s.len() && is_ws(s[i]) {
        lemma_ws_skip(s, i + 1);
    }
}

pub proof fn lemma_ws_back(s: Seq<char>, j: int)
    requires
        0 <= j <= s.len(),
    ensures
        0 <= ws_back(s, j) <= j,
        ws_back(s, j) > 0 ==> !is_ws(s[ws_back(s, j) - 1]),
        forall|k: int| ws_back(s, j) <= k < j ==> is_ws(#[trigger] s[k]),
    decreases j,
{
    if 0 < j && is_ws(s[j - 1]) {
        lemma_ws_back(s, j - 1);
    }
}

/// Index of the first non-whitespace character.
pub fn ws_skip_exec(v: &[char], i: usize) -> (r: usize)
    requires
        i <= v@.len(),
    ensures
        r == ws_skip(v@, i as int),
{
    let mut k = i;
    while k < v.len() && is_whitespace(v[k])
        invariant
            i <= k <= v@.len(),
            ws_skip(v@, k as int) == ws_skip(v@, i as int),
        decreases v@.len() - k,
    {
        k = k + 1;
    }
    k
}

/// Index after the last non-whitespace character.
pub fn ws_back_exec(v: &[char], j: usize) -> (r: usize)
    requires
        j <= v@.len(),
    ensures
        r == ws_back(v@, j as int),
{
    let mut k = j;
    while k > 0 && is_whitespace(v[k - 1])
        invariant
            k <= j <= v@.len(),
            ws_back(v@, k as int) == ws_back(v@, j as int),
        decreases k,
    {
        k = k - 1;
    }
    k
}

/// `trim_start`.
pub fn trim_start(v: &[char]) -> (r: Vec<char>)
    ensures
        r@ == trim_start_s(v@),
{
    let a = ws_skip_exec(v, 0);
    proof {
        lemma_ws_skip(v@, 0);
    }
    subvec(v, a, v.len())
}

/// `trim_end`.
pub fn trim_end(v: &[char]) -> (r: Vec<char>)
    ensures
        r@ == trim_end_s(v@),
{
    let b = ws_back_exec(v, v.len());
    proof {
        lemma_ws_back(v@, v@.len() as int);
    }
    subvec(v, 0, b)
}

/// `trim`.
pub fn trim(v: &[char]) -> (r: Vec<char>)
    ensures
        r@ == trim_s(v@),
{
    let t = trim_start(v);
    trim_end(t.as_slice())
}

/// `trim` of a string slice.
pub fn trim_str(s: &str) -> (r: Vec<char>)
    ensures
        r@ == trim_s(s@),
{
    let v = chars_of(s);
    trim(v.as_slice())
}

/// `s.trim().is_empty()`: every character is whitespace.
pub open spec fn blank(s: Seq<char>) -> bool {
    forall|k: int| 0 <= k < s.len() ==> is_ws(#[trigger] s[k])
}

pub proof fn lemma_trim_empty(s: Seq<char>)
    ensures
        (trim_s(s).len() == 0) == blank(s),
        (trim_start_s(s).len() == 0) == blank(s),
        (trim_end_s(s).len() == 0) == blank(s),
{
    lemma_ws_skip(s, 0);
    lemma_ws_back(s, s.len() as int);
    let t = trim_start_s(s);
    lemma_ws_back(t, t.len() as int);
    if !blank(s) {
        let k = choose|k: int| 0 <= k < s.len() && !is_ws(s[k]);
        assert(ws_skip(s, 0) <= k);
        assert(t[k - ws_skip(s, 0)] == s[k]);
        if ws_back(t, t.len() as int) == 0 {
            assert(is_ws(t[k - ws_skip(s, 0)]));
        }
    }
}

/// A text without whitespace is its own trim.
pub proof fn lemma_trim_no_ws(s: Seq<char>)
    requires
        forall|i: int| 0 <= i < s.len() ==> !is_ws(#[trigger] s[i]),
    ensures
        trim_s(s) == s,
{
    assert(ws_skip(s, 0) == 0);
    let t = trim_start_s(s);
    assert(t =~= s);
    assert(ws_back(t, t.len() as int) == t.len());
    assert(trim_end_s(t) =~= t);
}

/// Whether the slice is blank (empty after trimming).
pub fn is_blank(v: &[char]) -> (b: bool)
    ensures
        b == blank(v@),
        b == (trim_s(v@).len() == 0),
{
    proof {
        lemma_trim_empty(v@);
    }
    let mut i: usize = 0;
    while i < v.len()
        invariant
            i <= v@.len(),
            forall|k: int| 0 <= k < i ==> is_ws(#[trigger] v@[k]),
        decreases v@.len() - i,
    {
        if !is_whitespace(v[i]) {
            assert(!is_ws(v@[i as int]));
            assert(!blank(v@));
            proof {
                lemma_trim_empty(v@);
            }
            return false;
        }
        i = i + 1;
    }
    true
}

/// Whether a string slice is blank.
pub fn is_blank_str(s: &str) -> (b: bool)
    ensures
        b == blank(s@),
        b == (trim_s(s@).len() == 0),
{
    let v = chars_of(s);
    is_blank(v.as_slice())
}

// ---------------------------------------------------------------- search

/// `p` occurs in `s` at position `i`.
pub open spec fn occurs_at(s: Seq<char>, p: Seq<char>, i: int) -> bool {
    0 <= i && i + p.len() <= s.len() && s.subrange(i, i + p.len()) == p
}

/// `str::contains` with a string pattern.
pub open spec fn contains_s(s: Seq<char>, p: Seq<char>) -> bool {
    exists|i: int| #[trigger] occurs_at(s, p, i)
}

/// `str::starts_with`.
pub open spec fn starts_with_s(s: Seq<char>, p: Seq<char>) -> bool {
    p.len() <= s.len() && s.take(p.len() as int) == p
}

/// `str::ends_with`.
pub open spec fn ends_with_s(s: Seq<char>, p: Seq<char>) -> bool {
    p.len() <= s.len() && s.skip(s.len() - p.len()) == p
}

/// `str::contains` with a single character.
pub open spec fn has_char(s: Seq<char>, c: char) -> bool {
    exists|i: int| 0 <= i < s.len() && #[trigger] s[i] == c
}

/// Whether `p` occurs in `s` at `i`.
pub fn occurs_at_exec(s: &[char], p: &[char], i: usize) -> (b: bool)
    ensures
        b == occurs_at(s@, p@, i as int),
{
    if i > s.len() || p.len() > s.len() - i {
        return false;
    }
    let n = s.len();
    let mut k: usize = 0;
    while k < p.len()
        invariant
            n == s@.len(),
            i + p@.len() <= s@.len(),
            k <= p@.len(),
            forall|j: int| 0 <= j < k ==> s@[i + j] == p@[j],
        decreases p@.len() - k,
    {
        if s[i + k] != p[k] {
            assert(s@.subrange(i as int, i + p@.len())[k as int] != p@[k as int]);
            return false;
        }
        k = k + 1;
    }
    assert(s@.subrange(i as int, i + p@.len()) =~= p@);
    true
}

/// `starts_with`.
pub fn starts_with(s: &[char], p: &[char]) -> (b: bool)
    ensures
        b == starts_with_s(s@, p@),
{
    let r = occurs_at_exec(s, p, 0);
    assert(s@.subrange(0, p@.len() as int) =~= s@.take(p@.len() as int));
    r
}

/// `starts_with` with a literal pattern.
pub fn starts_with_str(s: &[char], p: &str) -> (b: bool)
    ensures
        b == starts_with_s(s@, p@),
{
    let pv = chars_of(p);
    starts_with(s, pv.as_slice())
}

/// `ends_with`.
pub fn ends_with(s: &[char], p: &[char]) -> (b: bool)
    ensures
        b == ends_with_s(s@, p@),
{
    if p.len() > s.len() {
        return false;
    }
    let r = occurs_at_exec(s, p, s.len() - p.len());
    assert(s@.subrange(s@.len() - p@.len(), s@.len() as int) =~= s@.skip(
        s@.len() - p@.len(),
    ));
    r
}

/// `ends_with` with a literal pattern.
pub fn ends_with_str(s: &[char], p: &str) -> (b: bool)
    ensures
        b == ends_with_s(s@, p@),
{
    let pv = chars_of(p);
    ends_with(s, pv.as_slice())
}

/// First index at which `p` occurs in `s`, searching from `i`.
pub open spec fn find_from(s: Seq<char>, p: Seq<char>, i: int) -> Option<int>
    decreases s.len() + 1 - i,
{
    if i < 0 || i + p.len() > s.len() {
        None
    } else if occurs_at(s, p, i) {
        Some(i)
    } else {
        find_from(s, p, i + 1)
    }
}

/// `str::find` with a string pattern.
pub open spec fn find_s(s: Seq<char>, p: Seq<char>) -> Option<int> {
    find_from(s, p, 0)
}

pub proof fn lemma_find_from(s: Seq<char>, p: Seq<char>, i: int)
    requires
        0 <= i,
    ensures
        find_from(s, p, i) matches Some(k) ==> i <= k && occurs_at(s, p, k) && forall|j: int|
            i <= j < k ==> !#[trigger] occurs_at(s, p, j),
        find_from(s, p, i) is None ==> forall|j: int| i <= j ==> !#[trigger] occurs_at(s, p, j),
    decreases s.len() + 1 - i,
{
    if i + p.len() > s.len() {
    } else if occurs_at(s, p, i) {
    } else {
        lemma_find_from(s, p, i + 1);
    }
}

pub proof fn lemma_find_contains(s: Seq<char>, p: Seq<char>)
    ensures
        find_s(s, p) is Some <==> contains_s(s, p),
{
    lemma_find_from(s, p, 0);
    if find_s(s, p) is None && contains_s(s, p) {
        let i = choose|i: int| #[trigger] occurs_at(s, p, i);
        assert(!occurs_at(s, p, i));
    }
}

/// First occurrence of `p` in `s` at or after `i`.
pub fn find_exec(s: &[char], p: &[char], i: usize) -> (r: Option<usize>)
    ensures
        match r {
            Some(k) => find_from(s@, p@, i as int) == Some(k as int),
            None => find_from(s@, p@, i as int) is None,
        },
{
    let mut k = i;
    while k <= s.len() && p.len() <= s.len() - k
        invariant
            i <= k,
            find_from(s@, p@, k as int) == find_from(s@, p@, i as int),
        decreases s@.len() + 1 - k,
    {
        if occurs_at_exec(s, p, k) {
            return Some(k);
        }
        if p.len() == 0 {
            assert(s@.subrange(k as int, k as int) =~= p@);
        }
        k = k + 1;
    }
    None
}

/// `str::contains`.
pub fn contains(s: &[char], p: &[char]) -> (b: bool)
    ensures
        b == contains_s(s@, p@),
{
    proof {
        lemma_find_contains(s@, p@);
    }
    find_exec(s, p, 0).is_some()
}

/// `str::contains` with a literal pattern.
pub fn contains_str(s: &[char], p: &str) -> (b: bool)
    ensures
        b == contains_s(s@, p@),
{
    let pv = chars_of(p);
    contains(s, pv.as_slice())
}

/// Whether the character occurs.
pub fn has_char_exec(s: &[char], c: char) -> (b: bool)
    ensures
        b == has_char(s@, c),
{
    let mut i: usize = 0;
    while i < s.len()
        invariant
            i <= s@.len(),
            forall|k: int| 0 <= k < i ==> s@[k] != c,
        decreases s@.len() - i,
    {
        if s[i] == c {
            return true;
        }
        i = i + 1;
    }
    false
}

// ---------------------------------------------------------------- split / lines / join

/// First index `>= i` holding `c` (or the length).
pub open spec fn idx_of(s: Seq<char>, c: char, i: int) -> int
    decreases s.len() - i,
{
    if 0 <= i < s.len() && s[i] != c {
        idx_of(s, c, i + 1)
    } else {
        i
    }
}

pub proof fn lemma_idx_of(s: Seq<char>, c: char, i: int)
    requires
        0 <= i <= s.len(),
    ensures
        i <= idx_of(s, c, i) <= s.len(),
        idx_of(s, c, i) < s.len() ==> s[idx_of(s, c, i)] == c,
        forall|k: int| i <= k < idx_of(s, c, i) ==> #[trigger] s[k] != c,
    decreases s.len() - i,
{
    if i < s.len() && s[i] != c {
        lemma_idx_of(s, c, i + 1);
    }
}

/// Index of the next `c` at or after `i`.
pub fn idx_of_exec(v: &[char], c: char, i: usize) -> (r: usize)
    requires
        i <= v@.len(),
    ensures
        r == idx_of(v@, c, i as int),
{
    let mut k = i;
    while k < v.len() && v[k] != c
        invariant
            i <= k <= v@.len(),
            idx_of(v@, c, k as int) == idx_of(v@, c, i as int),
        decreases v@.len() - k,
    {
        k = k + 1;
    }
    k
}

/// Pieces of `s[i..]` separated by `c` (`str::split` with a character).
pub open spec fn split_from(s: Seq<char>, c: char, i: int) -> Seq<Seq<char>>
    decreases s.len() - i, 0int,
{
    if i < 0 || i > s.len() {
        seq![]
    } else {
        let k = idx_of(s, c, i);
        if k < s.len() && i <= k {
            seq![s.subrange(i, k)] + split_from(s, c, k + 1)
        } else {
            seq![s.subrange(i, s.len() as int)]
        }
    }
}

/// `str::split(c)`.
pub open spec fn split_s(s: Seq<char>, c: char) -> Seq<Seq<char>> {
    split_from(s, c, 0)
}

/// Drops one trailing `'\r'`.
pub open spec fn strip_cr(l: Seq<char>) -> Seq<char> {
    if l.len() > 0 && l.last() == '\r' {
        l.drop_last()
    } else {
        l
    }
}

/// Lines of `s[i..]`, as `str::lines` gives them.
pub open spec fn lines_from(s: Seq<char>, i: int) -> Seq<Seq<char>>
    decreases s.len() - i,
{
    if i < 0 || i >= s.len() {
        seq![]
    } else {
        let k = idx_of(s, '\n', i);
        if k < s.len() && i <= k {
            seq![strip_cr(s.subrange(i, k))] + lines_from(s, k + 1)
        } else {
            seq![s.subrange(i, s.len() as int)]
        }
    }
}

/// `str::lines`.
pub open spec fn lines_s(s: Seq<char>) -> Seq<Seq<char>> {
    lines_from(s, 0)
}

/// `str::split` gives at least one piece and at most one more than there are characters.
pub proof fn lemma_split_len(s: Seq<char>, c: char, i: int)
    requires
        0 <= i <= s.len(),
    ensures
        1 <= split_from(s, c, i).len() <= s.len() - i + 1,
    decreases s.len() - i,
{
    lemma_idx_of(s, c, i);
    let k = idx_of(s, c, i);
    if k < s.len() && i <= k {
        lemma_split_len(s, c, k + 1);
    }
}

/// `str::split(c)`.
pub fn split_char(v: &[char], c: char) -> (r: Vec<Vec<char>>)
    ensures
        views(r@) == split_s(v@, c),
{
    let mut r: Vec<Vec<char>> = Vec::new();
    let mut i: usize = 0;
    loop
        invariant
            i <= v@.len(),
            views(r@) + split_from(v@, c, i as int) == split_s(v@, c),
        decreases v@.len() - i,
    {
        proof {
            lemma_idx_of(v@, c, i as int);
        }
        let k = idx_of_exec(v, c, i);
        let piece = subvec(v, i, k);
        let ghost old_r = r@;
        r.push(piece);
        assert(views(r@) =~= views(old_r).push(piece@));
        if k < v.len() {
            assert(views(old_r) + split_from(v@, c, i as int) =~= views(r@) + split_from(
                v@,
                c,
                k + 1,
            ));
            i = k + 1;
        } else {
            assert(views(old_r) + split_from(v@, c, i as int) =~= views(r@));
            return r;
        }
    }
}

/// `str::lines`.
pub fn lines(v: &[char]) -> (r: Vec<Vec<char>>)
    ensures
        views(r@) == lines_s(v@),
{
    let mut r: Vec<Vec<char>> = Vec::new();
    let mut i: usize = 0;
    while i < v.len()
        invariant
            i <= v@.len(),
            views(r@) + lines_from(v@, i as int) == lines_s(v@),
        decreases v@.len() - i,
    {
        proof {
            lemma_idx_of(v@, '\n', i as int);
        }
        let k = idx_of_exec(v, '\n', i);
        let ghost old_r = r@;
        if k < v.len() {
            let mut piece = subvec(v, i, k);
            if piece.len() > 0 && piece[piece.len() - 1] == '\r' {
                piece.pop();
            }
            r.push(piece);
            assert(views(r@) =~= views(old_r).push(strip_cr(v@.subrange(i as int, k as int))));
            assert(views(old_r) + lines_from(v@, i as int) =~= views(r@) + lines_from(
                v@,
                k + 1,
            ));
            i = k + 1;
        } else {
            let piece = subvec(v, i, v.len());
            r.push(piece);
            assert(views(old_r) + lines_from(v@, i as int) =~= views(r@));
            return r;
        }
    }
    assert(views(r@) + lines_from(v@, i as int) =~= views(r@));
    r
}

/// `str::lines` of a string slice.
pub fn lines_str(s: &str) -> (r: Vec<Vec<char>>)
    ensures
        views(r@) == lines_s(s@),
{
    let v = chars_of(s);
    lines(v.as_slice())
}

/// `[T]::join(sep)`.
pub open spec fn join_s(parts: Seq<Seq<char>>, sep: Seq<char>) -> Seq<char>
    decreases parts.len(),
{
    if parts.len() == 0 {
        seq![]
    } else if parts.len() == 1 {
        parts[0]
    } else {
        join_s(parts.drop_last(), sep) + sep + parts.last()
    }
}

/// `join` of the first `n` parts, extended by one.
pub proof fn lemma_join_push(parts: Seq<Seq<char>>, sep: Seq<char>, n: int)
    requires
        0 <= n < parts.len(),
    ensures
        join_s(parts.take(n + 1), sep) == if n == 0 {
            parts[0]
        } else {
            join_s(parts.take(n), sep) + sep + parts[n]
        },
{
    assert(parts.take(n + 1).drop_last() =~= parts.take(n));
}

/// Joins the parts with `sep` between them.
pub fn join(parts: &Vec<Vec<char>>, sep: &[char]) -> (r: Vec<char>)
    ensures
        r@ == join_s(views(parts@), sep@),
{
    let mut r: Vec<char> = Vec::new();
    let mut i: usize = 0;
    while i < parts.len()
        invariant
            i <= parts@.len(),
            r@ == join_s(views(parts@).take(i as int), sep@),
        decreases parts@.len() - i,
    {
        proof {
            lemma_join_push(views(parts@), sep@, i as int);
        }
        if i > 0 {
            append(&mut r, sep);
        }
        append(&mut r, parts[i].as_slice());
        i = i + 1;
    }
    assert(views(parts@).take(parts@.len() as int) =~= views(parts@));
    r
}

/// Joins the parts with a literal separator.
pub fn join_str(parts: &Vec<Vec<char>>, sep: &str) -> (r: Vec<char>)
    ensures
        r@ == join_s(views(parts@), sep@),
{
    let s = chars_of(sep);
    join(parts, s.as_slice())
}

// ---------------------------------------------------------------- numbers

/// Decimal digits of `n` (no leading zeros; `0` is `"0"`).
pub open spec fn dec_s(n: nat) -> Seq<char>
    decreases n,
{
    if n < 10 {
        seq![digit_char(n)]
    } else {
        dec_s(n / 10).push(digit_char(n % 10))
    }
}

/// The character of a decimal digit.
pub open spec fn digit_char(d: nat) -> char {
    if d == 0 {
        '0'
    } else if d == 1 {
        '1'
    } else if d == 2 {
        '2'
    } else if d == 3 {
        '3'
    } else if d == 4 {
        '4'
    } else if d == 5 {
        '5'
    } else if d == 6 {
        '6'
    } else if d == 7 {
        '7'
    } else if d == 8 {
        '8'
    } else {
        '9'
    }
}

fn digit(d: u64) -> (c: char)
    requires
        d < 10,
    ensures
        c == digit_char(d as nat),
{
    if d == 0 {
        '0'
    } else if d == 1 {
        '1'
    } else if d == 2 {
        '2'
    } else if d == 3 {
        '3'
    } else if d == 4 {
        '4'
    } else if d == 5 {
        '5'
    } else if d == 6 {
        '6'
    } else if d == 7 {
        '7'
    } else if d == 8 {
        '8'
    } else {
        '9'
    }
}

/// `format!("{n}")` for an unsigned integer.
pub fn dec(n: u64) -> (r: Vec<char>)
    ensures
        r@ == dec_s(n as nat),
    decreases n,
{
    if n < 10 {
        let mut r = Vec::new();
        r.push(digit(n));
        r
    } else {
        let mut r = dec(n / 10);
        r.push(digit(n % 10));
        r
    }
}

/// `s` left-padded with `'0'` to at least `w` characters.
pub open spec fn zpad(s: Seq<char>, w: nat) -> Seq<char> {
    if s.len() >= w {
        s
    } else {
        Seq::new((w - s.len()) as nat, |i: int| '0') + s
    }
}

/// `format!("{n:0w$}")`.
pub fn dec_pad(n: u64, w: usize) -> (r: Vec<char>)
    ensures
        r@ == zpad(dec_s(n as nat), w as nat),
{
    let d = dec(n);
    if d.len() >= w {
        return d;
    }
    let mut r: Vec<char> = Vec::new();
    let pad = w - d.len();
    let mut i: usize = 0;
    while i < pad
        invariant
            i <= pad,
            r@ == Seq::new(i as nat, |k: int| '0'),
        decreases pad - i,
    {
        r.push('0');
        assert(r@ =~= Seq::new((i + 1) as nat, |k: int| '0'));
        i = i + 1;
    }
    append(&mut r, d.as_slice());
    r
}

} // verus!

verus! {

// ---------------------------------------------------------------- integer parsing

/// Whether `c` is an ASCII digit.
pub open spec fn is_digit(c: char) -> bool {
    '0' <= c && c <= '9'
}

/// Every character is an ASCII digit.
pub open spec fn all_digits(s: Seq<char>) -> bool {
    forall|i: int| 0 <= i < s.len() ==> is_digit(#[trigger] s[i])
}

/// Value of a string of decimal digits.
pub open spec fn digits_val(s: Seq<char>) -> nat
    decreases s.len(),
{
    if s.len() == 0 {
        0
    } else {
        digits_val(s.drop_last()) * 10 + ((s.last() as u32) - ('0' as u32)) as nat
    }
}

/// `str::parse::<u64>()`: optional `+`, then at least one digit, value in range.
pub open spec fn parse_u64_s(s: Seq<char>) -> Option<u64> {
    let d = if s.len() > 0 && s[0] == '+' {
        s.drop_first()
    } else {
        s
    };
    if d.len() > 0 && all_digits(d) && digits_val(d) <= u64::MAX {
        Some(digits_val(d) as u64)
    } else {
        None
    }
}

/// `str::parse::<i64>()`: optional sign, then at least one digit, value in range.
pub open spec fn parse_i64_s(s: Seq<char>) -> Option<i64> {
    if s.len() > 0 && s[0] == '-' {
        let d = s.drop_first();
        if d.len() > 0 && all_digits(d) && digits_val(d) <= 0x8000_0000_0000_0000 {
            Some((0 - digits_val(d)) as i64)
        } else {
            None
        }
    } else {
        let d = if s.len() > 0 && s[0] == '+' {
            s.drop_first()
        } else {
            s
        };
        if d.len() > 0 && all_digits(d) && digits_val(d) <= i64::MAX {
            Some(digits_val(d) as i64)
        } else {
            None
        }
    }
}

proof fn lemma_digits_val_mono(s: Seq<char>, n: int)
    requires
        0 <= n <= s.len(),
        all_digits(s),
    ensures
        digits_val(s.take(n)) <= digits_val(s),
    decreases s.len() - n,
{
    if n < s.len() {
        lemma_digits_val_mono(s, n + 1);
        assert(s.take(n + 1).drop_last() =~= s.take(n));
    } else {
        assert(s.take(n) =~= s);
    }
}

/// Value of the digits of `d`, or `None` when one is not a digit or the value
/// exceeds `bound`.
fn digits_bounded(d: &[char], bound: u64) -> (r: Option<u64>)
    ensures
        match r {
            Some(v) => all_digits(d@) && digits_val(d@) == v && v <= bound,
            None => !all_digits(d@) || digits_val(d@) > bound,
        },
{
    let mut v: u64 = 0;
    let mut i: usize = 0;
    while i < d.len()
        invariant
            i <= d@.len(),
            all_digits(d@.take(i as int)),
            digits_val(d@.take(i as int)) == v,
            v <= bound,
        decreases d@.len() - i,
    {
        let c = d[i];
        assert(d@.take(i + 1).drop_last() =~= d@.take(i as int));
        if !('0' <= c && c <= '9') {
            assert(!is_digit(d@[i as int]));
            return None;
        }
        let dv = (c as u32 - '0' as u32) as u64;
        if dv > bound || v > (bound - dv) / 10 {
            proof {
                assert(all_digits(d@.take(i + 1)));
                assert(digits_val(d@.take(i + 1)) == v * 10 + dv);
                assert(v * 10 + dv > bound) by (nonlinear_arith)
                    requires
                        dv > bound || v > (bound - dv) / 10,
                        v >= 0,
                ;
                if all_digits(d@) {
                    lemma_digits_val_mono(d@, i + 1);
                }
            }
            return None;
        }
        assert(v * 10 + dv <= bound) by (nonlinear_arith)
            requires
                v <= (bound - dv) / 10,
                dv <= bound,
        ;
        v = v * 10 + dv;
        i = i + 1;
    }
    assert(d@.take(d@.len() as int) =~= d@);
    Some(v)
}

/// `s.parse::<u64>().ok()`.
pub fn parse_u64(s: &[char]) -> (r: Option<u64>)
    ensures
        r == parse_u64_s(s@),
{
    let d = if s.len() > 0 && s[0] == '+' {
        subvec(s, 1, s.len())
    } else {
        copy_chars(s)
    };
    assert(s@.len() > 0 && s@[0] == '+' ==> d@ =~= s@.drop_first());
    if d.len() == 0 {
        return None;
    }
    digits_bounded(d.as_slice(), u64::MAX)
}

/// `s.parse::<i64>().ok()`.
pub fn parse_i64(s: &[char]) -> (r: Option<i64>)
    ensures
        r == parse_i64_s(s@),
{
    if s.len() > 0 && s[0] == '-' {
        let d = subvec(s, 1, s.len());
        assert(d@ =~= s@.drop_first());
        if d.len() == 0 {
            return None;
        }
        match digits_bounded(d.as_slice(), 0x8000_0000_0000_0000u64) {
            Some(v) => {
                if v == 0x8000_0000_0000_0000u64 {
                    Some(i64::MIN)
                } else {
                    Some(0 - (v as i64))
                }
            },
            None => None,
        }
    } else {
        let d = if s.len() > 0 && s[0] == '+' {
            subvec(s, 1, s.len())
        } else {
            copy_chars(s)
        };
        assert(s@.len() > 0 && s@[0] == '+' ==> d@ =~= s@.drop_first());
        if d.len() == 0 {
            return None;
        }
        match digits_bounded(d.as_slice(), i64::MAX as u64) {
            Some(v) => Some(v as i64),
            None => None,
        }
    }
}

} // verus!

verus! {

// ---------------------------------------------------------------- single-character trims

/// First index `>= i` that is not `c` (or the length).
pub open spec fn c_skip(s: Seq<char>, c: char, i: int) -> int
    decreases s.len() - i,
{
    if 0 <= i < s.len() && s[i] == c {
        c_skip(s, c, i + 1)
    } else {
        i
    }
}

/// Index after the last character before `j` that is not `c` (or 0).
pub open spec fn c_back(s: Seq<char>, c: char, j: int) -> int
    decreases j,
{
    if 0 < j <= s.len() && s[j - 1] == c {
        c_back(s, c, j - 1)
    } else {
        j
    }
}

/// `trim_start_matches(c)`.
pub open spec fn trim_start_c(s: Seq<char>, c: char) -> Seq<char> {
    s.skip(c_skip(s, c, 0))
}

/// `trim_end_matches(c)`.
pub open spec fn trim_end_c(s: Seq<char>, c: char) -> Seq<char> {
    s.take(c_back(s, c, s.len() as int))
}

/// `trim_matches(c)`.
pub open spec fn trim_c(s: Seq<char>, c: char) -> Seq<char> {
    trim_end_c(trim_start_c(s, c), c)
}

pub proof fn lemma_c_skip(s: Seq<char>, c: char, i: int)
    requires
        0 <= i <= s.len(),
    ensures
        i <= c_skip(s, c, i) <= s.len(),
    decreases s.len() - i,
{
    if i < s.len() && s[i] == c {
        lemma_c_skip(s, c, i + 1);
    }
}

pub proof fn lemma_c_back(s: Seq<char>, c: char, j: int)
    requires
        0 <= j <= s.len(),
    ensures
        0 <= c_back(s, c, j) <= j,
    decreases j,
{
    if 0 < j && s[j - 1] == c {
        lemma_c_back(s, c, j - 1);
    }
}

/// `trim_start_matches(c)`.
pub fn trim_start_char(v: &[char], c: char) -> (r: Vec<char>)
    ensures
        r@ == trim_start_c(v@, c),
{
    let mut a: usize = 0;
    while a < v.len() && v[a] == c
        invariant
            a <= v@.len(),
            c_skip(v@, c, a as int) == c_skip(v@, c, 0),
        decreases v@.len() - a,
    {
        a = a + 1;
    }
    subvec(v, a, v.len())
}

/// `trim_end_matches(c)`.
pub fn trim_end_char(v: &[char], c: char) -> (r: Vec<char>)
    ensures
        r@ == trim_end_c(v@, c),
{
    let mut b = v.len();
    while b > 0 && v[b - 1] == c
        invariant
            b <= v@.len(),
            c_back(v@, c, b as int) == c_back(v@, c, v@.len() as int),
        decreases b,
    {
        b = b - 1;
    }
    subvec(v, 0, b)
}

/// `trim_matches(c)`.
pub fn trim_char(v: &[char], c: char) -> (r: Vec<char>)
    ensures
        r@ == trim_c(v@, c),
{
    let t = trim_start_char(v, c);
    trim_end_char(t.as_slice(), c)
}

/// Every `a` replaced by `b`.
pub open spec fn replace_char_s(s: Seq<char>, a: char, b: char) -> Seq<char> {
    Seq::new(s.len(), |i: int| if s[i] == a { b } else { s[i] })
}

/// `str::replace(a, b)` with single characters.
pub fn replace_char(v: &[char], a: char, b: char) -> (r: Vec<char>)
    ensures
        r@ == replace_char_s(v@, a, b),
{
    let mut r: Vec<char> = Vec::new();
    let mut i: usize = 0;
    while i < v.len()
        invariant
            i <= v@.len(),
            r@ == Seq::new(i as nat, |k: int| if v@[k] == a { b } else { v@[k] }),
        decreases v@.len() - i,
    {
        if v[i] == a {
            r.push(b);
        } else {
            r.push(v[i]);
        }
        assert(r@ =~= Seq::new((i + 1) as nat, |k: int| if v@[k] == a { b } else { v@[k] }));
        i = i + 1;
    }
    r
}

/// The first `n` characters (all of them when there are fewer).
pub open spec fn take_chars(s: Seq<char>, n: nat) -> Seq<char> {
    if s.len() <= n {
        s
    } else {
        s.take(n as int)
    }
}

/// `s.chars().take(n).collect()`.
pub fn take_chars_exec(v: &[char], n: usize) -> (r: Vec<char>)
    ensures
        r@ == take_chars(v@, n as nat),
{
    if v.len() <= n {
        copy_chars(v)
    } else {
        subvec(v, 0, n)
    }
}

/// `strip_prefix` with a literal; `None` when `s` does not start with `p`.
pub fn strip_prefix_str(s: &[char], p: &str) -> (r: Option<Vec<char>>)
    ensures
        match r {
            Some(rest) => starts_with_s(s@, p@) && rest@ == s@.skip(p@.len() as int),
            None => !starts_with_s(s@, p@),
        },
{
    let pv = chars_of(p);
    if starts_with(s, pv.as_slice()) {
        Some(subvec(s, pv.len(), s.len()))
    } else {
        None
    }
}

/// `strip_suffix` with a literal; `None` when `s` does not end with `p`.
pub fn strip_suffix_str(s: &[char], p: &str) -> (r: Option<Vec<char>>)
    ensures
        match r {
            Some(rest) => ends_with_s(s@, p@) && rest@ == s@.take(s@.len() - p@.len()),
            None => !ends_with_s(s@, p@),
        },
{
    let pv = chars_of(p);
    if ends_with(s, pv.as_slice()) {
        Some(subvec(s, 0, s.len() - pv.len()))
    } else {
        None
    }
}

/// Index of the last `c` before `j` (or -1).
pub open spec fn last_idx(s: Seq<char>, c: char, j: int) -> int
    decreases j,
{
    if j <= 0 || j > s.len() {
        -1
    } else if s[j - 1] == c {
        j - 1
    } else {
        last_idx(s, c, j - 1)
    }
}

pub proof fn lemma_last_idx(s: Seq<char>, c: char, j: int)
    requires
        0 <= j <= s.len(),
    ensures
        -1 <= last_idx(s, c, j) < j,
        last_idx(s, c, j) >= 0 ==> s[last_idx(s, c, j)] == c,
        forall|k: int| last_idx(s, c, j) < k < j ==> #[trigger] s[k] != c,
    decreases j,
{
    if j > 0 && s[j - 1] != c {
        lemma_last_idx(s, c, j - 1);
    }
}

/// Index of the last `c` (or `None`).
pub fn last_idx_exec(v: &[char], c: char) -> (r: Option<usize>)
    ensures
        match r {
            Some(k) => last_idx(v@, c, v@.len() as int) == k as int,
            None => last_idx(v@, c, v@.len() as int) == -1,
        },
{
    let mut j = v.len();
    while j > 0
        invariant
            j <= v@.len(),
            last_idx(v@, c, j as int) == last_idx(v@, c, v@.len() as int),
        decreases j,
    {
        if v[j - 1] == c {
            return Some(j - 1);
        }
        j = j - 1;
    }
    None
}

/// The text after the last `c` (all of it when there is none), as `rsplit(c).next()`.
pub open spec fn after_last(s: Seq<char>, c: char) -> Seq<char> {
    s.skip(last_idx(s, c, s.len() as int) + 1)
}

/// `rsplit(c).next()`.
pub fn after_last_exec(v: &[char], c: char) -> (r: Vec<char>)
    ensures
        r@ == after_last(v@, c),
{
    proof {
        lemma_last_idx(v@, c, v@.len() as int);
    }
    match last_idx_exec(v, c) {
        Some(k) => {
            let n = v.len();
            assert(k < n);
            subvec(v, k + 1, n)
        },
        None => {
            assert(v@.skip(0) =~= v@);
            copy_chars(v)
        },
    }
}

// ---------------------------------------------------------------- signed numbers

/// `format!("{n:0w$}")` for a signed integer: the sign comes before the zeros.
pub open spec fn idec_pad_s(n: int, w: nat) -> Seq<char> {
    if n >= 0 {
        zpad(dec_s(n as nat), w)
    } else {
        seq!['-'] + zpad(dec_s((-n) as nat), if w >= 1 { (w - 1) as nat } else { 0 })
    }
}

/// `format!("{n:0w$}")` for an `i64`.
pub fn idec_pad(n: i64, w: usize) -> (r: Vec<char>)
    ensures
        r@ == idec_pad_s(n as int, w as nat),
{
    if n >= 0 {
        dec_pad(n as u64, w)
    } else {
        let m: u64 = if n == i64::MIN {
            0x8000_0000_0000_0000u64
        } else {
            (0 - n) as u64
        };
        let mut r = chars_of("-");
        assert(r@ =~= seq!['-']) by {
            reveal_strlit("-");
        }
        let d = dec_pad(m, if w >= 1 { w - 1 } else { 0 });
        append(&mut r, d.as_slice());
        r
    }
}

} // verus!

verus! {

/// Index of the first byte `b` from `i` on, if any.
pub open spec fn idx_of_byte(s: Seq<u8>, b: u8, i: int) -> Option<int>
    decreases s.len() - i,
{
    if i < 0 || i >= s.len() {
        None
    } else if s[i] == b {
        Some(i)
    } else {
        idx_of_byte(s, b, i + 1)
    }
}

} // verus!
