//! Recording segments inside the vault: `<vault>/会议音频/<note path>/<session>/seg_0001.wav`.
//!
//! This module holds the naming rules: which directory belongs to a note, how
//! sessions and segments are named, and which relative paths are accepted.
use vstd::prelude::*;
use crate::calendar::{civil_from_days, is_civil_of};
use crate::text::{
    after_last, after_last_exec, append, append_str, chars_of, contains_s, copy_chars, dec_pad,
    dec_s, ends_with_s, eq_chars, has_char, has_char_exec, idec_pad, is_whitespace, is_ws, idec_pad_s, is_control,
    is_ctrl, is_digit, join_s, join_str, last_idx, lemma_last_idx, parse_i64, parse_i64_s,
    replace_char, replace_char_s, split_char, split_s, starts_with, starts_with_s,
    starts_with_str, string_of, strip_prefix_str, strip_suffix_str, subvec, take_chars,
    take_chars_exec, trim, trim_c, trim_char, trim_s, trim_start_c, trim_start_char, views, zpad,
};

verus! {

/// Audio root directory inside the vault.
pub const AUDIO_DIR: &'static str = "会议音频";

/// File name prefix of a segment.
pub const SEG_PREFIX: &'static str = "seg_";

/// Why a relative audio directory was refused.
#[derive(Debug, Clone, PartialEq, Eq)]
pub enum ClipPathError {
    /// the directory is blank
    Empty,
    /// absolute path, home path or drive letter
    NotRelative(String),
    /// an empty, `.` or `..` component
    BadComponent(String),
    /// a component holds a backslash
    Backslash(String),
}

/// Text of a refusal of an audio directory.
pub open spec fn clip_error_text(e: ClipPathError) -> Seq<char> {
    match e {
        ClipPathError::Empty => "音频目录不能为空"@,
        ClipPathError::NotRelative(p) => "音频目录必须是 vault 内的相对路径："@ + p@,
        ClipPathError::BadComponent(p) => "音频目录非法："@ + p@,
        ClipPathError::Backslash(p) => "音频目录不能包含反斜杠："@ + p@,
    }
}

impl ClipPathError {
    /// A message for the user.
    pub fn message(&self) -> (r: String)
        ensures
            r@ == clip_error_text(*self),
    {
        match self {
            ClipPathError::Empty => string_of(chars_of("音频目录不能为空").as_slice()),
            ClipPathError::NotRelative(p) => {
                let mut v = chars_of("音频目录必须是 vault 内的相对路径：");
                append_str(&mut v, p.as_str());
                string_of(v.as_slice())
            },
            ClipPathError::BadComponent(p) => {
                let mut v = chars_of("音频目录非法：");
                append_str(&mut v, p.as_str());
                string_of(v.as_slice())
            },
            ClipPathError::Backslash(p) => {
                let mut v = chars_of("音频目录不能包含反斜杠：");
                append_str(&mut v, p.as_str());
                string_of(v.as_slice())
            },
        }
    }
}

// ---------------------------------------------------------------- sessions

/// A session directory name: `YYYYMMDD-HHMM`.
pub open spec fn session_name(s: Seq<char>) -> bool {
    &&& s.len() == 13
    &&& s[8] == '-'
    &&& forall|i: int| 0 <= i < 13 && i != 8 ==> is_digit(#[trigger] s[i])
}

/// Whether the name is a session directory name (`YYYYMMDD-HHMM`).
pub fn is_session_name(name: &str) -> (b: bool)
    ensures
        b == session_name(name@),
{
    let v = chars_of(name);
    if v.len() != 13 || v[8] != '-' {
        return false;
    }
    let mut i: usize = 0;
    while i < 13
        invariant
            v@ == name@,
            v@.len() == 13,
            i <= 13,
            forall|k: int| 0 <= k < i && k != 8 ==> is_digit(#[trigger] v@[k]),
        decreases 13 - i,
    {
        if i != 8 && !('0' <= v[i] && v[i] <= '9') {
            assert(!is_digit(v@[i as int]));
            return false;
        }
        i = i + 1;
    }
    true
}

/// Meaning of `session_of_dir`.
pub open spec fn session_of_dir_s(dir: Seq<char>) -> Seq<char> {
    let last = after_last(dir, '/');
    if session_name(last) {
        last
    } else {
        seq![]
    }
}

/// The session a directory belongs to: its last component when that is a session
/// name, otherwise empty.
pub fn session_of_dir(dir: &str) -> (r: String)
    ensures
        r@ == session_of_dir_s(dir@),
{
    let v = chars_of(dir);
    let last = after_last_exec(v.as_slice(), '/');
    let s = string_of(last.as_slice());
    if is_session_name(s.as_str()) {
        s
    } else {
        String::new()
    }
}

/// `(secs.div_euclid(86_400), secs.rem_euclid(86_400))`.
pub fn div_rem_day(secs: i64) -> (r: (i64, i64))
    ensures
        r.0 == secs as int / 86_400,
        r.1 == secs as int % 86_400,
{
    let days: i64 = if secs >= 0 {
        secs / 86_400
    } else {
        -((-(secs + 1)) / 86_400) - 1
    };
    assert(days == secs as int / 86_400) by (nonlinear_arith)
        requires
            secs >= 0 ==> days == secs / 86_400,
            secs < 0 ==> days == -((-(secs + 1)) / 86_400) - 1,
    ;
    let rem128: i128 = secs as i128 - days as i128 * 86_400;
    assert(rem128 == secs as int % 86_400) by (nonlinear_arith)
        requires
            days == secs as int / 86_400,
            rem128 == secs - days * 86_400,
    ;
    (days, rem128 as i64)
}

/// Meaning of `session_id_at`: `YYYYMMDD-HHMM` of a Unix time (UTC).
pub open spec fn session_id_s(secs: int, y: int, m: int, d: int) -> Seq<char> {
    let rem = secs % 86_400;
    idec_pad_s(y, 4) + zpad(dec_s(m as nat), 2) + zpad(dec_s(d as nat), 2) + "-"@ + zpad(
        dec_s((rem / 3600) as nat),
        2,
    ) + zpad(dec_s(((rem % 3600) / 60) as nat), 2)
}

/// The decimal digits of a number: all digits, as many as its size asks.
pub proof fn lemma_dec_digits(n: nat)
    ensures
        dec_s(n).len() >= 1,
        forall|i: int| 0 <= i < dec_s(n).len() ==> is_digit(#[trigger] dec_s(n)[i]),
        n < 100 ==> dec_s(n).len() <= 2,
        n < 1000 ==> dec_s(n).len() <= 3,
        n < 10000 ==> dec_s(n).len() <= 4,
    decreases n,
{
    if n >= 10 {
        lemma_dec_digits(n / 10);
        let a = dec_s(n / 10);
        assert(dec_s(n) == a.push(crate::text::digit_char(n % 10)));
        assert forall|i: int| 0 <= i < dec_s(n).len() implies is_digit(#[trigger] dec_s(n)[i]) by {
            if i < a.len() {
                assert(dec_s(n)[i] == a[i]);
            }
        }
    }
}

/// A number below `10^w` padded with zeros to `w` places: `w` digits.
proof fn lemma_zpad_digits(n: nat, w: nat)
    requires
        dec_s(n).len() <= w,
    ensures
        zpad(dec_s(n), w).len() == w,
        forall|i: int| 0 <= i < w ==> is_digit(#[trigger] zpad(dec_s(n), w)[i]),
{
    lemma_dec_digits(n);
    let s = dec_s(n);
    let z = zpad(s, w);
    if s.len() < w {
        let pad = Seq::new((w - s.len()) as nat, |i: int| '0');
        assert(z == pad + s);
        assert forall|i: int| 0 <= i < w implies is_digit(#[trigger] z[i]) by {
            if i < pad.len() {
                assert(z[i] == '0');
            } else {
                assert(z[i] == s[i - pad.len()]);
            }
        }
    }
}

/// The id of a time from 1970 on and before the year 10000 is a session name.
proof fn lemma_session_id_name(secs: int, y: int, m: int, d: int)
    requires
        0 <= secs < 86_400 * crate::calendar::days_before_10000(),
        is_civil_of(secs / 86_400, y, m, d),
    ensures
        session_name(session_id_s(secs, y, m, d)),
{
    crate::calendar::lemma_civil_year_range(secs / 86_400, y, m, d);
    let rem = secs % 86_400;
    let h = rem / 3600;
    let mi = (rem % 3600) / 60;
    lemma_dec_digits(y as nat);
    lemma_dec_digits(m as nat);
    lemma_dec_digits(d as nat);
    lemma_dec_digits(h as nat);
    lemma_dec_digits(mi as nat);
    lemma_zpad_digits(y as nat, 4);
    lemma_zpad_digits(m as nat, 2);
    lemma_zpad_digits(d as nat, 2);
    lemma_zpad_digits(h as nat, 2);
    lemma_zpad_digits(mi as nat, 2);
    reveal_strlit("-");
    let a = zpad(dec_s(y as nat), 4);
    let b = zpad(dec_s(m as nat), 2);
    let c = zpad(dec_s(d as nat), 2);
    let e = zpad(dec_s(h as nat), 2);
    let f = zpad(dec_s(mi as nat), 2);
    let s = session_id_s(secs, y, m, d);
    assert(idec_pad_s(y, 4) == a);
    assert(s == a + b + c + "-"@ + e + f);
    assert(s.len() == 13);
    assert(s[8] == '-');
    assert forall|i: int| 0 <= i < 13 && i != 8 implies is_digit(#[trigger] s[i]) by {
        if i < 4 {
            assert(s[i] == a[i]);
        } else if i < 6 {
            assert(s[i] == b[i - 4]);
        } else if i < 8 {
            assert(s[i] == c[i - 6]);
        } else if i < 11 {
            assert(s[i] == e[i - 9]);
        } else {
            assert(s[i] == f[i - 11]);
        }
    }
}

/// The session id (`YYYYMMDD-HHMM`, UTC) of a Unix time in seconds.
pub fn session_id_at(secs: i64) -> (r: String)
    ensures
        exists|y: int, m: int, d: int|
            is_civil_of(secs as int / 86_400, y, m, d) && r@ == session_id_s(secs as int, y, m, d),
        0 <= secs < 253_402_300_800 ==> session_name(r@),
{
    let (days, rem) = div_rem_day(secs);
    let (y, m, d) = civil_from_days(days);
    let mut out = idec_pad(y, 4);
    let mv = dec_pad(m as u64, 2);
    append(&mut out, mv.as_slice());
    let dv = dec_pad(d as u64, 2);
    append(&mut out, dv.as_slice());
    append_str(&mut out, "-");
    let hv = dec_pad((rem / 3600) as u64, 2);
    append(&mut out, hv.as_slice());
    let minv = dec_pad(((rem % 3600) / 60) as u64, 2);
    append(&mut out, minv.as_slice());
    assert(out@ =~= session_id_s(secs as int, y as int, m as int, d as int));
    proof {
        if 0 <= secs < 253_402_300_800 {
            lemma_session_id_name(secs as int, y as int, m as int, d as int);
        }
    }
    string_of(out.as_slice())
}

/// Fallback session id from the current UTC time: the id of the clock's
/// seconds, 0 when the clock is before 1970 (`19700101-0000`); a session name
/// up to the year 9999.
pub fn session_id_now() -> (r: String)
    ensures
        exists|secs: int, y: int, m: int, d: int|
            secs >= 0 && is_civil_of(secs / 86_400, y, m, d) && r@ == session_id_s(secs, y, m, d) && (
            secs < 253_402_300_800 ==> session_name(r@)),
{
    let secs = crate::notes::now_secs();
    session_id_at(secs)
}

// ---------------------------------------------------------------- segment names

/// Meaning of `seg_seq`.
pub open spec fn seg_seq_s(name: Seq<char>) -> Option<i64> {
    if starts_with_s(name, SEG_PREFIX@) {
        let rest = name.skip(SEG_PREFIX@.len() as int);
        if ends_with_s(rest, ".wav"@) {
            parse_i64_s(rest.take(rest.len() - ".wav"@.len()))
        } else {
            None
        }
    } else {
        None
    }
}

/// Sequence number of a segment file name (`seg_XXXX.wav`); `None` for other names.
pub fn seg_seq(name: &str) -> (r: Option<i64>)
    ensures
        r == seg_seq_s(name@),
{
    let v = chars_of(name);
    match strip_prefix_str(v.as_slice(), SEG_PREFIX) {
        Some(rest) => match strip_suffix_str(rest.as_slice(), ".wav") {
            Some(num) => parse_i64(num.as_slice()),
            None => None,
        },
        None => None,
    }
}

/// Meaning of `seg_file`.
pub open spec fn seg_file_s(seq: int) -> Seq<char> {
    SEG_PREFIX@ + idec_pad_s(seq, 4) + ".wav"@
}

/// File name of a segment: `seg_0001.wav`.
pub fn seg_file(seq: i64) -> (r: String)
    ensures
        r@ == seg_file_s(seq as int),
{
    let mut v = chars_of(SEG_PREFIX);
    let n = idec_pad(seq, 4);
    append(&mut v, n.as_slice());
    append_str(&mut v, ".wav");
    string_of(v.as_slice())
}

// ---------------------------------------------------------------- directories of a note

/// A character replaced by `-` in file names.
pub open spec fn forbidden_char(c: char) -> bool {
    c == ':' || c == '*' || c == '?' || c == '"' || c == '<' || c == '>' || c == '|'
}

/// Characters among the first `n` that are not control characters, with the
/// forbidden ones replaced by `-`.
pub open spec fn cleaned_upto(s: Seq<char>, n: int) -> Seq<char>
    decreases n,
{
    if n <= 0 || n > s.len() {
        seq![]
    } else if is_ctrl(s[n - 1]) {
        cleaned_upto(s, n - 1)
    } else {
        cleaned_upto(s, n - 1).push(if forbidden_char(s[n - 1]) { '-' } else { s[n - 1] })
    }
}

/// A character trimmed from both ends of a path component: a dot or whitespace.
pub open spec fn dot_or_ws(c: char) -> bool {
    c == '.' || is_ws(c)
}

/// First index from `i` on that holds neither a dot nor whitespace (or the length).
pub open spec fn dw_skip(s: Seq<char>, i: int) -> int
    decreases s.len() - i,
{
    if 0 <= i < s.len() && dot_or_ws(s[i]) {
        dw_skip(s, i + 1)
    } else {
        i
    }
}

/// End of the text before `j` once trailing dots and whitespace are removed.
pub open spec fn dw_back(s: Seq<char>, j: int) -> int
    decreases j,
{
    if 0 < j <= s.len() && dot_or_ws(s[j - 1]) {
        dw_back(s, j - 1)
    } else {
        j
    }
}

/// The text with every leading and trailing dot and whitespace removed (what
/// trimming blanks and dots again and again until nothing changes leaves).
pub open spec fn trim_dw(s: Seq<char>) -> Seq<char> {
    let a = s.skip(dw_skip(s, 0));
    a.take(dw_back(a, a.len() as int))
}

proof fn lemma_dw_skip(s: Seq<char>, i: int)
    requires
        0 <= i <= s.len(),
    ensures
        i <= dw_skip(s, i) <= s.len(),
        dw_skip(s, i) < s.len() ==> !dot_or_ws(s[dw_skip(s, i)]),
    decreases s.len() - i,
{
    if i < s.len() && dot_or_ws(s[i]) {
        lemma_dw_skip(s, i + 1);
    }
}

proof fn lemma_dw_back(s: Seq<char>, j: int)
    requires
        0 <= j <= s.len(),
    ensures
        0 <= dw_back(s, j) <= j,
        dw_back(s, j) > 0 ==> !dot_or_ws(s[dw_back(s, j) - 1]),
    decreases j,
{
    if 0 < j && dot_or_ws(s[j - 1]) {
        lemma_dw_back(s, j - 1);
    }
}

/// After `trim_dw`, neither end is a dot or whitespace.
pub proof fn lemma_trim_dw_ends(s: Seq<char>)
    ensures
        trim_dw(s).len() <= s.len(),
        trim_dw(s).len() > 0 ==> !dot_or_ws(trim_dw(s)[0]) && !dot_or_ws(trim_dw(s).last()),
{
    lemma_dw_skip(s, 0);
    let a = s.skip(dw_skip(s, 0));
    lemma_dw_back(a, a.len() as int);
    let j = dw_back(a, a.len() as int);
    if j > 0 {
        assert(a[0] == s[dw_skip(s, 0)]);
        if j == a.len() {
        } else {
            assert(a[j - 1] == a.take(j).last());
        }
        if dw_skip(s, 0) == s.len() {
            assert(a.len() == 0);
        }
    }
}

/// Meaning of `sanitize_segment`.
pub open spec fn sanitize_segment_s(part: Seq<char>) -> Seq<char> {
    trim_dw(take_chars(trim_dw(cleaned_upto(part, part.len() as int)), 60))
}

/// A safe file name for one path component: control characters removed, characters
/// that file systems refuse replaced by `-`, dots and blanks trimmed, at most 60
/// characters.
pub fn sanitize_segment(part: &str) -> (r: String)
    ensures
        r@ == sanitize_segment_s(part@),
        r@.len() <= 60,
        r@.len() > 0 ==> r@[0] != '.' && r@.last() != '.' && !is_ws(r@[0]) && !is_ws(r@.last()),
        r@ != ".."@,
{
    let v = chars_of(part);
    let c = cleaned(v.as_slice());
    let r = sanitize_chars(c.as_slice());
    proof {
        reveal_strlit("..");
    }
    string_of(r.as_slice())
}

fn cleaned(v: &[char]) -> (r: Vec<char>)
    ensures
        r@ == cleaned_upto(v@, v@.len() as int),
{
    let mut r: Vec<char> = Vec::new();
    let mut i: usize = 0;
    while i < v.len()
        invariant
            i <= v@.len(),
            r@ == cleaned_upto(v@, i as int),
        decreases v@.len() - i,
    {
        let c = v[i];
        if !is_control(c) {
            if c == ':' || c == '*' || c == '?' || c == '"' || c == '<' || c == '>' || c == '|' {
                r.push('-');
            } else {
                r.push(c);
            }
        }
        i = i + 1;
    }
    r
}

fn trim_dw_exec(v: &[char]) -> (r: Vec<char>)
    ensures
        r@ == trim_dw(v@),
{
    let mut i: usize = 0;
    while i < v.len() && (v[i] == '.' || is_whitespace(v[i]))
        invariant
            i <= v@.len(),
            dw_skip(v@, i as int) == dw_skip(v@, 0),
        decreases v@.len() - i,
    {
        i = i + 1;
    }
    let a = subvec(v, i, v.len());
    assert(a@ =~= v@.skip(i as int));
    let mut j: usize = a.len();
    while j > 0 && (a[j - 1] == '.' || is_whitespace(a[j - 1]))
        invariant
            j <= a@.len(),
            dw_back(a@, j as int) == dw_back(a@, a@.len() as int),
        decreases j,
    {
        j = j - 1;
    }
    let r = subvec(a.as_slice(), 0, j);
    assert(r@ =~= a@.take(j as int));
    r
}

fn sanitize_chars(c: &[char]) -> (r: Vec<char>)
    ensures
        r@ == trim_dw(take_chars(trim_dw(c@), 60)),
        r@.len() <= 60,
        r@.len() > 0 ==> !dot_or_ws(r@[0]) && !dot_or_ws(r@.last()),
{
    let t1 = trim_dw_exec(c);
    let t2 = take_chars_exec(t1.as_slice(), 60);
    let r = trim_dw_exec(t2.as_slice());
    proof {
        lemma_trim_dw_ends(t2@);
    }
    r
}

/// `note_id` with surrounding whitespace and leading `/` removed.
pub open spec fn note_stem(note_id: Seq<char>) -> Seq<char> {
    let id = trim_start_c(trim_s(note_id), '/');
    if ends_with_s(id, ".md"@) {
        id.take(id.len() - 3)
    } else {
        id
    }
}

fn note_stem_exec(note_id: &str) -> (r: Vec<char>)
    ensures
        r@ == note_stem(note_id@),
{
    let t = trim(chars_of(note_id).as_slice());
    let id = trim_start_char(t.as_slice(), '/');
    match strip_suffix_str(id.as_slice(), ".md") {
        Some(stem) => {
            proof {
                reveal_strlit(".md");
            }
            stem
        },
        None => id,
    }
}

/// Sanitized non-empty components among the first `n`.
pub open spec fn dir_parts_upto(ps: Seq<Seq<char>>, n: int) -> Seq<Seq<char>>
    decreases n,
{
    if n <= 0 || n > ps.len() {
        seq![]
    } else if sanitize_segment_s(ps[n - 1]).len() > 0 {
        dir_parts_upto(ps, n - 1).push(sanitize_segment_s(ps[n - 1]))
    } else {
        dir_parts_upto(ps, n - 1)
    }
}

/// Meaning of `dir_for_note`.
pub open spec fn dir_for_note_s(note_id: Seq<char>) -> Seq<char> {
    let ps = split_s(replace_char_s(note_stem(note_id), '\\', '/'), '/');
    let parts = dir_parts_upto(ps, ps.len() as int);
    if parts.len() == 0 {
        "未命名"@
    } else {
        join_s(parts, "/"@)
    }
}

/// Audio directory of a note, following its path (`会议/周会.md` → `会议/周会`).
pub fn dir_for_note(note_id: &str) -> (r: String)
    ensures
        r@ == dir_for_note_s(note_id@),
{
    let stem = note_stem_exec(note_id);
    let unified = replace_char(stem.as_slice(), '\\', '/');
    let ps = split_char(unified.as_slice(), '/');
    let ghost pv = views(ps@);
    let mut parts: Vec<Vec<char>> = Vec::new();
    let mut i: usize = 0;
    while i < ps.len()
        invariant
            i <= ps@.len(),
            pv == views(ps@),
            views(parts@) == dir_parts_upto(pv, i as int),
        decreases ps@.len() - i,
    {
        assert(pv[i as int] == ps@[i as int]@);
        let c = cleaned(ps[i].as_slice());
        let s = sanitize_chars(c.as_slice());
        if s.len() > 0 {
            let ghost prev = views(parts@);
            parts.push(s);
            assert(views(parts@) =~= prev.push(sanitize_segment_s(pv[i as int])));
        }
        i = i + 1;
    }
    if parts.len() == 0 {
        return string_of(chars_of("未命名").as_slice());
    }
    string_of(join_str(&parts, "/").as_slice())
}

/// Meaning of `dir_for_note_legacy`.
pub open spec fn dir_for_note_legacy_s(note_id: Seq<char>) -> Seq<char> {
    let stem = note_stem(note_id);
    let stem2 = if starts_with_s(stem, "会议/"@) {
        stem.skip("会议/"@.len() as int)
    } else {
        stem
    };
    let s = trim_s(trim_c(trim_s(replace_char_s(replace_char_s(stem2, '/', '_'), '\\', '_')), '.'));
    if s.len() == 0 {
        "未命名会议"@
    } else {
        take_chars(s, 60)
    }
}

/// Directory name of the first release (0.1.x): without the `会议/` prefix, path
/// separators turned into `_`. Only used to list old recordings.
pub fn dir_for_note_legacy(note_id: &str) -> (r: String)
    ensures
        r@ == dir_for_note_legacy_s(note_id@),
{
    let stem = note_stem_exec(note_id);
    let stem2 = match strip_prefix_str(stem.as_slice(), "会议/") {
        Some(rest) => rest,
        None => stem,
    };
    let a = replace_char(stem2.as_slice(), '/', '_');
    let b = replace_char(a.as_slice(), '\\', '_');
    let t1 = trim(b.as_slice());
    let t2 = trim_char(t1.as_slice(), '.');
    let s = trim(t2.as_slice());
    if s.len() == 0 {
        return string_of(chars_of("未命名会议").as_slice());
    }
    string_of(take_chars_exec(s.as_slice(), 60).as_slice())
}

/// Meaning of `dirs_for_note`: the new directory, then the legacy one when it differs.
pub open spec fn dirs_for_note_s(note_id: Seq<char>) -> Seq<Seq<char>> {
    if dir_for_note_legacy_s(note_id) == dir_for_note_s(note_id) {
        seq![dir_for_note_s(note_id)]
    } else {
        seq![dir_for_note_s(note_id), dir_for_note_legacy_s(note_id)]
    }
}

/// The audio directories a note may have (new and legacy, without duplicates).
pub fn dirs_for_note(note_id: &str) -> (r: Vec<String>)
    ensures
        r@.len() == dirs_for_note_s(note_id@).len(),
        forall|i: int| 0 <= i < r@.len() ==> #[trigger] r@[i]@ == dirs_for_note_s(note_id@)[i],
{
    let d = dir_for_note(note_id);
    let l = dir_for_note_legacy(note_id);
    let same = eq_chars(chars_of(d.as_str()).as_slice(), chars_of(l.as_str()).as_slice());
    let mut out: Vec<String> = Vec::new();
    out.push(d);
    if !same {
        out.push(l);
    }
    out
}

/// Whether `dir` is `base` or a session below it.
pub open spec fn dir_matches_s(dir: Seq<char>, base: Seq<char>) -> bool {
    dir == base || starts_with_s(dir, base + "/"@)
}

/// `dir` is `base` itself or a directory below it (`会议/周会` matches
/// `会议/周会/20260923-1430`).
pub fn dir_matches(dir: &str, base: &str) -> (b: bool)
    ensures
        b == dir_matches_s(dir@, base@),
{
    let d = chars_of(dir);
    let mut b = chars_of(base);
    if eq_chars(d.as_slice(), b.as_slice()) {
        return true;
    }
    append_str(&mut b, "/");
    starts_with(d.as_slice(), b.as_slice())
}

/// A directory matches a note directory exactly when it is that directory or
/// lies below it: the note directory, a slash, then anything (a session).
pub proof fn lemma_dir_matches_below(dir: Seq<char>, base: Seq<char>)
    ensures
        dir_matches_s(base, base),
        forall|rest: Seq<char>| #[trigger] dir_matches_s(base + "/"@ + rest, base),
        dir_matches_s(dir, base) <==> (dir == base || exists|rest: Seq<char>| dir == base + "/"@ + rest),
{
    reveal_strlit("/");
    assert forall|rest: Seq<char>| #[trigger] dir_matches_s(base + "/"@ + rest, base) by {
        let d = base + "/"@ + rest;
        assert(d.take((base + "/"@).len() as int) =~= base + "/"@);
    }
    if starts_with_s(dir, base + "/"@) {
        let rest = dir.skip((base + "/"@).len() as int);
        assert(dir =~= base + "/"@ + rest);
    }
    if exists|rest: Seq<char>| dir == base + "/"@ + rest {
        let rest = choose|rest: Seq<char>| dir == base + "/"@ + rest;
        assert(dir.take((base + "/"@).len() as int) =~= base + "/"@);
    }
}

// ---------------------------------------------------------------- relative paths

/// Meaning of `safe_rel`: the trimmed path, or the kind of error
/// (0 blank, 1 not relative, 2 bad component, 3 backslash).
pub open spec fn safe_rel_s(rel: Seq<char>) -> Result<Seq<char>, int> {
    let t = trim_s(rel);
    if t.len() == 0 {
        Err(0)
    } else if starts_with_s(t, "/"@) || starts_with_s(t, "\\"@) || starts_with_s(t, "~"@)
        || has_char(t, ':') {
        Err(1)
    } else {
        let ps = split_s(t, '/');
        match bad_part(ps, 0) {
            Some(true) => Err(2),
            Some(false) => Err(3),
            None => Ok(t),
        }
    }
}

/// The kind of the first bad component from `i` on: `true` for an empty, `.` or
/// `..` component, `false` for one with a backslash.
pub open spec fn bad_part(ps: Seq<Seq<char>>, i: int) -> Option<bool>
    decreases ps.len() - i,
{
    if i < 0 || i >= ps.len() {
        None
    } else if ps[i].len() == 0 || ps[i] == "."@ || ps[i] == ".."@ {
        Some(true)
    } else if has_char(ps[i], '\\') {
        Some(false)
    } else {
        bad_part(ps, i + 1)
    }
}

/// The error carries the trimmed path.
pub open spec fn error_path(e: ClipPathError, t: Seq<char>) -> bool {
    match e {
        ClipPathError::Empty => true,
        ClipPathError::NotRelative(p) => p@ == t,
        ClipPathError::BadComponent(p) => p@ == t,
        ClipPathError::Backslash(p) => p@ == t,
    }
}

/// The kind of an error (0 blank, 1 not relative, 2 bad component, 3 backslash).
pub open spec fn kind_of(e: ClipPathError) -> int {
    match e {
        ClipPathError::Empty => 0,
        ClipPathError::NotRelative(_) => 1,
        ClipPathError::BadComponent(_) => 2,
        ClipPathError::Backslash(_) => 3,
    }
}

/// Checks a relative directory: only relative paths inside the vault, without
/// empty, `.` or `..` components or backslashes. Returns it trimmed.
pub fn safe_rel(rel: &str) -> (r: Result<String, ClipPathError>)
    ensures
        match (r, safe_rel_s(rel@)) {
            (Ok(p), Ok(q)) => p@ == q,
            (Err(e), Err(k)) => kind_of(e) == k && error_path(e, trim_s(rel@)),
            _ => false,
        },
{
    let t = trim(chars_of(rel).as_slice());
    if t.len() == 0 {
        return Err(ClipPathError::Empty);
    }
    if starts_with_str(t.as_slice(), "/") || starts_with_str(t.as_slice(), "\\")
        || starts_with_str(t.as_slice(), "~") || has_char_exec(t.as_slice(), ':') {
        return Err(ClipPathError::NotRelative(string_of(t.as_slice())));
    }
    let ps = split_char(t.as_slice(), '/');
    let ghost pv = views(ps@);
    let mut i: usize = 0;
    while i < ps.len()
        invariant
            i <= ps@.len(),
            pv == views(ps@),
            pv == split_s(t@, '/'),
            t@ == trim_s(rel@),
            t@.len() > 0,
            !(starts_with_s(t@, "/"@) || starts_with_s(t@, "\\"@) || starts_with_s(t@, "~"@)
                || has_char(t@, ':')),
            bad_part(pv, i as int) == bad_part(pv, 0),
        decreases ps@.len() - i,
    {
        assert(pv[i as int] == ps@[i as int]@);
        let p = ps[i].as_slice();
        if p.len() == 0 || eq_chars(p, chars_of(".").as_slice()) || eq_chars(
            p,
            chars_of("..").as_slice(),
        ) {
            return Err(ClipPathError::BadComponent(string_of(t.as_slice())));
        }
        if has_char_exec(p, '\\') {
            return Err(ClipPathError::Backslash(string_of(t.as_slice())));
        }
        i = i + 1;
    }
    Ok(string_of(t.as_slice()))
}

/// `safe_rel(dir).unwrap_or_default()`.
pub open spec fn safe_rel_or_empty(dir: Seq<char>) -> Seq<char> {
    match safe_rel_s(dir) {
        Ok(t) => t,
        Err(_) => seq![],
    }
}

fn safe_rel_or_empty_exec(dir: &str) -> (r: Vec<char>)
    ensures
        r@ == safe_rel_or_empty(dir@),
{
    match safe_rel(dir) {
        Ok(t) => chars_of(t.as_str()),
        Err(_) => Vec::new(),
    }
}

/// Meaning of `session_ref_line`.
pub open spec fn session_ref_line_s(dir: Seq<char>) -> Seq<char> {
    "/v "@ + AUDIO_DIR@ + "/"@ + safe_rel_or_empty(dir) + "/"@
}

/// Reference line of a whole session: `/v 会议音频/<dir>/` (the trailing slash
/// makes it a directory that the player plays segment after segment).
pub fn session_ref_line(dir: &str) -> (r: String)
    ensures
        r@ == session_ref_line_s(dir@),
{
    let mut v = chars_of("/v ");
    append_str(&mut v, AUDIO_DIR);
    append_str(&mut v, "/");
    let d = safe_rel_or_empty_exec(dir);
    append(&mut v, d.as_slice());
    append_str(&mut v, "/");
    string_of(v.as_slice())
}

/// Meaning of `rel_path`.
pub open spec fn rel_path_s(dir: Seq<char>, seq: int) -> Seq<char> {
    AUDIO_DIR@ + "/"@ + safe_rel_or_empty(dir) + "/"@ + seg_file_s(seq)
}

/// Vault-relative path of a segment (always `/`-separated), as written into `/v`
/// references.
pub fn rel_path(dir: &str, seq: i64) -> (r: String)
    ensures
        r@ == rel_path_s(dir@, seq as int),
{
    let mut v = chars_of(AUDIO_DIR);
    append_str(&mut v, "/");
    let d = safe_rel_or_empty_exec(dir);
    append(&mut v, d.as_slice());
    append_str(&mut v, "/");
    let f = seg_file(seq);
    append_str(&mut v, f.as_str());
    string_of(v.as_slice())
}

/// Meaning of `session_dir_for_note`.
pub open spec fn session_dir_s(note_id: Seq<char>, session: Seq<char>) -> Seq<char> {
    dir_for_note_s(note_id) + "/"@ + session
}

/// Directory of a new recording session of a note: the note's directory plus the
/// session id, taken from `session` when that (trimmed) is a session name and from
/// the clock at `now_secs` otherwise.
pub fn session_dir_for_note(note_id: &str, session: Option<&str>, now_secs: i64) -> (r: String)
    ensures
        match session {
            Some(s) if session_name(trim_s(s@)) => r@ == session_dir_s(note_id@, trim_s(s@)),
            _ => exists|y: int, m: int, d: int|
                is_civil_of(now_secs as int / 86_400, y, m, d) && r@ == session_dir_s(
                    note_id@,
                    session_id_s(now_secs as int, y, m, d),
                ),
        },
{
    let base = dir_for_note(note_id);
    let chosen: Option<Vec<char>> = match session {
        Some(s) => {
            let t = trim(chars_of(s).as_slice());
            if is_session_name(string_of(t.as_slice()).as_str()) {
                Some(t)
            } else {
                None
            }
        },
        None => None,
    };
    let mut v = chars_of(base.as_str());
    append_str(&mut v, "/");
    match chosen {
        Some(t) => {
            append(&mut v, t.as_slice());
        },
        None => {
            let id = session_id_at(now_secs);
            append_str(&mut v, id.as_str());
        },
    }
    string_of(v.as_slice())
}

// ---------------------------------------------------------------- recordings on disk

/// A recording found under the audio directory.
#[derive(Debug, Clone)]
pub struct ClipInfo {
    /// directory relative to the audio directory
    pub dir: String,
    pub file: String,
    /// vault-relative path, as written after `/v`
    pub path: String,
    pub seq: i64,
    /// session id, empty for an old flat directory
    pub session: String,
    pub bytes: u64,
    pub duration_ms: u64,
    pub sample_rate: u32,
    pub modified_at: i64,
}

/// A recording being made or just made.
#[derive(Debug, Clone)]
pub struct ClipStat {
    pub dir: String,
    pub file: String,
    pub path: String,
    pub seq: i64,
    /// session id, empty for an old flat directory
    pub session: String,
    pub bytes: u64,
    pub duration_ms: u64,
    pub sample_rate: u32,
    /// reference line of this recording
    pub ref_line: String,
    /// reference line of its whole session
    pub session_ref_line: String,
}

/// A recording of a session.
#[derive(Debug, Clone, PartialEq)]
pub struct SegRef {
    pub file: String,
    /// vault-relative path
    pub path: String,
    pub seq: i64,
    pub bytes: u64,
    pub duration_ms: u64,
}

/// The report of the recording `seq` in `dir`, from what the disk says of it.
pub fn clip_stat(dir: &str, seq: i64, bytes: u64, duration_ms: u64, sample_rate: u32) -> (r: Result<
    ClipStat,
    ClipPathError,
>)
    ensures
        match safe_rel_s(dir@) {
            Ok(d) => r is Ok && {
                let c = r->Ok_0;
                &&& c.dir@ == d
                &&& c.file@ == seg_file_s(seq as int)
                &&& c.path@ == rel_path_s(d, seq as int)
                &&& c.seq == seq
                &&& c.session@ == session_of_dir_s(d)
                &&& c.bytes == bytes
                &&& c.duration_ms == duration_ms
                &&& c.sample_rate == sample_rate
                &&& c.ref_line@ == "/v "@ + rel_path_s(d, seq as int)
                &&& c.session_ref_line@ == session_ref_line_s(d)
            },
            Err(k) => r is Err && kind_of(r->Err_0) == k,
        },
{
    let d = match safe_rel(dir) {
        Ok(d) => d,
        Err(e) => return Err(e),
    };
    let rel = rel_path(d.as_str(), seq);
    let mut ref_line = chars_of("/v ");
    append_str(&mut ref_line, rel.as_str());
    Ok(
        ClipStat {
            session: session_of_dir(d.as_str()),
            session_ref_line: session_ref_line(d.as_str()),
            file: seg_file(seq),
            path: rel,
            dir: d,
            seq,
            bytes,
            duration_ms,
            sample_rate,
            ref_line: string_of(ref_line.as_slice()),
        },
    )
}

/// Highest sequence number among the names, plus one (one when none is a segment).
pub open spec fn next_seq_upto(names: Seq<Seq<char>>, n: int) -> int
    decreases n,
{
    if n <= 0 || n > names.len() {
        0
    } else {
        let m = next_seq_upto(names, n - 1);
        match seg_seq_s(names[n - 1]) {
            Some(k) => if k > m {
                k as int
            } else {
                m
            },
            None => m,
        }
    }
}

/// The highest number among the segment names so far: no smaller than any of
/// them, and one of them (or 0 when there is none above 0).
proof fn lemma_next_seq_upto(names: Seq<Seq<char>>, n: int)
    requires
        0 <= n <= names.len(),
    ensures
        next_seq_upto(names, n) >= 0,
        forall|i: int|
            0 <= i < n ==> match seg_seq_s(#[trigger] names[i]) {
                Some(k) => k <= next_seq_upto(names, n),
                None => true,
            },
        next_seq_upto(names, n) == 0 || exists|i: int|
            0 <= i < n && seg_seq_s(#[trigger] names[i]) == Some(next_seq_upto(names, n) as i64),
    decreases n,
{
    if n > 0 {
        lemma_next_seq_upto(names, n - 1);
        let m = next_seq_upto(names, n - 1);
        if m != 0 && next_seq_upto(names, n) == m {
            let i = choose|i: int| 0 <= i < n - 1 && seg_seq_s(#[trigger] names[i]) == Some(m as i64);
            assert(0 <= i < n && seg_seq_s(names[i]) == Some(next_seq_upto(names, n) as i64));
        }
        if next_seq_upto(names, n) != m {
            assert(seg_seq_s(names[n - 1]) == Some(next_seq_upto(names, n) as i64));
        }
    }
}

/// The next free sequence number in a directory holding the files `names`.
pub fn next_seq_of(names: &[String]) -> (r: i64)
    requires
        forall|i: int|
            0 <= i < names@.len() ==> match seg_seq_s(#[trigger] names@[i]@) {
                Some(k) => k < i64::MAX,
                None => true,
            },
    ensures
        r == next_seq_upto(crate::text::str_views(names@), names@.len() as int) + 1,
        r >= 1,
        forall|i: int|
            0 <= i < names@.len() ==> match seg_seq_s(#[trigger] names@[i]@) {
                Some(k) => k < r,
                None => true,
            },
        r == 1 || exists|i: int| 0 <= i < names@.len() && seg_seq_s(#[trigger] names@[i]@) == Some((r - 1) as i64),
{

    let ghost nv = crate::text::str_views(names@);
    let mut max: i64 = 0;
    let mut i: usize = 0;
    while i < names.len()
        invariant
            i <= names@.len(),
            nv == crate::text::str_views(names@),
            forall|k: int|
                0 <= k < names@.len() ==> match seg_seq_s(#[trigger] names@[k]@) {
                    Some(q) => q < i64::MAX,
                    None => true,
                },
            max == next_seq_upto(nv, i as int),
            0 <= max < i64::MAX,
        decreases names@.len() - i,
    {
        assert(nv[i as int] == names@[i as int]@);
        match seg_seq(names[i].as_str()) {
            Some(n) => {
                if n > max {
                    max = n;
                }
            },
            None => {},
        }
        i = i + 1;
    }
    proof {
        lemma_next_seq_upto(nv, names@.len() as int);
        assert forall|i: int| 0 <= i < names@.len() implies match seg_seq_s(#[trigger] names@[i]@) {
            Some(k) => k < max + 1,
            None => true,
        } by {
            assert(nv[i] == names@[i]@);
        }
        if max != 0 {
            let i = choose|i: int| 0 <= i < names@.len() && seg_seq_s(#[trigger] nv[i]) == Some(max);
            assert(nv[i] == names@[i]@);
        }
    }
    max + 1
}

/// Meaning of `clip_file_parts`: a path under the audio directory to a
/// `.wav` file, split into its safe directory and file name.
pub open spec fn clip_file_parts_s(rel: Seq<char>) -> Option<(Seq<char>, Seq<char>)> {
    let r = replace_char_s(trim_s(rel), '\\', '/');
    let p = AUDIO_DIR@ + "/"@;
    if !starts_with_s(r, p) {
        None
    } else {
        let rest = r.skip(p.len() as int);
        let k = last_idx(rest, '/', rest.len() as int);
        if !ends_with_s(rest, ".wav"@) || k < 0 {
            None
        } else {
            let dir = rest.take(k);
            let file = rest.skip(k + 1);
            if file.len() == 0 || file == "."@ || file == ".."@ || has_char(file, '\\') {
                None
            } else {
                match safe_rel_s(dir) {
                    Ok(d) => Some((d, file)),
                    Err(_) => None,
                }
            }
        }
    }
}

/// Where a recording named by its vault-relative path lives: its directory
/// (relative to the audio directory) and file name.
pub fn clip_file_parts(rel: &str) -> (r: Option<(String, String)>)
    ensures
        match clip_file_parts_s(rel@) {
            Some((d, f)) => r is Some && (r->0).0@ == d && (r->0).1@ == f,
            None => r is None,
        },
{
    let r = replace_char(trim(chars_of(rel).as_slice()).as_slice(), '\\', '/');
    let mut p = chars_of(AUDIO_DIR);
    append_str(&mut p, "/");
    if !starts_with(r.as_slice(), p.as_slice()) {
        return None;
    }
    let rest = subvec(r.as_slice(), p.len(), r.len());
    assert(rest@ =~= r@.skip(p@.len() as int));
    if !crate::text::ends_with_str(rest.as_slice(), ".wav") {
        return None;
    }
    proof {
        lemma_last_idx(rest@, '/', rest@.len() as int);
    }
    let k = match crate::text::last_idx_exec(rest.as_slice(), '/') {
        Some(k) => k,
        None => return None,
    };
    let dir = subvec(rest.as_slice(), 0, k);
    let file = subvec(rest.as_slice(), k + 1, rest.len());
    assert(dir@ =~= rest@.take(k as int));
    assert(file@ =~= rest@.skip(k + 1));
    if file.len() == 0 || eq_chars(file.as_slice(), chars_of(".").as_slice()) || eq_chars(
        file.as_slice(),
        chars_of("..").as_slice(),
    ) || has_char_exec(file.as_slice(), '\\') {
        return None;
    }
    match safe_rel(string_of(dir.as_slice()).as_str()) {
        Ok(d) => Some((d, string_of(file.as_slice()))),
        Err(_) => None,
    }
}

/// Why a recording may not be deleted by path.
#[derive(Debug, Clone, PartialEq, Eq)]
pub enum RemovePathError {
    /// not under the audio directory: the path
    OutsideAudio(String),
    /// no directory part: the path
    BadPath(String),
    /// not a `seg_*.wav` file: the file name
    NotSegment(String),
}

/// Meaning of `removable_parts`: the directory and file of a `seg_*.wav`
/// recording under the audio directory; `0`, `1`, `2` name the refusals in
/// the order they are checked.
pub open spec fn removable_parts_s(rel: Seq<char>) -> Result<(Seq<char>, Seq<char>), (int, Seq<char>)> {
    let r = replace_char_s(trim_s(rel), '\\', '/');
    let p = AUDIO_DIR@ + "/"@;
    if !starts_with_s(r, p) {
        Err((0, r))
    } else {
        let rest = r.skip(p.len() as int);
        let k = last_idx(rest, '/', rest.len() as int);
        if k < 0 {
            Err((1, r))
        } else {
            let file = rest.skip(k + 1);
            if !starts_with_s(file, SEG_PREFIX@) || !ends_with_s(file, ".wav"@) {
                Err((2, file))
            } else {
                Ok((rest.take(k), file))
            }
        }
    }
}

/// View of a refusal: which check failed and the text it names.
pub open spec fn remove_error_view(e: RemovePathError) -> (int, Seq<char>) {
    match e {
        RemovePathError::OutsideAudio(p) => (0, p@),
        RemovePathError::BadPath(p) => (1, p@),
        RemovePathError::NotSegment(f) => (2, f@),
    }
}

impl RemovePathError {
    /// A message for the user.
    pub fn message(&self) -> (r: String)
        ensures
            r@ == match *self {
                RemovePathError::OutsideAudio(p) => "只能删除 "@ + AUDIO_DIR@ + "/ 下的录音："@ + p@,
                RemovePathError::BadPath(p) => "录音路径非法："@ + p@,
                RemovePathError::NotSegment(f) => "不是录音分段："@ + f@,
            },
    {
        let mut v: Vec<char> = Vec::new();
        match self {
            RemovePathError::OutsideAudio(p) => {
                append_str(&mut v, "只能删除 ");
                append_str(&mut v, AUDIO_DIR);
                append_str(&mut v, "/ 下的录音：");
                append_str(&mut v, p.as_str());
            },
            RemovePathError::BadPath(p) => {
                append_str(&mut v, "录音路径非法：");
                append_str(&mut v, p.as_str());
            },
            RemovePathError::NotSegment(f) => {
                append_str(&mut v, "不是录音分段：");
                append_str(&mut v, f.as_str());
            },
        }
        string_of(v.as_slice())
    }
}

/// The directory and file of a recording that may be deleted by its path.
pub fn removable_parts(rel: &str) -> (r: Result<(String, String), RemovePathError>)
    ensures
        match removable_parts_s(rel@) {
            Ok((d, f)) => r is Ok && (r->Ok_0).0@ == d && (r->Ok_0).1@ == f,
            Err(e) => r is Err && remove_error_view(r->Err_0) == e,
        },
{
    let r = replace_char(trim(chars_of(rel).as_slice()).as_slice(), '\\', '/');
    let mut p = chars_of(AUDIO_DIR);
    append_str(&mut p, "/");
    if !starts_with(r.as_slice(), p.as_slice()) {
        return Err(RemovePathError::OutsideAudio(string_of(r.as_slice())));
    }
    let rest = subvec(r.as_slice(), p.len(), r.len());
    assert(rest@ =~= r@.skip(p@.len() as int));
    proof {
        lemma_last_idx(rest@, '/', rest@.len() as int);
    }
    let k = match crate::text::last_idx_exec(rest.as_slice(), '/') {
        Some(k) => k,
        None => return Err(RemovePathError::BadPath(string_of(r.as_slice()))),
    };
    let file = subvec(rest.as_slice(), k + 1, rest.len());
    assert(file@ =~= rest@.skip(k + 1));
    if !starts_with_str(file.as_slice(), SEG_PREFIX) || !crate::text::ends_with_str(file.as_slice(), ".wav") {
        return Err(RemovePathError::NotSegment(string_of(file.as_slice())));
    }
    let dir = subvec(rest.as_slice(), 0, k);
    assert(dir@ =~= rest@.take(k as int));
    Ok((string_of(dir.as_slice()), string_of(file.as_slice())))
}

/// Meaning of `wav_meta_of`: the sample rate and the length in
/// milliseconds of a WAV whose first bytes are `head`, with the data length
/// taken from the file size when the header gives none or too much.
pub open spec fn wav_meta_s(head: Seq<u8>, file_size: u64) -> (u32, u64) {
    match crate::audio::parse_wav_head_s(head) {
        None => (0, 0),
        Some(info) => {
            let actual: int = if file_size >= info.data_offset { file_size - info.data_offset } else { 0 };
            let data_len: int = if info.data_length > 0 {
                if info.data_length < actual { info.data_length as int } else { actual }
            } else {
                actual
            };
            let rate: int = if info.byte_rate >= 1 { info.byte_rate as int } else { 1 };
            (info.sample_rate, (data_len * 1000 / rate) as u64)
        },
    }
}

/// Sample rate and length of a WAV file from its first bytes and its size.
pub fn wav_meta_of(head: &[u8], file_size: u64) -> (r: (u32, u64))
    requires
        file_size <= u64::MAX / 1000,
    ensures
        r == wav_meta_s(head@, file_size),
{
    match crate::audio::parse_wav_head(head) {
        None => (0, 0),
        Some(info) => {
            let off = info.data_offset as u64;
            let actual: u64 = if file_size >= off { file_size - off } else { 0 };
            let data_len: u64 = if info.data_length > 0 {
                if (info.data_length as u64) < actual { info.data_length as u64 } else { actual }
            } else {
                actual
            };
            let rate: u64 = if info.byte_rate >= 1 { info.byte_rate as u64 } else { 1 };
            (info.sample_rate, data_len * 1000 / rate)
        },
    }
}

// ---------------------------------------------------------------- ordering recordings

/// `a` comes before `b` in the order of their characters (the order `String` compares in).
pub open spec fn text_lt(a: Seq<char>, b: Seq<char>) -> bool
    decreases a.len(),
{
    if a.len() == 0 {
        b.len() > 0
    } else if b.len() == 0 {
        false
    } else if a[0] != b[0] {
        (a[0] as u32) < (b[0] as u32)
    } else {
        text_lt(a.drop_first(), b.drop_first())
    }
}

pub(crate) fn text_lt_exec(a: &[char], b: &[char]) -> (r: bool)
    ensures
        r == text_lt(a@, b@),
{
    let mut i: usize = 0;
    assert(a@.skip(0) =~= a@);
    assert(b@.skip(0) =~= b@);
    while i < a.len() && i < b.len() && a[i] == b[i]
        invariant
            i <= a@.len(),
            i <= b@.len(),
            text_lt(a@.skip(i as int), b@.skip(i as int)) == text_lt(a@, b@),
        decreases a@.len() - i,
    {
        assert(a@.skip(i as int).drop_first() =~= a@.skip(i + 1));
        assert(b@.skip(i as int).drop_first() =~= b@.skip(i + 1));
        i = i + 1;
    }
    if i == a.len() {
        i < b.len()
    } else if i == b.len() {
        false
    } else {
        (a[i] as u32) < (b[i] as u32)
    }
}

/// Recording `a` sorts before `b`: by directory, then by number.
pub open spec fn clip_lt(a: ClipInfo, b: ClipInfo) -> bool {
    text_lt(a.dir@, b.dir@) || (a.dir@ == b.dir@ && a.seq < b.seq)
}

/// Index of the first element from `i` on that `x` sorts before.
pub open spec fn clip_slot(s: Seq<ClipInfo>, x: ClipInfo, i: int) -> int
    decreases s.len() - i,
{
    if i < 0 || i >= s.len() || clip_lt(x, s[i]) {
        i
    } else {
        clip_slot(s, x, i + 1)
    }
}

/// Stable sort of recordings by directory and number (each element goes
/// after those it does not sort before).
pub open spec fn sort_clips_s(s: Seq<ClipInfo>) -> Seq<ClipInfo>
    decreases s.len(),
{
    if s.len() == 0 {
        s
    } else {
        let t = sort_clips_s(s.drop_last());
        let p = clip_slot(t, s.last(), 0);
        t.insert(p, s.last())
    }
}

proof fn lemma_clip_slot(s: Seq<ClipInfo>, x: ClipInfo, i: int)
    requires
        0 <= i <= s.len(),
    ensures
        i <= clip_slot(s, x, i) <= s.len(),
    decreases s.len() - i,
{
    if i < s.len() && !clip_lt(x, s[i]) {
        lemma_clip_slot(s, x, i + 1);
    }
}

proof fn lemma_sort_clips_len(s: Seq<ClipInfo>)
    ensures
        sort_clips_s(s).len() == s.len(),
    decreases s.len(),
{
    if s.len() > 0 {
        lemma_sort_clips_len(s.drop_last());
        lemma_clip_slot(sort_clips_s(s.drop_last()), s.last(), 0);
    }
}

fn clip_lt_exec(a: &ClipInfo, b: &ClipInfo) -> (r: bool)
    ensures
        r == clip_lt(*a, *b),
{
    let ad = chars_of(a.dir.as_str());
    let bd = chars_of(b.dir.as_str());
    text_lt_exec(ad.as_slice(), bd.as_slice()) || (eq_chars(ad.as_slice(), bd.as_slice()) && a.seq < b.seq)
}

/// Recordings sorted by directory, then number; equal keys keep their order.
pub fn sort_clips(clips: Vec<ClipInfo>) -> (r: Vec<ClipInfo>)
    ensures
        r@ == sort_clips_s(clips@),
        clips_sorted(r@),
        r@.to_multiset() =~= clips@.to_multiset(),
{
    proof {
        lemma_sort_clips_sorted(clips@);
    }
    let ghost all = clips@;
    let total = clips.len();
    let mut input = clips;
    let mut out: Vec<ClipInfo> = Vec::new();
    let mut n: usize = 0;
    while input.len() > 0
        invariant
            total == all.len(),
            n + input@.len() == all.len(),
            input@ == all.skip(n as int),
            out@ == sort_clips_s(all.take(n as int)),
        decreases input@.len(),
    {
        let x = input.remove(0);
        assert(x == all[n as int]);
        assert(all.take(n + 1).drop_last() =~= all.take(n as int));
        proof {
            lemma_sort_clips_len(all.take(n as int));
            lemma_clip_slot(out@, x, 0);
        }
        let mut p: usize = 0;
        while p < out.len() && !clip_lt_exec(&x, &out[p])
            invariant
                p <= out@.len(),
                clip_slot(out@, x, p as int) == clip_slot(out@, x, 0),
            decreases out@.len() - p,
        {
            p = p + 1;
        }
        out.insert(p, x);
        assert(input@ =~= all.skip(n + 1));
        n = n + 1;
    }
    assert(all.take(n as int) =~= all);
    out
}

/// Whether a recording lies in one of the directories (or a session under one).
pub open spec fn in_dirs(dirs: Seq<Seq<char>>) -> spec_fn(ClipInfo) -> bool {
    |c: ClipInfo| exists|k: int| 0 <= k < dirs.len() && dir_matches_s(c.dir@, dirs[k])
}

/// The recordings of a note: those in its directories (new, with sessions,
/// and old), sorted by directory and number.
pub open spec fn clips_for_note_s(clips: Seq<ClipInfo>, note_id: Seq<char>) -> Seq<ClipInfo> {
    sort_clips_s(clips.filter(in_dirs(dirs_for_note_s(note_id))))
}

/// A recording in a directory of the note, or in a session below one, is
/// among the note's recordings.
proof fn lemma_clip_kept(clips: Seq<ClipInfo>, note_id: Seq<char>, i: int, k: int)
    requires
        0 <= i < clips.len(),
        0 <= k < dirs_for_note_s(note_id).len(),
        clips[i].dir@ == dirs_for_note_s(note_id)[k] || starts_with_s(
            clips[i].dir@,
            dirs_for_note_s(note_id)[k] + "/"@,
        ),
    ensures
        clips_for_note_s(clips, note_id).contains(clips[i]),
{
    broadcast use vstd::seq_lib::group_to_multiset_ensures;

    let dv = dirs_for_note_s(note_id);
    let f = clips.filter(in_dirs(dv));
    lemma_sort_clips_sorted(f);
    lemma_dir_matches_below(clips[i].dir@, dv[k]);
    assert(in_dirs(dv)(clips[i]));
    clips.lemma_filter_contains(in_dirs(dv), i);
    assert(f.to_multiset().count(clips[i]) > 0);
    assert(sort_clips_s(f).to_multiset().count(clips[i]) > 0);
}

/// Recordings of the note `note_id` among `clips`, in order.
pub fn clips_for_note(clips: Vec<ClipInfo>, note_id: &str) -> (r: Vec<ClipInfo>)
    ensures
        r@ == clips_for_note_s(clips@, note_id@),
        forall|i: int, k: int|
            #![trigger clips@[i], dirs_for_note_s(note_id@)[k]]
            0 <= i < clips@.len() && 0 <= k < dirs_for_note_s(note_id@).len() && (clips@[i].dir@
                == dirs_for_note_s(note_id@)[k] || starts_with_s(
                clips@[i].dir@,
                dirs_for_note_s(note_id@)[k] + "/"@,
            )) ==> r@.contains(clips@[i]),
{
    proof {
        assert forall|i: int, k: int|
            #![trigger clips@[i], dirs_for_note_s(note_id@)[k]]
            0 <= i < clips@.len() && 0 <= k < dirs_for_note_s(note_id@).len() && (clips@[i].dir@
                == dirs_for_note_s(note_id@)[k] || starts_with_s(
                clips@[i].dir@,
                dirs_for_note_s(note_id@)[k] + "/"@,
            )) implies clips_for_note_s(clips@, note_id@).contains(clips@[i]) by {
            lemma_clip_kept(clips@, note_id@, i, k);
        }
    }
    let dirs = dirs_for_note(note_id);
    let ghost dv = dirs_for_note_s(note_id@);
    let ghost keep = in_dirs(dv);
    let ghost all = clips@;
    let total = clips.len();
    let mut input = clips;
    let mut kept: Vec<ClipInfo> = Vec::new();
    let mut n: usize = 0;
    while input.len() > 0
        invariant
            total == all.len(),
            n + input@.len() == all.len(),
            input@ == all.skip(n as int),
            crate::text::str_views(dirs@) == dv,
            keep == in_dirs(dv),
            kept@ == all.take(n as int).filter(keep),
        decreases input@.len(),
    {
        let x = input.remove(0);
        assert(x == all[n as int]);
        assert(all.take(n + 1).drop_last() =~= all.take(n as int));
        let mut found = false;
        let mut k: usize = 0;
        while k < dirs.len()
            invariant
                k <= dirs@.len(),
                crate::text::str_views(dirs@) == dv,
                found == exists|j: int| 0 <= j < k && dir_matches_s(x.dir@, dv[j]),
            decreases dirs@.len() - k,
        {
            assert(dv[k as int] == dirs@[k as int]@);
            if dir_matches(x.dir.as_str(), dirs[k].as_str()) {
                found = true;
            }
            k = k + 1;
        }
        assert(dv.len() == dirs@.len());
        assert(found == (exists|j: int| 0 <= j < dv.len() && dir_matches_s(x.dir@, dv[j])));
        assert(found == keep(x));
        proof {
            all.take(n as int).lemma_filter_push(x, keep);
            assert(all.take(n as int).push(x) =~= all.take(n + 1));
        }
        if found {
            kept.push(x);
        }
        assert(input@ =~= all.skip(n + 1));
        n = n + 1;
    }
    assert(all.take(n as int) =~= all);
    sort_clips(kept)
}

/// Index of the first recording from `i` on with a higher number than `x`.
pub open spec fn seg_slot(s: Seq<SegRef>, x: SegRef, i: int) -> int
    decreases s.len() - i,
{
    if i < 0 || i >= s.len() || x.seq < s[i].seq {
        i
    } else {
        seg_slot(s, x, i + 1)
    }
}

/// Stable sort of a session's recordings by number.
pub open spec fn sort_segs_s(s: Seq<SegRef>) -> Seq<SegRef>
    decreases s.len(),
{
    if s.len() == 0 {
        s
    } else {
        let t = sort_segs_s(s.drop_last());
        t.insert(seg_slot(t, s.last(), 0), s.last())
    }
}

proof fn lemma_seg_slot(s: Seq<SegRef>, x: SegRef, i: int)
    requires
        0 <= i <= s.len(),
    ensures
        i <= seg_slot(s, x, i) <= s.len(),
    decreases s.len() - i,
{
    if i < s.len() && !(x.seq < s[i].seq) {
        lemma_seg_slot(s, x, i + 1);
    }
}

proof fn lemma_sort_segs_len(s: Seq<SegRef>)
    ensures
        sort_segs_s(s).len() == s.len(),
    decreases s.len(),
{
    if s.len() > 0 {
        lemma_sort_segs_len(s.drop_last());
        lemma_seg_slot(sort_segs_s(s.drop_last()), s.last(), 0);
    }
}

/// A session's recordings sorted by number; equal numbers keep their order.
pub fn sort_segs(segs: Vec<SegRef>) -> (r: Vec<SegRef>)
    ensures
        r@ == sort_segs_s(segs@),
        segs_sorted(r@),
        r@.to_multiset() =~= segs@.to_multiset(),
{
    proof {
        lemma_sort_segs_sorted(segs@);
    }
    let ghost all = segs@;
    let total = segs.len();
    let mut input = segs;
    let mut out: Vec<SegRef> = Vec::new();
    let mut n: usize = 0;
    while input.len() > 0
        invariant
            total == all.len(),
            n + input@.len() == all.len(),
            input@ == all.skip(n as int),
            out@ == sort_segs_s(all.take(n as int)),
        decreases input@.len(),
    {
        let x = input.remove(0);
        assert(x == all[n as int]);
        assert(all.take(n + 1).drop_last() =~= all.take(n as int));
        proof {
            lemma_sort_segs_len(all.take(n as int));
            lemma_seg_slot(out@, x, 0);
        }
        let mut p: usize = 0;
        while p < out.len() && !(x.seq < out[p].seq)
            invariant
                p <= out@.len(),
                seg_slot(out@, x, p as int) == seg_slot(out@, x, 0),
            decreases out@.len() - p,
        {
            p = p + 1;
        }
        out.insert(p, x);
        assert(input@ =~= all.skip(n + 1));
        n = n + 1;
    }
    assert(all.take(n as int) =~= all);
    out
}


// ---------------------------------------------------------------- laws of the two sorts

/// No later element sorts before an earlier one.
pub open spec fn clips_sorted(s: Seq<ClipInfo>) -> bool {
    forall|i: int, j: int| 0 <= i < j < s.len() ==> !clip_lt(#[trigger] s[j], #[trigger] s[i])
}

/// Numbers never go down along the sequence.
pub open spec fn segs_sorted(s: Seq<SegRef>) -> bool {
    forall|i: int, j: int| 0 <= i < j < s.len() ==> #[trigger] s[i].seq <= #[trigger] s[j].seq
}

proof fn lemma_text_lt_irrefl(a: Seq<char>)
    ensures
        !text_lt(a, a),
    decreases a.len(),
{
    if a.len() > 0 {
        lemma_text_lt_irrefl(a.drop_first());
    }
}

proof fn lemma_text_lt_trans(a: Seq<char>, b: Seq<char>, c: Seq<char>)
    requires
        text_lt(a, b),
        text_lt(b, c),
    ensures
        text_lt(a, c),
    decreases a.len(),
{
    if a.len() > 0 && b.len() > 0 && c.len() > 0 && a[0] == b[0] && b[0] == c[0] {
        lemma_text_lt_trans(a.drop_first(), b.drop_first(), c.drop_first());
    }
}

proof fn lemma_clip_lt_trans(a: ClipInfo, b: ClipInfo, c: ClipInfo)
    requires
        clip_lt(a, b),
        clip_lt(b, c),
    ensures
        clip_lt(a, c),
{
    if text_lt(a.dir@, b.dir@) && text_lt(b.dir@, c.dir@) {
        lemma_text_lt_trans(a.dir@, b.dir@, c.dir@);
    }
}

proof fn lemma_clip_slot_bounds(s: Seq<ClipInfo>, x: ClipInfo, i: int)
    requires
        0 <= i <= s.len(),
    ensures
        forall|k: int| i <= k < clip_slot(s, x, i) ==> !clip_lt(x, #[trigger] s[k]),
        clip_slot(s, x, i) < s.len() ==> clip_lt(x, s[clip_slot(s, x, i)]),
    decreases s.len() - i,
{
    if i < s.len() && !clip_lt(x, s[i]) {
        lemma_clip_slot_bounds(s, x, i + 1);
    }
}

proof fn lemma_seg_slot_bounds(s: Seq<SegRef>, x: SegRef, i: int)
    requires
        0 <= i <= s.len(),
    ensures
        forall|k: int| i <= k < seg_slot(s, x, i) ==> (#[trigger] s[k]).seq <= x.seq,
        seg_slot(s, x, i) < s.len() ==> x.seq < s[seg_slot(s, x, i)].seq,
    decreases s.len() - i,
{
    if i < s.len() && !(x.seq < s[i].seq) {
        lemma_seg_slot_bounds(s, x, i + 1);
    }
}

/// Inserting an element at `p` adds it once to the multiset of elements.
proof fn lemma_insert_multiset<A>(t: Seq<A>, p: int, x: A)
    requires
        0 <= p <= t.len(),
    ensures
        t.insert(p, x).to_multiset() =~= t.to_multiset().insert(x),
{
    broadcast use vstd::seq_lib::group_to_multiset_ensures;

    let u = t.insert(p, x);
    assert(u.remove(p) =~= t);
    assert(u[p] == x);
    assert(u.contains(x));
    assert(u.to_multiset().count(x) > 0);
}

/// Sorting recordings by directory and number gives a sequence in that order
/// that holds exactly the recordings it was given.
pub proof fn lemma_sort_clips_sorted(s: Seq<ClipInfo>)
    ensures
        clips_sorted(sort_clips_s(s)),
        sort_clips_s(s).to_multiset() =~= s.to_multiset(),
    decreases s.len(),
{
    broadcast use vstd::seq_lib::group_to_multiset_ensures;

    if s.len() > 0 {
        let t = sort_clips_s(s.drop_last());
        let x = s.last();
        lemma_sort_clips_sorted(s.drop_last());
        lemma_sort_clips_len(s.drop_last());
        lemma_clip_slot(t, x, 0);
        lemma_clip_slot_bounds(t, x, 0);
        let p = clip_slot(t, x, 0);
        let u = t.insert(p, x);
        assert(u == sort_clips_s(s));
        assert forall|i: int, j: int| 0 <= i < j < u.len() implies !clip_lt(
            #[trigger] u[j],
            #[trigger] u[i],
        ) by {
            if j < p {
                assert(u[i] == t[i] && u[j] == t[j]);
            } else if j == p {
                assert(u[i] == t[i]);
                assert(!clip_lt(x, t[i]));
            } else if i < p {
                assert(u[i] == t[i] && u[j] == t[j - 1]);
            } else if i == p {
                assert(u[j] == t[j - 1]);
                if clip_lt(t[j - 1], x) {
                    lemma_clip_lt_trans(t[j - 1], x, t[p]);
                    if j - 1 == p {
                        lemma_text_lt_irrefl(t[p].dir@);
                    }
                }
            } else {
                assert(u[i] == t[i - 1] && u[j] == t[j - 1]);
            }
        }
        lemma_insert_multiset(t, p, x);
        assert(s.drop_last().push(x) =~= s);
    }
}

/// Sorting a session's recordings by number gives them in rising order and
/// holds exactly the recordings it was given.
pub proof fn lemma_sort_segs_sorted(s: Seq<SegRef>)
    ensures
        segs_sorted(sort_segs_s(s)),
        sort_segs_s(s).to_multiset() =~= s.to_multiset(),
    decreases s.len(),
{
    broadcast use vstd::seq_lib::group_to_multiset_ensures;

    if s.len() > 0 {
        let t = sort_segs_s(s.drop_last());
        let x = s.last();
        lemma_sort_segs_sorted(s.drop_last());
        lemma_sort_segs_len(s.drop_last());
        lemma_seg_slot(t, x, 0);
        lemma_seg_slot_bounds(t, x, 0);
        let p = seg_slot(t, x, 0);
        let u = t.insert(p, x);
        assert(u == sort_segs_s(s));
        assert forall|i: int, j: int| 0 <= i < j < u.len() implies #[trigger] u[i].seq
            <= #[trigger] u[j].seq by {
            if j < p {
                assert(u[i] == t[i] && u[j] == t[j]);
            } else if j == p {
                assert(u[i] == t[i]);
            } else if i < p {
                assert(u[i] == t[i] && u[j] == t[j - 1]);
            } else if i == p {
                assert(u[j] == t[j - 1]);
                assert(t[p].seq <= t[j - 1].seq);
            } else {
                assert(u[i] == t[i - 1] && u[j] == t[j - 1]);
            }
        }
        lemma_insert_multiset(t, p, x);
        assert(s.drop_last().push(x) =~= s);
    }
}

} // verus!
