//! "A meeting is a Markdown note": `/v` audio references, generated transcript
//! blocks and the minutes section, parsed and rewritten idempotently.
use vstd::prelude::*;
use vstd::std_specs::iter::IteratorSpec;
pub use crate::meeting_refs::{
    block_after, brief_from_refs, cache_hit, checked_rel, in_meeting_dir, legacy_body, legacy_dir_name,
    legacy_note_id, legacy_skip, meeting_note_id, meeting_stem, note_title_fallback, ref_shape,
    ref_transcript, seg_dir_of, transcript_entry, AudioRefSegment, AudioRefView,
    ClipTranscribeOutcome, CreateNoteError, MeetingNoteBrief, ProcessOutcome, ProcessProgress,
    RefShape, SegOutcome,
};
use crate::text::{
    dec, occurs_at,
    idx_of, idx_of_exec, lemma_idx_of, split_s, split_char, parse_u64, parse_u64_s,
    strings_of, str_views, is_blank_str, ends_with_s, ends_with_str, copy_chars, append, append_str, blank, chars_of, contains, contains_s, contains_str, dec_pad, dec_s, eq_chars, is_whitespace, is_ws, join_s, join_str, lines, lines_s, lines_str, starts_with, starts_with_s, starts_with_str, string_of, subvec, trim, trim_end, trim_end_s, trim_s, trim_start, trim_start_s, trim_str, views, zpad,
};

verus! {

/// Directory of meeting notes.
pub const MEETING_DIR: &'static str = "会议";

/// Heading that starts the generated minutes section.
pub const MINUTES_HEADING: &'static str = "## 会议纪要（AI 整理）";

/// Placeholder written into the minutes section of a new meeting note.
pub const MINUTES_HINT: &'static str = "_（点「一键处理」后由对话模型整理生成，整段会被覆盖）_";

/// Marker on the first line of a generated transcript block.
pub const TRANSCRIPT_TAG: &'static str = "🎙 转写";

/// Marker of the notice line that the skeleton of a new note carries.
pub const SKELETON_NOTICE_MARK: &'static str = "会议记录：随手写下要点";

/// One audio reference as written in the note.
#[derive(Debug, Clone, PartialEq, Eq)]
pub struct RawRef {
    /// 1-based line number
    pub line: usize,
    pub token: String,
    /// the path as the user wrote it
    pub raw: String,
}

/// The transcript of one audio reference.
#[derive(Debug, Clone, PartialEq, Eq)]
pub struct TranscriptEntry {
    /// metadata of the block title, such as `00:00:00–00:03:41 · seg_0001.wav`
    pub meta: String,
    pub text: String,
}

// ---------------------------------------------------------------- reference lines

/// Characters stripped around a reference path.
pub open spec fn is_quote(c: char) -> bool {
    c == '`' || c == '"' || c == '\'' || c == '<' || c == '>'
}

pub open spec fn q_skip(s: Seq<char>, i: int) -> int
    decreases s.len() - i,
{
    if 0 <= i < s.len() && is_quote(s[i]) {
        q_skip(s, i + 1)
    } else {
        i
    }
}

pub open spec fn q_back(s: Seq<char>, j: int) -> int
    decreases j,
{
    if 0 < j <= s.len() && is_quote(s[j - 1]) {
        q_back(s, j - 1)
    } else {
        j
    }
}

/// `trim_matches` with the quote characters.
pub open spec fn trim_quotes(s: Seq<char>) -> Seq<char> {
    let t = s.skip(q_skip(s, 0));
    t.take(q_back(t, t.len() as int))
}

proof fn lemma_q_skip(s: Seq<char>, i: int)
    requires
        0 <= i <= s.len(),
    ensures
        i <= q_skip(s, i) <= s.len(),
    decreases s.len() - i,
{
    if i < s.len() && is_quote(s[i]) {
        lemma_q_skip(s, i + 1);
    }
}

proof fn lemma_q_back(s: Seq<char>, j: int)
    requires
        0 <= j <= s.len(),
    ensures
        0 <= q_back(s, j) <= j,
    decreases j,
{
    if 0 < j && is_quote(s[j - 1]) {
        lemma_q_back(s, j - 1);
    }
}

fn is_quote_exec(c: char) -> (b: bool)
    ensures
        b == is_quote(c),
{
    c == '`' || c == '"' || c == '\'' || c == '<' || c == '>'
}

fn trim_quotes_exec(v: &[char]) -> (r: Vec<char>)
    ensures
        r@ == trim_quotes(v@),
{
    let mut a: usize = 0;
    while a < v.len() && is_quote_exec(v[a])
        invariant
            a <= v@.len(),
            q_skip(v@, a as int) == q_skip(v@, 0),
        decreases v@.len() - a,
    {
        a = a + 1;
    }
    let t = subvec(v, a, v.len());
    let mut b = t.len();
    while b > 0 && is_quote_exec(t[b - 1])
        invariant
            b <= t@.len(),
            q_back(t@, b as int) == q_back(t@, t@.len() as int),
        decreases b,
    {
        b = b - 1;
    }
    subvec(t.as_slice(), 0, b)
}

/// The reference path after `tok`, if `t` starts with `tok` followed by whitespace
/// and a non-empty path.
pub open spec fn try_token(t: Seq<char>, tok: Seq<char>) -> Option<Seq<char>> {
    if starts_with_s(t, tok) {
        let rest = t.skip(tok.len() as int);
        if rest.len() > 0 && !is_ws(rest[0]) {
            None
        } else {
            let raw = trim_quotes(trim_s(rest));
            if raw.len() > 0 {
                Some(raw)
            } else {
                None
            }
        }
    } else {
        None
    }
}

/// Meaning of `parse_ref_line`: `(token, path)` of a `/v path` or `/video path` line.
pub open spec fn ref_of(line: Seq<char>) -> Option<(Seq<char>, Seq<char>)> {
    let t = trim_s(line);
    match try_token(t, "/v"@) {
        Some(raw) => Some(("/v"@, raw)),
        None => match try_token(t, "/video"@) {
            Some(raw) => Some(("/video"@, raw)),
            None => None,
        },
    }
}

fn try_token_exec(t: &[char], tok: &str) -> (r: Option<Vec<char>>)
    ensures
        match r {
            Some(raw) => try_token(t@, tok@) == Some(raw@),
            None => try_token(t@, tok@) is None,
        },
{
    let tv = chars_of(tok);
    if !starts_with(t, tv.as_slice()) {
        return None;
    }
    let rest = subvec(t, tv.len(), t.len());
    assert(rest@ =~= t@.skip(tok@.len() as int));
    if rest.len() > 0 && !is_whitespace(rest[0]) {
        return None;
    }
    let tr = trim(rest.as_slice());
    let raw = trim_quotes_exec(tr.as_slice());
    if raw.len() > 0 {
        Some(raw)
    } else {
        None
    }
}

fn ref_of_exec(line: &[char]) -> (r: Option<(Vec<char>, Vec<char>)>)
    ensures
        match r {
            Some((tok, raw)) => ref_of(line@) == Some((tok@, raw@)),
            None => ref_of(line@) is None,
        },
{
    let t = trim(line);
    match try_token_exec(t.as_slice(), "/v") {
        Some(raw) => Some((chars_of("/v"), raw)),
        None => match try_token_exec(t.as_slice(), "/video") {
            Some(raw) => Some((chars_of("/video"), raw)),
            None => None,
        },
    }
}

/// Parses an audio reference line: `/v path` or `/video path` at the start of the
/// line (leading whitespace allowed); the token must be followed by whitespace.
pub fn parse_ref_line(line: &str) -> (r: Option<(String, String)>)
    ensures
        match r {
            Some((tok, raw)) => ref_of(line@) == Some((tok@, raw@)),
            None => ref_of(line@) is None,
        },
{
    let v = chars_of(line);
    match ref_of_exec(v.as_slice()) {
        Some((tok, raw)) => Some((string_of(tok.as_slice()), string_of(raw.as_slice()))),
        None => None,
    }
}

/// References found among the first `n` lines: `(line number, token, path)`.
pub open spec fn refs_upto(ls: Seq<Seq<char>>, n: int) -> Seq<(int, Seq<char>, Seq<char>)>
    decreases n,
{
    if n <= 0 || n > ls.len() {
        seq![]
    } else {
        refs_upto(ls, n - 1) + match ref_of(ls[n - 1]) {
            Some((tok, raw)) => seq![(n, tok, raw)],
            None => seq![],
        }
    }
}

/// The view of a reference.
pub open spec fn raw_ref_view(r: RawRef) -> (int, Seq<char>, Seq<char>) {
    (r.line as int, r.token@, r.raw@)
}

/// All audio references of a note, in line order (1-based line numbers).
pub fn parse_refs(body: &str) -> (r: Vec<RawRef>)
    ensures
        r@.len() == refs_upto(lines_s(body@), lines_s(body@).len() as int).len(),
        forall|i: int|
            0 <= i < r@.len() ==> raw_ref_view(#[trigger] r@[i]) == refs_upto(
                lines_s(body@),
                lines_s(body@).len() as int,
            )[i],
{
    let ls = lines_str(body);
    let ghost lv = views(ls@);
    let mut out: Vec<RawRef> = Vec::new();
    let mut i: usize = 0;
    while i < ls.len()
        invariant
            lv == views(ls@),
            i <= ls@.len(),
            out@.len() == refs_upto(lv, i as int).len(),
            forall|k: int|
                0 <= k < out@.len() ==> raw_ref_view(#[trigger] out@[k]) == refs_upto(
                    lv,
                    i as int,
                )[k],
        decreases ls@.len() - i,
    {
        assert(lv[i as int] == ls@[i as int]@);
        match ref_of_exec(ls[i].as_slice()) {
            Some((tok, raw)) => {
                let ghost prev = out@;
                out.push(
                    RawRef {
                        line: i + 1,
                        token: string_of(tok.as_slice()),
                        raw: string_of(raw.as_slice()),
                    },
                );
                assert forall|k: int| 0 <= k < out@.len() implies raw_ref_view(
                    #[trigger] out@[k],
                ) == refs_upto(lv, i + 1)[k] by {
                    if k < prev.len() {
                        assert(out@[k] == prev[k]);
                    }
                }
            },
            None => {
                assert(refs_upto(lv, i + 1) =~= refs_upto(lv, i as int));
            },
        }
        i = i + 1;
    }
    out
}

// ---------------------------------------------------------------- minutes section

/// Index of the last line whose trimmed text is the minutes heading, among the first `n`.
pub open spec fn last_heading(ls: Seq<Seq<char>>, n: int) -> Option<int>
    decreases n,
{
    if n <= 0 || n > ls.len() {
        None
    } else if trim_s(ls[n - 1]) == MINUTES_HEADING@ {
        Some(n - 1)
    } else {
        last_heading(ls, n - 1)
    }
}

/// Meaning of `split_minutes`.
pub open spec fn split_minutes_s(body: Seq<char>) -> (Seq<char>, Option<Seq<char>>) {
    let ls = lines_s(body);
    match last_heading(ls, ls.len() as int) {
        None => (trim_end_s(body), None),
        Some(i) => (
            trim_end_s(join_s(ls.take(i), "\n"@)),
            Some(trim_end_s(join_s(ls.skip(i), "\n"@))),
        ),
    }
}

pub proof fn lemma_last_heading(ls: Seq<Seq<char>>, n: int)
    requires
        0 <= n <= ls.len(),
    ensures
        last_heading(ls, n) matches Some(i) ==> 0 <= i < n,
    decreases n,
{
    if n > 0 {
        lemma_last_heading(ls, n - 1);
    }
}

fn vec_range(v: &Vec<Vec<char>>, a: usize, b: usize) -> (r: Vec<Vec<char>>)
    requires
        a <= b <= v@.len(),
    ensures
        views(r@) == views(v@).subrange(a as int, b as int),
{
    let mut r: Vec<Vec<char>> = Vec::new();
    let mut i = a;
    while i < b
        invariant
            a <= i <= b,
            b <= v@.len(),
            views(r@) == views(v@).subrange(a as int, i as int),
        decreases b - i,
    {
        let ghost old_r = r@;
        r.push(copy_chars(v[i].as_slice()));
        assert(views(r@) =~= views(old_r).push(v@[i as int]@));
        assert(views(r@) =~= views(v@).subrange(a as int, i + 1));
        i = i + 1;
    }
    r
}

fn split_minutes_exec(body: &[char]) -> (r: (Vec<char>, Option<Vec<char>>))
    ensures
        r.0@ == split_minutes_s(body@).0,
        match r.1 {
            Some(m) => split_minutes_s(body@).1 == Some(m@),
            None => split_minutes_s(body@).1 is None,
        },
{
    let ls = lines(body);
    let ghost lv = views(ls@);
    let heading = chars_of(MINUTES_HEADING);
    let mut n = ls.len();
    while n > 0
        invariant
            n <= ls@.len(),
            lv == views(ls@),
            heading@ == MINUTES_HEADING@,
            lv == lines_s(body@),
            last_heading(lv, n as int) == last_heading(lv, lv.len() as int),
        decreases n,
    {
        let t = trim(ls[n - 1].as_slice());
        assert(lv[n - 1] == ls@[n - 1]@);
        if eq_chars(t.as_slice(), heading.as_slice()) {
            let head = vec_range(&ls, 0, n - 1);
            let tail = vec_range(&ls, n - 1, ls.len());
            assert(views(ls@).subrange(0, n - 1) =~= lv.take(n - 1));
            assert(views(ls@).subrange(n - 1, ls@.len() as int) =~= lv.skip(n - 1));
            let hj = join_str(&head, "\n");
            let tj = join_str(&tail, "\n");
            return (trim_end(hj.as_slice()), Some(trim_end(tj.as_slice())));
        }
        n = n - 1;
    }
    (trim_end(body), None)
}

/// Splits the note into the body and the minutes section: the section starts at the
/// last line whose trimmed text is the minutes heading.
pub fn split_minutes(body: &str) -> (r: (String, Option<String>))
    ensures
        r.0@ == split_minutes_s(body@).0,
        match r.1 {
            Some(m) => split_minutes_s(body@).1 == Some(m@),
            None => split_minutes_s(body@).1 is None,
        },
{
    let v = chars_of(body);
    let (h, m) = split_minutes_exec(v.as_slice());
    match m {
        Some(m) => (string_of(h.as_slice()), Some(string_of(m.as_slice()))),
        None => (string_of(h.as_slice()), None),
    }
}

/// Lines among the first `n` whose trimmed text is not the minutes heading.
pub open spec fn non_heading_upto(ls: Seq<Seq<char>>, n: int) -> Seq<Seq<char>>
    decreases n,
{
    if n <= 0 || n > ls.len() {
        seq![]
    } else if trim_s(ls[n - 1]) != MINUTES_HEADING@ {
        non_heading_upto(ls, n - 1).push(ls[n - 1])
    } else {
        non_heading_upto(ls, n - 1)
    }
}

/// Meaning of `minutes_ready`.
pub open spec fn minutes_ready_s(minutes: Option<Seq<char>>) -> bool {
    match minutes {
        None => false,
        Some(t) => {
            let ls = lines_s(t);
            let body = trim_s(join_s(non_heading_upto(ls, ls.len() as int), "\n"@));
            body.len() > 0 && !contains_s(body, trim_s(MINUTES_HINT@))
        },
    }
}

/// Whether the minutes section has real content (not only the placeholder of a new note).
pub fn minutes_ready(minutes: Option<&str>) -> (b: bool)
    ensures
        b == minutes_ready_s(
            match minutes {
                Some(t) => Some(t@),
                None => None,
            },
        ),
{
    match minutes {
        None => false,
        Some(t) => {
            let ls = lines_str(t);
            let ghost lv = views(ls@);
            let heading = chars_of(MINUTES_HEADING);
            let mut kept: Vec<Vec<char>> = Vec::new();
            let mut i: usize = 0;
            while i < ls.len()
                invariant
                    i <= ls@.len(),
                    lv == views(ls@),
                    heading@ == MINUTES_HEADING@,
                    views(kept@) == non_heading_upto(lv, i as int),
                decreases ls@.len() - i,
            {
                let tr = trim(ls[i].as_slice());
                assert(lv[i as int] == ls@[i as int]@);
                if !eq_chars(tr.as_slice(), heading.as_slice()) {
                    kept.push(copy_chars(ls[i].as_slice()));
                    assert(views(kept@) =~= non_heading_upto(lv, i + 1));
                }
                i = i + 1;
            }
            let joined = join_str(&kept, "\n");
            let body = trim(joined.as_slice());
            let hint = trim_str(MINUTES_HINT);
            body.len() > 0 && !contains(body.as_slice(), hint.as_slice())
        },
    }
}

/// Meaning of `upsert_minutes`.
pub open spec fn upsert_minutes_s(body: Seq<char>, minutes_md: Seq<char>) -> Seq<char> {
    trim_end_s(split_minutes_s(body).0) + "\n\n"@ + MINUTES_HEADING@ + "\n\n"@ + trim_s(
        minutes_md,
    ) + "\n"@
}

/// Writes the minutes section back: keeps the body, replaces the old section.
pub fn upsert_minutes(body: &str, minutes_md: &str) -> (r: String)
    ensures
        r@ == upsert_minutes_s(body@, minutes_md@),
{
    let v = chars_of(body);
    let (head, _) = split_minutes_exec(v.as_slice());
    let mut out = trim_end(head.as_slice());
    append_str(&mut out, "\n\n");
    append_str(&mut out, MINUTES_HEADING);
    append_str(&mut out, "\n\n");
    let m = trim_str(minutes_md);
    append(&mut out, m.as_slice());
    append_str(&mut out, "\n");
    string_of(out.as_slice())
}

// ---------------------------------------------------------------- content checks

/// A line that counts as content: not blank, not a heading, not a rule, not the
/// skeleton notice.
pub open spec fn meaningful_line(line: Seq<char>) -> bool {
    let t = trim_s(line);
    &&& t.len() > 0
    &&& !starts_with_s(t, "#"@)
    &&& t != "---"@
    &&& t != "***"@
    &&& !contains_s(t, SKELETON_NOTICE_MARK@)
}

fn meaningful_line_exec(line: &[char]) -> (b: bool)
    ensures
        b == meaningful_line(line@),
{
    let t = trim(line);
    t.len() > 0 && !starts_with_str(t.as_slice(), "#") && !eq_chars(
        t.as_slice(),
        chars_of("---").as_slice(),
    ) && !eq_chars(t.as_slice(), chars_of("***").as_slice()) && !contains_str(
        t.as_slice(),
        SKELETON_NOTICE_MARK,
    )
}

/// Whether the text has real content (ignoring blank lines, headings, rules and the
/// skeleton notice).
pub fn has_meaningful_text(text: &str) -> (b: bool)
    ensures
        b == exists|i: int|
            0 <= i < lines_s(text@).len() && meaningful_line(#[trigger] lines_s(text@)[i]),
{
    let ls = lines_str(text);
    let ghost lv = views(ls@);
    let mut i: usize = 0;
    while i < ls.len()
        invariant
            i <= ls@.len(),
            lv == views(ls@),
            lv == lines_s(text@),
            forall|k: int| 0 <= k < i ==> !meaningful_line(#[trigger] lv[k]),
        decreases ls@.len() - i,
    {
        assert(lv[i as int] == ls@[i as int]@);
        if meaningful_line_exec(ls[i].as_slice()) {
            return true;
        }
        i = i + 1;
    }
    false
}

// ---------------------------------------------------------------- handwritten text

/// A line that continues a quote block (`>` after optional leading whitespace).
pub open spec fn quote_line(l: Seq<char>) -> bool {
    starts_with_s(trim_start_s(l), ">"@)
}

/// First index `>= j` that is not a quote line (or the number of lines).
pub open spec fn quote_end(ls: Seq<Seq<char>>, j: int) -> int
    decreases ls.len() - j,
{
    if 0 <= j < ls.len() && quote_line(ls[j]) {
        quote_end(ls, j + 1)
    } else {
        j
    }
}

pub proof fn lemma_quote_end(ls: Seq<Seq<char>>, j: int)
    requires
        0 <= j <= ls.len(),
    ensures
        j <= quote_end(ls, j) <= ls.len(),
    decreases ls.len() - j,
{
    if j < ls.len() && quote_line(ls[j]) {
        lemma_quote_end(ls, j + 1);
    }
}

fn quote_line_exec(l: &[char]) -> (b: bool)
    ensures
        b == quote_line(l@),
{
    let t = trim_start(l);
    starts_with_str(t.as_slice(), ">")
}

fn quote_end_exec(ls: &Vec<Vec<char>>, j: usize) -> (r: usize)
    requires
        j <= ls@.len(),
    ensures
        r == quote_end(views(ls@), j as int),
        j <= r <= ls@.len(),
{
    let mut k = j;
    while k < ls.len() && quote_line_exec(ls[k].as_slice())
        invariant
            j <= k <= ls@.len(),
            quote_end(views(ls@), k as int) == quote_end(views(ls@), j as int),
        decreases ls@.len() - k,
    {
        assert(views(ls@)[k as int] == ls@[k as int]@);
        k = k + 1;
    }
    if k < ls.len() {
        assert(views(ls@)[k as int] == ls@[k as int]@);
    }
    k
}

/// Lines from index `i` kept as handwritten text: reference lines and the quote
/// block after them are dropped, and so are lines carrying the skeleton notice.
pub open spec fn hand_from(ls: Seq<Seq<char>>, i: int) -> Seq<Seq<char>>
    decreases ls.len() - i,
{
    if i < 0 || i >= ls.len() {
        seq![]
    } else if ref_of(ls[i]) is Some {
        if i + 1 <= quote_end(ls, i + 1) <= ls.len() {
            hand_from(ls, quote_end(ls, i + 1))
        } else {
            seq![]
        }
    } else if contains_s(ls[i], SKELETON_NOTICE_MARK@) {
        hand_from(ls, i + 1)
    } else {
        seq![ls[i]] + hand_from(ls, i + 1)
    }
}

/// Meaning of `handwritten_text`.
pub open spec fn handwritten_s(body: Seq<char>) -> Seq<char> {
    let head = split_minutes_s(body).0;
    trim_s(join_s(hand_from(lines_s(head), 0), "\n"@))
}

/// The handwritten part of a note: without audio reference lines, transcript
/// blocks, the minutes section and the skeleton notice.
pub fn handwritten_text(body: &str) -> (r: String)
    ensures
        r@ == handwritten_s(body@),
{
    let v = chars_of(body);
    let (head, _) = split_minutes_exec(v.as_slice());
    let ls = lines(head.as_slice());
    let ghost lv = views(ls@);
    let mut out: Vec<Vec<char>> = Vec::new();
    let mut i: usize = 0;
    while i < ls.len()
        invariant
            i <= ls@.len(),
            lv == views(ls@),
            views(out@) + hand_from(lv, i as int) == hand_from(lv, 0),
        decreases ls@.len() - i,
    {
        assert(lv[i as int] == ls@[i as int]@);
        if ref_of_exec(ls[i].as_slice()).is_some() {
            proof {
                lemma_quote_end(lv, i + 1);
            }
            let j = quote_end_exec(&ls, i + 1);
            i = j;
        } else if contains_str(ls[i].as_slice(), SKELETON_NOTICE_MARK) {
            i = i + 1;
        } else {
            let ghost old_out = out@;
            out.push(copy_chars(ls[i].as_slice()));
            assert(views(out@) =~= views(old_out).push(lv[i as int]));
            assert(views(old_out) + hand_from(lv, i as int) =~= views(out@) + hand_from(
                lv,
                i + 1,
            ));
            i = i + 1;
        }
    }
    assert(views(out@) + hand_from(lv, i as int) =~= views(out@));
    let joined = join_str(&out, "\n");
    string_of(trim(joined.as_slice()).as_slice())
}

// ---------------------------------------------------------------- skeleton

/// Text of the notice line of a new note, after the date.
pub const SKELETON_NOTICE: &'static str = " 会议记录：随手写下要点；用 `/v 音频文件名` 引用录音（录音面板会自动插入）。";

/// Meaning of `skeleton`.
pub open spec fn skeleton_s(title: Seq<char>, date: Seq<char>) -> Seq<char> {
    "# "@ + trim_s(title) + "\n\n> "@ + trim_s(date) + SKELETON_NOTICE@ + "\n\n\n"@
        + MINUTES_HEADING@ + "\n\n"@ + MINUTES_HINT@ + "\n"@
}

/// The skeleton of a new meeting note.
pub fn skeleton(title: &str, date: &str) -> (r: String)
    ensures
        r@ == skeleton_s(title@, date@),
{
    let mut out: Vec<char> = Vec::new();
    append_str(&mut out, "# ");
    let t = trim_str(title);
    append(&mut out, t.as_slice());
    append_str(&mut out, "\n\n> ");
    let d = trim_str(date);
    append(&mut out, d.as_slice());
    append_str(&mut out, SKELETON_NOTICE);
    append_str(&mut out, "\n\n\n");
    append_str(&mut out, MINUTES_HEADING);
    append_str(&mut out, "\n\n");
    append_str(&mut out, MINUTES_HINT);
    append_str(&mut out, "\n");
    string_of(out.as_slice())
}

// ---------------------------------------------------------------- timestamps

/// Meaning of `mmss`: `hh:mm:ss` of a duration in milliseconds (hours may exceed 99).
pub open spec fn mmss_s(ms: nat) -> Seq<char> {
    let total = ms / 1000;
    zpad(dec_s(total / 3600), 2) + ":"@ + zpad(dec_s((total % 3600) / 60), 2) + ":"@ + zpad(
        dec_s(total % 60),
        2,
    )
}

/// `hh:mm:ss` of a duration in milliseconds.
pub fn mmss(ms: u64) -> (r: String)
    ensures
        r@ == mmss_s(ms as nat),
{
    let total = ms / 1000;
    let mut out = dec_pad(total / 3600, 2);
    append_str(&mut out, ":");
    let m = dec_pad((total % 3600) / 60, 2);
    append(&mut out, m.as_slice());
    append_str(&mut out, ":");
    let s = dec_pad(total % 60, 2);
    append(&mut out, s.as_slice());
    string_of(out.as_slice())
}


// ---------------------------------------------------------------- transcript blocks

/// One body line of a transcript block.
pub open spec fn quoted_line(l: Seq<char>) -> Seq<char> {
    let t = trim_end_s(l);
    if t.len() == 0 {
        ">"@
    } else {
        "> "@ + t
    }
}

/// Quoted body lines of the first `n` lines.
pub open spec fn quoted_upto(ls: Seq<Seq<char>>, n: int) -> Seq<Seq<char>>
    decreases n,
{
    if n <= 0 || n > ls.len() {
        seq![]
    } else {
        quoted_upto(ls, n - 1).push(quoted_line(ls[n - 1]))
    }
}

/// Meaning of `transcript_lines`: the lines of the generated block of an entry.
pub open spec fn transcript_lines_s(meta: Seq<char>, text: Seq<char>) -> Seq<Seq<char>> {
    let ls = lines_s(text);
    seq!["> "@ + TRANSCRIPT_TAG@ + " "@ + trim_s(meta), ">"@] + quoted_upto(ls, ls.len() as int)
}

fn transcript_lines_exec(meta: &[char], text: &[char]) -> (r: Vec<Vec<char>>)
    ensures
        views(r@) == transcript_lines_s(meta@, text@),
{
    let mut first: Vec<char> = Vec::new();
    append_str(&mut first, "> ");
    append_str(&mut first, TRANSCRIPT_TAG);
    append_str(&mut first, " ");
    let m = trim(meta);
    append(&mut first, m.as_slice());
    let mut out: Vec<Vec<char>> = Vec::new();
    out.push(first);
    out.push(chars_of(">"));
    let ls = lines(text);
    let ghost lv = views(ls@);
    let mut i: usize = 0;
    while i < ls.len()
        invariant
            i <= ls@.len(),
            lv == views(ls@),
            views(out@) == seq!["> "@ + TRANSCRIPT_TAG@ + " "@ + trim_s(meta@), ">"@]
                + quoted_upto(lv, i as int),
        decreases ls@.len() - i,
    {
        let t = trim_end(ls[i].as_slice());
        let line = if t.len() == 0 {
            chars_of(">")
        } else {
            let mut q = chars_of("> ");
            append(&mut q, t.as_slice());
            q
        };
        assert(lv[i as int] == ls@[i as int]@);
        let ghost old_out = out@;
        out.push(line);
        assert(views(out@) =~= views(old_out).push(quoted_line(lv[i as int])));
        i = i + 1;
    }
    assert(views(out@) =~= transcript_lines_s(meta@, text@));
    out
}

/// The lines of the generated transcript block of an entry.
pub fn transcript_lines(entry: &TranscriptEntry) -> (r: Vec<String>)
    ensures
        str_views(r@) == transcript_lines_s(entry.meta@, entry.text@),
{
    let meta = chars_of(entry.meta.as_str());
    let text = chars_of(entry.text.as_str());
    let v = transcript_lines_exec(meta.as_slice(), text.as_slice());
    let r = strings_of(&v);
    assert(str_views(r@) =~= views(v@));
    r
}

/// Lines from index `i` of the note with transcript blocks rewritten: after each
/// reference line whose line number has an entry, the old quote block is replaced by
/// the entry's block (or dropped when the entry's text is blank); other quote blocks
/// stay as they are.
pub open spec fn replaced_from(
    ls: Seq<Seq<char>>,
    m: Map<usize, TranscriptEntry>,
    i: int,
) -> Seq<Seq<char>>
    decreases ls.len() - i,
{
    if i < 0 || i >= ls.len() {
        seq![]
    } else if ref_of(ls[i]) is None {
        seq![ls[i]] + replaced_from(ls, m, i + 1)
    } else {
        let j = quote_end(ls, i + 1);
        let block = if m.contains_key((i + 1) as usize) {
            let e = m[(i + 1) as usize];
            if blank(e.text@) {
                seq![]
            } else {
                transcript_lines_s(e.meta@, e.text@)
            }
        } else {
            ls.subrange(i + 1, j)
        };
        if i + 1 <= j <= ls.len() {
            seq![ls[i]] + block + replaced_from(ls, m, j)
        } else {
            seq![]
        }
    }
}

/// Meaning of `replace_transcripts`.
pub open spec fn replace_transcripts_s(body: Seq<char>, m: Map<usize, TranscriptEntry>) -> Seq<
    char,
> {
    join_s(replaced_from(lines_s(body), m, 0), "\n"@) + if ends_with_s(body, "\n"@) {
        "\n"@
    } else {
        seq![]
    }
}

/// The entry of a line number.
fn entry_at(entries: &std::collections::BTreeMap<usize, TranscriptEntry>, k: usize) -> (r: Option<
    &TranscriptEntry,
>)
    ensures
        match r {
            Some(e) => entries@.contains_key(k) && entries@[k] == *e,
            None => !entries@.contains_key(k),
        },
{
    broadcast use vstd::laws_cmp::group_laws_cmp, vstd::std_specs::btree::group_btree_axioms;

    entries.get(&k)
}

fn push_lines(out: &mut Vec<Vec<char>>, src: &Vec<Vec<char>>)
    ensures
        views(final(out)@) == views(old(out)@) + views(src@),
{
    let ghost o0 = views(out@);
    let mut i: usize = 0;
    while i < src.len()
        invariant
            i <= src@.len(),
            views(out@) == o0 + views(src@).take(i as int),
        decreases src@.len() - i,
    {
        let ghost prev = out@;
        out.push(copy_chars(src[i].as_slice()));
        assert(views(out@) =~= views(prev).push(src@[i as int]@));
        assert(o0 + views(src@).take(i + 1) =~= (o0 + views(src@).take(i as int)).push(
            src@[i as int]@,
        ));
        i = i + 1;
    }
    assert(views(src@).take(src@.len() as int) =~= views(src@));
}

/// Writes transcripts idempotently: after every reference line that has an entry
/// (keyed by 1-based line number) the quote block following it is replaced by the
/// entry's block; references without an entry keep their old block.
pub fn replace_transcripts(body: &str, entries: &std::collections::BTreeMap<usize, TranscriptEntry>) -> (r: String)
    ensures
        r@ == replace_transcripts_s(body@, entries@),
{
    let bv = chars_of(body);
    let ls = lines(bv.as_slice());
    let ghost lv = views(ls@);
    let mut out: Vec<Vec<char>> = Vec::new();
    let mut i: usize = 0;
    while i < ls.len()
        invariant
            i <= ls@.len(),
            lv == views(ls@),
            views(out@) + replaced_from(lv, entries@, i as int) == replaced_from(
                lv,
                entries@,
                0,
            ),
        decreases ls@.len() - i,
    {
        assert(lv[i as int] == ls@[i as int]@);
        let ghost prev = views(out@);
        out.push(copy_chars(ls[i].as_slice()));
        if ref_of_exec(ls[i].as_slice()).is_none() {
            assert(prev + replaced_from(lv, entries@, i as int) =~= views(out@) + replaced_from(
                lv,
                entries@,
                i + 1,
            ));
            i = i + 1;
        } else {
            proof {
                lemma_quote_end(lv, i + 1);
            }
            let j = quote_end_exec(&ls, i + 1);
            let line_no = i + 1;
            let ghost mid = views(out@);
            match entry_at(entries, line_no) {
                Some(entry) => {
                    if !is_blank_str(entry.text.as_str()) {
                        let meta = chars_of(entry.meta.as_str());
                        let text = chars_of(entry.text.as_str());
                        let block = transcript_lines_exec(meta.as_slice(), text.as_slice());
                        push_lines(&mut out, &block);
                    }
                },
                None => {
                    let existing = vec_range(&ls, i + 1, j);
                    push_lines(&mut out, &existing);
                },
            }
            assert(prev + replaced_from(lv, entries@, i as int) =~= views(out@) + replaced_from(
                lv,
                entries@,
                j as int,
            ));
            i = j;
        }
    }
    assert(views(out@) + replaced_from(lv, entries@, i as int) =~= views(out@));
    let mut s = join_str(&out, "\n");
    if ends_with_str(bv.as_slice(), "\n") {
        append_str(&mut s, "\n");
    }
    string_of(s.as_slice())
}


// ---------------------------------------------------------------- timestamped lines

/// Values of the pieces (among the first `n`) that parse, after trimming, as `u64`.
pub open spec fn parsed_upto(ps: Seq<Seq<char>>, n: int) -> Seq<u64>
    decreases n,
{
    if n <= 0 || n > ps.len() {
        seq![]
    } else {
        parsed_upto(ps, n - 1) + match parse_u64_s(trim_s(ps[n - 1])) {
            Some(v) => seq![v],
            None => seq![],
        }
    }
}

/// A `[h:m:s] body` prefix: the parsed `:`-separated values inside the brackets and
/// the text after the first `]`.
pub open spec fn stamp_of(t: Seq<char>) -> Option<(Seq<u64>, Seq<char>)> {
    if t.len() > 0 && t[0] == '[' {
        let rest = t.drop_first();
        let k = idx_of(rest, ']', 0);
        if k < rest.len() {
            let ps = split_s(rest.take(k), ':');
            Some((parsed_upto(ps, ps.len() as int), rest.skip(k + 1)))
        } else {
            None
        }
    } else {
        None
    }
}

/// Seconds of a three-part stamp.
pub open spec fn stamp_secs(p: Seq<u64>) -> int {
    p[0] * 3600 + p[1] * 60 + p[2]
}

fn stamp_of_exec(t: &[char]) -> (r: Option<(Vec<u64>, Vec<char>)>)
    ensures
        match r {
            Some((p, b)) => stamp_of(t@) == Some((p@, b@)),
            None => stamp_of(t@) is None,
        },
{
    if t.len() == 0 || t[0] != '[' {
        return None;
    }
    let rest = subvec(t, 1, t.len());
    assert(rest@ =~= t@.drop_first());
    proof {
        lemma_idx_of(rest@, ']', 0);
    }
    let k = idx_of_exec(rest.as_slice(), ']', 0);
    if k >= rest.len() {
        return None;
    }
    let ts = subvec(rest.as_slice(), 0, k);
    assert(ts@ =~= rest@.take(k as int));
    let body = subvec(rest.as_slice(), k + 1, rest.len());
    assert(body@ =~= rest@.skip(k + 1));
    let ps = split_char(ts.as_slice(), ':');
    let ghost pv = views(ps@);
    let mut vals: Vec<u64> = Vec::new();
    let mut i: usize = 0;
    while i < ps.len()
        invariant
            i <= ps@.len(),
            pv == views(ps@),
            vals@ == parsed_upto(pv, i as int),
        decreases ps@.len() - i,
    {
        assert(pv[i as int] == ps@[i as int]@);
        let tr = trim(ps[i].as_slice());
        match parse_u64(tr.as_slice()) {
            Some(v) => {
                vals.push(v);
            },
            None => {},
        }
        assert(vals@ =~= parsed_upto(pv, i + 1));
        i = i + 1;
    }
    Some((vals, body))
}

/// A line with its `[hh:mm:ss]` stamp moved later by `offset` milliseconds.
pub open spec fn shifted_line(line: Seq<char>, offset: nat) -> Seq<char> {
    let t = trim_end_s(line);
    match stamp_of(t) {
        Some((p, body)) => if p.len() == 3 {
            "["@ + mmss_s((stamp_secs(p) * 1000 + offset) as nat) + "] "@ + trim_start_s(body)
        } else {
            t
        },
        None => t,
    }
}

/// The stamp of the line, shifted by `offset`, fits in `u64`.
pub open spec fn shift_fits(line: Seq<char>, offset: nat) -> bool {
    match stamp_of(trim_end_s(line)) {
        Some((p, body)) => p.len() == 3 ==> stamp_secs(p) * 1000 + offset <= u64::MAX,
        None => true,
    }
}

/// Shifted lines among the first `n`.
pub open spec fn shifted_upto(ls: Seq<Seq<char>>, offset: nat, n: int) -> Seq<Seq<char>>
    decreases n,
{
    if n <= 0 || n > ls.len() {
        seq![]
    } else {
        shifted_upto(ls, offset, n - 1).push(shifted_line(ls[n - 1], offset))
    }
}

/// Meaning of `shift_timestamps`.
pub open spec fn shift_timestamps_s(text: Seq<char>, offset: nat) -> Seq<char> {
    if offset == 0 {
        text
    } else {
        let ls = lines_s(text);
        join_s(shifted_upto(ls, offset, ls.len() as int), "\n"@)
    }
}

/// Moves every `[hh:mm:ss]` line prefix later by `offset_ms`, so that the
/// transcripts of consecutive segments form one time line.
pub fn shift_timestamps(text: &str, offset_ms: u64) -> (r: String)
    requires
        offset_ms > 0 ==> forall|i: int|
            0 <= i < lines_s(text@).len() ==> shift_fits(
                #[trigger] lines_s(text@)[i],
                offset_ms as nat,
            ),
    ensures
        r@ == shift_timestamps_s(text@, offset_ms as nat),
{
    if offset_ms == 0 {
        return string_of(chars_of(text).as_slice());
    }
    let ls = lines_str(text);
    let ghost lv = views(ls@);
    let mut out: Vec<Vec<char>> = Vec::new();
    let mut i: usize = 0;
    while i < ls.len()
        invariant
            i <= ls@.len(),
            lv == views(ls@),
            lv == lines_s(text@),
            offset_ms > 0,
            forall|k: int| 0 <= k < lv.len() ==> shift_fits(#[trigger] lv[k], offset_ms as nat),
            views(out@) == shifted_upto(lv, offset_ms as nat, i as int),
        decreases ls@.len() - i,
    {
        assert(lv[i as int] == ls@[i as int]@);
        assert(shift_fits(lv[i as int], offset_ms as nat));
        let t = trim_end(ls[i].as_slice());
        let mut line = copy_chars(t.as_slice());
        match stamp_of_exec(t.as_slice()) {
            Some((p, body)) => {
                if p.len() == 3 {
                    let ms = (p[0] * 3600 + p[1] * 60 + p[2]) * 1000 + offset_ms;
                    let mut l = chars_of("[");
                    let m = mmss(ms);
                    append_str(&mut l, m.as_str());
                    append_str(&mut l, "] ");
                    let b = trim_start(body.as_slice());
                    append(&mut l, b.as_slice());
                    line = l;
                }
            },
            None => {},
        }
        let ghost prev = out@;
        out.push(line);
        assert(views(out@) =~= views(prev).push(shifted_line(lv[i as int], offset_ms as nat)));
        i = i + 1;
    }
    let j = join_str(&out, "\n");
    string_of(j.as_slice())
}

/// A transcript line: its stamp in milliseconds (when it has a three-part stamp)
/// and its text.
pub open spec fn timestamped(line: Seq<char>) -> (Option<u64>, Seq<char>) {
    let t = trim_s(line);
    match stamp_of(t) {
        Some((p, body)) => if p.len() == 3 {
            (Some((stamp_secs(p) * 1000) as u64), trim_s(body))
        } else {
            (None, t)
        },
        None => (None, t),
    }
}

/// The stamp of the line, in milliseconds, fits in `u64`.
pub open spec fn stamp_fits(line: Seq<char>) -> bool {
    match stamp_of(trim_s(line)) {
        Some((p, body)) => p.len() == 3 ==> stamp_secs(p) * 1000 <= u64::MAX,
        None => true,
    }
}

/// Timestamped lines among the first `n`, without the ones whose text is empty.
pub open spec fn timestamped_upto(ls: Seq<Seq<char>>, n: int) -> Seq<(Option<u64>, Seq<char>)>
    decreases n,
{
    if n <= 0 || n > ls.len() {
        seq![]
    } else if timestamped(ls[n - 1]).1.len() > 0 {
        timestamped_upto(ls, n - 1).push(timestamped(ls[n - 1]))
    } else {
        timestamped_upto(ls, n - 1)
    }
}

/// View of a parsed line.
pub open spec fn ts_view(x: (Option<u64>, String)) -> (Option<u64>, Seq<char>) {
    (x.0, x.1@)
}

/// Parses transcript lines with an `[hh:mm:ss]` prefix; lines without text are dropped.
pub fn parse_timestamped_lines(text: &str) -> (r: Vec<(Option<u64>, String)>)
    requires
        forall|i: int|
            0 <= i < lines_s(text@).len() ==> stamp_fits(#[trigger] lines_s(text@)[i]),
    ensures
        r@.len() == timestamped_upto(lines_s(text@), lines_s(text@).len() as int).len(),
        forall|i: int|
            0 <= i < r@.len() ==> ts_view(#[trigger] r@[i]) == timestamped_upto(
                lines_s(text@),
                lines_s(text@).len() as int,
            )[i],
{
    let ls = lines_str(text);
    let ghost lv = views(ls@);
    let mut out: Vec<(Option<u64>, String)> = Vec::new();
    let mut i: usize = 0;
    while i < ls.len()
        invariant
            i <= ls@.len(),
            lv == views(ls@),
            lv == lines_s(text@),
            forall|k: int| 0 <= k < lv.len() ==> stamp_fits(#[trigger] lv[k]),
            out@.len() == timestamped_upto(lv, i as int).len(),
            forall|k: int|
                0 <= k < out@.len() ==> ts_view(#[trigger] out@[k]) == timestamped_upto(
                    lv,
                    i as int,
                )[k],
        decreases ls@.len() - i,
    {
        assert(lv[i as int] == ls@[i as int]@);
        assert(stamp_fits(lv[i as int]));
        let t = trim(ls[i].as_slice());
        let mut item: (Option<u64>, Vec<char>) = (None, copy_chars(t.as_slice()));
        match stamp_of_exec(t.as_slice()) {
            Some((p, body)) => {
                if p.len() == 3 {
                    let ms = (p[0] * 3600 + p[1] * 60 + p[2]) * 1000;
                    item = (Some(ms), trim(body.as_slice()));
                }
            },
            None => {},
        }
        assert(item.0 == timestamped(lv[i as int]).0 && item.1@ == timestamped(lv[i as int]).1);
        if item.1.len() > 0 {
            let ghost prev = out@;
            out.push((item.0, string_of(item.1.as_slice())));
            assert forall|k: int| 0 <= k < out@.len() implies ts_view(#[trigger] out@[k])
                == timestamped_upto(lv, i + 1)[k] by {
                if k < prev.len() {
                    assert(out@[k] == prev[k]);
                }
            }
        }
        i = i + 1;
    }
    out
}

/// Index of the segment a stamp belongs to: the first segment that contains it or
/// starts after it; the last segment otherwise.
pub open spec fn seg_index(segs: Seq<(u64, u64)>, ms: u64, i: int) -> int
    decreases segs.len() - i,
{
    if i < 0 || i >= segs.len() {
        segs.len() - 1
    } else if (ms >= segs[i].0 && ms < segs[i].1) || ms < segs[i].0 {
        i
    } else {
        seg_index(segs, ms, i + 1)
    }
}

proof fn lemma_seg_index(segs: Seq<(u64, u64)>, ms: u64, i: int)
    requires
        0 <= i,
        segs.len() > 0,
    ensures
        0 <= seg_index(segs, ms, i) < segs.len(),
    decreases segs.len() - i,
{
    if i < segs.len() && !((ms >= segs[i].0 && ms < segs[i].1) || ms < segs[i].0) {
        lemma_seg_index(segs, ms, i + 1);
    }
}

/// Buckets and current bucket after distributing the first `n` lines.
pub open spec fn dist_upto(
    lines: Seq<(Option<u64>, Seq<char>)>,
    segs: Seq<(u64, u64)>,
    n: int,
) -> (Seq<Seq<Seq<char>>>, int)
    decreases n,
{
    if n <= 0 || n > lines.len() {
        (Seq::new(segs.len(), |k: int| Seq::<Seq<char>>::empty()), 0)
    } else {
        let (b, last) = dist_upto(lines, segs, n - 1);
        let idx = match lines[n - 1].0 {
            None => last,
            Some(ms) => seg_index(segs, ms, 0),
        };
        (b.update(idx, b[idx].push(lines[n - 1].1)), idx)
    }
}

/// Meaning of `distribute_transcript`.
pub open spec fn distribute_s(lines: Seq<(Option<u64>, Seq<char>)>, segs: Seq<(u64, u64)>) -> Seq<
    Seq<Seq<char>>,
> {
    if segs.len() == 0 {
        seq![Seq::new(lines.len(), |k: int| lines[k].1)]
    } else {
        dist_upto(lines, segs, lines.len() as int).0
    }
}

proof fn lemma_dist_upto(
    lines: Seq<(Option<u64>, Seq<char>)>,
    segs: Seq<(u64, u64)>,
    n: int,
)
    requires
        segs.len() > 0,
        0 <= n <= lines.len(),
    ensures
        dist_upto(lines, segs, n).0.len() == segs.len(),
        0 <= dist_upto(lines, segs, n).1 < segs.len(),
    decreases n,
{
    if n > 0 {
        lemma_dist_upto(lines, segs, n - 1);
        match lines[n - 1].0 {
            None => {},
            Some(ms) => lemma_seg_index(segs, ms, 0),
        }
    }
}

/// Lines held by all buckets together.
pub open spec fn bucket_total(b: Seq<Seq<Seq<char>>>) -> int
    decreases b.len(),
{
    if b.len() == 0 {
        0
    } else {
        bucket_total(b.drop_last()) + b.last().len()
    }
}

proof fn lemma_bucket_total_push(b: Seq<Seq<Seq<char>>>, i: int, x: Seq<char>)
    requires
        0 <= i < b.len(),
    ensures
        bucket_total(b.update(i, b[i].push(x))) == bucket_total(b) + 1,
    decreases b.len(),
{
    let u = b.update(i, b[i].push(x));
    if i == b.len() - 1 {
        assert(u.drop_last() =~= b.drop_last());
    } else {
        assert(u.drop_last() =~= b.drop_last().update(i, b.drop_last()[i].push(x)));
        lemma_bucket_total_push(b.drop_last(), i, x);
    }
}

proof fn lemma_bucket_total_empty(n: nat)
    ensures
        bucket_total(Seq::new(n, |k: int| Seq::<Seq<char>>::empty())) == 0,
    decreases n,
{
    if n > 0 {
        let b = Seq::new(n, |k: int| Seq::<Seq<char>>::empty());
        assert(b.drop_last() =~= Seq::new((n - 1) as nat, |k: int| Seq::<Seq<char>>::empty()));
        lemma_bucket_total_empty((n - 1) as nat);
    }
}

proof fn lemma_dist_total(lines: Seq<(Option<u64>, Seq<char>)>, segs: Seq<(u64, u64)>, n: int)
    requires
        segs.len() > 0,
        0 <= n <= lines.len(),
    ensures
        bucket_total(dist_upto(lines, segs, n).0) == n,
    decreases n,
{
    if n == 0 {
        lemma_bucket_total_empty(segs.len());
    } else {
        lemma_dist_total(lines, segs, n - 1);
        lemma_dist_upto(lines, segs, n - 1);
        let (b, last) = dist_upto(lines, segs, n - 1);
        let idx = match lines[n - 1].0 {
            None => last,
            Some(ms) => seg_index(segs, ms, 0),
        };
        match lines[n - 1].0 {
            None => {},
            Some(ms) => lemma_seg_index(segs, ms, 0),
        }
        lemma_bucket_total_push(b, idx, lines[n - 1].1);
    }
}

/// Distributing a transcript over the segments loses no line and adds none:
/// one bucket per segment (one in all when there are no segments), holding
/// as many lines together as there were.
pub proof fn lemma_distribute_keeps_lines(lines: Seq<(Option<u64>, Seq<char>)>, segs: Seq<(u64, u64)>)
    ensures
        distribute_s(lines, segs).len() == if segs.len() == 0 {
            1
        } else {
            segs.len() as int
        },
        bucket_total(distribute_s(lines, segs)) == lines.len(),
{
    if segs.len() == 0 {
        let b = seq![Seq::new(lines.len(), |k: int| lines[k].1)];
        assert(b.drop_last() =~= Seq::<Seq<Seq<char>>>::empty());
        assert(bucket_total(Seq::<Seq<Seq<char>>>::empty()) == 0);
        assert(bucket_total(b) == bucket_total(b.drop_last()) + b.last().len());
        assert(distribute_s(lines, segs) == b);
    } else {
        lemma_dist_upto(lines, segs, lines.len() as int);
        lemma_dist_total(lines, segs, lines.len() as int);
    }
}

/// View of the buckets.
pub open spec fn buckets_view(b: Seq<Vec<String>>) -> Seq<Seq<Seq<char>>> {
    Seq::new(b.len(), |i: int| str_views(b[i]@))
}

fn clone_strings(v: &Vec<String>) -> (r: Vec<String>)
    ensures
        r@ == v@,
{
    let mut r: Vec<String> = Vec::new();
    let mut i: usize = 0;
    while i < v.len()
        invariant
            i <= v@.len(),
            r@ == v@.take(i as int),
        decreases v@.len() - i,
    {
        r.push(v[i].clone());
        assert(r@ =~= v@.take(i + 1));
        i = i + 1;
    }
    assert(v@.take(v@.len() as int) =~= v@);
    r
}

fn seg_index_exec(segs: &[(u64, u64)], ms: u64) -> (r: usize)
    requires
        segs@.len() > 0,
    ensures
        r == seg_index(segs@, ms, 0),
{
    let mut i: usize = 0;
    while i < segs.len()
        invariant
            i <= segs@.len(),
            seg_index(segs@, ms, i as int) == seg_index(segs@, ms, 0),
        decreases segs@.len() - i,
    {
        let (start, end) = segs[i];
        if (ms >= start && ms < end) || ms < start {
            return i;
        }
        i = i + 1;
    }
    segs.len() - 1
}

/// Spreads `[hh:mm:ss]` transcript lines over segments by their time ranges; a line
/// without a stamp follows the line before it. With no segment, all lines go to one
/// bucket.
pub fn distribute_transcript(lines: &[(Option<u64>, String)], segs: &[(u64, u64)]) -> (r: Vec<
    Vec<String>,
>)
    ensures
        buckets_view(r@) == distribute_s(
            Seq::new(lines@.len(), |k: int| ts_view(lines@[k])),
            segs@,
        ),
{
    let ghost lv = Seq::new(lines@.len(), |k: int| ts_view(lines@[k]));
    if segs.len() == 0 {
        let mut all: Vec<String> = Vec::new();
        let mut i: usize = 0;
        while i < lines.len()
            invariant
                i <= lines@.len(),
                lv == Seq::new(lines@.len(), |k: int| ts_view(lines@[k])),
                all@.len() == i,
                str_views(all@) == Seq::new(i as nat, |k: int| lv[k].1),
            decreases lines@.len() - i,
        {
            let ghost prev = all@;
            let c = lines[i].1.clone();
            assert(c@ == lines@[i as int].1@);
            all.push(c);
            assert(lv[i as int].1 == lines@[i as int].1@);
            assert(all@[i as int]@ == lines@[i as int].1@);
            assert(str_views(all@) =~= str_views(prev).push(lv[i as int].1));
            assert(str_views(all@) =~= Seq::new((i + 1) as nat, |k: int| lv[k].1));
            i = i + 1;
        }
        let mut r: Vec<Vec<String>> = Vec::new();
        r.push(all);
        assert(buckets_view(r@) =~= distribute_s(lv, segs@));
        return r;
    }
    let mut buckets: Vec<Vec<String>> = Vec::new();
    let mut k: usize = 0;
    while k < segs.len()
        invariant
            k <= segs@.len(),
            buckets@.len() == k,
            forall|j: int| 0 <= j < k ==> (#[trigger] buckets@[j])@.len() == 0,
        decreases segs@.len() - k,
    {
        buckets.push(Vec::new());
        k = k + 1;
    }
    assert forall|j: int| 0 <= j < buckets@.len() implies buckets_view(buckets@)[j]
        =~= Seq::<Seq<char>>::empty() by {
        assert(buckets@[j]@.len() == 0);
    }
    assert(buckets_view(buckets@) =~= dist_upto(lv, segs@, 0).0);
    let mut last: usize = 0;
    let mut i: usize = 0;
    while i < lines.len()
        invariant
            i <= lines@.len(),
            segs@.len() > 0,
            lv == Seq::new(lines@.len(), |k: int| ts_view(lines@[k])),
            buckets_view(buckets@) == dist_upto(lv, segs@, i as int).0,
            last == dist_upto(lv, segs@, i as int).1,
            buckets@.len() == segs@.len(),
        decreases lines@.len() - i,
    {
        proof {
            lemma_dist_upto(lv, segs@, i as int);
        }
        let idx = match lines[i].0 {
            None => last,
            Some(ms) => seg_index_exec(segs, ms),
        };
        proof {
            match lines@[i as int].0 {
                None => {},
                Some(ms) => lemma_seg_index(segs@, ms, 0),
            }
        }
        let ghost prev = buckets_view(buckets@);
        let mut b = clone_strings(&buckets[idx]);
        let ghost bprev = b@;
        b.push(lines[i].1.clone());
        buckets.set(idx, b);
        assert(str_views(buckets@[idx as int]@) =~= prev[idx as int].push(lv[i as int].1));
        assert(buckets_view(buckets@) =~= prev.update(idx as int, prev[idx as int].push(lv[i as int].1)));
        last = idx;
        i = i + 1;
    }
    buckets
}


// ---------------------------------------------------------------- transcripts summary

/// `es` lists the entries of `m` in increasing key order.
pub open spec fn in_key_order(
    es: Seq<(usize, TranscriptEntry)>,
    m: Map<usize, TranscriptEntry>,
) -> bool {
    &&& es.len() == m.dom().len()
    &&& forall|i: int, j: int| 0 <= i < j < es.len() ==> es[i].0 < es[j].0
    &&& forall|i: int| 0 <= i < es.len() ==> m.contains_key(#[trigger] es[i].0) && m[es[i].0] == es[i].1
}

/// The entries of the map in key order.
fn entries_in_order(m: &std::collections::BTreeMap<usize, TranscriptEntry>) -> (r: Vec<
    (usize, &TranscriptEntry),
>)
    ensures
        in_key_order(Seq::new(r@.len(), |i: int| (r@[i].0, *r@[i].1)), m@),
{
    broadcast use vstd::laws_cmp::group_laws_cmp, vstd::std_specs::btree::group_btree_axioms;

    let mut out: Vec<(usize, &TranscriptEntry)> = Vec::new();
    let it = m.iter();
    let ghost all = it.remaining();
    assert(vstd::std_specs::btree::increasing_seq(
        all.map_values(|kv: (&usize, &TranscriptEntry)| *kv.0),
    ));
    for kv in iter: it
        invariant
            all == iter.seq(),
            out@.len() == iter.index(),
            forall|i: int| 0 <= i < out@.len() ==> (#[trigger] out@[i]).0 == *all[i].0 && out@[i].1 == all[i].1,
    {
        out.push((*kv.0, kv.1));
    }
    proof {
        let es = Seq::new(out@.len(), |i: int| (out@[i].0, *out@[i].1));
        assert(es.len() == m@.dom().len());
        let ks = all.map_values(|kv: (&usize, &TranscriptEntry)| *kv.0);
        assert(vstd::std_specs::btree::increasing_seq(ks));
        assert forall|i: int, j: int| 0 <= i < j < es.len() implies es[i].0 < es[j].0 by {
            assert(ks[i] == es[i].0);
            assert(ks[j] == es[j].0);
            assert(vstd::std_specs::cmp::OrdSpec::cmp_spec(&ks[i], &ks[j]) is Less);
        }
        assert forall|i: int| 0 <= i < es.len() implies m@.contains_key(#[trigger] es[i].0)
            && m@[es[i].0] == es[i].1 by {
            assert(m@.contains_key(*all[i].0));
        }
    }
    out
}

/// The block of one recording in the summary: `【录音 n】meta` then the text.
pub open spec fn summary_block(n: int, e: TranscriptEntry) -> Seq<char> {
    "【录音 "@ + dec_s(n as nat) + "】"@ + trim_s(e.meta@) + "\n"@ + trim_s(e.text@)
}

/// Blocks of the non-blank entries among the first `n` (numbered by position).
pub open spec fn summary_upto(es: Seq<(usize, TranscriptEntry)>, n: int) -> Seq<Seq<char>>
    decreases n,
{
    if n <= 0 || n > es.len() {
        seq![]
    } else if blank(es[n - 1].1.text@) {
        summary_upto(es, n - 1)
    } else {
        summary_upto(es, n - 1).push(summary_block(n, es[n - 1].1))
    }
}

/// Meaning of `transcripts_text` for the entries in key order.
pub open spec fn transcripts_text_s(es: Seq<(usize, TranscriptEntry)>) -> Seq<char> {
    join_s(summary_upto(es, es.len() as int), "\n\n"@)
}

/// One text holding another holds what that one holds.
pub proof fn lemma_contains_trans(a: Seq<char>, b: Seq<char>, c: Seq<char>)
    requires
        contains_s(a, b),
        contains_s(b, c),
    ensures
        contains_s(a, c),
{
    let i = choose|i: int| #[trigger] occurs_at(a, b, i);
    let j = choose|j: int| #[trigger] occurs_at(b, c, j);
    assert forall|k: int| 0 <= k < c.len() implies a.subrange(i + j, i + j + c.len())[k] == c[k] by {
        assert(b.subrange(j, j + c.len())[k] == c[k]);
        assert(a.subrange(i, i + b.len())[j + k] == b[j + k]);
    }
    assert(a.subrange(i + j, i + j + c.len()) =~= c);
    assert(occurs_at(a, c, i + j));
}

/// Each part of a join is in the join.
pub proof fn lemma_join_holds_part(parts: Seq<Seq<char>>, sep: Seq<char>, x: int)
    requires
        0 <= x < parts.len(),
    ensures
        contains_s(join_s(parts, sep), parts[x]),
    decreases parts.len(),
{
    let j = join_s(parts, sep);
    if parts.len() == 1 {
        assert(j == parts[0]);
        assert(j.subrange(0, j.len() as int) =~= j);
        assert(occurs_at(j, parts[0], 0));
    } else {
        let d = parts.drop_last();
        let a = join_s(d, sep);
        assert(j == a + sep + parts.last());
        if x < parts.len() - 1 {
            assert(d[x] == parts[x]);
            lemma_join_holds_part(d, sep, x);
            let i = choose|i: int| #[trigger] occurs_at(a, parts[x], i);
            assert(j.subrange(i, i + parts[x].len()) =~= a.subrange(i, i + parts[x].len()));
            assert(occurs_at(j, parts[x], i));
        } else {
            let at = a.len() + sep.len();
            assert(j.subrange(at as int, j.len() as int) =~= parts.last());
            assert(occurs_at(j, parts[x], at as int));
        }
    }
}

/// The block of every entry with a non-blank text is among the blocks.
proof fn lemma_summary_has(es: Seq<(usize, TranscriptEntry)>, n: int, i: int)
    requires
        0 <= i < n <= es.len(),
        !blank(es[i].1.text@),
    ensures
        exists|x: int|
            0 <= x < summary_upto(es, n).len() && #[trigger] summary_upto(es, n)[x] == summary_block(i + 1, es[i].1),
    decreases n,
{
    if i < n - 1 {
        lemma_summary_has(es, n - 1, i);
        let x = choose|x: int|
            0 <= x < summary_upto(es, n - 1).len() && #[trigger] summary_upto(es, n - 1)[x] == summary_block(
                i + 1,
                es[i].1,
            );
        if !blank(es[n - 1].1.text@) {
            assert(summary_upto(es, n)[x] == summary_upto(es, n - 1)[x]);
        }
        assert(summary_upto(es, n)[x] == summary_block(i + 1, es[i].1));
    } else {
        let l = summary_upto(es, n).len() - 1;
        assert(summary_upto(es, n)[l] == summary_block(i + 1, es[i].1));
    }
}

/// Every entry of a map given in key order stands at some place of the order.
proof fn lemma_key_order_covers(es: Seq<(usize, TranscriptEntry)>, m: Map<usize, TranscriptEntry>, k: usize)
    requires
        in_key_order(es, m),
        m.dom().finite(),
        m.contains_key(k),
    ensures
        exists|i: int| 0 <= i < es.len() && es[i].0 == k,
{
    broadcast use vstd::seq_lib::seq_to_set_is_finite;

    let ks = Seq::new(es.len(), |i: int| es[i].0);
    assert(ks.no_duplicates()) by {
        assert forall|a: int, b: int| 0 <= a < ks.len() && 0 <= b < ks.len() && a != b implies ks[a] != ks[b] by {
            if a < b {
                assert(es[a].0 < es[b].0);
            } else {
                assert(es[b].0 < es[a].0);
            }
        }
    }
    ks.unique_seq_to_set();
    assert(ks.to_set().subset_of(m.dom())) by {
        assert forall|x: usize| ks.to_set().contains(x) implies m.dom().contains(x) by {
            let i = choose|i: int| 0 <= i < ks.len() && ks[i] == x;
            assert(m.contains_key(es[i].0));
        }
    }
    vstd::set_lib::lemma_subset_equality(ks.to_set(), m.dom());
    assert(ks.to_set().contains(k));
    let i = choose|i: int| 0 <= i < ks.len() && ks[i] == k;
    assert(es[i].0 == k);
}

/// The transcripts text holds the entry at `i` when its text is not blank.
proof fn lemma_entry_held(es: Seq<(usize, TranscriptEntry)>, i: int)
    requires
        0 <= i < es.len(),
        !blank(es[i].1.text@),
    ensures
        contains_s(transcripts_text_s(es), "】"@ + trim_s(es[i].1.meta@) + "\n"@ + trim_s(es[i].1.text@)),
        contains_s(
            transcripts_text_s(es),
            "【录音 "@ + dec_s((i + 1) as nat) + "】"@ + trim_s(es[i].1.meta@) + "\n"@ + trim_s(es[i].1.text@),
        ),
{
    let e = es[i].1;
    lemma_summary_has(es, es.len() as int, i);
    let bs = summary_upto(es, es.len() as int);
    let x = choose|x: int| 0 <= x < bs.len() && #[trigger] bs[x] == summary_block(i + 1, e);
    lemma_join_holds_part(bs, "\n\n"@, x);
    let tail = "】"@ + trim_s(e.meta@) + "\n"@ + trim_s(e.text@);
    let head = "【录音 "@ + dec_s((i + 1) as nat);
    let b = summary_block(i + 1, e);
    assert(b =~= head + tail);
    assert(b.subrange(head.len() as int, b.len() as int) =~= tail);
    assert(occurs_at(b, tail, head.len() as int));
    lemma_contains_trans(transcripts_text_s(es), b, tail);
    assert(b =~= "【录音 "@ + dec_s((i + 1) as nat) + "】"@ + trim_s(e.meta@) + "\n"@ + trim_s(e.text@));
}

/// In a join, a part ends before any later part begins.
proof fn lemma_join_order(parts: Seq<Seq<char>>, sep: Seq<char>, x: int, y: int)
    requires
        0 <= x < y < parts.len(),
    ensures
        exists|p: int, q: int|
            #[trigger] occurs_at(join_s(parts, sep), parts[x], p) && #[trigger] occurs_at(
                join_s(parts, sep),
                parts[y],
                q,
            ) && p + parts[x].len() <= q,
    decreases parts.len(),
{
    let j = join_s(parts, sep);
    let d = parts.drop_last();
    let a = join_s(d, sep);
    assert(j == a + sep + parts.last());
    assert(d[x] == parts[x]);
    if y < parts.len() - 1 {
        assert(d[y] == parts[y]);
        lemma_join_order(d, sep, x, y);
        let (p, q) = choose|p: int, q: int|
            #[trigger] occurs_at(a, d[x], p) && #[trigger] occurs_at(a, d[y], q) && p + d[x].len() <= q;
        assert(j.subrange(p, p + parts[x].len()) =~= a.subrange(p, p + parts[x].len()));
        assert(j.subrange(q, q + parts[y].len()) =~= a.subrange(q, q + parts[y].len()));
        assert(occurs_at(j, parts[x], p) && occurs_at(j, parts[y], q));
    } else {
        lemma_join_holds_part(d, sep, x);
        let p = choose|p: int| #[trigger] occurs_at(a, d[x], p);
        assert(j.subrange(p, p + parts[x].len()) =~= a.subrange(p, p + parts[x].len()));
        let q: int = a.len() as int + sep.len();
        assert(j.subrange(q, j.len() as int) =~= parts.last());
        assert(occurs_at(j, parts[x], p) && occurs_at(j, parts[y], q));
    }
}

/// Among the blocks, those of two non-blank entries come in the entries' order.
proof fn lemma_summary_order(es: Seq<(usize, TranscriptEntry)>, n: int, i: int, k: int)
    requires
        0 <= i < k < n <= es.len(),
        !blank(es[i].1.text@),
        !blank(es[k].1.text@),
    ensures
        exists|x: int, y: int|
            0 <= x < y < summary_upto(es, n).len() && #[trigger] summary_upto(es, n)[x] == summary_block(
                i + 1,
                es[i].1,
            ) && #[trigger] summary_upto(es, n)[y] == summary_block(k + 1, es[k].1),
    decreases n,
{
    let prev = summary_upto(es, n - 1);
    if k < n - 1 {
        lemma_summary_order(es, n - 1, i, k);
        let (x, y) = choose|x: int, y: int|
            0 <= x < y < prev.len() && #[trigger] prev[x] == summary_block(i + 1, es[i].1)
                && #[trigger] prev[y] == summary_block(k + 1, es[k].1);
        if !blank(es[n - 1].1.text@) {
            assert(summary_upto(es, n)[x] == prev[x]);
            assert(summary_upto(es, n)[y] == prev[y]);
        }
        assert(summary_upto(es, n)[x] == summary_block(i + 1, es[i].1));
        assert(summary_upto(es, n)[y] == summary_block(k + 1, es[k].1));
    } else {
        lemma_summary_has(es, n - 1, i);
        let x = choose|x: int| 0 <= x < prev.len() && #[trigger] prev[x] == summary_block(i + 1, es[i].1);
        let y = prev.len() as int;
        assert(summary_upto(es, n) == prev.push(summary_block(n, es[n - 1].1)));
        assert(summary_upto(es, n)[x] == prev[x]);
        assert(summary_upto(es, n)[y] == summary_block(k + 1, es[k].1));
    }
}

/// The transcripts text keeps the recordings in line order: the numbered block
/// of a non-blank recording ends before that of any later one begins.
pub proof fn lemma_transcripts_in_order(es: Seq<(usize, TranscriptEntry)>, i: int, k: int)
    requires
        0 <= i < k < es.len(),
        !blank(es[i].1.text@),
        !blank(es[k].1.text@),
    ensures
        exists|p: int, q: int|
            #[trigger] occurs_at(
                transcripts_text_s(es),
                "【录音 "@ + dec_s((i + 1) as nat) + "】"@ + trim_s(es[i].1.meta@) + "\n"@ + trim_s(es[i].1.text@),
                p,
            ) && #[trigger] occurs_at(
                transcripts_text_s(es),
                "【录音 "@ + dec_s((k + 1) as nat) + "】"@ + trim_s(es[k].1.meta@) + "\n"@ + trim_s(es[k].1.text@),
                q,
            ) && p < q,
{
    let bs = summary_upto(es, es.len() as int);
    lemma_summary_order(es, es.len() as int, i, k);
    let (x, y) = choose|x: int, y: int|
        0 <= x < y < bs.len() && #[trigger] bs[x] == summary_block(i + 1, es[i].1) && #[trigger] bs[y]
            == summary_block(k + 1, es[k].1);
    lemma_join_order(bs, "\n\n"@, x, y);
    let (p, q) = choose|p: int, q: int|
        #[trigger] occurs_at(join_s(bs, "\n\n"@), bs[x], p) && #[trigger] occurs_at(join_s(bs, "\n\n"@), bs[y], q)
            && p + bs[x].len() <= q;
    reveal_strlit("【录音 ");
    assert(bs[x].len() > 0);
    assert(occurs_at(transcripts_text_s(es), summary_block(i + 1, es[i].1), p));
    assert(occurs_at(transcripts_text_s(es), summary_block(k + 1, es[k].1), q));
}

/// The transcripts text holds every recording whose transcript is not blank:
/// its meta, a line feed and its text, each trimmed, after a `】`.
pub proof fn lemma_transcripts_hold_every_entry(es: Seq<(usize, TranscriptEntry)>, m: Map<usize, TranscriptEntry>)
    requires
        in_key_order(es, m),
        m.dom().finite(),
    ensures
        forall|k: usize|
            m.contains_key(k) && !blank(#[trigger] m[k].text@) ==> contains_s(
                transcripts_text_s(es),
                "】"@ + trim_s(m[k].meta@) + "\n"@ + trim_s(m[k].text@),
            ),
{
    assert forall|k: usize| m.contains_key(k) && !blank(#[trigger] m[k].text@) implies contains_s(
        transcripts_text_s(es),
        "】"@ + trim_s(m[k].meta@) + "\n"@ + trim_s(m[k].text@),
    ) by {
        lemma_key_order_covers(es, m, k);
        let i = choose|i: int| 0 <= i < es.len() && es[i].0 == k;
        assert(m[es[i].0] == es[i].1);
        lemma_entry_held(es, i);
    }
}

/// All transcripts, in line order, as input for the minutes.
pub fn transcripts_text(entries: &std::collections::BTreeMap<usize, TranscriptEntry>) -> (r: String)
    ensures
        exists|es: Seq<(usize, TranscriptEntry)>|
            in_key_order(es, entries@) && r@ == transcripts_text_s(es) && forall|i: int|
                0 <= i < es.len() && !blank(#[trigger] es[i].1.text@) ==> contains_s(
                    r@,
                    "【录音 "@ + dec_s((i + 1) as nat) + "】"@ + trim_s(es[i].1.meta@) + "\n"@ + trim_s(
                        es[i].1.text@,
                    ),
                ) && forall|i: int, k: int|
                0 <= i < k < es.len() && !blank(#[trigger] es[i].1.text@) && !blank(#[trigger] es[k].1.text@)
                    ==> exists|p: int, q: int|
                    #[trigger] occurs_at(
                        r@,
                        "【录音 "@ + dec_s((i + 1) as nat) + "】"@ + trim_s(es[i].1.meta@) + "\n"@ + trim_s(
                            es[i].1.text@,
                        ),
                        p,
                    ) && #[trigger] occurs_at(
                        r@,
                        "【录音 "@ + dec_s((k + 1) as nat) + "】"@ + trim_s(es[k].1.meta@) + "\n"@ + trim_s(
                            es[k].1.text@,
                        ),
                        q,
                    ) && p < q,
        forall|k: usize|
            entries@.contains_key(k) && !blank(#[trigger] entries@[k].text@) ==> contains_s(
                r@,
                "】"@ + trim_s(entries@[k].meta@) + "\n"@ + trim_s(entries@[k].text@),
            ),
{
    let v = entries_in_order(entries);
    let ghost es = Seq::new(v@.len(), |i: int| (v@[i].0, *v@[i].1));
    let mut blocks: Vec<Vec<char>> = Vec::new();
    let mut i: usize = 0;
    while i < v.len()
        invariant
            i <= v@.len(),
            es == Seq::new(v@.len(), |i: int| (v@[i].0, *v@[i].1)),
            views(blocks@) == summary_upto(es, i as int),
        decreases v@.len() - i,
    {
        let e = v[i].1;
        assert(*e == es[i as int].1);
        if !is_blank_str(e.text.as_str()) {
            let mut b = chars_of("【录音 ");
            let n = dec((i + 1) as u64);
            append(&mut b, n.as_slice());
            append_str(&mut b, "】");
            let m = trim_str(e.meta.as_str());
            append(&mut b, m.as_slice());
            append_str(&mut b, "\n");
            let t = trim_str(e.text.as_str());
            append(&mut b, t.as_slice());
            let ghost prev = views(blocks@);
            blocks.push(b);
            assert(views(blocks@) =~= prev.push(summary_block(i + 1, es[i as int].1)));
        }
        i = i + 1;
    }
    assert(in_key_order(es, entries@));
    let r = string_of(join_str(&blocks, "\n\n").as_slice());
    assert(r@ == transcripts_text_s(es));
    proof {
        broadcast use vstd::std_specs::btree::group_btree_axioms;

        assert(entries@.dom().finite());
        lemma_transcripts_hold_every_entry(es, entries@);
        assert forall|i: int| 0 <= i < es.len() && !blank(#[trigger] es[i].1.text@) implies contains_s(
            r@,
            "【录音 "@ + dec_s((i + 1) as nat) + "】"@ + trim_s(es[i].1.meta@) + "\n"@ + trim_s(es[i].1.text@),
        ) by {
            lemma_entry_held(es, i);
        }
        assert forall|i: int, k: int|
            0 <= i < k < es.len() && !blank(#[trigger] es[i].1.text@) && !blank(#[trigger] es[k].1.text@)
                implies exists|p: int, q: int|
            #[trigger] occurs_at(
                r@,
                "【录音 "@ + dec_s((i + 1) as nat) + "】"@ + trim_s(es[i].1.meta@) + "\n"@ + trim_s(es[i].1.text@),
                p,
            ) && #[trigger] occurs_at(
                r@,
                "【录音 "@ + dec_s((k + 1) as nat) + "】"@ + trim_s(es[k].1.meta@) + "\n"@ + trim_s(es[k].1.text@),
                q,
            ) && p < q by {
            lemma_transcripts_in_order(es, i, k);
        }
    }
    r
}

} // verus!
