//! Audio references of meeting notes as the meeting page shows them, and the
//! decisions of processing a note that do not touch the disk: the shape of a
//! reference, the transcript under it, the transcript entry of a processed
//! reference, and the names and text of notes made from old meetings.
use vstd::prelude::*;
use crate::meeting_note::{
    lemma_quote_end, mmss, mmss_s, quote_end, quote_line, shift_fits, shift_timestamps,
    shift_timestamps_s, transcript_lines, transcript_lines_s, TranscriptEntry, MEETING_DIR,
    MINUTES_HEADING, MINUTES_HINT, TRANSCRIPT_TAG,
};
use crate::text::{
    append, append_str, blank, c_skip, chars_of, contains, contains_s, copy_chars, ends_with_s,
    eq_chars, has_char, has_char_exec, is_blank, is_blank_str, join, join_s, lemma_c_skip, lines, lines_s, replace_char,
    replace_char_s, split_char, split_s, starts_with_s, string_of, subvec, trim, trim_c, trim_char,
    trim_end_c, trim_end_char, trim_s, trim_start, trim_start_c, trim_start_char, trim_start_s,
    trim_str, views,
};

verus! {

/// A reference as the meeting page shows it.
#[derive(Debug, Clone)]
pub struct AudioRefView {
    pub line: usize,
    pub token: String,
    pub raw: String,
    /// `file` for one recording, `session` for a whole session
    pub kind: String,
    /// vault-relative path (a directory for a session; empty when not found)
    pub path: String,
    pub file_name: String,
    pub exists: bool,
    pub bytes: u64,
    pub duration_ms: u64,
    /// the recordings played in turn (one for a file reference)
    pub segments: Vec<AudioRefSegment>,
    pub has_transcript: bool,
    pub transcript: String,
}

/// One recording of a referenced session.
#[derive(Debug, Clone)]
pub struct AudioRefSegment {
    pub file: String,
    pub path: String,
    pub seq: i64,
    pub bytes: u64,
    pub duration_ms: u64,
}

/// A meeting note in the meeting list.
#[derive(Debug, Clone)]
pub struct MeetingNoteBrief {
    pub note_id: String,
    pub title: String,
    pub folder: String,
    pub updated_at: i64,
    pub audio_total: usize,
    pub audio_missing: usize,
    pub transcribed: usize,
    pub has_minutes: bool,
    pub duration_ms: u64,
    pub audio_bytes: u64,
}

/// Progress of processing a note.
#[derive(Debug, Clone, Default)]
pub struct ProcessProgress {
    pub note_id: String,
    /// parse / transcribe / write / minutes / done
    pub phase: String,
    pub audio_total: usize,
    pub audio_done: usize,
    pub audio_skipped: usize,
    pub audio_failed: usize,
    pub current: String,
    pub message: String,
}

/// Result of processing a note.
#[derive(Debug, Clone, Default)]
pub struct ProcessOutcome {
    pub note_id: String,
    pub audio_total: usize,
    pub audio_done: usize,
    pub audio_skipped: usize,
    pub audio_failed: usize,
    pub transcript_chars: usize,
    pub minutes_chars: usize,
    pub model: String,
    pub elapsed_ms: u64,
    pub cancelled: bool,
    pub errors: Vec<String>,
}

/// Result of transcribing one recording.
#[derive(Debug, Clone)]
pub struct ClipTranscribeOutcome {
    /// cached / transcribed / empty / failed
    pub status: String,
    /// vault-relative path
    pub path: String,
    pub chars: usize,
    pub error: String,
}

// ---------------------------------------------------------------- transcript under a reference

/// A quote-block line without its marker: leading whitespace, all `>` and
/// then the spaces after them removed.
pub open spec fn unquoted(l: Seq<char>) -> Seq<char> {
    trim_start_c(trim_start_c(trim_start_s(l), '>'), ' ')
}

/// Meaning of `block_after`: the quote block right after line `idx` (its end
/// and its unquoted, trimmed text), if one follows.
pub open spec fn block_after_s(ls: Seq<Seq<char>>, idx: int) -> Option<(int, Seq<char>)> {
    let start = idx + 1;
    if start < 0 || start >= ls.len() || !quote_line(ls[start]) {
        None
    } else {
        let end = quote_end(ls, start);
        let body = ls.subrange(start, end);
        Some((end, trim_s(join_s(Seq::new(body.len(), |k: int| unquoted(body[k])), seq!['\n']))))
    }
}

fn nl() -> (r: Vec<char>)
    ensures
        r@ == seq!['\n'],
{
    let r: Vec<char> = vec!['\n'];
    assert(r@ =~= seq!['\n']);
    r
}

fn unquoted_exec(l: &[char]) -> (r: Vec<char>)
    ensures
        r@ == unquoted(l@),
{
    let a = trim_start(l);
    let b = trim_start_char(a.as_slice(), '>');
    trim_start_char(b.as_slice(), ' ')
}

/// The quote block right after line `idx`: where it ends and its text.
pub fn block_after(lines: &Vec<Vec<char>>, idx: usize) -> (r: Option<(usize, String)>)
    requires
        idx < usize::MAX,
    ensures
        match block_after_s(views(lines@), idx as int) {
            Some((e, t)) => r is Some && (r->0).0 == e && (r->0).1@ == t,
            None => r is None,
        },
{
    let ghost lv = views(lines@);
    let start = idx + 1;
    if start >= lines.len() {
        return None;
    }
    assert(lv[start as int] == lines@[start as int]@);
    let t0 = trim_start(lines[start].as_slice());
    if !crate::text::starts_with_str(t0.as_slice(), ">") {
        return None;
    }
    proof {
        lemma_quote_end(lv, start as int);
    }
    let mut end = start;
    while end < lines.len() && crate::text::starts_with_str(trim_start(lines[end].as_slice()).as_slice(), ">")
        invariant
            start <= end <= lines@.len(),
            lv == views(lines@),
            quote_end(lv, end as int) == quote_end(lv, start as int),
        decreases lines@.len() - end,
    {
        assert(lv[end as int] == lines@[end as int]@);
        end = end + 1;
    }
    if end < lines.len() {
        assert(lv[end as int] == lines@[end as int]@);
    }
    let ghost body = lv.subrange(start as int, end as int);
    let mut parts: Vec<Vec<char>> = Vec::new();
    let mut k = start;
    while k < end
        invariant
            start <= k <= end <= lines@.len(),
            lv == views(lines@),
            body == lv.subrange(start as int, end as int),
            parts@.len() == k - start,
            views(parts@) == Seq::new((k - start) as nat, |m: int| unquoted(body[m])),
        decreases end - k,
    {
        let ghost before = parts@;
        let u = unquoted_exec(lines[k].as_slice());
        assert(body[k - start] == lines@[k as int]@);
        parts.push(u);
        assert forall|m: int| 0 <= m < k - start implies views(parts@)[m] == unquoted(body[m]) by {
            assert(parts@[m] == before[m]);
            assert(views(before)[m] == unquoted(body[m]));
        }
        assert(views(parts@) =~= Seq::new((k + 1 - start) as nat, |m: int| unquoted(body[m])));
        k = k + 1;
    }
    let joined = join(&parts, nl().as_slice());
    let text = trim(joined.as_slice());
    Some((end, string_of(text.as_slice())))
}

/// Lines of `ls` without the transcript marker, among the first `n`.
pub open spec fn untagged_upto(ls: Seq<Seq<char>>, n: int) -> Seq<Seq<char>>
    decreases n,
{
    if n <= 0 || n > ls.len() {
        seq![]
    } else if contains_s(ls[n - 1], TRANSCRIPT_TAG@) {
        untagged_upto(ls, n - 1)
    } else {
        untagged_upto(ls, n - 1).push(ls[n - 1])
    }
}

/// The transcript shown for the reference on line `idx`: the quote block
/// after it without the marker line, trimmed (empty when there is no block).
pub open spec fn ref_transcript_s(ls: Seq<Seq<char>>, idx: int) -> Seq<char> {
    match block_after_s(ls, idx) {
        Some((e, t)) => {
            let tl = lines_s(t);
            trim_s(join_s(untagged_upto(tl, tl.len() as int), seq!['\n']))
        },
        None => seq![],
    }
}

/// The transcript shown for the reference on line `idx`.
pub fn ref_transcript(lines_v: &Vec<Vec<char>>, idx: usize) -> (r: String)
    requires
        idx < usize::MAX,
    ensures
        r@ == ref_transcript_s(views(lines_v@), idx as int),
{
    match block_after(lines_v, idx) {
        None => String::new(),
        Some((_, t)) => {
            let tl = crate::text::lines_str(t.as_str());
            let ghost tv = views(tl@);
            let tag = chars_of(TRANSCRIPT_TAG);
            let mut kept: Vec<Vec<char>> = Vec::new();
            let mut i: usize = 0;
            while i < tl.len()
                invariant
                    i <= tl@.len(),
                    tv == views(tl@),
                    tag@ == TRANSCRIPT_TAG@,
                    views(kept@) == untagged_upto(tv, i as int),
                decreases tl@.len() - i,
            {
                assert(tv[i as int] == tl@[i as int]@);
                if !contains(tl[i].as_slice(), tag.as_slice()) {
                    let ghost before = views(kept@);
                    kept.push(copy_chars(tl[i].as_slice()));
                    assert(views(kept@) =~= before.push(tv[i as int]));
                }
                i = i + 1;
            }
            let j = join(&kept, nl().as_slice());
            string_of(trim(j.as_slice()).as_slice())
        },
    }
}

// ---------------------------------------------------------------- shape of a reference

/// How a reference is looked up.
#[derive(Debug, Clone, PartialEq, Eq)]
pub enum RefShape {
    /// a vault-relative path; `dir_hint` when it ended with `/`
    Path { rel: String, dir_hint: bool },
    /// a bare file name, looked up under the audio directory first
    Bare(String),
}

/// `s` with every leading `./` removed.
pub open spec fn strip_dot_slash(s: Seq<char>) -> Seq<char>
    decreases s.len(),
{
    if s.len() >= 2 && s[0] == '.' && s[1] == '/' {
        strip_dot_slash(s.skip(2))
    } else {
        s
    }
}

/// Meaning of `ref_shape`: the reference trimmed, leading `./` removed,
/// backslashes turned into `/`, trailing `/` removed (remembered as a
/// directory hint); a path when a `/` is left, else a bare name; `None` when
/// nothing is left.
pub open spec fn ref_shape_s(raw: Seq<char>) -> Option<(bool, Seq<char>, bool)> {
    let cleaned = strip_dot_slash(trim_s(raw));
    if cleaned.len() == 0 {
        None
    } else {
        let normalized = replace_char_s(cleaned, '\\', '/');
        let dir_hint = normalized.last() == '/';
        let trimmed = trim_end_c(normalized, '/');
        if trimmed.len() == 0 {
            None
        } else if has_char(trimmed, '/') {
            Some((true, trimmed, dir_hint))
        } else {
            Some((false, trimmed, false))
        }
    }
}

/// View of a shape: whether it is a path, its text, the directory hint.
pub open spec fn shape_view(s: RefShape) -> (bool, Seq<char>, bool) {
    match s {
        RefShape::Path { rel, dir_hint } => (true, rel@, dir_hint),
        RefShape::Bare(name) => (false, name@, false),
    }
}

/// How the reference text `raw` is looked up.
pub fn ref_shape(raw: &str) -> (r: Option<RefShape>)
    ensures
        match ref_shape_s(raw@) {
            Some(v) => r is Some && shape_view(r->0) == v,
            None => r is None,
        },
{
    let t = trim_str(raw);
    let mut a: usize = 0;
    let ghost tv = t@;
    assert(tv.skip(0) =~= tv);
    while t.len() >= 2 && a <= t.len() - 2 && t[a] == '.' && t[a + 1] == '/'
        invariant
            a <= t@.len(),
            tv == t@,
            strip_dot_slash(tv.skip(a as int)) == strip_dot_slash(tv),
        decreases t@.len() - a,
    {
        assert(tv.skip(a as int).skip(2) =~= tv.skip(a + 2));
        a = a + 2;
    }
    let cleaned = subvec(t.as_slice(), a, t.len());
    assert(cleaned@ =~= tv.skip(a as int));
    if cleaned.len() == 0 {
        return None;
    }
    let normalized = replace_char(cleaned.as_slice(), '\\', '/');
    let dir_hint = normalized[normalized.len() - 1] == '/';
    let trimmed = trim_end_char(normalized.as_slice(), '/');
    if trimmed.len() == 0 {
        return None;
    }
    if has_char_exec(trimmed.as_slice(), '/') {
        Some(RefShape::Path { rel: string_of(trimmed.as_slice()), dir_hint })
    } else {
        Some(RefShape::Bare(string_of(trimmed.as_slice())))
    }
}

/// A part of a relative path that cannot be joined onto the vault.
pub open spec fn bad_part(p: Seq<char>) -> bool {
    p.len() == 0 || p == "."@ || p == ".."@ || has_char(p, '\\')
}

/// Meaning of `checked_rel`: a relative path that stays inside the vault
/// (not absolute, no drive or home prefix, no empty, `.` or `..` part, no
/// backslash).
pub open spec fn checked_rel_s(rel: Seq<char>) -> bool {
    let parts = split_s(rel, '/');
    &&& rel.len() > 0
    &&& rel[0] != '/'
    &&& !has_char(rel, ':')
    &&& rel[0] != '~'
    &&& forall|i: int| 0 <= i < parts.len() ==> !bad_part(#[trigger] parts[i])
}

fn is_lit(v: &[char], lit: &str) -> (b: bool)
    ensures
        b == (v@ == lit@),
{
    crate::text::eq_chars(v, chars_of(lit).as_slice())
}

/// Whether `rel` can be joined onto the vault.
pub fn checked_rel(rel: &str) -> (b: bool)
    ensures
        b == checked_rel_s(rel@),
{
    let v = chars_of(rel);
    if v.len() == 0 || v[0] == '/' || has_char_exec(v.as_slice(), ':') || v[0] == '~' {
        return false;
    }
    let parts = split_char(v.as_slice(), '/');
    let ghost pv = views(parts@);
    let mut i: usize = 0;
    while i < parts.len()
        invariant
            i <= parts@.len(),
            pv == views(parts@),
            pv == split_s(rel@, '/'),
            forall|k: int| 0 <= k < i ==> !bad_part(#[trigger] pv[k]),
        decreases parts@.len() - i,
    {
        let p = &parts[i];
        assert(pv[i as int] == p@);
        if p.len() == 0 || is_lit(p.as_slice(), ".") || is_lit(p.as_slice(), "..") || has_char_exec(
            p.as_slice(),
            '\\',
        ) {
            assert(bad_part(pv[i as int]));
            return false;
        }
        i = i + 1;
    }
    true
}

/// A session directory relative to the audio directory: the path without a
/// leading `会议音频/`.
pub open spec fn seg_dir_of_s(rel: Seq<char>) -> Seq<char> {
    let p = crate::audio_clip::AUDIO_DIR@ + "/"@;
    if starts_with_s(rel, p) {
        rel.skip(p.len() as int)
    } else {
        rel
    }
}

/// The directory of a session reference relative to the audio directory.
pub fn seg_dir_of(rel: &str) -> (r: String)
    ensures
        r@ == seg_dir_of_s(rel@),
{
    let mut p = chars_of(crate::audio_clip::AUDIO_DIR);
    append_str(&mut p, "/");
    let v = chars_of(rel);
    if crate::text::starts_with(v.as_slice(), p.as_slice()) {
        string_of(subvec(v.as_slice(), p.len(), v.len()).as_slice())
    } else {
        string_of(v.as_slice())
    }
}

// ---------------------------------------------------------------- processing a reference

/// What became of one recording of a reference.
#[derive(Debug, Clone)]
pub struct SegOutcome {
    /// file name of the recording
    pub file: String,
    pub duration_ms: u64,
    /// its transcript, `None` when transcribing failed
    pub text: Option<String>,
}

/// View of an outcome: file, duration, transcript.
pub open spec fn outcome_view(o: SegOutcome) -> (Seq<char>, nat, Option<Seq<char>>) {
    (
        o.file@,
        o.duration_ms as nat,
        match o.text {
            Some(t) => Some(t@),
            None => None,
        },
    )
}

/// Views of outcomes.
pub open spec fn outcomes_view(s: Seq<SegOutcome>) -> Seq<(Seq<char>, nat, Option<Seq<char>>)> {
    Seq::new(s.len(), |i: int| outcome_view(s[i]))
}

/// After the first `n` recordings: the transcript parts (timestamps moved by
/// the length of the recordings before), the time reached and the failed files.
pub open spec fn entry_upto(segs: Seq<(Seq<char>, nat, Option<Seq<char>>)>, n: int) -> (
    Seq<Seq<char>>,
    nat,
    Seq<Seq<char>>,
)
    decreases n,
{
    if n <= 0 || n > segs.len() {
        (seq![], 0, seq![])
    } else {
        let (parts, offset, failed) = entry_upto(segs, n - 1);
        let s = segs[n - 1];
        match s.2 {
            None => (parts, offset, failed.push(s.0)),
            Some(t) => (
                if !blank(t) {
                    parts.push(shift_timestamps_s(t, offset))
                } else {
                    parts
                },
                offset + s.1,
                failed,
            ),
        }
    }
}

/// Recordings whose timestamps, moved, fit in `u64`, as does the total time.
pub open spec fn entry_fits(segs: Seq<(Seq<char>, nat, Option<Seq<char>>)>) -> bool {
    &&& forall|n: int| 0 <= n <= segs.len() ==> #[trigger] entry_upto(segs, n).1 <= u64::MAX
    &&& forall|n: int|
        0 <= n < segs.len() ==> match #[trigger] segs[n].2 {
            Some(t) => forall|i: int|
                0 <= i < lines_s(t).len() ==> shift_fits(
                    #[trigger] lines_s(t)[i],
                    entry_upto(segs, n).1,
                ),
            None => true,
        }
}

/// Meaning of `transcript_entry`: nothing when every recording failed and no
/// text came back; else the parts joined (after a line naming the failed
/// recordings, if any), labelled with the time span and the session or file.
pub open spec fn transcript_entry_s(
    session: Option<Seq<char>>,
    segs: Seq<(Seq<char>, nat, Option<Seq<char>>)>,
) -> Option<(Seq<char>, Seq<char>)> {
    let (parts, offset, failed) = entry_upto(segs, segs.len() as int);
    if parts.len() == 0 && failed.len() > 0 {
        None
    } else {
        let body = join_s(parts, seq!['\n']);
        let text = if failed.len() > 0 {
            "（"@ + crate::text::dec_s(failed.len()) + " 段转写失败："@ + join_s(failed, "、"@)
                + "；可再点一次「一键处理」只重试这些）\n"@ + body
        } else {
            body
        };
        let span = mmss_s(0) + "–"@ + mmss_s(offset);
        let meta = match session {
            Some(name) => span + " · "@ + crate::text::dec_s(segs.len()) + " 段 · "@ + name,
            None => span + " · "@ + segs[0].0,
        };
        Some((meta, text))
    }
}

/// The transcript entry of a processed reference (a session's recordings in
/// order, timestamps moved onto one time line).
pub fn transcript_entry(session: Option<&str>, segs: &[SegOutcome]) -> (r: Option<TranscriptEntry>)
    requires
        session is Some || segs@.len() > 0,
        entry_fits(outcomes_view(segs@)),
    ensures
        match transcript_entry_s(
            match session {
                Some(s) => Some(s@),
                None => None,
            },
            outcomes_view(segs@),
        ) {
            Some((meta, text)) => r is Some && r->0.meta@ == meta && r->0.text@ == text,
            None => r is None,
        },
{
    let ghost sv = outcomes_view(segs@);
    let mut parts: Vec<Vec<char>> = Vec::new();
    let mut failed: Vec<Vec<char>> = Vec::new();
    let mut offset: u64 = 0;
    let mut i: usize = 0;
    while i < segs.len()
        invariant
            i <= segs@.len(),
            sv == outcomes_view(segs@),
            entry_fits(sv),
            (views(parts@), offset as nat, views(failed@)) == entry_upto(sv, i as int),
        decreases segs@.len() - i,
    {
        let s = &segs[i];
        assert(sv[i as int] == outcome_view(*s));
        let ghost fits = entry_upto(sv, i + 1).1 <= u64::MAX;
        assert(entry_upto(sv, i + 1).1 <= u64::MAX);
        match &s.text {
            None => {
                let ghost before = views(failed@);
                failed.push(chars_of(s.file.as_str()));
                assert(views(failed@) =~= before.push(s.file@));
            },
            Some(t) => {
                if !crate::text::is_blank_str(t.as_str()) {
                    let ghost before = views(parts@);
                    let shifted = shift_timestamps(t.as_str(), offset);
                    parts.push(chars_of(shifted.as_str()));
                    assert(views(parts@) =~= before.push(shift_timestamps_s(t@, offset as nat)));
                }
                offset = offset + s.duration_ms;
            },
        }
        i = i + 1;
    }
    if parts.len() == 0 && failed.len() > 0 {
        return None;
    }
    let body = join(&parts, nl().as_slice());
    let text = if failed.len() > 0 {
        let mut t = chars_of("（");
        append(&mut t, crate::text::dec(failed.len() as u64).as_slice());
        append_str(&mut t, " 段转写失败：");
        append(&mut t, crate::text::join_str(&failed, "、").as_slice());
        append_str(&mut t, "；可再点一次「一键处理」只重试这些）\n");
        append(&mut t, body.as_slice());
        t
    } else {
        body
    };
    let mut meta = chars_of(mmss(0).as_str());
    append_str(&mut meta, "–");
    append_str(&mut meta, mmss(offset).as_str());
    match session {
        Some(name) => {
            append_str(&mut meta, " · ");
            append(&mut meta, crate::text::dec(segs.len() as u64).as_slice());
            append_str(&mut meta, " 段 · ");
            append_str(&mut meta, name);
        },
        None => {
            append_str(&mut meta, " · ");
            assert(sv[0].0 == segs@[0].file@);
            append_str(&mut meta, segs[0].file.as_str());
        },
    }
    Some(TranscriptEntry { meta: string_of(meta.as_slice()), text: string_of(text.as_slice()) })
}

/// `s` with every trailing `.md` removed.
pub open spec fn strip_md(s: Seq<char>) -> Seq<char>
    decreases s.len(),
{
    if ends_with_s(s, ".md"@) && ".md"@.len() > 0 {
        strip_md(s.take(s.len() - ".md"@.len()))
    } else {
        s
    }
}

/// Meaning of `note_title_fallback`: the last path part of the id without `.md`.
pub open spec fn note_title_fallback_s(note_id: Seq<char>) -> Seq<char> {
    crate::text::after_last(strip_md(note_id), '/')
}

/// The title used for a note that has none in the index.
pub fn note_title_fallback(note_id: &str) -> (r: String)
    ensures
        r@ == note_title_fallback_s(note_id@),
{
    let mut v = chars_of(note_id);
    let md = chars_of(".md");
    while crate::text::ends_with(v.as_slice(), md.as_slice()) && md.len() > 0
        invariant
            md@ == ".md"@,
            strip_md(v@) == strip_md(note_id@),
        decreases v@.len(),
    {
        let n = v.len() - md.len();
        v = subvec(v.as_slice(), 0, n);
    }
    string_of(crate::text::after_last_exec(v.as_slice(), '/').as_slice())
}

// ---------------------------------------------------------------- meeting notes

/// Characters replaced by `-` in the file name of a meeting note.
pub open spec fn bad_name_char(c: char) -> bool {
    c == '/' || c == '\\' || c == ':' || c == '*' || c == '?' || c == '"' || c == '<' || c == '>'
        || c == '|'
}

/// Unsafe characters replaced by `-`.
pub open spec fn safe_chars(s: Seq<char>) -> Seq<char> {
    Seq::new(s.len(), |i: int| if bad_name_char(s[i]) { '-' } else { s[i] })
}

/// A name trimmed, then dots trimmed, then trimmed again.
pub open spec fn tidy_name(s: Seq<char>) -> Seq<char> {
    trim_s(trim_c(trim_s(s), '.'))
}

fn safe_chars_exec(v: &[char]) -> (r: Vec<char>)
    ensures
        r@ == safe_chars(v@),
{
    let mut r: Vec<char> = Vec::new();
    let mut i: usize = 0;
    while i < v.len()
        invariant
            i <= v@.len(),
            r@ == safe_chars(v@).take(i as int),
        decreases v@.len() - i,
    {
        let c = v[i];
        let bad = c == '/' || c == '\\' || c == ':' || c == '*' || c == '?' || c == '"' || c == '<'
            || c == '>' || c == '|';
        r.push(if bad { '-' } else { c });
        assert(r@ =~= safe_chars(v@).take(i + 1));
        i = i + 1;
    }
    assert(safe_chars(v@).take(v@.len() as int) =~= safe_chars(v@));
    r
}

fn tidy_name_exec(v: &[char]) -> (r: Vec<char>)
    ensures
        r@ == tidy_name(v@),
{
    let a = trim(v);
    let b = trim_char(a.as_slice(), '.');
    trim(b.as_slice())
}

/// Why a meeting note could not be created.
#[derive(Debug, Clone, Copy, PartialEq, Eq, Structural)]
pub enum CreateNoteError {
    /// the title is blank
    NoTitle,
}

impl CreateNoteError {
    /// A message for the user.
    pub fn message(&self) -> (r: String)
        ensures
            r@ == "请填写会议标题"@,
    {
        string_of(chars_of("请填写会议标题").as_slice())
    }
}

/// Meaning of `meeting_stem`: `date-title` made safe for a file name.
pub open spec fn meeting_stem_s(title: Seq<char>, date: Seq<char>) -> Seq<char> {
    tidy_name(safe_chars(trim_s(date) + "-"@ + trim_s(title)))
}

/// The file stem of a new meeting note; `NoTitle` for a blank title.
pub fn meeting_stem(title: &str, date: &str) -> (r: Result<String, CreateNoteError>)
    ensures
        trim_s(title@).len() == 0 ==> r == Err::<String, CreateNoteError>(CreateNoteError::NoTitle),
        trim_s(title@).len() > 0 ==> r is Ok && r->Ok_0@ == meeting_stem_s(title@, date@),
{
    let t = trim_str(title);
    if t.len() == 0 {
        return Err(CreateNoteError::NoTitle);
    }
    let mut stem = trim_str(date);
    append_str(&mut stem, "-");
    append(&mut stem, t.as_slice());
    let safe = safe_chars_exec(stem.as_slice());
    Ok(string_of(tidy_name_exec(safe.as_slice()).as_slice()))
}

/// Meaning of `meeting_note_id`: `会议/stem.md`, or `会议/stem-n.md` for try `n` from 2 on.
pub open spec fn meeting_note_id_s(stem: Seq<char>, n: nat) -> Seq<char> {
    if n >= 2 {
        MEETING_DIR@ + "/"@ + stem + "-"@ + crate::text::dec_s(n) + ".md"@
    } else {
        MEETING_DIR@ + "/"@ + stem + ".md"@
    }
}

/// The id tried for a new meeting note.
pub fn meeting_note_id(stem: &str, n: u64) -> (r: String)
    ensures
        r@ == meeting_note_id_s(stem@, n as nat),
{
    let mut v = chars_of(MEETING_DIR);
    append_str(&mut v, "/");
    append_str(&mut v, stem);
    if n >= 2 {
        append_str(&mut v, "-");
        append(&mut v, crate::text::dec(n).as_slice());
    }
    append_str(&mut v, ".md");
    string_of(v.as_slice())
}

/// Whether a note belongs to the meeting directory.
pub open spec fn in_meeting_dir_s(id: Seq<char>) -> bool {
    starts_with_s(id, MEETING_DIR@ + "/"@) || id == MEETING_DIR@ + ".md"@
}

/// Whether a note id lies in the meeting directory (or is its own note).
pub fn in_meeting_dir(id: &str) -> (b: bool)
    ensures
        b == in_meeting_dir_s(id@),
{
    let v = chars_of(id);
    let mut p = chars_of(MEETING_DIR);
    append_str(&mut p, "/");
    let mut f = chars_of(MEETING_DIR);
    append_str(&mut f, ".md");
    crate::text::starts_with(v.as_slice(), p.as_slice()) || crate::text::eq_chars(v.as_slice(), f.as_slice())
}

// ---------------------------------------------------------------- old meetings

/// Meaning of `legacy_dir_name`.
pub open spec fn legacy_dir_name_s(title: Seq<char>) -> Seq<char> {
    "旧会议-"@ + trim_s(title)
}

/// Audio directory of an old meeting: `旧会议-` and its title.
pub fn legacy_dir_name(title: &str) -> (r: String)
    ensures
        r@ == legacy_dir_name_s(title@),
{
    let mut v = chars_of("旧会议-");
    append(&mut v, trim_str(title).as_slice());
    string_of(v.as_slice())
}

/// Meaning of `legacy_note_id`.
pub open spec fn legacy_note_id_s(title: Seq<char>, date: Seq<char>) -> Seq<char> {
    MEETING_DIR@ + "/旧会议/"@ + date + "-"@ + tidy_name(safe_chars(trim_s(title))) + ".md"@
}

/// Note id of an old meeting: `会议/旧会议/<date>-<title>.md`.
pub fn legacy_note_id(title: &str, date: &str) -> (r: String)
    ensures
        r@ == legacy_note_id_s(title@, date@),
{
    let mut v = chars_of(MEETING_DIR);
    append_str(&mut v, "/旧会议/");
    append_str(&mut v, date);
    append_str(&mut v, "-");
    let safe = safe_chars_exec(trim_str(title).as_slice());
    append(&mut v, tidy_name_exec(safe.as_slice()).as_slice());
    append_str(&mut v, ".md");
    string_of(v.as_slice())
}

/// Whether an old meeting is left out: nothing written and, unless it has
/// recordings, no transcript.
pub open spec fn legacy_skip_s(transcript: Seq<char>, minutes_md: Seq<char>, seg_count: nat) -> bool {
    (blank(transcript) && blank(minutes_md)) || (seg_count == 0 && blank(transcript))
}

/// Whether an old meeting is left out of the export.
pub fn legacy_skip(transcript: &str, minutes_md: &str, seg_count: usize) -> (b: bool)
    ensures
        b == legacy_skip_s(transcript@, minutes_md@, seg_count as nat),
{
    let t = crate::text::is_blank_str(transcript);
    let m = crate::text::is_blank_str(minutes_md);
    (t && m) || (seg_count == 0 && t)
}

/// The block under the `i`-th reference of an old meeting: its transcript
/// lines when the bucket has text, then a blank line.
pub open spec fn legacy_ref_block(
    i: int,
    ref_line: Seq<char>,
    bucket: Seq<Seq<char>>,
    seg_count: nat,
) -> Seq<char> {
    let text = join_s(bucket, seq!['\n']);
    let meta = if seg_count == 1 {
        "旧版整体转写"@
    } else {
        "旧版转写（第 "@ + crate::text::dec_s((i + 1) as nat) + " 段）"@
    };
    let lines = if !blank(text) {
        transcript_lines_s(meta, text)
    } else {
        seq![]
    };
    ref_line + "\n"@ + join_s(lines, seq!['\n']) + (if lines.len() > 0 {
        "\n"@
    } else {
        seq![]
    }) + "\n"@
}

/// Reference blocks of the first `n` references.
pub open spec fn legacy_refs_upto(
    refs: Seq<Seq<char>>,
    buckets: Seq<Seq<Seq<char>>>,
    seg_count: nat,
    n: int,
) -> Seq<char>
    decreases n,
{
    if n <= 0 || n > refs.len() {
        seq![]
    } else {
        legacy_refs_upto(refs, buckets, seg_count, n - 1) + legacy_ref_block(
            n - 1,
            refs[n - 1],
            if n - 1 < buckets.len() {
                buckets[n - 1]
            } else {
                seq![]
            },
            seg_count,
        )
    }
}

/// Meaning of `legacy_body`: heading and provenance line, each reference with
/// its share of the old transcript, the old transcript as a whole when no
/// recording was found, and the minutes section.
pub open spec fn legacy_body_s(
    title: Seq<char>,
    date: Seq<char>,
    dir_name: Seq<char>,
    refs: Seq<Seq<char>>,
    buckets: Seq<Seq<Seq<char>>>,
    seg_count: nat,
    transcript: Seq<char>,
    minutes_md: Seq<char>,
) -> Seq<char> {
    "# "@ + trim_s(title) + "\n\n> 由旧版会议迁移（"@ + date + "）；原始录音已复制到 `会议音频/"@ + dir_name
        + "`。\n\n"@ + legacy_refs_upto(refs, buckets, seg_count, refs.len() as int) + (if refs.len()
        == 0 && !blank(transcript) {
        "## 旧版转写（未找到录音文件）\n\n"@ + trim_s(transcript) + "\n\n"@
    } else {
        seq![]
    }) + MINUTES_HEADING@ + "\n\n"@ + (if blank(minutes_md) {
        MINUTES_HINT@
    } else {
        trim_s(minutes_md)
    }) + "\n"@
}

/// Views of buckets of strings.
pub open spec fn buckets_view(b: Seq<Vec<String>>) -> Seq<Seq<Seq<char>>> {
    Seq::new(b.len(), |i: int| crate::text::str_views(b[i]@))
}

fn legacy_block(i: usize, ref_line: &String, bucket: Option<&Vec<String>>, seg_count: usize) -> (r: Vec<char>)
    requires
        i < usize::MAX,
    ensures
        r@ == legacy_ref_block(
            i as int,
            ref_line@,
            match bucket {
                Some(b) => crate::text::str_views(b@),
                None => seq![],
            },
            seg_count as nat,
        ),
{
    let mut out = chars_of(ref_line.as_str());
    append_str(&mut out, "\n");
    let parts: Vec<Vec<char>> = match bucket {
        Some(b) => crate::text::char_vecs(b.as_slice()),
        None => Vec::new(),
    };
    proof {
        if bucket is None {
            assert(views(parts@) =~= Seq::<Seq<char>>::empty());
        }
    }
    let text = join(&parts, nl().as_slice());
    if !is_blank(text.as_slice()) {
        let meta = if seg_count == 1 {
            chars_of("旧版整体转写")
        } else {
            let mut m = chars_of("旧版转写（第 ");
            append(&mut m, crate::text::dec((i + 1) as u64).as_slice());
            append_str(&mut m, " 段）");
            m
        };
        let entry = TranscriptEntry { meta: string_of(meta.as_slice()), text: string_of(text.as_slice()) };
        let ls = transcript_lines(&entry);
        let lv = crate::text::char_vecs(ls.as_slice());
        append(&mut out, join(&lv, nl().as_slice()).as_slice());
        append_str(&mut out, "\n");
    }
    append_str(&mut out, "\n");
    out
}

/// The text of the note made from an old meeting.
pub fn legacy_body(
    title: &str,
    date: &str,
    dir_name: &str,
    ref_lines: &Vec<String>,
    buckets: &Vec<Vec<String>>,
    seg_count: usize,
    transcript: &str,
    minutes_md: &str,
) -> (r: String)
    ensures
        r@ == legacy_body_s(
            title@,
            date@,
            dir_name@,
            crate::text::str_views(ref_lines@),
            buckets_view(buckets@),
            seg_count as nat,
            transcript@,
            minutes_md@,
        ),
{
    let ghost rv = crate::text::str_views(ref_lines@);
    let ghost bv = buckets_view(buckets@);
    let mut body = chars_of("# ");
    append(&mut body, trim_str(title).as_slice());
    append_str(&mut body, "\n\n> 由旧版会议迁移（");
    append_str(&mut body, date);
    append_str(&mut body, "）；原始录音已复制到 `会议音频/");
    append_str(&mut body, dir_name);
    append_str(&mut body, "`。\n\n");
    let ghost head = body@;
    let mut i: usize = 0;
    while i < ref_lines.len()
        invariant
            i <= ref_lines@.len(),
            rv == crate::text::str_views(ref_lines@),
            bv == buckets_view(buckets@),
            body@ == head + legacy_refs_upto(rv, bv, seg_count as nat, i as int),
        decreases ref_lines@.len() - i,
    {
        let bucket = if i < buckets.len() {
            Some(&buckets[i])
        } else {
            None
        };
        let block = legacy_block(i, &ref_lines[i], bucket, seg_count);
        assert(rv[i as int] == ref_lines@[i as int]@);
        proof {
            if i < buckets@.len() {
                assert(bv[i as int] == crate::text::str_views(buckets@[i as int]@));
            }
        }
        append(&mut body, block.as_slice());
        assert(body@ =~= head + legacy_refs_upto(rv, bv, seg_count as nat, i + 1));
        i = i + 1;
    }
    if ref_lines.len() == 0 && !crate::text::is_blank_str(transcript) {
        append_str(&mut body, "## 旧版转写（未找到录音文件）\n\n");
        append(&mut body, trim_str(transcript).as_slice());
        append_str(&mut body, "\n\n");
    }
    append_str(&mut body, MINUTES_HEADING);
    append_str(&mut body, "\n\n");
    if crate::text::is_blank_str(minutes_md) {
        append_str(&mut body, MINUTES_HINT);
    } else {
        append(&mut body, trim_str(minutes_md).as_slice());
    }
    append_str(&mut body, "\n");
    string_of(body.as_slice())
}

// ---------------------------------------------------------------- meeting list

/// Number of references among the first `n` that are missing / transcribed,
/// and the sums of their durations and sizes.
pub open spec fn tally(refs: Seq<AudioRefView>, n: int) -> (nat, nat, nat, nat)
    decreases n,
{
    if n <= 0 || n > refs.len() {
        (0, 0, 0, 0)
    } else {
        let (m, t, d, b) = tally(refs, n - 1);
        let r = refs[n - 1];
        (
            if r.exists { m } else { m + 1 },
            if r.has_transcript { t + 1 } else { t },
            d + r.duration_ms as nat,
            b + r.bytes as nat,
        )
    }
}

proof fn lemma_tally_mono(refs: Seq<AudioRefView>, i: int, n: int)
    requires
        0 <= i <= n <= refs.len(),
    ensures
        tally(refs, i).2 <= tally(refs, n).2,
        tally(refs, i).3 <= tally(refs, n).3,
    decreases n - i,
{
    if i < n {
        lemma_tally_mono(refs, i + 1, n);
    }
}

proof fn lemma_tally_counts(refs: Seq<AudioRefView>, i: int)
    requires
        0 <= i <= refs.len(),
    ensures
        tally(refs, i).0 <= i,
        tally(refs, i).1 <= i,
    decreases i,
{
    if i > 0 {
        lemma_tally_counts(refs, i - 1);
    }
}

/// The list entry of a meeting note from its references: how many there
/// are, are missing and are transcribed, their total length and size.
pub fn brief_from_refs(
    note_id: &str,
    title: &str,
    folder: &str,
    updated_at: i64,
    refs: &[AudioRefView],
    has_minutes: bool,
) -> (r: MeetingNoteBrief)
    requires
        tally(refs@, refs@.len() as int).2 <= u64::MAX,
        tally(refs@, refs@.len() as int).3 <= u64::MAX,
    ensures
        r.note_id@ == note_id@,
        r.title@ == title@,
        r.folder@ == folder@,
        r.updated_at == updated_at,
        r.has_minutes == has_minutes,
        r.audio_total == refs@.len(),
        (r.audio_missing as nat, r.transcribed as nat, r.duration_ms as nat, r.audio_bytes as nat)
            == tally(refs@, refs@.len() as int),
{
    let mut missing: usize = 0;
    let mut transcribed: usize = 0;
    let mut duration: u64 = 0;
    let mut bytes: u64 = 0;
    let mut i: usize = 0;
    while i < refs.len()
        invariant
            i <= refs@.len(),
            tally(refs@, refs@.len() as int).2 <= u64::MAX,
            tally(refs@, refs@.len() as int).3 <= u64::MAX,
            (missing as nat, transcribed as nat, duration as nat, bytes as nat) == tally(refs@, i as int),
        decreases refs@.len() - i,
    {
        proof {
            lemma_tally_mono(refs@, i + 1, refs@.len() as int);
            lemma_tally_counts(refs@, i as int);
        }
        let r = &refs[i];
        if !r.exists {
            missing = missing + 1;
        }
        if r.has_transcript {
            transcribed = transcribed + 1;
        }
        duration = duration + r.duration_ms;
        bytes = bytes + r.bytes;
        i = i + 1;
    }
    MeetingNoteBrief {
        note_id: string_of(chars_of(note_id).as_slice()),
        title: string_of(chars_of(title).as_slice()),
        folder: string_of(chars_of(folder).as_slice()),
        updated_at,
        audio_total: refs.len(),
        audio_missing: missing,
        transcribed,
        has_minutes,
        duration_ms: duration,
        audio_bytes: bytes,
    }
}

// ---------------------------------------------------------------- transcript cache

/// What the cache row of a recording gives: its text, when the file's
/// modification time and size and the speech model are those it was made
/// with, and the text is not blank.
pub open spec fn cache_hit_s(
    row: Option<(Seq<char>, i64, u64, Seq<char>)>,
    stamp: (i64, u64),
    asr_model: Seq<char>,
) -> Option<Seq<char>> {
    match row {
        Some((text, mtime, size, model)) => if mtime == stamp.0 && size == stamp.1 && model
            == asr_model && trim_s(text).len() > 0 {
            Some(text)
        } else {
            None
        },
        None => None,
    }
}

/// The cached transcript a cache row (text, modification time, size, speech
/// model) still stands for, given the file's current stamp and the model in use.
pub fn cache_hit(row: Option<(String, i64, u64, String)>, stamp: (i64, u64), asr_model: &str) -> (r:
    Option<String>)
    ensures
        r matches Some(t) ==> cache_hit_s(
            match row {
                Some((a, b, c, d)) => Some((a@, b, c, d@)),
                None => None,
            },
            stamp,
            asr_model@,
        ) == Some(t@),
        r is None ==> cache_hit_s(
            match row {
                Some((a, b, c, d)) => Some((a@, b, c, d@)),
                None => None,
            },
            stamp,
            asr_model@,
        ) is None,
{
    match row {
        Some((text, mtime, size, model)) => {
            let same_model = eq_chars(chars_of(model.as_str()).as_slice(), chars_of(asr_model).as_slice());
            if mtime == stamp.0 && size == stamp.1 && same_model && !is_blank_str(text.as_str()) {
                Some(text)
            } else {
                None
            }
        },
        None => None,
    }
}

} // verus!
