//! Transcription of recorded meetings: progress and outcome reports, and the
//! `HH:MM:SS` labels of transcript segments.
use vstd::prelude::*;
pub use crate::meeting_note::mmss;
use crate::meeting_note::mmss_s;
use crate::text::{append, append_str, chars_of, join_s, str_views, string_of, trim_s, trim_str};

verus! {

/// Transcription progress.
#[derive(Debug, Clone, Default)]
pub struct TranscribeProgress {
    pub meeting_id: String,
    pub segment_seq: i64,
    pub segments_total: usize,
    pub segments_done: usize,
    pub chunks_total: usize,
    pub chunks_done: usize,
    pub current_text: String,
    pub message: String,
}

/// Result of a transcription run.
#[derive(Debug, Clone, Default)]
pub struct TranscribeOutcome {
    pub transcript: String,
    pub segments_total: usize,
    pub segments_done: usize,
    pub failed_segments: usize,
    pub chunks: usize,
    pub elapsed_ms: u64,
    pub cancelled: bool,
    pub errors: Vec<String>,
}

/// A transcript line: `[hh:mm:ss]`, a space and the text.
pub open spec fn stamped_s(ms: u64, text: Seq<char>) -> Seq<char> {
    "["@ + mmss_s(ms as nat) + "] "@ + text
}

/// The line for a transcribed piece starting at `ms`: its trimmed text
/// stamped with the time, or nothing when the text is blank.
pub fn stamped_line(ms: u64, text: &str) -> (r: Option<String>)
    ensures
        trim_s(text@).len() == 0 ==> r is None,
        trim_s(text@).len() > 0 ==> r is Some && r->0@ == stamped_s(ms, trim_s(text@)),
{
    let t = trim_str(text);
    if t.len() == 0 {
        return None;
    }
    let mut v = chars_of("[");
    append_str(&mut v, mmss(ms).as_str());
    append_str(&mut v, "] ");
    append(&mut v, t.as_slice());
    Some(string_of(v.as_slice()))
}

/// Stamped lines of `(start, text)` pairs joined by newlines.
pub fn stamped_text(lines: &[(u64, String)]) -> (r: String)
    ensures
        r@ == join_s(Seq::new(lines@.len(), |i: int| stamped_s(lines@[i].0, lines@[i].1@)), "\n"@),
{
    let ghost want = Seq::new(lines@.len(), |i: int| stamped_s(lines@[i].0, lines@[i].1@));
    let mut parts: Vec<Vec<char>> = Vec::new();
    let mut i: usize = 0;
    while i < lines.len()
        invariant
            i <= lines@.len(),
            want == Seq::new(lines@.len(), |i: int| stamped_s(lines@[i].0, lines@[i].1@)),
            parts@.len() == i,
            forall|k: int| 0 <= k < i ==> #[trigger] parts@[k]@ == want[k],
        decreases lines@.len() - i,
    {
        let mut v = chars_of("[");
        append_str(&mut v, mmss(lines[i].0).as_str());
        append_str(&mut v, "] ");
        append_str(&mut v, lines[i].1.as_str());
        parts.push(v);
        i = i + 1;
    }
    assert(crate::text::views(parts@) =~= want);
    string_of(crate::text::join_str(&parts, "\n").as_slice())
}

/// The status of a meeting after a transcription run: failed when any
/// segment failed, back to recorded when cancelled, else transcribed.
pub fn meeting_status_after(failed_segments: usize, cancelled: bool) -> (r: String)
    ensures
        r@ == if failed_segments > 0 {
            crate::meetings::STATUS_FAILED@
        } else if cancelled {
            crate::meetings::STATUS_RECORDED@
        } else {
            crate::meetings::STATUS_TRANSCRIBED@
        },
{
    let s = if failed_segments > 0 {
        crate::meetings::STATUS_FAILED
    } else if cancelled {
        crate::meetings::STATUS_RECORDED
    } else {
        crate::meetings::STATUS_TRANSCRIBED
    };
    string_of(chars_of(s).as_slice())
}

} // verus!
