//! Recorded meetings: their records, segment file names and dates.
use vstd::prelude::*;
use crate::calendar::{civil_from_days, is_civil_of};
use crate::text::{append, append_str, chars_of, dec_pad, dec_s, idec_pad, idec_pad_s, string_of, zpad};

verus! {

/// Status: recording.
pub const STATUS_RECORDING: &'static str = "recording";

/// Status: recorded.
pub const STATUS_RECORDED: &'static str = "recorded";

/// Status: being transcribed.
pub const STATUS_TRANSCRIBING: &'static str = "transcribing";

/// Status: transcribed.
pub const STATUS_TRANSCRIBED: &'static str = "transcribed";

/// Status: minutes written.
pub const STATUS_MINUTES: &'static str = "minutes";

/// Status: failed.
pub const STATUS_FAILED: &'static str = "failed";

/// Segment status: recording.
pub const SEG_RECORDING: &'static str = "recording";

/// Segment status: recorded.
pub const SEG_RECORDED: &'static str = "recorded";

/// Segment status: transcribed.
pub const SEG_DONE: &'static str = "done";

/// Segment status: failed.
pub const SEG_FAILED: &'static str = "failed";

/// A meeting.
#[derive(Debug, Clone)]
pub struct Meeting {
    pub id: String,
    pub title: String,
    pub created_at: i64,
    pub updated_at: i64,
    pub duration_ms: i64,
    pub status: String,
    pub segments: i64,
    pub transcribed_segments: i64,
    pub has_transcript: bool,
    pub has_minutes: bool,
    pub note_id: String,
    pub asr_model: String,
    pub chat_model: String,
    pub error: String,
}

/// A recorded segment.
#[derive(Debug, Clone)]
pub struct Segment {
    pub id: i64,
    pub meeting_id: String,
    pub seq: i64,
    pub file: String,
    pub src_rate: i64,
    pub duration_ms: i64,
    pub bytes: i64,
    pub status: String,
    pub transcript: String,
    pub error: String,
}

/// A meeting with its segments and texts.
#[derive(Debug, Clone)]
pub struct MeetingDetail {
    pub meeting: Meeting,
    pub segments: Vec<Segment>,
    pub transcript: String,
    pub minutes_md: String,
    pub dir: String,
}

/// Size and state of a segment being recorded.
#[derive(Debug, Clone)]
pub struct SegmentStat {
    pub seq: i64,
    pub duration_ms: i64,
    pub bytes: i64,
    pub status: String,
}

/// File name of a segment: `seg_` and the number with at least four digits.
pub fn seg_file_name(seq: i64) -> (r: String)
    ensures
        r@ == "seg_"@ + idec_pad_s(seq as int, 4) + ".wav"@,
{
    let mut v = chars_of("seg_");
    append(&mut v, idec_pad(seq, 4).as_slice());
    append_str(&mut v, ".wav");
    string_of(v.as_slice())
}

/// Meaning of `ymd_from_secs` for the civil date `(y, m, d)` of the day.
pub open spec fn ymd_s(y: int, m: int, d: int) -> Seq<char> {
    idec_pad_s(y, 4) + "-"@ + zpad(dec_s(m as nat), 2) + "-"@ + zpad(dec_s(d as nat), 2)
}

/// `YYYY-MM-DD` (UTC) of a Unix time in seconds.
pub fn ymd_from_secs(secs: i64) -> (r: String)
    ensures
        exists|y: int, m: int, d: int|
            is_civil_of(secs as int / 86_400, y, m, d) && r@ == ymd_s(y, m, d),
{
    let (days, _rem) = crate::audio_clip::div_rem_day(secs);
    let (y, m, d) = civil_from_days(days);
    let mut out = idec_pad(y, 4);
    append_str(&mut out, "-");
    append(&mut out, dec_pad(m as u64, 2).as_slice());
    append_str(&mut out, "-");
    append(&mut out, dec_pad(d as u64, 2).as_slice());
    assert(out@ =~= ymd_s(y as int, m as int, d as int));
    string_of(out.as_slice())
}

} // verus!
