//! The decisions of the two long-running jobs of meetings, as step functions
//! from a state and an event to the next state and an action: one-click
//! processing of a meeting note (every referenced recording transcribed or
//! taken from the cache, then the note rewritten and the minutes generated),
//! and transcribing the pending segments of a recorded meeting (resumable,
//! with one time line across segments). The program around them reads files,
//! calls the services and reports each event back.
use vstd::prelude::*;
use crate::text::{chars_of, string_of};

verus! {

// ---------------------------------------------------------------- one-click processing of a note

/// Counters of processing a note. `total` counts the referenced segments and
/// the references whose audio is missing; `remaining` the segments not yet
/// accounted for.
#[derive(Debug, Clone, Copy, PartialEq, Eq, Structural)]
pub struct ProcessState {
    pub force: bool,
    pub total: usize,
    pub done: usize,
    pub skipped: usize,
    pub failed: usize,
    pub remaining: usize,
    pub cancelled: bool,
}

/// What happened to the segment at hand.
#[derive(Debug, Clone, Copy, PartialEq, Eq, Structural)]
pub enum ProcessEvent {
    /// the user asked to stop
    Cancel,
    /// the cache was looked up: `hit` when it holds a usable transcript
    Cache { hit: bool },
    /// the segment was transcribed
    Transcribed,
    /// transcribing failed; `cancel_seen` when it failed because of a stop request
    Failed { cancel_seen: bool },
}

/// What the program does next.
#[derive(Debug, Clone, Copy, PartialEq, Eq, Structural)]
pub enum ProcessAction {
    /// stop the loop (cancelled, or nothing left)
    Stop,
    /// take the cached transcript (counted as skipped)
    UseCached,
    /// call the speech service for this segment
    Transcribe,
    /// keep the transcript just made (counted as done)
    Record,
    /// record the failure (counted as failed) and go on
    RecordFailure,
}

/// The counters add up: every segment is done, skipped, failed or still to come;
/// nothing is skipped when the cache is bypassed.
pub open spec fn process_wf(s: ProcessState) -> bool {
    &&& s.done + s.skipped + s.failed + s.remaining == s.total
    &&& s.force ==> s.skipped == 0
}

/// The error when no speech model is configured.
pub const NO_ASR_MESSAGE: &'static str = "未配置语音转写模型：请到「设置」里填写转写端点";

/// The state before the first segment: missing recordings already count as failed.
pub open spec fn process_start_s(force: bool, segments: nat, missing: nat) -> ProcessState {
    ProcessState {
        force,
        total: (segments + missing) as usize,
        done: 0,
        skipped: 0,
        failed: missing as usize,
        remaining: segments as usize,
        cancelled: false,
    }
}

/// Starts processing: refused before anything is read or written when no
/// speech model is configured.
pub fn process_start(has_asr: bool, force: bool, segments: usize, missing: usize) -> (r: Result<
    ProcessState,
    String,
>)
    requires
        segments + missing <= usize::MAX,
    ensures
        !has_asr ==> (r is Err && r->Err_0@ == NO_ASR_MESSAGE@),
        has_asr ==> r == Ok::<ProcessState, String>(
            process_start_s(force, segments as nat, missing as nat),
        ),
        r matches Ok(s) ==> process_wf(s),
{
    if !has_asr {
        return Err(string_of(chars_of(NO_ASR_MESSAGE).as_slice()));
    }
    Ok(
        ProcessState {
            force,
            total: segments + missing,
            done: 0,
            skipped: 0,
            failed: missing,
            remaining: segments,
            cancelled: false,
        },
    )
}

/// Meaning of `process_step`.
pub open spec fn process_step_s(st: ProcessState, ev: ProcessEvent) -> (ProcessState, ProcessAction) {
    if st.cancelled || st.remaining == 0 {
        (st, ProcessAction::Stop)
    } else {
        match ev {
            ProcessEvent::Cancel => (ProcessState { cancelled: true, ..st }, ProcessAction::Stop),
            ProcessEvent::Cache { hit } => if hit && !st.force {
                (
                    ProcessState {
                        skipped: (st.skipped + 1) as usize,
                        remaining: (st.remaining - 1) as usize,
                        ..st
                    },
                    ProcessAction::UseCached,
                )
            } else {
                (st, ProcessAction::Transcribe)
            },
            ProcessEvent::Transcribed => (
                ProcessState {
                    done: (st.done + 1) as usize,
                    remaining: (st.remaining - 1) as usize,
                    ..st
                },
                ProcessAction::Record,
            ),
            ProcessEvent::Failed { cancel_seen } => if cancel_seen {
                (ProcessState { cancelled: true, ..st }, ProcessAction::Stop)
            } else {
                (
                    ProcessState {
                        failed: (st.failed + 1) as usize,
                        remaining: (st.remaining - 1) as usize,
                        ..st
                    },
                    ProcessAction::RecordFailure,
                )
            },
        }
    }
}

/// One step of processing a note. The counters always add up to the total
/// (done + skipped + failed ≤ total, with equality once every segment was seen
/// without a stop request), and a forced run never takes the cache.
pub fn process_step(st: &ProcessState, ev: ProcessEvent) -> (r: (ProcessState, ProcessAction))
    requires
        process_wf(*st),
    ensures
        r == process_step_s(*st, ev),
        process_wf(r.0),
        r.0.done + r.0.skipped + r.0.failed <= r.0.total,
        !r.0.cancelled && r.0.remaining == 0 ==> r.0.done + r.0.skipped + r.0.failed == r.0.total,
        r.0.force ==> r.0.skipped == 0,
        r.0.total == st.total,
{
    let s = *st;
    if s.cancelled || s.remaining == 0 {
        return (s, ProcessAction::Stop);
    }
    match ev {
        ProcessEvent::Cancel => (ProcessState { cancelled: true, ..s }, ProcessAction::Stop),
        ProcessEvent::Cache { hit } => if hit && !s.force {
            (
                ProcessState { skipped: s.skipped + 1, remaining: s.remaining - 1, ..s },
                ProcessAction::UseCached,
            )
        } else {
            (s, ProcessAction::Transcribe)
        },
        ProcessEvent::Transcribed => (
            ProcessState { done: s.done + 1, remaining: s.remaining - 1, ..s },
            ProcessAction::Record,
        ),
        ProcessEvent::Failed { cancel_seen } => if cancel_seen {
            (ProcessState { cancelled: true, ..s }, ProcessAction::Stop)
        } else {
            (
                ProcessState { failed: s.failed + 1, remaining: s.remaining - 1, ..s },
                ProcessAction::RecordFailure,
            )
        },
    }
}

/// What happens to the minutes once the recordings are through.
#[derive(Debug, Clone, Copy, PartialEq, Eq, Structural)]
pub enum MinutesPlan {
    /// the run was cancelled: no minutes
    Cancelled,
    /// no chat model is configured: transcripts are kept, minutes skipped
    NoChatModel,
    /// neither hand-written text nor transcripts have content
    NothingToSummarize,
    /// generate the minutes and write them into the note
    Generate,
}

/// Meaning of `minutes_plan`.
pub open spec fn minutes_plan_s(cancelled: bool, has_chat: bool, hand_meaningful: bool, transcript_meaningful: bool) -> MinutesPlan {
    if cancelled {
        MinutesPlan::Cancelled
    } else if !has_chat {
        MinutesPlan::NoChatModel
    } else if !hand_meaningful && !transcript_meaningful {
        MinutesPlan::NothingToSummarize
    } else {
        MinutesPlan::Generate
    }
}

/// Whether and why the minutes are generated after the transcripts.
pub fn minutes_plan(cancelled: bool, has_chat: bool, hand_meaningful: bool, transcript_meaningful: bool) -> (r: MinutesPlan)
    ensures
        r == minutes_plan_s(cancelled, has_chat, hand_meaningful, transcript_meaningful),
{
    if cancelled {
        MinutesPlan::Cancelled
    } else if !has_chat {
        MinutesPlan::NoChatModel
    } else if !hand_meaningful && !transcript_meaningful {
        MinutesPlan::NothingToSummarize
    } else {
        MinutesPlan::Generate
    }
}

/// The message recorded for a plan that skips the minutes.
pub open spec fn minutes_plan_message_s(p: MinutesPlan) -> Option<Seq<char>> {
    match p {
        MinutesPlan::NoChatModel => Some("未配置对话模型，已跳过纪要生成（转写已保存）"@),
        MinutesPlan::NothingToSummarize => Some(
            "笔记里没有可整理的内容：既没有手写记录，也没有成功的转写（先写两句或录一段再处理）"@,
        ),
        _ => None,
    }
}

impl MinutesPlan {
    /// The error message of a plan that skips the minutes (none otherwise).
    pub fn message(&self) -> (r: Option<String>)
        ensures
            match r {
                Some(m) => minutes_plan_message_s(*self) == Some(m@),
                None => minutes_plan_message_s(*self) is None,
            },
    {
        match self {
            MinutesPlan::NoChatModel => Some(
                string_of(chars_of("未配置对话模型，已跳过纪要生成（转写已保存）").as_slice()),
            ),
            MinutesPlan::NothingToSummarize => Some(
                string_of(
                    chars_of(
                        "笔记里没有可整理的内容：既没有手写记录，也没有成功的转写（先写两句或录一段再处理）",
                    ).as_slice(),
                ),
            ),
            _ => None,
        }
    }
}

// ---------------------------------------------------------------- transcribing a meeting's segments

/// State of transcribing the pending segments of a meeting. `offset_ms` is
/// where the current segment starts on the meeting's time line; `in_seg` while
/// a segment's chunks are being transcribed.
#[derive(Debug, Clone, Copy, PartialEq, Eq, Structural)]
pub struct SegmentRun {
    pub offset_ms: u64,
    pub total: usize,
    pub left: usize,
    pub done: usize,
    pub failed: usize,
    pub chunks: usize,
    pub cancelled: bool,
    pub in_seg: bool,
    pub seg_chunks: usize,
    pub seg_chunks_done: usize,
    pub seg_duration: u64,
}

/// What happened while transcribing.
#[derive(Debug, Clone, Copy, PartialEq, Eq, Structural)]
pub enum SegEvent {
    /// the user asked to stop
    Cancel,
    /// the next segment could not be read or converted
    ReadFailed,
    /// the next segment was read and cut into `chunks` pieces; it lasts `duration_ms`
    Begin { chunks: usize, duration_ms: u64 },
    /// the next chunk, starting `start_ms` into its segment, was transcribed
    ChunkDone { start_ms: u64 },
    /// transcribing the next chunk failed after its retries
    ChunkFailed,
}

/// What the program does next.
#[derive(Debug, Clone, Copy, PartialEq, Eq, Structural)]
pub enum SegAction {
    /// stop; a segment in progress stays pending, to be resumed next time
    Stop,
    /// the event does not fit the state and is ignored
    Ignore,
    /// mark the segment failed (with what was transcribed of it) and go on
    MarkFailed,
    /// transcribe the segment's chunks
    Transcribe,
    /// keep the chunk's text, stamped at `stamp_ms` on the meeting's time line
    Keep { stamp_ms: u64 },
    /// keep the last chunk's text and mark the segment done
    KeepAndMarkDone { stamp_ms: u64 },
    /// mark the segment (which had no speech) done
    MarkDone,
}

/// The counters add up, and a segment in progress has chunks left.
pub open spec fn run_wf(r: SegmentRun) -> bool {
    &&& r.done + r.failed + r.left + (if r.in_seg { 1int } else { 0int }) == r.total
    &&& r.in_seg ==> r.seg_chunks_done < r.seg_chunks
    &&& r.in_seg ==> r.offset_ms + r.seg_duration <= u64::MAX
}

/// The state before the first pending segment: the time line starts after the
/// segments already done (`done_before_ms`, taken as 0 when negative).
pub open spec fn segment_run_new_s(pending: nat, done_before_ms: int) -> SegmentRun {
    SegmentRun {
        offset_ms: if done_before_ms > 0 { done_before_ms as u64 } else { 0 },
        total: pending as usize,
        left: pending as usize,
        done: 0,
        failed: 0,
        chunks: 0,
        cancelled: false,
        in_seg: false,
        seg_chunks: 0,
        seg_chunks_done: 0,
        seg_duration: 0,
    }
}

/// Starts transcribing `pending` segments after segments lasting `done_before_ms`.
pub fn segment_run_new(pending: usize, done_before_ms: i64) -> (r: SegmentRun)
    ensures
        r == segment_run_new_s(pending as nat, done_before_ms as int),
        run_wf(r),
{
    let offset: u64 = if done_before_ms > 0 {
        done_before_ms as u64
    } else {
        0
    };
    SegmentRun {
        offset_ms: offset,
        total: pending,
        left: pending,
        done: 0,
        failed: 0,
        chunks: 0,
        cancelled: false,
        in_seg: false,
        seg_chunks: 0,
        seg_chunks_done: 0,
        seg_duration: 0,
    }
}

/// Which events a state can take without overflowing its counters.
pub open spec fn seg_event_fits(r: SegmentRun, ev: SegEvent) -> bool {
    match ev {
        SegEvent::Begin { chunks, duration_ms } => r.offset_ms + duration_ms <= u64::MAX,
        SegEvent::ChunkDone { start_ms } => r.offset_ms + start_ms <= u64::MAX && r.chunks
            < usize::MAX,
        _ => true,
    }
}

/// Meaning of `segment_step`.
pub open spec fn segment_step_s(r: SegmentRun, ev: SegEvent) -> (SegmentRun, SegAction) {
    if r.cancelled {
        (r, SegAction::Stop)
    } else {
        match ev {
            SegEvent::Cancel => (
                SegmentRun {
                    cancelled: true,
                    in_seg: false,
                    left: if r.in_seg { (r.left + 1) as usize } else { r.left },
                    ..r
                },
                SegAction::Stop,
            ),
            SegEvent::ReadFailed => if r.in_seg || r.left == 0 {
                (r, SegAction::Ignore)
            } else {
                (
                    SegmentRun { left: (r.left - 1) as usize, failed: (r.failed + 1) as usize, ..r },
                    SegAction::MarkFailed,
                )
            },
            SegEvent::Begin { chunks, duration_ms } => if r.in_seg || r.left == 0 {
                (r, SegAction::Ignore)
            } else if chunks == 0 {
                (
                    SegmentRun {
                        left: (r.left - 1) as usize,
                        done: (r.done + 1) as usize,
                        offset_ms: (r.offset_ms + duration_ms) as u64,
                        ..r
                    },
                    SegAction::MarkDone,
                )
            } else {
                (
                    SegmentRun {
                        left: (r.left - 1) as usize,
                        in_seg: true,
                        seg_chunks: chunks,
                        seg_chunks_done: 0,
                        seg_duration: duration_ms,
                        ..r
                    },
                    SegAction::Transcribe,
                )
            },
            SegEvent::ChunkDone { start_ms } => if !r.in_seg {
                (r, SegAction::Ignore)
            } else {
                let stamp = (r.offset_ms + start_ms) as u64;
                if r.seg_chunks_done + 1 == r.seg_chunks {
                    (
                        SegmentRun {
                            in_seg: false,
                            done: (r.done + 1) as usize,
                            chunks: (r.chunks + 1) as usize,
                            offset_ms: (r.offset_ms + r.seg_duration) as u64,
                            ..r
                        },
                        SegAction::KeepAndMarkDone { stamp_ms: stamp },
                    )
                } else {
                    (
                        SegmentRun {
                            seg_chunks_done: (r.seg_chunks_done + 1) as usize,
                            chunks: (r.chunks + 1) as usize,
                            ..r
                        },
                        SegAction::Keep { stamp_ms: stamp },
                    )
                }
            },
            SegEvent::ChunkFailed => if !r.in_seg {
                (r, SegAction::Ignore)
            } else {
                (
                    SegmentRun {
                        in_seg: false,
                        failed: (r.failed + 1) as usize,
                        offset_ms: (r.offset_ms + r.seg_duration) as u64,
                        ..r
                    },
                    SegAction::MarkFailed,
                )
            },
        }
    }
}

/// Whether the action marks a segment done.
pub open spec fn marks_done(a: SegAction) -> bool {
    a is MarkDone || a is KeepAndMarkDone
}

/// One step of transcribing a meeting. A segment is marked done only when every
/// one of its chunks was transcribed (or it had none); a stop request leaves the
/// segment in progress pending; each finished segment moves the time line on by
/// its duration, so stamps continue across segments.
pub fn segment_step(run: &SegmentRun, ev: SegEvent) -> (r: (SegmentRun, SegAction))
    requires
        run_wf(*run),
        seg_event_fits(*run, ev),
    ensures
        r == segment_step_s(*run, ev),
        run_wf(r.0),
        r.0.done + r.0.failed <= r.0.total,
        marks_done(r.1) ==> ((ev is Begin && ev->Begin_chunks == 0) || (run.in_seg
            && ev is ChunkDone && run.seg_chunks_done + 1 == run.seg_chunks)),
        r.0.offset_ms >= run.offset_ms,
        run.in_seg && !r.0.in_seg && !r.0.cancelled ==> r.0.offset_ms == run.offset_ms
            + run.seg_duration,
        ev is Cancel ==> r.1 is Stop && r.0.done == run.done && r.0.failed == run.failed,
{
    let s = *run;
    if s.cancelled {
        return (s, SegAction::Stop);
    }
    match ev {
        SegEvent::Cancel => {
            let left = if s.in_seg {
                s.left + 1
            } else {
                s.left
            };
            (SegmentRun { cancelled: true, in_seg: false, left, ..s }, SegAction::Stop)
        },
        SegEvent::ReadFailed => if s.in_seg || s.left == 0 {
            (s, SegAction::Ignore)
        } else {
            (SegmentRun { left: s.left - 1, failed: s.failed + 1, ..s }, SegAction::MarkFailed)
        },
        SegEvent::Begin { chunks, duration_ms } => if s.in_seg || s.left == 0 {
            (s, SegAction::Ignore)
        } else if chunks == 0 {
            (
                SegmentRun {
                    left: s.left - 1,
                    done: s.done + 1,
                    offset_ms: s.offset_ms + duration_ms,
                    ..s
                },
                SegAction::MarkDone,
            )
        } else {
            (
                SegmentRun {
                    left: s.left - 1,
                    in_seg: true,
                    seg_chunks: chunks,
                    seg_chunks_done: 0,
                    seg_duration: duration_ms,
                    ..s
                },
                SegAction::Transcribe,
            )
        },
        SegEvent::ChunkDone { start_ms } => if !s.in_seg {
            (s, SegAction::Ignore)
        } else {
            let stamp = s.offset_ms + start_ms;
            if s.seg_chunks_done + 1 == s.seg_chunks {
                (
                    SegmentRun {
                        in_seg: false,
                        done: s.done + 1,
                        chunks: s.chunks + 1,
                        offset_ms: s.offset_ms + s.seg_duration,
                        ..s
                    },
                    SegAction::KeepAndMarkDone { stamp_ms: stamp },
                )
            } else {
                (
                    SegmentRun { seg_chunks_done: s.seg_chunks_done + 1, chunks: s.chunks + 1, ..s },
                    SegAction::Keep { stamp_ms: stamp },
                )
            }
        },
        SegEvent::ChunkFailed => if !s.in_seg {
            (s, SegAction::Ignore)
        } else {
            (
                SegmentRun {
                    in_seg: false,
                    failed: s.failed + 1,
                    offset_ms: s.offset_ms + s.seg_duration,
                    ..s
                },
                SegAction::MarkFailed,
            )
        },
    }
}

} // verus!
