//! The decisions of a minutes run, as a step function from the run's state and
//! what happened to the next action: one request (or one per segment of a long
//! transcript and a merge of the partial results), the JSON response format
//! dropped once when the service refuses it with a 400, and one repair request
//! when the reply does not parse. The program around it makes the chat calls,
//! reads the replies and renders the minutes.
use vstd::prelude::*;
use crate::text::{append, append_str, chars_of, contains_s, contains_str, string_of, trim, trim_s};

verus! {

/// Where a run stands.
#[derive(Debug, Clone, Copy, PartialEq, Eq, Structural)]
pub enum MinutesPhase {
    /// nothing asked yet
    Start,
    /// asking for the partial result of segment `next`
    Segments,
    /// asking for the merge of the partial results
    Merge,
    /// asking for the minutes of a short transcript
    Single,
    /// asking once more after a reply that did not parse
    Repair,
    /// done or failed
    Finished,
}

/// State of a minutes run.
#[derive(Debug, Clone, Copy, PartialEq, Eq, Structural)]
pub struct MinutesRun {
    pub phase: MinutesPhase,
    /// the transcript is long: one request per segment, then a merge
    pub map_reduce: bool,
    /// number of segments of a long transcript
    pub segments: usize,
    /// the segment being asked for
    pub next: usize,
    /// segments whose reply held a JSON object
    pub partials: usize,
    /// requests ask for the JSON response format
    pub json_mode: bool,
    /// the repair request was made
    pub repaired: bool,
}

/// What happened.
#[derive(Debug, Clone, PartialEq, Eq)]
pub enum MinutesEvent {
    /// begin
    Start,
    /// a segment's reply came back; `has_object` when a JSON object was found in it
    SegmentReply { has_object: bool },
    /// the reply of a merge, single or repair request was parsed; `ok` when it
    /// gave minutes
    Parsed { ok: bool },
    /// the chat request failed with this error
    ChatFailed(String),
}

/// Which request to make.
#[derive(Debug, Clone, Copy, PartialEq, Eq, Structural)]
pub enum MinutesRequest {
    /// the partial result of segment `index` (`chunk_prompt`)
    Segment { index: usize },
    /// the merge of the partial results (`merge_prompt`)
    Merge,
    /// the minutes of a short transcript (`minutes_user_prompt`)
    Single,
    /// the repair of the last reply (`repair_prompt`)
    Repair,
}

/// Why a run failed.
#[derive(Debug, Clone, Copy, PartialEq, Eq, Structural)]
pub enum MinutesFailure {
    /// the chat request failed; its error is the run's error
    Chat,
    /// no segment of a long transcript gave a JSON object
    AllSegmentsFailed,
    /// the reply did not parse, nor did the repaired one
    ParsedTwice,
}

/// What the program does next.
#[derive(Debug, Clone, Copy, PartialEq, Eq, Structural)]
pub enum MinutesAction {
    /// make the request, with or without the JSON response format
    Ask { request: MinutesRequest, json: bool },
    /// the last parsed minutes are the result (rendered with `render_markdown`)
    Done,
    /// the run fails
    Fail(MinutesFailure),
    /// the event does not fit the state and is ignored
    Ignore,
}

/// The counters of a run fit each other.
pub open spec fn minutes_run_wf(r: MinutesRun) -> bool {
    &&& r.partials <= r.next
    &&& r.phase is Start ==> r.next == 0
    &&& r.phase is Segments ==> r.map_reduce && r.next < r.segments
    &&& r.phase is Merge ==> r.map_reduce && r.partials > 0
    &&& r.phase is Single ==> !r.map_reduce
    &&& r.phase is Repair ==> r.repaired
    &&& r.repaired ==> (r.phase is Repair || r.phase is Finished)
}

/// A run before its first request.
pub open spec fn minutes_run_new_s(map_reduce: bool, segments: nat) -> MinutesRun {
    MinutesRun {
        phase: MinutesPhase::Start,
        map_reduce,
        segments: segments as usize,
        next: 0,
        partials: 0,
        json_mode: true,
        repaired: false,
    }
}

/// A run for a transcript that is cut into `segments` segments when `map_reduce`.
pub fn minutes_run_new(map_reduce: bool, segments: usize) -> (r: MinutesRun)
    ensures
        r == minutes_run_new_s(map_reduce, segments as nat),
        minutes_run_wf(r),
{
    MinutesRun {
        phase: MinutesPhase::Start,
        map_reduce,
        segments,
        next: 0,
        partials: 0,
        json_mode: true,
        repaired: false,
    }
}

/// The request made in a phase that waits for a reply.
pub open spec fn request_of(r: MinutesRun) -> MinutesRequest {
    match r.phase {
        MinutesPhase::Segments => MinutesRequest::Segment { index: r.next },
        MinutesPhase::Merge => MinutesRequest::Merge,
        MinutesPhase::Repair => MinutesRequest::Repair,
        _ => MinutesRequest::Single,
    }
}

/// Whether the run waits for a reply.
pub open spec fn waiting(r: MinutesRun) -> bool {
    r.phase is Segments || r.phase is Merge || r.phase is Single || r.phase is Repair
}

/// Whether the action makes this request.
pub open spec fn asks(a: MinutesAction, q: MinutesRequest) -> bool {
    a matches MinutesAction::Ask { request, .. } && request == q
}

/// Whether the action fails for this reason.
pub open spec fn fails_with(a: MinutesAction, f: MinutesFailure) -> bool {
    a == MinutesAction::Fail(f)
}

/// Meaning of `minutes_step`.
pub open spec fn minutes_step_s(r: MinutesRun, ev: MinutesEvent) -> (MinutesRun, MinutesAction) {
    let finished = MinutesRun { phase: MinutesPhase::Finished, ..r };
    match ev {
        MinutesEvent::Start => if !(r.phase is Start) {
            (r, MinutesAction::Ignore)
        } else if r.map_reduce {
            if r.segments == 0 {
                (finished, MinutesAction::Fail(MinutesFailure::AllSegmentsFailed))
            } else {
                (
                    MinutesRun { phase: MinutesPhase::Segments, next: 0, ..r },
                    MinutesAction::Ask {
                        request: MinutesRequest::Segment { index: 0 },
                        json: r.json_mode,
                    },
                )
            }
        } else {
            (
                MinutesRun { phase: MinutesPhase::Single, ..r },
                MinutesAction::Ask { request: MinutesRequest::Single, json: r.json_mode },
            )
        },
        MinutesEvent::ChatFailed(err) => if !waiting(r) {
            (r, MinutesAction::Ignore)
        } else if r.json_mode && contains_s(err@, "400"@) {
            (
                MinutesRun { json_mode: false, ..r },
                MinutesAction::Ask { request: request_of(r), json: false },
            )
        } else {
            (finished, MinutesAction::Fail(MinutesFailure::Chat))
        },
        MinutesEvent::SegmentReply { has_object } => if !(r.phase is Segments) {
            (r, MinutesAction::Ignore)
        } else {
            let partials = (if has_object { r.partials + 1 } else { r.partials as int }) as usize;
            let next = (r.next + 1) as usize;
            if next < r.segments {
                (
                    MinutesRun { next, partials, ..r },
                    MinutesAction::Ask {
                        request: MinutesRequest::Segment { index: next },
                        json: r.json_mode,
                    },
                )
            } else if partials == 0 {
                (
                    MinutesRun { phase: MinutesPhase::Finished, next, partials, ..r },
                    MinutesAction::Fail(MinutesFailure::AllSegmentsFailed),
                )
            } else {
                (
                    MinutesRun { phase: MinutesPhase::Merge, next, partials, ..r },
                    MinutesAction::Ask { request: MinutesRequest::Merge, json: r.json_mode },
                )
            }
        },
        MinutesEvent::Parsed { ok } => if !(r.phase is Merge || r.phase is Single || r.phase is Repair) {
            (r, MinutesAction::Ignore)
        } else if ok {
            (finished, MinutesAction::Done)
        } else if r.phase is Repair {
            (finished, MinutesAction::Fail(MinutesFailure::ParsedTwice))
        } else {
            (
                MinutesRun { phase: MinutesPhase::Repair, repaired: true, ..r },
                MinutesAction::Ask { request: MinutesRequest::Repair, json: r.json_mode },
            )
        },
    }
}

/// One step of a minutes run. The JSON response format, once dropped, is never
/// asked for again; at most one repair request is made, and only after a reply
/// that did not parse; a long transcript is merged only when some segment gave
/// a JSON object, and fails when none did.
pub fn minutes_step(run: &MinutesRun, ev: MinutesEvent) -> (r: (MinutesRun, MinutesAction))
    requires
        minutes_run_wf(*run),
    ensures
        r == minutes_step_s(*run, ev),
        minutes_run_wf(r.0),
        !run.json_mode ==> !r.0.json_mode,
        asks(r.1, MinutesRequest::Repair) ==> (!run.repaired || (run.phase is Repair)),
        run.repaired ==> r.0.repaired,
        asks(r.1, MinutesRequest::Merge) ==> r.0.partials > 0,
        fails_with(r.1, MinutesFailure::AllSegmentsFailed) ==> r.0.partials == 0,
{
    let s = *run;
    let finished = MinutesRun { phase: MinutesPhase::Finished, ..s };
    match ev {
        MinutesEvent::Start => {
            if s.phase != MinutesPhase::Start {
                (s, MinutesAction::Ignore)
            } else if s.map_reduce {
                if s.segments == 0 {
                    (finished, MinutesAction::Fail(MinutesFailure::AllSegmentsFailed))
                } else {
                    (
                        MinutesRun { phase: MinutesPhase::Segments, next: 0, ..s },
                        MinutesAction::Ask {
                            request: MinutesRequest::Segment { index: 0 },
                            json: s.json_mode,
                        },
                    )
                }
            } else {
                (
                    MinutesRun { phase: MinutesPhase::Single, ..s },
                    MinutesAction::Ask { request: MinutesRequest::Single, json: s.json_mode },
                )
            }
        },
        MinutesEvent::ChatFailed(err) => {
            let wait = s.phase == MinutesPhase::Segments || s.phase == MinutesPhase::Merge
                || s.phase == MinutesPhase::Single || s.phase == MinutesPhase::Repair;
            if !wait {
                (s, MinutesAction::Ignore)
            } else if s.json_mode && contains_str(chars_of(err.as_str()).as_slice(), "400") {
                let request = match s.phase {
                    MinutesPhase::Segments => MinutesRequest::Segment { index: s.next },
                    MinutesPhase::Merge => MinutesRequest::Merge,
                    MinutesPhase::Repair => MinutesRequest::Repair,
                    _ => MinutesRequest::Single,
                };
                (MinutesRun { json_mode: false, ..s }, MinutesAction::Ask { request, json: false })
            } else {
                (finished, MinutesAction::Fail(MinutesFailure::Chat))
            }
        },
        MinutesEvent::SegmentReply { has_object } => {
            if s.phase != MinutesPhase::Segments {
                (s, MinutesAction::Ignore)
            } else {
                let partials = if has_object {
                    s.partials + 1
                } else {
                    s.partials
                };
                let next = s.next + 1;
                if next < s.segments {
                    (
                        MinutesRun { next, partials, ..s },
                        MinutesAction::Ask {
                            request: MinutesRequest::Segment { index: next },
                            json: s.json_mode,
                        },
                    )
                } else if partials == 0 {
                    (
                        MinutesRun { phase: MinutesPhase::Finished, next, partials, ..s },
                        MinutesAction::Fail(MinutesFailure::AllSegmentsFailed),
                    )
                } else {
                    (
                        MinutesRun { phase: MinutesPhase::Merge, next, partials, ..s },
                        MinutesAction::Ask { request: MinutesRequest::Merge, json: s.json_mode },
                    )
                }
            }
        },
        MinutesEvent::Parsed { ok } => {
            if !(s.phase == MinutesPhase::Merge || s.phase == MinutesPhase::Single || s.phase
                == MinutesPhase::Repair) {
                (s, MinutesAction::Ignore)
            } else if ok {
                (finished, MinutesAction::Done)
            } else if s.phase == MinutesPhase::Repair {
                (finished, MinutesAction::Fail(MinutesFailure::ParsedTwice))
            } else {
                (
                    MinutesRun { phase: MinutesPhase::Repair, repaired: true, ..s },
                    MinutesAction::Ask { request: MinutesRequest::Repair, json: s.json_mode },
                )
            }
        },
    }
}

/// Meaning of `minutes_failure_message`.
pub open spec fn minutes_failure_message_s(f: MinutesFailure, detail: Seq<char>) -> Seq<char> {
    match f {
        MinutesFailure::Chat => detail,
        MinutesFailure::AllSegmentsFailed => "长会议分段抽取全部失败，无法生成纪要"@,
        MinutesFailure::ParsedTwice => "纪要 JSON 两次解析失败："@ + if detail.len() == 0 {
            "未知错误"@
        } else {
            detail
        },
    }
}

/// The error of a failed run: the chat error itself, or the run's own message
/// (with the last parse error, `未知错误` when there is none).
pub fn minutes_failure_message(f: MinutesFailure, detail: &str) -> (r: String)
    ensures
        r@ == minutes_failure_message_s(f, detail@),
{
    match f {
        MinutesFailure::Chat => string_of(chars_of(detail).as_slice()),
        MinutesFailure::AllSegmentsFailed => string_of(
            chars_of("长会议分段抽取全部失败，无法生成纪要").as_slice(),
        ),
        MinutesFailure::ParsedTwice => {
            let mut v = chars_of("纪要 JSON 两次解析失败：");
            if detail.unicode_len() == 0 {
                append_str(&mut v, "未知错误");
            } else {
                append_str(&mut v, detail);
            }
            string_of(v.as_slice())
        },
    }
}

/// Meaning of `minutes_source_text`.
pub open spec fn minutes_source_text_s(handwritten: Seq<char>, transcript: Seq<char>) -> Seq<char> {
    (if trim_s(handwritten).len() > 0 {
        "【手写记录】\n"@ + trim_s(handwritten) + "\n\n"@
    } else {
        seq![]
    }) + (if trim_s(transcript).len() > 0 {
        "【录音转写】\n"@ + trim_s(transcript)
    } else {
        seq![]
    })
}

/// The text a meeting note's minutes are made from: its hand-written text and
/// its transcripts, each under a label and left out when blank.
pub fn minutes_source_text(handwritten: &str, transcript: &str) -> (r: String)
    ensures
        r@ == minutes_source_text_s(handwritten@, transcript@),
{
    let mut v: Vec<char> = Vec::new();
    let h = trim(chars_of(handwritten).as_slice());
    if h.len() > 0 {
        append_str(&mut v, "【手写记录】\n");
        append(&mut v, h.as_slice());
        append_str(&mut v, "\n\n");
    }
    let t = trim(chars_of(transcript).as_slice());
    if t.len() > 0 {
        append_str(&mut v, "【录音转写】\n");
        append(&mut v, t.as_slice());
    }
    string_of(v.as_slice())
}

} // verus!
