use bnu_core::minutes_run::{
    minutes_failure_message, minutes_run_new, minutes_source_text, minutes_step, MinutesAction, MinutesEvent,
    MinutesFailure, MinutesRequest,
};
use bnu_core::extraction::{extraction_rows, fold_batch, needs_extraction};
use bnu_core::graph::{BatchExtraction, ExtractOutcome, GraphEntity, GraphRelation};
use bnu_core::process::{
    minutes_plan, process_start, process_step, segment_run_new, segment_step, MinutesPlan, ProcessAction,
    ProcessEvent, SegAction, SegEvent,
};

#[test]
fn processing_counts_every_segment_once() {
    assert!(process_start(false, false, 3, 1).is_err());
    let mut st = process_start(true, false, 3, 1).unwrap();
    assert_eq!((st.total, st.failed, st.remaining), (4, 1, 3));
    let (s, a) = process_step(&st, ProcessEvent::Cache { hit: true });
    assert_eq!(a, ProcessAction::UseCached);
    st = s;
    let (s, a) = process_step(&st, ProcessEvent::Cache { hit: false });
    assert_eq!(a, ProcessAction::Transcribe);
    st = process_step(&s, ProcessEvent::Transcribed).0;
    let (s, a) = process_step(&st, ProcessEvent::Failed { cancel_seen: false });
    assert_eq!(a, ProcessAction::RecordFailure);
    st = s;
    assert_eq!((st.done, st.skipped, st.failed, st.remaining), (1, 1, 2, 0));
    assert_eq!(st.done + st.skipped + st.failed, st.total);
    assert_eq!(process_step(&st, ProcessEvent::Transcribed).1, ProcessAction::Stop);
}

#[test]
fn forced_processing_never_uses_the_cache() {
    let st = process_start(true, true, 1, 0).unwrap();
    let (s, a) = process_step(&st, ProcessEvent::Cache { hit: true });
    assert_eq!(a, ProcessAction::Transcribe);
    assert_eq!(s.skipped, 0);
    let (s, a) = process_step(&s, ProcessEvent::Cancel);
    assert_eq!(a, ProcessAction::Stop);
    assert!(s.cancelled && s.done + s.skipped + s.failed < s.total);
    assert_eq!(minutes_plan(true, true, true, true), MinutesPlan::Cancelled);
    assert_eq!(minutes_plan(false, false, true, true), MinutesPlan::NoChatModel);
    assert_eq!(minutes_plan(false, true, false, false), MinutesPlan::NothingToSummarize);
    assert!(minutes_plan(false, true, false, false).message().is_some());
    assert_eq!(minutes_plan(false, true, true, false), MinutesPlan::Generate);
}

#[test]
fn segments_continue_the_time_line_and_resume_after_cancel() {
    let mut run = segment_run_new(3, 60_000);
    let (r, a) = segment_step(&run, SegEvent::Begin { chunks: 2, duration_ms: 30_000 });
    assert_eq!(a, SegAction::Transcribe);
    let (r, a) = segment_step(&r, SegEvent::ChunkDone { start_ms: 0 });
    assert_eq!(a, SegAction::Keep { stamp_ms: 60_000 });
    let (r, a) = segment_step(&r, SegEvent::ChunkDone { start_ms: 12_000 });
    assert_eq!(a, SegAction::KeepAndMarkDone { stamp_ms: 72_000 });
    assert_eq!((r.done, r.offset_ms), (1, 90_000));
    run = r;
    let (r, a) = segment_step(&run, SegEvent::Begin { chunks: 0, duration_ms: 5_000 });
    assert_eq!(a, SegAction::MarkDone);
    assert_eq!(r.offset_ms, 95_000);
    let (r, _) = segment_step(&r, SegEvent::Begin { chunks: 3, duration_ms: 20_000 });
    let (r, _) = segment_step(&r, SegEvent::ChunkDone { start_ms: 0 });
    let (r, a) = segment_step(&r, SegEvent::Cancel);
    assert_eq!(a, SegAction::Stop);
    assert_eq!((r.done, r.failed, r.left), (2, 0, 1));
    let (r, a) = segment_step(&segment_run_new(1, -5), SegEvent::ReadFailed);
    assert_eq!((a, r.failed, r.offset_ms), (SegAction::MarkFailed, 1, 0));
}

fn ent(n: &str, k: &str) -> GraphEntity {
    GraphEntity { name: n.into(), kind: k.into() }
}

#[test]
fn extraction_decisions() {
    assert!(needs_extraction(None, "h", false));
    assert!(!needs_extraction(Some("h"), "h", false));
    assert!(needs_extraction(Some("h"), "h", true));
    assert!(needs_extraction(Some("g"), "h", false));
    let good = BatchExtraction {
        chunk_ids: vec![1, 2],
        entities: vec![ent("张三", "person"), ent("项目", "concept"), ent("项目", "event")],
        relations: vec![GraphRelation { from: "张三".into(), to: "项目".into(), kind: "负责".into(), evidence: "e".into() },
            GraphRelation { from: "张三".into(), to: "无名".into(), kind: "x".into(), evidence: "".into() }],
        error: None,
    };
    let bad = BatchExtraction { chunk_ids: vec![3], entities: vec![], relations: vec![], error: Some("超时".into()) };
    let o = fold_batch(&ExtractOutcome::default(), 0, &good);
    let o = fold_batch(&o, 1, &bad);
    assert_eq!((o.batches, o.entities, o.relations), (2, 3, 2));
    assert_eq!(o.errors, vec!["第 2 批：超时".to_string()]);
    let chunks = vec![(1i64, "开会".to_string()), (2i64, "张三负责项目".to_string()), (3i64, "x".to_string())];
    let errs = vec!["第 2 批：超时".to_string()];
    let rows = extraction_rows(&[good.clone(), bad.clone()], &chunks, &errs);
    assert_eq!(rows.entity_count, 3);
    assert_eq!(rows.relation_count, 1);
    assert!(!rows.keep_hash);
    assert_eq!(rows.links[0].chunk_id, 2);
    assert_eq!(rows.relations[0].to, ("项目".to_string(), "concept".to_string()));
    assert_eq!(rows.relations[0].chunk_id, Some(2));
    assert!(extraction_rows(&[good.clone()], &chunks, &[]).keep_hash);
    // the hash follows the reported errors, not the batches
    assert!(!extraction_rows(&[good], &chunks, &errs).keep_hash);
}

#[test]
fn minutes_run_repairs_once_and_drops_json_mode_on_400() {
    let run = minutes_run_new(false, 0);
    let (run, a) = minutes_step(&run, MinutesEvent::Start);
    assert_eq!(a, MinutesAction::Ask { request: MinutesRequest::Single, json: true });
    let (run, a) = minutes_step(&run, MinutesEvent::ChatFailed("对话模型返回 400: bad".into()));
    assert_eq!(a, MinutesAction::Ask { request: MinutesRequest::Single, json: false });
    let (run2, a) = minutes_step(&run, MinutesEvent::ChatFailed("对话模型返回 400: bad".into()));
    assert_eq!(a, MinutesAction::Fail(MinutesFailure::Chat));
    assert!(!run2.json_mode);
    let (run, a) = minutes_step(&run, MinutesEvent::Parsed { ok: false });
    assert_eq!(a, MinutesAction::Ask { request: MinutesRequest::Repair, json: false });
    assert!(run.repaired);
    let (_, a) = minutes_step(&run, MinutesEvent::Parsed { ok: false });
    assert_eq!(a, MinutesAction::Fail(MinutesFailure::ParsedTwice));
    let (_, a) = minutes_step(&run, MinutesEvent::Parsed { ok: true });
    assert_eq!(a, MinutesAction::Done);
    assert_eq!(minutes_failure_message(MinutesFailure::ParsedTwice, ""), "纪要 JSON 两次解析失败：未知错误");
    assert_eq!(minutes_failure_message(MinutesFailure::Chat, "网络错误"), "网络错误");
}

#[test]
fn long_minutes_merge_only_with_some_partial() {
    let run = minutes_run_new(true, 2);
    let (run, a) = minutes_step(&run, MinutesEvent::Start);
    assert_eq!(a, MinutesAction::Ask { request: MinutesRequest::Segment { index: 0 }, json: true });
    let (run, a) = minutes_step(&run, MinutesEvent::SegmentReply { has_object: false });
    assert_eq!(a, MinutesAction::Ask { request: MinutesRequest::Segment { index: 1 }, json: true });
    let (_, a) = minutes_step(&run, MinutesEvent::SegmentReply { has_object: false });
    assert_eq!(a, MinutesAction::Fail(MinutesFailure::AllSegmentsFailed));
    assert_eq!(minutes_failure_message(MinutesFailure::AllSegmentsFailed, ""), "长会议分段抽取全部失败，无法生成纪要");
    let (_, a) = minutes_step(&run, MinutesEvent::SegmentReply { has_object: true });
    assert_eq!(a, MinutesAction::Ask { request: MinutesRequest::Merge, json: true });
    assert_eq!(minutes_source_text("  手写  ", "转写\n"), "【手写记录】\n手写\n\n【录音转写】\n转写");
    assert_eq!(minutes_source_text(" ", "转写"), "【录音转写】\n转写");
}
