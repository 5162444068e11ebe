use bnu_core::models::{sse_payload, take_line, ChatStreamAccum, ChatStreamEvent};
use bnu_core::audio::closing_lengths;
use bnu_core::graph::{edges_among, ledger_error, ledger_hash, GraphEdge};
use bnu_core::models::{stream_outcome, ChatReply};
use bnu_core::transcribe::{meeting_status_after, stamped_line, stamped_text};
use bnu_core::graph::{batch_chunk_ids, batch_error_line, batch_failure, extract_user_prompt, failed_batch};
use bnu_core::minutes::{
    check_minutes, chunk_prompt, merge_prompt, prepare_transcript, repair_prompt, uses_map_reduce,
    Minutes, MinutesError, Topic, EMPTY_MINUTES_MESSAGE,
};
use bnu_core::models::{reply_from_parts, ChatError};
use bnu_core::rate_limit::{retry_decision, RetryDecision};
use bnu_core::retrieval::{chunk_sources, fts_limit, retrieval_mode, status_from};
use bnu_core::models::{EndpointConfig, ModelConfig};

#[test]
fn retry_decisions() {
    assert_eq!(retry_decision(1, true, "对话模型返回 400: bad"), RetryDecision::SwitchOffJson);
    assert_eq!(retry_decision(1, false, "对话模型返回 400: bad"), RetryDecision::GiveUp);
    assert_eq!(retry_decision(1, false, "返回 429: slow"), RetryDecision::RetryAfter(15));
    assert_eq!(retry_decision(2, false, "请求失败: reset"), RetryDecision::RetryAfter(4));
    assert_eq!(retry_decision(3, false, "请求失败: reset"), RetryDecision::GiveUp);
}

#[test]
fn extraction_requests() {
    let batch = vec![(3i64, "甲".to_string()), (5i64, "乙".to_string())];
    assert_eq!(extract_user_prompt("标题", &batch), "笔记《标题》的片段：\n---\n甲\n\n乙\n---\n请按要求输出 JSON。");
    assert_eq!(batch_chunk_ids(&batch), vec![3, 5]);
    assert_eq!(batch_failure(""), "未获得模型输出");
    assert_eq!(batch_failure("x"), "x");
    assert_eq!(batch_error_line(0, &"错".repeat(200)).chars().count(), "第 1 批：".chars().count() + 160);
    let f = failed_batch(vec![1], "e".into());
    assert_eq!((f.chunk_ids, f.error), (vec![1], Some("e".to_string())));
}

#[test]
fn minutes_run_helpers() {
    assert_eq!(prepare_transcript("  "), Err(MinutesError::NoTranscript));
    assert_eq!(prepare_transcript(" 文本 "), Ok("文本".to_string()));
    let long = "字".repeat(1_500_001);
    assert_eq!(prepare_transcript(&long), Err(MinutesError::TooLong(1_500_001)));
    assert_eq!(MinutesError::TooLong(7).message(), "转写文本过长（7 字），上限 1500000 字");
    assert!(!uses_map_reduce("短"));
    assert!(uses_map_reduce(&"字".repeat(60_000)));
    assert_eq!(chunk_prompt(0, 3, "x"), "【片段序号】第 1 / 3 段\n【片段原文】\nx");
    assert!(merge_prompt("周会", "[1]").contains("标题：周会\n日期：未提供\n参会人：未提供\n\n【转写原文】\n以下是按时间顺序的分段抽取结果：\n[1]\n"));
    assert!(repair_prompt("坏了", "abc").contains("【解析错误】\n坏了\n\n【你上一步的输出】\nabc\n\n"));
    let (m, e) = check_minutes(Minutes::default());
    assert!(m.is_none());
    assert_eq!(e.as_deref(), Some(EMPTY_MINUTES_MESSAGE));
    let ok = Minutes { topics: vec![Topic::default()], ..Default::default() };
    let (m, e) = check_minutes(ok);
    assert!(m.is_some() && e.is_none());
}

#[test]
fn chat_reply_fallbacks() {
    let r = reply_from_parts(" 答 ", Some("  "), "stop", Some(3)).unwrap();
    assert_eq!((r.content.as_str(), r.reasoning, r.completion_tokens), ("答", None, Some(3)));
    let r = reply_from_parts("", Some(" 想 "), "stop", None).unwrap();
    assert_eq!((r.content.as_str(), r.reasoning.as_deref()), ("想", Some("想")));
    assert_eq!(reply_from_parts("", Some("想"), "length", None).unwrap_err(), ChatError::ThinkingTruncated);
    assert_eq!(reply_from_parts(" ", None, "stop", None).unwrap_err(), ChatError::EmptyContent("stop".into()));
    assert_eq!(ChatError::EmptyContent("x".into()).message(), "模型返回内容为空（finish_reason=x）");
}

#[test]
fn retrieval_reports() {
    assert_eq!(retrieval_mode(true, 0), "hybrid+rerank");
    assert_eq!(retrieval_mode(false, 2), "hybrid");
    assert_eq!(retrieval_mode(false, 0), "fts");
    assert_eq!(chunk_sources(1, &[1, 2], &[3], true), vec!["fts".to_string(), "rerank".to_string()]);
    assert_eq!(chunk_sources(3, &[1, 2], &[3], false), vec!["vector".to_string()]);
    assert_eq!(fts_limit(0), 1);
    assert_eq!(fts_limit(999), 200);
    let cfg = ModelConfig {
        embedding: Some(EndpointConfig { base_url: "u".into(), model: "bge".into(), params: serde_json::Value::Null, api_key: None }),
        ..Default::default()
    };
    let s = status_from(&cfg, 10, 4, 6);
    assert!(s.vector_ready && s.has_embedding && !s.has_chat);
    assert_eq!(s.embed_model, "bge");
    assert!(!status_from(&cfg, 10, 0, 10).vector_ready);
}

#[test]
fn take_line_keeps_multibyte_chars_intact_across_chunks() {
    let full = "data: {\"choices\":[{\"delta\":{\"content\":\"你好\"}}]}\n";
    let cut = full.find('你').unwrap() + 1;
    let mut buf: Vec<u8> = Vec::new();
    buf.extend_from_slice(&full.as_bytes()[..cut]);
    assert!(take_line(&mut buf).is_none());
    buf.extend_from_slice(&full.as_bytes()[cut..]);
    let line = take_line(&mut buf).unwrap();
    assert!(line.contains("你好"));
    assert!(!line.contains('\u{FFFD}'));
    assert!(buf.is_empty());
    let mut acc = ChatStreamAccum::default();
    let payload = sse_payload(&line).unwrap();
    assert_eq!(acc.feed(&payload), Some(ChatStreamEvent::Delta("你好".into())));
}

#[test]
fn stream_outcomes_and_stamps() {
    let r = |c: &str, f: &str, reasoning: Option<&str>| ChatReply {
        content: c.into(),
        finish_reason: f.into(),
        completion_tokens: None,
        reasoning: reasoning.map(String::from),
    };
    assert_eq!(stream_outcome(r("半", "stop", None), true).unwrap().finish_reason, "cancelled");
    assert_eq!(stream_outcome(r("", "length", Some("x")), false).unwrap_err(), ChatError::ThinkingTruncated);
    assert_eq!(stream_outcome(r("", "stop", Some("想")), false).unwrap().content, "想");
    assert_eq!(stream_outcome(r("", "stop", None), false).unwrap_err(), ChatError::EmptyContent("stop".into()));
    assert_eq!(stamped_line(65_000, " 你好 "), Some("[00:01:05] 你好".to_string()));
    assert_eq!(stamped_line(0, "  "), None);
    assert_eq!(stamped_text(&[(0, "a".into()), (3_600_000, "b".into())]), "[00:00:00] a\n[01:00:00] b");
    assert_eq!(meeting_status_after(1, true), "failed");
    assert_eq!(meeting_status_after(0, true), "recorded");
    assert_eq!(meeting_status_after(0, false), "transcribed");
    assert_eq!(ledger_error(&["a".into(), "长".repeat(300)]).chars().count(), 1 + 1 + 200);
    assert_eq!(ledger_hash("h", true), "");
    assert_eq!(ledger_hash("h", false), "h");
    let e = |s: i64, d: i64| GraphEdge { src: s, dst: d, weight: 1, kinds: String::new() };
    let kept = edges_among(&[1, 2], vec![e(1, 2), e(1, 3), e(2, 1)]);
    assert_eq!(kept.iter().map(|x| (x.src, x.dst)).collect::<Vec<_>>(), vec![(1, 2), (2, 1)]);
    assert_eq!(closing_lengths(44 + 100), (136, 100));
    assert_eq!(closing_lengths(10), (36, 0));
}
