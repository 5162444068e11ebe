use bnu_core::meeting_note::cache_hit;
use bnu_core::meeting_note::{checked_rel, ref_shape, seg_dir_of, RefShape};
use bnu_core::meeting_note::{block_after, ref_transcript};
use bnu_core::meeting_note::{transcript_entry, SegOutcome};
use bnu_core::meeting_note::{in_meeting_dir, meeting_note_id, meeting_stem, note_title_fallback, CreateNoteError};
use bnu_core::meeting_note::{legacy_body, legacy_dir_name, legacy_note_id, legacy_skip};
use bnu_core::meeting_note::{
    distribute_transcript, handwritten_text, has_meaningful_text, minutes_ready, parse_ref_line,
    parse_refs, parse_timestamped_lines, replace_transcripts, shift_timestamps, skeleton,
    split_minutes, transcripts_text, upsert_minutes, TranscriptEntry, MINUTES_HEADING,
    SKELETON_NOTICE_MARK,
};
use bnu_core::calendar::civil_from_days;
use std::collections::BTreeMap;

#[test]
fn parses_ref_lines() {
    assert_eq!(parse_ref_line("/v a.wav"), Some(("/v".into(), "a.wav".into())));
    assert_eq!(
        parse_ref_line("  /video 会议音频/x/seg_0001.wav "),
        Some(("/video".into(), "会议音频/x/seg_0001.wav".into()))
    );
    assert_eq!(parse_ref_line("/v"), None);
    assert_eq!(parse_ref_line("/video"), None);
    assert_eq!(parse_ref_line("看 /v a.wav 这里"), None, "必须行首");
    assert_eq!(parse_ref_line("/very good"), None, "不能把 /very 认成 /v");
    assert_eq!(parse_ref_line("/v `a.wav`"), Some(("/v".into(), "a.wav".into())));
}

#[test]
fn parses_refs_with_line_numbers() {
    let body = "# 会\n\n开头\n/v a.wav\n中间\n/video 会议音频/b/seg_0002.wav\n";
    let refs = parse_refs(body);
    assert_eq!(refs.len(), 2);
    assert_eq!(refs[0].line, 4);
    assert_eq!(refs[1].line, 6);
    assert_eq!(refs[1].token, "/video");
}

#[test]
fn timestamps_shift_across_segments() {
    let text = "[00:00:05] 甲：开头\n[00:01:00] 乙：中间\n没有时间戳的行";
    let shifted = shift_timestamps(text, 4 * 60_000 + 1000);
    assert!(shifted.starts_with("[00:04:06] 甲：开头"), "{shifted}");
    assert!(shifted.contains("[00:05:01] 乙：中间"), "{shifted}");
    assert!(shifted.contains("没有时间戳的行"));
    assert_eq!(shift_timestamps(text, 0), text);
}

#[test]
fn transcript_blocks_are_idempotent() {
    let body = "# 会\n\n手写一句。\n/v a.wav\n\n后面还有手写。\n";
    let mut entries = BTreeMap::new();
    entries.insert(
        4usize,
        TranscriptEntry { meta: "00:00:00–00:00:10 · a.wav".into(), text: "甲：你好\n乙：再见".into() },
    );
    let once = replace_transcripts(body, &entries);
    assert!(once.contains("> 🎙 转写 00:00:00–00:00:10 · a.wav"));
    assert!(once.contains("> 甲：你好"));
    assert!(once.contains("> 乙：再见"));
    assert!(once.contains("后面还有手写。"));
    assert!(once.contains("\n\n后面还有手写。"), "块后要保留空行");

    let twice = replace_transcripts(&once, &entries);
    assert_eq!(once, twice, "重复处理不应堆叠");
}

#[test]
fn replace_only_touches_entries_and_keeps_user_text() {
    let body = "# 会\n\n手写 A\n/v a.wav\n> 🎙 转写 旧内容\n> 旧行\n\n手写 B\n/v b.wav\n> 手工写的备注（会被当转写，文档已说明）\n";
    let mut entries = BTreeMap::new();
    entries.insert(4usize, TranscriptEntry { meta: "m1".into(), text: "新内容".into() });
    let out = replace_transcripts(body, &entries);
    assert!(out.contains("> 新内容"));
    assert!(!out.contains("旧内容"));
    assert!(out.contains("手写 A") && out.contains("手写 B"));
    assert!(out.contains("> 手工写的备注（会被当转写，文档已说明）"), "b.wav 未处理，其块保持原样");

    let mut empty = BTreeMap::new();
    empty.insert(4usize, TranscriptEntry { meta: "m1".into(), text: "  ".into() });
    let cleared = replace_transcripts(body, &empty);
    assert!(!cleared.contains("旧内容"));
    assert!(cleared.contains("> 手工写的备注（会被当转写，文档已说明）"), "未处理的引用不受影响");
}

#[test]
fn minutes_split_and_upsert() {
    let body = "# 会\n\n手写\n\n## 会议纪要（AI 整理）\n\n旧纪要\n";
    let (head, minutes) = split_minutes(body);
    assert!(head.contains("手写") && !head.contains("会议纪要"));
    assert!(minutes.as_deref().unwrap().contains("旧纪要"));
    assert!(minutes_ready(minutes.as_deref()));

    let updated = upsert_minutes(body, "# 新标题\n\n- 决议");
    assert!(updated.contains("手写"));
    assert!(updated.contains("# 新标题"));
    assert!(!updated.contains("旧纪要"));
    assert_eq!(updated.matches(MINUTES_HEADING).count(), 1);

    let appended = upsert_minutes("# 会\n\n手写\n", "内容");
    assert!(appended.contains(MINUTES_HEADING) && appended.ends_with("内容\n"));

    let fresh = skeleton("周会", "2026-09-22");
    let (_, m) = split_minutes(&fresh);
    assert!(!minutes_ready(m.as_deref()));
}

#[test]
fn handwritten_excludes_generated_parts() {
    let body = "# 会\n\n手写 A\n/v a.wav\n> 🎙 转写 m\n> 转写内容\n\n手写 B\n\n## 会议纪要（AI 整理）\n\n纪要内容\n";
    let hand = handwritten_text(body);
    assert!(hand.contains("手写 A") && hand.contains("手写 B"));
    assert!(!hand.contains("转写内容"));
    assert!(!hand.contains("纪要内容"));
    assert!(!hand.contains("/v a.wav"));

    let mut entries = BTreeMap::new();
    entries.insert(4usize, TranscriptEntry { meta: "m".into(), text: "T1".into() });
    assert!(transcripts_text(&entries).contains("T1"));
}

#[test]
fn skeleton_notice_is_not_content() {
    let fresh = skeleton("周会", "2026-09-22");
    assert!(fresh.contains(SKELETON_NOTICE_MARK));
    let hand = handwritten_text(&fresh);
    assert!(!hand.contains(SKELETON_NOTICE_MARK), "骨架提示不进模型输入：{hand}");
    assert!(!has_meaningful_text(&hand), "全新空会议 = 没有内容");
    assert!(!has_meaningful_text("# 标题\n\n\n---\n"), "只有标题与分隔线不算内容");
    assert!(!has_meaningful_text("   \n"));
    assert!(has_meaningful_text("# 标题\n\n张三说镜像要换源。\n"));
    assert!(has_meaningful_text("# 标题\n\n> 引用块也是内容\n"));
}

#[test]
fn distributes_transcript_by_timestamp() {
    let lines = parse_timestamped_lines("[00:00:05] 第一句\n[00:05:00] 第二句\n没有时间戳的收尾\n");
    assert_eq!(lines[0].0, Some(5_000));
    assert_eq!(lines[1].0, Some(300_000));
    assert_eq!(lines[2].0, None);
    let buckets = distribute_transcript(&lines, &[(0, 120_000), (120_000, 240_000), (240_000, 360_000)]);
    assert_eq!(buckets.len(), 3);
    assert!(buckets[0][0].contains("第一句"));
    assert!(buckets[2][0].contains("第二句"));
    assert!(buckets[2][1].contains("没有时间戳的收尾"), "无时间戳的行跟上一行同段");
}

#[test]
fn civil_dates() {
    assert_eq!(civil_from_days(0), (1970, 1, 1));
    assert_eq!(civil_from_days(20_000), (2024, 10, 4));
}

#[test]
fn reference_shapes_and_paths() {
    assert_eq!(ref_shape("  ./会议音频\\周会\\20260923-1430/ "), Some(RefShape::Path { rel: "会议音频/周会/20260923-1430".into(), dir_hint: true }));
    assert_eq!(ref_shape("seg_0001.wav"), Some(RefShape::Bare("seg_0001.wav".into())));
    assert_eq!(ref_shape(" ./ "), None);
    assert_eq!(ref_shape("///"), None);
    assert!(checked_rel("会议音频/a/seg_0001.wav"));
    assert!(!checked_rel("/etc/passwd"));
    assert!(!checked_rel("a/../b"));
    assert!(!checked_rel("C:/x"));
    assert!(!checked_rel("~/x"));
    assert!(!checked_rel("a//b"));
    assert_eq!(seg_dir_of("会议音频/周会/20260923-1430"), "周会/20260923-1430");
    assert_eq!(seg_dir_of("其它/目录"), "其它/目录");
}

#[test]
fn transcript_under_reference() {
    let body = "/v a.wav\n> 🎙 转写 00:00:00–00:00:05 · a.wav\n>\n> [00:00:01] 你好\n>   第二行\n正文";
    let lines: Vec<Vec<char>> = body.split('\n').map(|l| l.chars().collect()).collect();
    let (end, text) = block_after(&lines, 0).unwrap();
    assert_eq!(end, 5);
    assert_eq!(text, "🎙 转写 00:00:00–00:00:05 · a.wav\n\n[00:00:01] 你好\n第二行");
    assert_eq!(ref_transcript(&lines, 0), "[00:00:01] 你好\n第二行");
    assert_eq!(block_after(&lines, 4), None);
    assert_eq!(ref_transcript(&lines, 5), "");
}

#[test]
fn processed_reference_becomes_entry() {
    let segs = vec![
        SegOutcome { file: "seg_0001.wav".into(), duration_ms: 65_000, text: Some("[00:00:01] 开场".into()) },
        SegOutcome { file: "seg_0002.wav".into(), duration_ms: 10_000, text: None },
        SegOutcome { file: "seg_0003.wav".into(), duration_ms: 5_000, text: Some("[00:00:02] 结束".into()) },
    ];
    let e = transcript_entry(Some("20260923-1430"), &segs).unwrap();
    assert_eq!(e.meta, "00:00:00–00:01:10 · 3 段 · 20260923-1430");
    assert_eq!(e.text, "（1 段转写失败：seg_0002.wav；可再点一次「一键处理」只重试这些）\n[00:00:01] 开场\n[00:01:07] 结束");
    let one = vec![SegOutcome { file: "a.wav".into(), duration_ms: 3_000, text: Some("  ".into()) }];
    let e = transcript_entry(None, &one).unwrap();
    assert_eq!((e.meta.as_str(), e.text.as_str()), ("00:00:00–00:00:03 · a.wav", ""));
    let failed = vec![SegOutcome { file: "a.wav".into(), duration_ms: 3_000, text: None }];
    assert!(transcript_entry(None, &failed).is_none());
}

#[test]
fn meeting_note_names() {
    assert_eq!(meeting_stem("周会: 第1次", " 2026-09-23 "), Ok("2026-09-23-周会- 第1次".to_string()));
    assert_eq!(meeting_stem("  ", "2026-09-23"), Err(CreateNoteError::NoTitle));
    assert_eq!(meeting_stem("..a..", ""), Ok("-..a".to_string()));
    assert_eq!(meeting_note_id("x", 0), "会议/x.md");
    assert_eq!(meeting_note_id("x", 2), "会议/x-2.md");
    assert!(in_meeting_dir("会议/a.md"));
    assert!(in_meeting_dir("会议.md"));
    assert!(!in_meeting_dir("会议记录/a.md"));
    assert_eq!(note_title_fallback("会议/周会.md.md"), "周会");
    assert_eq!(note_title_fallback("随手.md"), "随手");
}

#[test]
fn legacy_meeting_note() {
    assert_eq!(legacy_dir_name(" 周会 "), "旧会议-周会");
    assert_eq!(legacy_note_id(" a/b. ", "2026-01-02"), "会议/旧会议/2026-01-02-a-b.md");
    assert!(legacy_skip(" ", "\n", 3));
    assert!(legacy_skip("", "x", 0));
    assert!(!legacy_skip("t", "", 0));
    let body = legacy_body(
        "周会",
        "2026-01-02",
        "旧会议-周会",
        &vec!["/v 会议音频/旧会议-周会/seg_0001.wav".to_string()],
        &vec![vec!["[00:00:01] 你好".to_string()]],
        1,
        "[00:00:01] 你好",
        "",
    );
    assert_eq!(
        body,
        "# 周会\n\n> 由旧版会议迁移（2026-01-02）；原始录音已复制到 `会议音频/旧会议-周会`。\n\n/v 会议音频/旧会议-周会/seg_0001.wav\n> 🎙 转写 旧版整体转写\n>\n> [00:00:01] 你好\n\n## 会议纪要（AI 整理）\n\n_（点「一键处理」后由对话模型整理生成，整段会被覆盖）_\n"
    );
    let no_audio = legacy_body("t", "d", "x", &vec![], &vec![], 0, " 旧文本 ", " 纪要 ");
    assert!(no_audio.contains("## 旧版转写（未找到录音文件）\n\n旧文本\n\n## 会议纪要（AI 整理）\n\n纪要\n"));
}

#[test]
fn cache_row_counts_only_when_it_matches() {
    let row = |t: &str, m: i64, s: u64, model: &str| Some((t.to_string(), m, s, model.to_string()));
    assert_eq!(cache_hit(row("转写", 10, 200, "whisper"), (10, 200), "whisper"), Some("转写".to_string()));
    assert_eq!(cache_hit(row("转写", 11, 200, "whisper"), (10, 200), "whisper"), None);
    assert_eq!(cache_hit(row("转写", 10, 201, "whisper"), (10, 200), "whisper"), None);
    assert_eq!(cache_hit(row("转写", 10, 200, "other"), (10, 200), "whisper"), None);
    assert_eq!(cache_hit(row("  \n", 10, 200, "whisper"), (10, 200), "whisper"), None);
    assert_eq!(cache_hit(None, (10, 200), "whisper"), None);
}
