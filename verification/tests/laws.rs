use bnu_core::audio::{build_wav, i16_to_bytes, speech_pcm, split_speech, SAMPLE_RATE};
use bnu_core::graph::{batch_chunks, validate, RawEntity, RawGraph, RawRelation};
use bnu_core::meeting_note::{
    distribute_transcript, handwritten_text, parse_refs, replace_transcripts, split_minutes, upsert_minutes,
    TranscriptEntry,
    MINUTES_HEADING,
};
use bnu_core::meeting_note::{checked_rel, ref_shape, skeleton, RefShape};
use bnu_core::models::api_root;
use std::collections::BTreeMap;

#[test]
fn api_root_is_stable() {
    for base in ["https://a.b/", " https://a.b/v1 ", "http://x:1/api//", "", "/"] {
        let once = api_root(base);
        assert!(once.ends_with("/v1"));
        assert_eq!(api_root(&once), once);
    }
}

#[test]
fn batches_keep_every_chunk_in_order() {
    let chunks: Vec<(i64, String)> = (0..7).map(|i| (i as i64, "字".repeat(1000 + 700 * (i % 3)))).collect();
    let batches = batch_chunks(&chunks);
    let flat: Vec<(i64, String)> = batches.iter().flatten().cloned().collect();
    assert_eq!(flat, chunks);
    for b in &batches {
        assert!(!b.is_empty());
        if b.len() > 1 {
            assert!(b.iter().map(|(_, t)| t.chars().count()).sum::<usize>() <= 6000);
        }
    }
}

#[test]
fn distribution_keeps_line_count() {
    let lines = vec![(Some(0u64), "a".to_string()), (None, "b".to_string()), (Some(999_999), "c".to_string())];
    let buckets = distribute_transcript(&lines, &[(0, 10), (10, 20)]);
    assert_eq!(buckets.len(), 2);
    assert_eq!(buckets.iter().map(|b| b.len()).sum::<usize>(), 3);
    let one = distribute_transcript(&lines, &[]);
    assert_eq!(one, vec![vec!["a".to_string(), "b".to_string(), "c".to_string()]]);
}

#[test]
fn rewriting_one_transcript_twice_changes_nothing() {
    let body = "# 会\r\n手写\r\n/v a.wav\r\n> 旧\r\n后文";
    let mut entries = BTreeMap::new();
    entries.insert(3usize, TranscriptEntry { meta: " m ".into(), text: "一\n\n二 ".into() });
    let once = replace_transcripts(body, &entries);
    assert_eq!(once, "# 会\n手写\n/v a.wav\n> 🎙 转写 m\n>\n> 一\n>\n> 二\n后文");
    assert_eq!(replace_transcripts(&once, &entries), once);
}

#[test]
fn validated_graph_is_grounded() {
    let chunks = vec![(1i64, "甲和乙在丙开会。".to_string())];
    let mut entities: Vec<RawEntity> = ["甲", "乙", "丙", "丁", "甲"]
        .iter()
        .map(|n| RawEntity::Obj { name: n.to_string(), kind: "人".into() })
        .collect();
    entities.push(RawEntity::Name("会".into()));
    let relations = vec![
        RawRelation { from: "甲".into(), to: "乙".into(), kind: "认识".into(), evidence: String::new() },
        RawRelation { from: "甲".into(), to: "乙".into(), kind: "认识".into(), evidence: String::new() },
        RawRelation { from: "甲".into(), to: "丁".into(), kind: "认识".into(), evidence: String::new() },
    ];
    let out = validate(RawGraph { entities, relations }, &chunks);
    let names: Vec<&str> = out.entities.iter().map(|e| e.name.as_str()).collect();
    assert_eq!(names, vec!["甲", "乙", "丙", "会"]);
    assert!(out.entities.iter().all(|e| "甲和乙在丙开会。".contains(&e.name)));
    assert_eq!(out.relations.len(), 1);
    assert_eq!(out.relations[0].evidence, "甲和乙在丙开会");
}

#[test]
fn speech_cuts_cover_the_recording() {
    let mut samples: Vec<i16> = Vec::new();
    for s in 0..(SAMPLE_RATE as usize * 50) {
        samples.push(if (s / 8) % 2 == 0 { 8000 } else { -8000 });
    }
    let wav = build_wav(&i16_to_bytes(&samples), SAMPLE_RATE, 1, 16);
    let pcm = speech_pcm(&wav).unwrap();
    let frames = pcm.len() / 2 / 1600;
    let flags = vec![false; frames];
    let chunks = split_speech(&wav, &flags).unwrap();
    assert_eq!(chunks.len(), 2);
    assert_eq!((chunks[0].start_ms, chunks[0].duration_ms), (0, 45_000));
    assert_eq!((chunks[1].start_ms, chunks[1].duration_ms), (45_000, 5_000));
}

#[test]
fn written_minutes_read_back() {
    let cases = [
        ("# 会\n\n手写\n\n## 会议纪要（AI 整理）\n\n旧纪要\n", "  # 新标题\n\n- 决议  "),
        ("# 会\n\n手写\n", "内容"),
        ("", ""),
        ("正文  \n\n", "\n纪要\n"),
    ];
    for (body, minutes) in cases {
        let (head, _) = split_minutes(body);
        let once = upsert_minutes(body, minutes);
        let (head2, section) = split_minutes(&once);
        assert_eq!(head2, head);
        let expected = format!("{}\n\n{}", MINUTES_HEADING, minutes.trim());
        assert_eq!(section, Some(expected.trim_end().to_string()));
        assert_eq!(upsert_minutes(&once, minutes), once);
    }
}

#[test]
fn rewriting_never_touches_handwritten_text() {
    let body = "# 会\n\n手写 A\n/v a.wav\n> 🎙 转写 旧\n> 旧内容\n\n手写 B\n/v b.wav\n尾巴\n\n## 会议纪要（AI 整理）\n\n旧纪要\n";
    let mut m = BTreeMap::new();
    m.insert(4usize, TranscriptEntry { meta: "m1".into(), text: "第一行\n第二行".into() });
    m.insert(9usize, TranscriptEntry { meta: "m2".into(), text: "新的".into() });
    let once = replace_transcripts(body, &m);
    assert_eq!(handwritten_text(&once), handwritten_text(body));
    let with_minutes = upsert_minutes(&once, "- 决议");
    assert_eq!(handwritten_text(&with_minutes), handwritten_text(body));
    assert!(handwritten_text(body).contains("手写 A") && handwritten_text(body).contains("尾巴"));
}

#[test]
fn running_the_rewrite_again_changes_nothing() {
    let body = "# 会\n/v a.wav\n> 旧\n手写\n/v b.wav\n/v c.wav\n> x\n> y\n尾\n";
    let entries = [
        TranscriptEntry { meta: "m1".into(), text: "一\n二\n三".into() },
        TranscriptEntry { meta: "m2".into(), text: "四".into() },
        TranscriptEntry { meta: "m3".into(), text: "  ".into() },
    ];
    let keyed = |b: &str| -> BTreeMap<usize, TranscriptEntry> {
        parse_refs(b).iter().zip(entries.iter()).map(|(r, e)| (r.line, e.clone())).collect()
    };
    let once = replace_transcripts(body, &keyed(body));
    let twice = replace_transcripts(&once, &keyed(&once));
    assert_eq!(twice, once);
    assert!(once.contains("> 三") && !once.contains("> x"));
}

#[test]
fn crlf_notes_keep_their_handwritten_text() {
    let body = "# 会\r\n\r\n手写 A\r\n/v a.wav\r\n> 🎙 转写 旧\r\n> 旧内容\r\n\r\n手写 B\r\n/v b.wav\r\n尾巴\r\n";
    let mut m = BTreeMap::new();
    m.insert(4usize, TranscriptEntry { meta: "m1".into(), text: "第一行\n第二行".into() });
    m.insert(9usize, TranscriptEntry { meta: "m2".into(), text: "新的".into() });
    let once = replace_transcripts(body, &m);
    assert_eq!(handwritten_text(&once), handwritten_text(body));
    let with_minutes = upsert_minutes(&once, "- 决议");
    assert_eq!(handwritten_text(&with_minutes), handwritten_text(body));
    assert!(handwritten_text(body).contains("手写 B") && !handwritten_text(body).contains("旧内容"));
}

#[test]
fn a_note_ending_in_a_carriage_return_keeps_its_handwritten_text() {
    let body = "手写\n/v a.wav\r";
    let mut m = BTreeMap::new();
    m.insert(2usize, TranscriptEntry { meta: "m1".into(), text: "新的".into() });
    let once = replace_transcripts(body, &m);
    assert!(once.contains("> 新的"));
    assert_eq!(handwritten_text(&once), handwritten_text(body));
    assert_eq!(handwritten_text(body), "手写");
}

#[test]
fn a_carriage_return_before_a_crlf_ending_is_dropped_by_the_rewrite() {
    let body = "a\r\r\nb";
    let once = replace_transcripts(body, &BTreeMap::new());
    assert_eq!(once, "a\r\nb");
    assert_ne!(handwritten_text(&once), handwritten_text(body));
    assert_eq!(handwritten_text(&once), "a\nb");
}

#[test]
fn rewriting_again_after_a_final_carriage_return_drops_it() {
    let body = "/v a.wav\r";
    let entry = TranscriptEntry { meta: "m1".into(), text: "一".into() };
    let keyed = |b: &str| -> BTreeMap<usize, TranscriptEntry> {
        parse_refs(b).iter().map(|r| (r.line, entry.clone())).collect()
    };
    let once = replace_transcripts(body, &keyed(body));
    assert!(once.starts_with("/v a.wav\r\n"));
    let twice = replace_transcripts(&once, &keyed(&once));
    assert_ne!(twice, once);
    assert_eq!(twice, once.replacen('\r', "", 1));
    assert_eq!(handwritten_text(&twice), handwritten_text(body));
}

#[test]
fn speech_pieces_follow_one_another_in_milliseconds() {
    let n = SAMPLE_RATE as usize * 61 + 12_345;
    let samples: Vec<i16> = (0..n).map(|s| if (s / 8) % 2 == 0 { 6000 } else { -6000 }).collect();
    let wav = build_wav(&i16_to_bytes(&samples), SAMPLE_RATE, 1, 16);
    let pcm = speech_pcm(&wav).unwrap();
    let frames = pcm.len() / 2 / 1600;
    // quiet from 9 s to 10 s and from 30 s to 31 s
    let flags: Vec<bool> = (0..frames).map(|k| (90..100).contains(&k) || (300..310).contains(&k)).collect();
    let chunks = split_speech(&wav, &flags).unwrap();
    assert!(chunks.len() >= 3);
    assert_eq!(chunks[0].start_ms, 0);
    for w in chunks.windows(2) {
        assert_eq!(w[1].start_ms, w[0].start_ms + w[0].duration_ms);
        assert!(8_000 <= w[0].duration_ms && w[0].duration_ms <= 45_000);
    }
    let last = chunks.last().unwrap();
    assert!(last.duration_ms >= 1_000);
    assert!((n as u64) * 1000 / 16000 <= last.start_ms + last.duration_ms + 1_000);
    assert_eq!((chunks[0].start_ms, chunks[0].duration_ms), (0, 9_600));
}

#[test]
fn references_out_of_the_vault_are_refused() {
    for raw in ["../../etc/passwd", "/etc/passwd", " ./a/../../b ", "a\\..\\b", "//x/", "../"] {
        match ref_shape(raw) {
            Some(RefShape::Path { rel, .. }) => assert!(!checked_rel(&rel), "{raw}"),
            Some(RefShape::Bare(name)) => {
                assert_eq!(name, "..");
                assert!(!checked_rel(&name));
            }
            None => {}
        }
    }
    assert_eq!(ref_shape(".."), Some(RefShape::Bare("..".to_string())));
    assert!(checked_rel("a/b.wav"));
}

#[test]
fn the_skeleton_has_one_minutes_heading_line() {
    for (title, date) in [("周会", "2026-09-22"), (MINUTES_HEADING, MINUTES_HEADING), ("  ", "")] {
        let s = skeleton(title, date);
        assert_eq!(s.lines().filter(|l| l.trim() == MINUTES_HEADING).count(), 1);
        assert_eq!(s.lines().nth(5), Some(MINUTES_HEADING));
    }
    assert_eq!(skeleton("周会", "2026-09-22").matches(MINUTES_HEADING).count(), 1);
}
