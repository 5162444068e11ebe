use bnu_core::audio_clip::{
        clip_file_parts, clip_stat, next_seq_of, removable_parts, sort_clips, sort_segs, wav_meta_of,
        ClipInfo, RemovePathError, SegRef,
    };
use bnu_core::audio_clip::{
    dir_for_note, dir_for_note_legacy, is_session_name, safe_rel, session_id_at, session_id_now,
    session_of_dir, session_ref_line,
};

#[test]
fn note_id_maps_to_audio_dir() {
    assert_eq!(dir_for_note("会议/2026-09-22 周会.md"), "会议/2026-09-22 周会");
    assert_eq!(dir_for_note("会议/子目录/周会.md"), "会议/子目录/周会");
    assert_eq!(dir_for_note("随手记.md"), "随手记");
    assert_eq!(dir_for_note(".md"), "未命名");
    assert_eq!(dir_for_note_legacy("会议/2026-09-22 周会.md"), "2026-09-22 周会");
    assert_eq!(dir_for_note_legacy("会议/子目录/周会.md"), "子目录_周会");
    assert_eq!(dir_for_note_legacy("随手记.md"), "随手记");
    assert_eq!(dir_for_note_legacy("会议/.md"), "未命名会议");
}

#[test]
fn session_names_and_ref_line() {
    assert!(is_session_name("20260923-1430"));
    assert!(!is_session_name("20260923"));
    assert!(!is_session_name("2026092-1430"));
    assert!(!is_session_name("会议/周会"));
    assert_eq!(session_of_dir("会议/周会/20260923-1430"), "20260923-1430");
    assert_eq!(session_of_dir("会议/周会"), "");
    assert_eq!(session_of_dir("周会"), "");
    assert_eq!(session_ref_line("会议/周会/20260923-1430"), "/v 会议音频/会议/周会/20260923-1430/");
    let now = session_id_now();
    assert!(is_session_name(&now), "{now}");
}

#[test]
fn rejects_path_escape() {
    assert!(safe_rel("../evil").is_err());
    assert!(safe_rel("/etc").is_err());
    assert!(safe_rel("C:/x").is_err());
    assert!(safe_rel("a/../../b").is_err());
    assert!(safe_rel("正常 目录/子").is_ok());
}

#[test]
fn clip_names_parts_and_order() {
    let st = clip_stat("会议/周会/20260923-1430", 2, 10, 20, 16000).unwrap();
    assert_eq!(st.path, "会议音频/会议/周会/20260923-1430/seg_0002.wav");
    assert_eq!(st.ref_line, "/v 会议音频/会议/周会/20260923-1430/seg_0002.wav");
    assert_eq!(st.session, "20260923-1430");
    assert_eq!(st.file, "seg_0002.wav");
    assert!(clip_stat("../x", 1, 0, 0, 0).is_err());
    assert_eq!(next_seq_of(&["seg_0003.wav".into(), "x.txt".into(), "seg_0001.wav".into()]), 4);
    assert_eq!(next_seq_of(&[]), 1);
    assert_eq!(
        clip_file_parts(" 会议音频\\周会\\seg_0001.wav "),
        Some(("周会".to_string(), "seg_0001.wav".to_string()))
    );
    assert_eq!(clip_file_parts("别处/seg_0001.wav"), None);
    assert_eq!(clip_file_parts("会议音频/周会/a.mp3"), None);
    assert_eq!(removable_parts("会议音频/a/seg_0001.wav"), Ok(("a".to_string(), "seg_0001.wav".to_string())));
    assert_eq!(removable_parts("x/seg_0001.wav"), Err(RemovePathError::OutsideAudio("x/seg_0001.wav".into())));
    assert_eq!(removable_parts("会议音频/a/b.wav"), Err(RemovePathError::NotSegment("b.wav".into())));
    assert_eq!(removable_parts("会议音频/seg_0001.wav"), Err(RemovePathError::BadPath("会议音频/seg_0001.wav".into())));
    let mk = |dir: &str, seq: i64, file: &str| ClipInfo {
        dir: dir.into(), file: file.into(), path: String::new(), seq, session: String::new(),
        bytes: 0, duration_ms: 0, sample_rate: 0, modified_at: 0,
    };
    let sorted = sort_clips(vec![mk("b", 1, "x"), mk("a", 2, "y"), mk("a", 1, "z"), mk("a", 1, "w")]);
    let order: Vec<&str> = sorted.iter().map(|c| c.file.as_str()).collect();
    assert_eq!(order, vec!["z", "w", "y", "x"]);
    let wav = bnu_core::audio::build_wav(&[0u8; 3200], 16000, 1, 16);
    assert_eq!(wav_meta_of(&wav[..44], 44 + 3200), (16000, 100));
    assert_eq!(wav_meta_of(&wav[..44], 44 + 1600), (16000, 50));
    let mut open = wav.clone();
    open[40..44].copy_from_slice(&0u32.to_le_bytes());
    assert_eq!(wav_meta_of(&open[..44], 44 + 32000), (16000, 1000));
    assert_eq!(wav_meta_of(b"nope", 10), (0, 0));
}

#[test]
fn sorted_segments_rise_and_keep_every_item() {
    let mk = |seq: i64, file: &str| SegRef {
        file: file.into(), path: String::new(), seq, bytes: 0, duration_ms: 0,
    };
    let sorted = sort_segs(vec![mk(3, "c"), mk(1, "a"), mk(2, "b"), mk(1, "a2")]);
    let order: Vec<&str> = sorted.iter().map(|c| c.file.as_str()).collect();
    assert_eq!(order, vec!["a", "a2", "b", "c"]);
    assert!(sorted.windows(2).all(|w| w[0].seq <= w[1].seq));
    assert!(sort_segs(Vec::new()).is_empty());
}

#[test]
fn dots_and_blanks_never_make_a_parent_directory() {
    assert_eq!(dir_for_note(". .. ./x.md"), "x");
    assert_eq!(dir_for_note(".. . ../周会.md"), "周会");
    assert_eq!(dir_for_note(" ..\\.. "), "未命名");
    let s = bnu_core::audio_clip::sanitize_segment(&format!("{}.  .x", "a".repeat(59)));
    assert_eq!(s, "a".repeat(59));
    assert!(!s.starts_with('.') && !s.ends_with('.'));
}

#[test]
fn session_ids_of_clock_readings() {
    assert_eq!(session_id_at(0), "19700101-0000");
    assert_eq!(session_id_at(1_790_000_000), "20260921-1413");
    assert_eq!(session_id_at(253_402_300_799), "99991231-2359");
    assert!(is_session_name(&session_id_at(253_402_300_799)));
    assert!(!is_session_name(&session_id_at(253_402_300_800)));
    assert!(bnu_core::notes::now_secs() > 1_600_000_000);
}
