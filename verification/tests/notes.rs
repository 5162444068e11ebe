use bnu_core::meetings::{seg_file_name, ymd_from_secs};
use bnu_core::notes::{
    ensure_safe_id, folder_of, new_note_content, note_candidate, note_id, sanitize_filename,
    search_limit, search_plan, NoteIdError, SearchPlan,
};
use bnu_core::qa::{answer_plan, build_messages, no_result_answer, refusal_message, truncate_chars, AskRefusal, PromptChunk, SYSTEM_PROMPT};

#[test]
fn ids_and_folders() {
    assert_eq!(note_id("a\\b\\c.md"), "a/b/c.md");
    assert_eq!(folder_of("工作/周会.md"), "工作");
    assert_eq!(folder_of("a/b/c.md"), "a/b");
    assert_eq!(folder_of("读书.md"), "");
}

#[test]
fn unsafe_ids_are_refused() {
    assert_eq!(ensure_safe_id(""), Err(NoteIdError::Empty));
    assert_eq!(ensure_safe_id("a\0b"), Err(NoteIdError::Illegal));
    assert_eq!(ensure_safe_id("/etc/passwd"), Err(NoteIdError::Absolute));
    assert_eq!(ensure_safe_id("\\x"), Err(NoteIdError::Absolute));
    assert_eq!(ensure_safe_id("C:x.md"), Err(NoteIdError::Illegal));
    assert_eq!(ensure_safe_id("a/../b.md"), Err(NoteIdError::ParentDir));
    assert_eq!(ensure_safe_id(".."), Err(NoteIdError::ParentDir));
    assert_eq!(ensure_safe_id("a\\.."), Err(NoteIdError::ParentDir));
    assert_eq!(ensure_safe_id("a/..b/c.md"), Ok(()));
    assert_eq!(ensure_safe_id("工作/周会.md"), Ok(()));
    assert_eq!(NoteIdError::ParentDir.message(), "笔记 id 不能包含 ..");
}

#[test]
fn file_names_for_new_notes() {
    assert_eq!(sanitize_filename("  我的想法 "), "我的想法");
    assert_eq!(sanitize_filename("a/b:c?"), "a-b-c-");
    assert_eq!(sanitize_filename(" .. "), "未命名");
    assert_eq!(sanitize_filename(".hidden."), "hidden");
    assert_eq!(sanitize_filename(&"长".repeat(70)).chars().count(), 60);
    assert_eq!(note_candidate("随手记", "我的想法", 0), "随手记/我的想法.md");
    assert_eq!(note_candidate("/随手记/", "我的想法", 2), "随手记/我的想法-2.md");
    assert_eq!(note_candidate("", "x", 3), "x-3.md");
    assert_eq!(new_note_content(" 标题 "), "# 标题\n\n");
}

#[test]
fn search_plans() {
    assert_eq!(search_plan("   "), SearchPlan::Empty);
    assert_eq!(search_plan(" 图 "), SearchPlan::Like("图".into()));
    assert_eq!(search_plan("镜像拉取"), SearchPlan::Fts("\"镜像拉取\"".into()));
    assert_eq!(search_plan("a  b\"c"), SearchPlan::Fts("\"a\" AND \"b\"\"c\"".into()));
    assert_eq!(search_limit(0), 1);
    assert_eq!(search_limit(500), 100);
    assert_eq!(search_limit(7), 7);
}

#[test]
fn meeting_names_and_dates() {
    assert_eq!(seg_file_name(3), "seg_0003.wav");
    assert_eq!(seg_file_name(12345), "seg_12345.wav");
    assert_eq!(ymd_from_secs(0), "1970-01-01");
    assert_eq!(ymd_from_secs(1_700_000_000), "2023-11-14");
    assert_eq!(ymd_from_secs(-1), "1969-12-31");
    assert_eq!(ymd_from_secs(951_782_400), "2000-02-29");
}

#[test]
fn prompt_contains_citation_context() {
    let chunks = vec![PromptChunk {
        note_id: "a.md".into(),
        title: "标题A".into(),
        start_line: 3,
        end_line: 9,
        text: "  向量检索是一种语义检索方法。 ".into(),
    }];
    let msgs = build_messages(" 什么是向量检索？ ", &chunks);
    assert_eq!(msgs.len(), 2);
    assert_eq!(msgs[0].role, "system");
    assert_eq!(msgs[0].content, SYSTEM_PROMPT);
    assert_eq!(
        msgs[1].content,
        "以下是从我的本地笔记中检索到的片段：\n\n[1] 《标题A》（a.md 第 3-9 行）\n向量检索是一种语义检索方法。\n\n\n请依据这些片段回答我的问题：什么是向量检索？"
    );
    assert!(no_result_answer(" 问 ").starts_with("在本地笔记里没有找到与「问」相关的内容。"));
    assert_eq!(truncate_chars("abc", 2), "ab…");
}

#[test]
fn questions_are_trimmed_refused_when_blank_or_without_a_chat_model() {
    assert_eq!(answer_plan("   ", true, 5), Err(AskRefusal::EmptyQuestion));
    assert_eq!(answer_plan("  ", false, 5), Err(AskRefusal::EmptyQuestion));
    assert_eq!(answer_plan(" 周会？ ", false, 5), Err(AskRefusal::NoChatModel));
    assert_eq!(answer_plan(" 周会？ ", true, 5), Ok(("周会？".to_string(), 5)));
    assert_eq!(answer_plan("q", true, 0), Ok(("q".to_string(), 1)));
    assert_eq!(answer_plan("q", true, 40), Ok(("q".to_string(), 12)));
    assert_eq!(refusal_message(AskRefusal::EmptyQuestion), "问题不能为空");
    assert_eq!(refusal_message(AskRefusal::NoChatModel), "未配置对话模型：请到「设置」里填写对话端点（问答需要它）");
}
