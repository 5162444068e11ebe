use bnu_core::minutes::{
    extract_json_object, minutes_user_prompt, render_markdown, split_transcript, ActionItem,
    Minutes, Topic,
};

#[test]
fn extracts_json_from_noisy_output() {
    let raw = "好的，这是结果：\n```json\n{\"title\": \"周会\", \"overview\": \"讨论了镜像站\", \"topics\": []}\n```\n以上。";
    let v = extract_json_object(raw).unwrap();
    assert_eq!(v["title"], "周会");
    let v = extract_json_object("{\"title\":\"a\"}").unwrap();
    assert_eq!(v["title"], "a");
    assert!(extract_json_object("没有 JSON").is_none());
}

#[test]
fn split_transcript_keeps_paragraphs() {
    let text = (1..=10).map(|i| format!("第{i}行内容")).collect::<Vec<_>>().join("\n");
    let chunks = split_transcript(&text, 30);
    assert!(chunks.len() > 1);
    assert!(chunks.iter().all(|c| !c.is_empty()));
    assert_eq!(chunks.join("\n"), text);
}

#[test]
fn renders_markdown_with_action_table() {
    let m = Minutes {
        title: "周会纪要".into(),
        meeting_date: Some("2026-09-20".into()),
        participants: vec!["张三".into(), "李四".into()],
        overview: "讨论了镜像站方案。".into(),
        topics: vec![Topic { title: "镜像站".into(), points: vec!["改用镜像站".into(), "下周部署".into()] }],
        decisions: vec!["改用镜像站".into()],
        action_items: vec![ActionItem {
            task: "部署 | 验证".into(),
            owner: Some("张三".into()),
            due: Some("下周三".into()),
            source: None,
        }],
        risks: vec!["网络不稳".into()],
        next_steps: vec!["周五复盘".into()],
    };
    let md = render_markdown(&m);
    assert!(md.starts_with("# 周会纪要"));
    assert!(md.contains("**参会人**：张三、李四"));
    assert!(md.contains("### 1. 镜像站"));
    assert!(md.contains("| 1 | 部署 \\| 验证 | 张三 | 下周三 |"));
    assert!(md.contains("## 五、风险与遗留问题"));
    assert!(md.contains("## 六、下一步计划"));
}

#[test]
fn empty_minutes_render_placeholders() {
    let m = Minutes { title: "空".into(), ..Default::default() };
    let md = render_markdown(&m);
    assert!(md.contains("（无）"));
    assert!(md.contains("## 三、决议事项"));
}

#[test]
fn empty_minutes_render_exactly() {
    let m = Minutes { title: " 空 ".into(), ..Default::default() };
    assert_eq!(
        render_markdown(&m),
        "# 空\n\n## 一、会议摘要\n\n（无）\n\n## 二、议题与讨论\n\n（无）\n\n## 三、决议事项\n\n（无）\n\n## 四、待办事项\n\n（无）\n"
    );
}

#[test]
fn action_without_owner_shows_dash() {
    let m = Minutes {
        title: "t".into(),
        action_items: vec![ActionItem { task: " a ".into(), owner: None, due: None, source: None }],
        decisions: vec!["x".into(), "y".into()],
        ..Default::default()
    };
    let md = render_markdown(&m);
    assert!(md.contains("| 1 | a | — | — |"));
    assert!(md.contains("1. x\n2. y"));
}

#[test]
fn user_prompt_fills_missing_fields() {
    assert_eq!(
        minutes_user_prompt("  ", None, &[], "原文"),
        "【会议信息】\n标题：未提供\n日期：未提供\n参会人：未提供\n\n【转写原文】\n原文\n"
    );
    assert_eq!(
        minutes_user_prompt(" 周会 ", Some("9月"), &["甲".to_string(), "乙".to_string()], "x"),
        "【会议信息】\n标题：周会\n日期：9月\n参会人：甲、乙\n\n【转写原文】\nx\n"
    );
}

#[test]
fn short_transcript_is_one_segment() {
    assert_eq!(split_transcript("", 5), vec![String::new()]);
    assert_eq!(split_transcript("ab\ncd", 5), vec!["ab\ncd".to_string()]);
    assert_eq!(split_transcript("ab\ncd\nef", 5), vec!["ab".to_string(), "cd".to_string(), "ef".to_string()]);
}

#[test]
fn fenced_json_without_language_line() {
    let v = extract_json_object("```{\"a\":1}```").unwrap();
    assert_eq!(v["a"], 1);
    assert!(extract_json_object("   ").is_none());
    assert!(extract_json_object("[1, 2]").is_none());
}

#[test]
fn rendering_has_its_shape_for_any_minutes() {
    let mut m = bnu_core::minutes::Minutes::default();
    m.title = "  周会  ".into();
    let md = render_markdown(&m);
    assert!(md.starts_with("# 周会\n"));
    assert!(md.ends_with('\n') && !md.ends_with("\n\n"));
    assert!(md.contains("## 三、决议事项\n\n（无）"));
    assert!(!md.contains("## 五、风险与遗留问题") && !md.contains("## 六、下一步计划"));
    m.risks = vec!["延期".into()];
    m.next_steps = vec!["发布".into()];
    m.action_items = vec![ActionItem { task: "写文档".into(), owner: None, due: None, source: None }];
    let md = render_markdown(&m);
    assert!(md.contains("| 序号 | 待办事项 | 责任人 | 期限 |"));
    assert!(md.contains("## 五、风险与遗留问题") && md.contains("## 六、下一步计划"));
    assert!(md.ends_with("- 发布\n"));
}

#[test]
fn the_first_object_of_a_reply_is_taken() {
    let reply = "例如 {\"a\": 1} 然后正式输出 {\"title\": \"周会\"}";
    let i = bnu_core::minutes::first_object_at(reply).unwrap();
    assert_eq!(reply.trim().chars().nth(i), Some('{'));
    assert_eq!(reply.chars().take(i).filter(|&c| c == '{').count(), 0);
    let v = extract_json_object(reply).unwrap();
    assert_eq!(v["a"], 1);
    assert_eq!(bnu_core::minutes::first_object_at("没有对象 {x"), None);
    let two = extract_json_object("{\"a\":1} {\"b\":2}").unwrap();
    assert_eq!(two["a"], 1);
    assert!(two.get("b").is_none());
}

#[test]
fn optional_sections_appear_only_with_items() {
    let empty = Minutes { title: "会".into(), overview: "概要".into(), ..Default::default() };
    let md = render_markdown(&empty);
    assert!(!md.contains("## 五、风险与遗留问题") && !md.contains("## 六、下一步计划"));
    let risky = Minutes { title: "会".into(), risks: vec!["预算".into()], ..Default::default() };
    let md = render_markdown(&risky);
    assert!(md.contains("## 五、风险与遗留问题\n\n- 预算") && !md.contains("## 六、下一步计划"));
    let next = Minutes { title: "会".into(), next_steps: vec!["复盘".into()], ..Default::default() };
    let md = render_markdown(&next);
    assert!(!md.contains("## 五、风险与遗留问题") && md.contains("## 六、下一步计划\n\n- 复盘"));
}

#[test]
fn a_field_holding_a_section_heading_shows_it_without_items() {
    let m = Minutes {
        title: "会".into(),
        participants: vec!["## 五".into(), "风险与遗留问题".into()],
        ..Default::default()
    };
    let md = render_markdown(&m);
    assert!(m.risks.is_empty());
    assert!(md.contains("## 五、风险与遗留问题"));
    assert!(!md.lines().any(|l| l == "## 五、风险与遗留问题"));
}
