use bnu_core::markdown::parse;

#[test]
fn parses_title_and_tags() {
    let md = "---\ntags: [工作, 会议]\n---\n\n# 周会纪要\n\n内容";
    let doc = parse(md, "untitled");
    assert_eq!(doc.title, "周会纪要");
    assert_eq!(doc.tags, vec!["工作", "会议"]);
    assert!(doc.body.contains("周会纪要"));
}

#[test]
fn parses_tag_list_style() {
    let md = "---\ntags:\n  - 项目\n  - 想法\nfoo: bar\n---\n正文";
    let doc = parse(md, "t");
    assert_eq!(doc.tags, vec!["项目", "想法"]);
}

#[test]
fn falls_back_to_filename_title() {
    let doc = parse("没有标题的正文", "我的笔记");
    assert_eq!(doc.title, "我的笔记");
    assert!(doc.tags.is_empty());
}

#[test]
fn no_frontmatter_body_is_full_text() {
    let md = "# hello\nworld\n";
    let doc = parse(md, "x");
    assert_eq!(doc.body, md);
}
