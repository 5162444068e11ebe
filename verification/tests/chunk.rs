use bnu_core::chunk::{chunk_markdown, MAX_CHUNK_CHARS};

#[test]
fn splits_by_headings_with_line_numbers() {
    let md = "# A\ntext a\n\n## B\ntext b1\ntext b2\n";
    let cs = chunk_markdown(md);
    assert_eq!(cs.len(), 2);
    assert_eq!((cs[0].start_line, cs[0].end_line), (1, 3));
    assert_eq!((cs[1].start_line, cs[1].end_line), (4, 7));
}

#[test]
fn long_section_is_packed_into_multiple_chunks() {
    let mut md = String::from("# 标题\n");
    for i in 0..60 {
        md.push_str(&format!(
            "这是第 {} 段内容，用来把章节撑长一些，顺便验证段落打包与重叠逻辑是否正确。\n\n",
            i
        ));
    }
    let cs = chunk_markdown(&md);
    assert!(cs.len() >= 3, "got {} chunks", cs.len());
    for c in &cs {
        assert!(c.text.chars().count() <= MAX_CHUNK_CHARS);
    }
}

#[test]
fn empty_body_yields_no_chunks() {
    assert!(chunk_markdown("\n\n   \n").is_empty());
}

#[test]
fn chunks_are_numbered_and_trimmed() {
    let cs = chunk_markdown("intro  \n# H\nbody\n");
    assert_eq!(cs.len(), 2);
    assert_eq!((cs[0].seq, cs[0].start_line, cs[0].end_line, cs[0].text.as_str()), (0, 1, 1, "intro"));
    assert_eq!((cs[1].seq, cs[1].start_line, cs[1].end_line, cs[1].text.as_str()), (1, 2, 4, "# H\nbody"));
}

#[test]
fn over_long_paragraph_is_cut_hard() {
    let para = "字".repeat(2000);
    let md = format!("# 长\n{}\n", para);
    let cs = chunk_markdown(&md);
    assert!(cs.len() >= 3);
    for c in &cs {
        assert!(c.text.chars().count() <= MAX_CHUNK_CHARS);
    }
    let total: usize = cs.iter().map(|c| c.text.chars().count()).sum();
    assert_eq!(total, 3 + 2000);
    assert_eq!(cs.len(), 4);
}

#[test]
fn heading_needs_space_and_at_most_six_hashes() {
    let cs = chunk_markdown("a\n#nospace\n####### seven\n  ## two\n");
    assert_eq!(cs.len(), 2);
    assert_eq!((cs[0].start_line, cs[0].end_line), (1, 3));
    assert_eq!((cs[1].start_line, cs[1].end_line), (4, 5));
}

#[test]
fn every_chunk_lies_inside_the_note_and_is_trimmed() {
    let mut body = String::from("# 标题\n\n第一段  \n\n");
    for i in 0..40 {
        body.push_str(&format!("第 {i} 段：{}\n\n", "内容".repeat(30 + i % 7)));
    }
    body.push_str("## 小节\n尾巴   \n");
    let n = body.split('\n').count();
    let cs = bnu_core::chunk::chunk_markdown(&body);
    assert!(cs.len() > 1);
    for (i, c) in cs.iter().enumerate() {
        assert_eq!(c.seq, i);
        assert!(1 <= c.start_line && c.start_line <= c.end_line && c.end_line <= n);
        assert_eq!(c.text, c.text.trim_end());
    }
}

#[test]
fn a_note_with_any_text_has_chunks() {
    for body in ["\n\n x \n", "#", "\u{3000}\n.\n", &"字".repeat(2000), &format!("{}\n\n{}", "甲".repeat(700), " ")] {
        assert!(!chunk_markdown(body).is_empty(), "{body:?}");
    }
    for body in ["", "\n", " \t\n\u{3000}\n\r\n"] {
        assert!(chunk_markdown(body).is_empty(), "{body:?}");
    }
}
