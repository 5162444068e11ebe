use bnu_core::graph::{
    batch_chunks, content_hash, normalize_kind, normalize_name, normalize_rel_kind, validate,
    RawEntity, RawGraph, RawRelation,
};

fn ent(name: &str, kind: &str) -> RawEntity {
    RawEntity::Obj { name: name.to_string(), kind: kind.to_string() }
}

fn rel(from: &str, to: &str, kind: &str, evidence: &str) -> RawRelation {
    RawRelation {
        from: from.to_string(),
        to: to.to_string(),
        kind: kind.to_string(),
        evidence: evidence.to_string(),
    }
}

#[test]
fn normalize_fullwidth_and_case() {
    assert_eq!(normalize_name("　张三 "), "张三");
    assert_eq!(normalize_name("Ａｐｐｌｅ  Inc"), "apple inc");
    assert_eq!(normalize_name("多   空格"), "多 空格");
}

#[test]
fn kind_mapping() {
    assert_eq!(normalize_kind("Organization"), "org");
    assert_eq!(normalize_kind("人物"), "person");
    assert_eq!(normalize_kind("地点"), "place");
    assert_eq!(normalize_kind("whatever"), "other");
    assert_eq!(normalize_kind(""), "other");
}

#[test]
fn batching_respects_char_budget() {
    let chunks: Vec<(i64, String)> = (0..5).map(|i| (i as i64, "字".repeat(2000))).collect();
    let batches = batch_chunks(&chunks);
    assert_eq!(batches.len(), 2);
    assert!(batches[0].len() <= 3);
}

#[test]
fn validation_drops_hallucinations() {
    let chunks = vec![(1i64, "张三在北京大学做研究，方向是知识图谱。李四也在北京大学。".to_string())];
    let raw = RawGraph {
        entities: vec![
            ent("张三", "person"),
            ent("北京大学", "org"),
            ent("王五", "person"),
            ent("张三", "person"),
        ],
        relations: vec![
            rel("张三", "北京大学", "就职于", "张三在北京大学做研究"),
            rel("张三", "王五", "认识", "编造的"),
            rel("张三", "张三", "自称", ""),
        ],
    };
    let out = validate(raw, &chunks);
    assert_eq!(out.entities.len(), 2);
    assert_eq!(out.relations.len(), 1);
    assert_eq!(out.relations[0].kind, "就职于");
    assert!(out.relations[0].evidence.contains("北京大学"));
    assert!(out.chunk_ids.contains(&1));
}

#[test]
fn evidence_falls_back_to_cooccurrence_sentence() {
    let chunks = vec![(7i64, "李四提出了新方法。张三和李四合作发表论文。".to_string())];
    let raw = RawGraph {
        entities: vec![ent("张三", "person"), ent("李四", "person")],
        relations: vec![rel("张三", "李四", "合作", "")],
    };
    let out = validate(raw, &chunks);
    assert_eq!(out.relations.len(), 1);
    assert_eq!(out.relations[0].evidence, "张三和李四合作发表论文");
}

#[test]
fn bare_names_and_chunk_links() {
    let chunks = vec![(9i64, "甲在这里".to_string()), (3i64, "乙和甲".to_string())];
    let raw = RawGraph {
        entities: vec![RawEntity::Name("乙".to_string()), ent("甲", "")],
        relations: vec![],
    };
    let out = validate(raw, &chunks);
    assert_eq!(out.entities[0].name, "乙");
    assert_eq!(out.entities[0].kind, "other");
    assert_eq!(out.chunk_ids, vec![3, 9]);
    let none = validate(RawGraph::default(), &chunks);
    assert_eq!(none.chunk_ids, vec![9, 3]);
    assert!(none.error.is_none());
}

#[test]
fn relation_phrase_is_cleaned() {
    assert_eq!(normalize_rel_kind("就职于。"), "就职于");
    assert_eq!(normalize_rel_kind(" ：; "), "关联");
    assert_eq!(normalize_rel_kind("一二三四五六七八九十甲乙丙"), "一二三四五六七八九十甲乙");
}

#[test]
fn content_hash_is_fnv1a_hex() {
    assert_eq!(content_hash("", &[]), "cbf29ce484222325");
    assert_eq!(content_hash("a", &[]), "af63dc4c8601ec8c");
    assert_eq!(content_hash("", &[(1, "a".to_string())]), "af63dc4c8601ec8c");
    assert_ne!(content_hash("a", &[]), content_hash("b", &[]));
}
