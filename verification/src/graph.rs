//! Knowledge graph: normalization and validation of extracted entities and
//! relations, the content ledger hash and the batching of chunks.
use vstd::prelude::*;
use vstd::utf8::encode_utf8;
use crate::text::{
    append, append_str, chars_of, contains, contains_s, copy_chars, eq_chars, is_whitespace, join,
    is_ws, join_s, join_str, replace_char_s, split_char, split_s, string_of, subvec, take_chars,
    take_chars_exec, trim, trim_end, trim_end_s, trim_s, views,
};

verus! {

/// Maximum output tokens of an extraction request.
pub const EXTRACT_MAX_TOKENS: u32 = 4096;

/// System prompt of an extraction request.
pub const EXTRACT_SYSTEM_PROMPT: &'static str = "你是一名知识图谱抽取助手。从给定的中文笔记片段里抽取实体以及实体之间的关系。\n\
输出**严格 JSON**（不要解释、不要 markdown 围栏）：\n\
{\"entities\":[{\"name\":\"原文中的名称\",\"kind\":\"person|org|place|concept|event|other\"}],\
\"relations\":[{\"from\":\"实体名1\",\"to\":\"实体名2\",\"kind\":\"关系短语\",\"evidence\":\"原文中的一句话\"}]}\n\
规则：\n\
1. name / from / to 必须是原文中**原样出现**的字符串，不要改写、不要翻译、不要补全缩写；\n\
2. 只抽取文中明确出现的信息，禁止推测与常识补全；没有关系就返回空数组；\n\
3. kind 只能取 person（人物）、org（机构/组织/产品）、place（地点）、concept（概念/方法/术语）、event（事件/会议）、other；\n\
4. relations.kind 用 2~6 个字的动词短语（如「就职于」「包含」「提出」）；\n\
5. 去掉重复项；每批最多 40 个实体、60 条关系。";

/// Characters of one extraction batch.
pub const EXTRACT_BATCH_CHARS: usize = 6_000;

/// Hard limit of entities per batch.
pub const MAX_ENTITIES_PER_BATCH: usize = 40;

/// Hard limit of relations per batch.
pub const MAX_RELATIONS_PER_BATCH: usize = 60;

/// Length of an evidence sentence.
pub const EVIDENCE_MAX_CHARS: usize = 160;

/// Raw model output: entities and relations.
#[derive(Debug, Clone, Default)]
pub struct RawGraph {
    pub entities: Vec<RawEntity>,
    pub relations: Vec<RawRelation>,
}

/// A raw entity: an object with name and kind, or a bare name.
#[derive(Debug, Clone)]
pub enum RawEntity {
    Obj { name: String, kind: String },
    Name(String),
}

/// A raw relation.
#[derive(Debug, Clone)]
pub struct RawRelation {
    pub from: String,
    pub to: String,
    pub kind: String,
    pub evidence: String,
}

/// A validated entity.
#[derive(Debug, Clone, PartialEq)]
pub struct GraphEntity {
    pub name: String,
    pub kind: String,
}

/// A validated relation (`from`/`to` are normalized names).
#[derive(Debug, Clone, PartialEq)]
pub struct GraphRelation {
    pub from: String,
    pub to: String,
    pub kind: String,
    pub evidence: String,
}

/// Result of one batch; `error` set when the batch failed.
#[derive(Debug, Clone, Default)]
pub struct BatchExtraction {
    pub chunk_ids: Vec<i64>,
    pub entities: Vec<GraphEntity>,
    pub relations: Vec<GraphRelation>,
    pub error: Option<String>,
}

/// Extraction progress.
#[derive(Debug, Clone, Default)]
pub struct GraphProgress {
    pub notes_total: usize,
    pub notes_done: usize,
    pub notes_skipped: usize,
    pub notes_failed: usize,
    pub current_note: String,
    pub current_title: String,
    pub batches_total: usize,
    pub batches_done: usize,
    pub entities: usize,
    pub relations: usize,
    pub message: String,
}

/// Result of an extraction run.
#[derive(Debug, Clone, Default)]
pub struct ExtractOutcome {
    pub notes_total: usize,
    pub notes_done: usize,
    pub notes_skipped: usize,
    pub notes_failed: usize,
    pub batches: usize,
    pub entities: usize,
    pub relations: usize,
    pub elapsed_ms: u64,
    pub cancelled: bool,
    pub errors: Vec<String>,
}

/// Overview of the graph.
#[derive(Debug, Clone, Default)]
pub struct GraphStats {
    pub notes_total: usize,
    pub notes_extracted: usize,
    pub notes_failed: usize,
    pub entities: usize,
    pub relations: usize,
    pub chunk_links: usize,
    pub last_extracted_at: i64,
    pub model: String,
}

/// A node of the graph view.
#[derive(Debug, Clone)]
pub struct GraphNode {
    pub id: i64,
    pub name: String,
    pub kind: String,
    pub degree: i64,
    pub note_count: i64,
}

/// An edge of the graph view.
#[derive(Debug, Clone)]
pub struct GraphEdge {
    pub src: i64,
    pub dst: i64,
    pub weight: i64,
    /// relation phrases, `/`-separated
    pub kinds: String,
}

/// The graph view.
#[derive(Debug, Clone, Default)]
pub struct GraphSnapshot {
    pub nodes: Vec<GraphNode>,
    pub edges: Vec<GraphEdge>,
    /// nodes cut off by the limit
    pub truncated: usize,
}

/// Where an entity is mentioned.
#[derive(Debug, Clone)]
pub struct EntityMention {
    pub note_id: String,
    pub note_title: String,
    pub chunk_id: i64,
    pub start_line: i64,
    pub end_line: i64,
    pub snippet: String,
}

/// A neighbour of an entity.
#[derive(Debug, Clone)]
pub struct EntityNeighbor {
    pub entity_id: i64,
    pub name: String,
    pub kind: String,
    pub rel_kind: String,
    pub weight: i64,
    /// `out`: this entity points at the neighbour; `in`: the other way
    pub direction: String,
}

/// Details of a node.
#[derive(Debug, Clone)]
pub struct NodeDetail {
    pub node: GraphNode,
    pub mentions: Vec<EntityMention>,
    pub neighbors: Vec<EntityNeighbor>,
}

// ---------------------------------------------------------------- normalization

/// Full-width to half-width (full-width space included).
pub open spec fn half_char(c: char) -> char {
    if c == '\u{3000}' {
        ' '
    } else if '\u{FF01}' <= c && c <= '\u{FF5E}' {
        ((c as u32) - 0xFEE0) as char
    } else {
        c
    }
}

/// ASCII upper case to lower case.
pub open spec fn lower_char(c: char) -> char {
    if 'A' <= c && c <= 'Z' {
        ((c as u32) + 32) as char
    } else {
        c
    }
}

fn half_char_exec(c: char) -> (r: char)
    ensures
        r == half_char(c),
{
    if c == '\u{3000}' {
        ' '
    } else if '\u{FF01}' <= c && c <= '\u{FF5E}' {
        let v: u8 = ((c as u32) - 0xFEE0) as u8;
        v as char
    } else {
        c
    }
}

fn lower_char_exec(c: char) -> (r: char)
    ensures
        r == lower_char(c),
{
    if 'A' <= c && c <= 'Z' {
        let v: u8 = ((c as u32) + 32) as u8;
        v as char
    } else {
        c
    }
}

/// `to_halfwidth`.
pub open spec fn halfwidth_s(s: Seq<char>) -> Seq<char> {
    Seq::new(s.len(), |i: int| half_char(s[i]))
}

/// Normalized text of the first `n` characters and whether the last one was a space.
pub open spec fn norm_upto(t: Seq<char>, n: int) -> (Seq<char>, bool)
    decreases n,
{
    if n <= 0 || n > t.len() {
        (seq![], false)
    } else {
        let (out, last_space) = norm_upto(t, n - 1);
        let c = t[n - 1];
        if is_ws(c) {
            (if !last_space && out.len() > 0 {
                out.push(' ')
            } else {
                out
            }, true)
        } else {
            (out.push(lower_char(c)), false)
        }
    }
}

/// Meaning of `normalize_name`.
pub open spec fn normalize_name_s(raw: Seq<char>) -> Seq<char> {
    let t = trim_s(halfwidth_s(raw));
    trim_end_s(norm_upto(t, t.len() as int).0)
}

fn normalize_chars(raw: &[char]) -> (r: Vec<char>)
    ensures
        r@ == normalize_name_s(raw@),
{
    let mut half: Vec<char> = Vec::new();
    let mut i: usize = 0;
    while i < raw.len()
        invariant
            i <= raw@.len(),
            half@ == Seq::new(i as nat, |k: int| half_char(raw@[k])),
        decreases raw@.len() - i,
    {
        half.push(half_char_exec(raw[i]));
        assert(half@ =~= Seq::new((i + 1) as nat, |k: int| half_char(raw@[k])));
        i = i + 1;
    }
    assert(half@ =~= halfwidth_s(raw@));
    let t = trim(half.as_slice());
    let mut out: Vec<char> = Vec::new();
    let mut last_space = false;
    let mut j: usize = 0;
    while j < t.len()
        invariant
            j <= t@.len(),
            (out@, last_space) == norm_upto(t@, j as int),
        decreases t@.len() - j,
    {
        let c = t[j];
        if is_whitespace(c) {
            if !last_space && out.len() > 0 {
                out.push(' ');
            }
            last_space = true;
        } else {
            last_space = false;
            out.push(lower_char_exec(c));
        }
        j = j + 1;
    }
    trim_end(out.as_slice())
}

/// Canonical name: full-width to half-width, runs of whitespace collapsed to one
/// space, ASCII letters in lower case; other characters unchanged.
pub fn normalize_name(raw: &str) -> (r: String)
    ensures
        r@ == normalize_name_s(raw@),
{
    string_of(normalize_chars(chars_of(raw).as_slice()).as_slice())
}

/// Meaning of `normalize_kind` on the normalized name.
pub open spec fn kind_of_name(k: Seq<char>) -> Seq<char> {
    if k == "person"@ || k == "people"@ || k == "人物"@ || k == "人"@ {
        "person"@
    } else if k == "org"@ || k == "organization"@ || k == "organisation"@ || k == "机构"@ || k
        == "组织"@ || k == "公司"@ || k == "产品"@ {
        "org"@
    } else if k == "place"@ || k == "location"@ || k == "地点"@ || k == "地方"@ || k == "位置"@ {
        "place"@
    } else if k == "concept"@ || k == "term"@ || k == "概念"@ || k == "术语"@ || k == "方法"@ {
        "concept"@
    } else if k == "event"@ || k == "meeting"@ || k == "事件"@ || k == "会议"@ {
        "event"@
    } else {
        "other"@
    }
}

fn is_one_of(k: &[char], a: &str, b: &str, c: &str, d: &str) -> (r: bool)
    ensures
        r == (k@ == a@ || k@ == b@ || k@ == c@ || k@ == d@),
{
    eq_chars(k, chars_of(a).as_slice()) || eq_chars(k, chars_of(b).as_slice()) || eq_chars(
        k,
        chars_of(c).as_slice(),
    ) || eq_chars(k, chars_of(d).as_slice())
}

fn kind_chars(k: &[char]) -> (r: Vec<char>)
    ensures
        r@ == kind_of_name(k@),
{
    if is_one_of(k, "person", "people", "人物", "人") {
        chars_of("person")
    } else if is_one_of(k, "org", "organization", "organisation", "机构") || is_one_of(
        k,
        "组织",
        "公司",
        "产品",
        "产品",
    ) {
        chars_of("org")
    } else if is_one_of(k, "place", "location", "地点", "地方") || eq_chars(
        k,
        chars_of("位置").as_slice(),
    ) {
        chars_of("place")
    } else if is_one_of(k, "concept", "term", "概念", "术语") || eq_chars(
        k,
        chars_of("方法").as_slice(),
    ) {
        chars_of("concept")
    } else if is_one_of(k, "event", "meeting", "事件", "会议") {
        chars_of("event")
    } else {
        chars_of("other")
    }
}

/// Each kind name a model may write maps to its fixed kind: `person`,
/// `people`, `人物`, `人` to `person`; `org`, `organization`, `organisation`,
/// `机构`, `组织`, `公司`, `产品` to `org`; `place`, `location`, `地点`, `地方`,
/// `位置` to `place`; `concept`, `term`, `概念`, `术语`, `方法` to `concept`;
/// `event`, `meeting`, `事件`, `会议` to `event`; anything else to `other`.
pub proof fn lemma_kind_aliases(k: Seq<char>, r: Seq<char>)
    requires
        r == kind_of_name(k),
    ensures
        (k == "person"@ || k == "people"@ || k == "人物"@ || k == "人"@) ==> r == "person"@,
        (k == "org"@ || k == "organization"@ || k == "organisation"@ || k == "机构"@ || k == "组织"@
            || k == "公司"@ || k == "产品"@) ==> r == "org"@,
        (k == "place"@ || k == "location"@ || k == "地点"@ || k == "地方"@ || k == "位置"@) ==> r
            == "place"@,
        (k == "concept"@ || k == "term"@ || k == "概念"@ || k == "术语"@ || k == "方法"@) ==> r
            == "concept"@,
        (k == "event"@ || k == "meeting"@ || k == "事件"@ || k == "会议"@) ==> r == "event"@,
        r == "person"@ || r == "org"@ || r == "place"@ || r == "concept"@ || r == "event"@ || r == "other"@,
        (r == "other"@) == !(k == "person"@ || k == "people"@ || k == "人物"@ || k == "人"@ || k == "org"@
            || k == "organization"@ || k == "organisation"@ || k == "机构"@ || k == "组织"@ || k
            == "公司"@ || k == "产品"@ || k == "place"@ || k == "location"@ || k == "地点"@ || k
            == "地方"@ || k == "位置"@ || k == "concept"@ || k == "term"@ || k == "概念"@ || k
            == "术语"@ || k == "方法"@ || k == "event"@ || k == "meeting"@ || k == "事件"@ || k
            == "会议"@),
{
    reveal_strlit("person");
    reveal_strlit("people");
    reveal_strlit("人物");
    reveal_strlit("人");
    reveal_strlit("org");
    reveal_strlit("organization");
    reveal_strlit("organisation");
    reveal_strlit("机构");
    reveal_strlit("组织");
    reveal_strlit("公司");
    reveal_strlit("产品");
    reveal_strlit("place");
    reveal_strlit("location");
    reveal_strlit("地点");
    reveal_strlit("地方");
    reveal_strlit("位置");
    reveal_strlit("concept");
    reveal_strlit("term");
    reveal_strlit("概念");
    reveal_strlit("术语");
    reveal_strlit("方法");
    reveal_strlit("event");
    reveal_strlit("meeting");
    reveal_strlit("事件");
    reveal_strlit("会议");
    reveal_strlit("other");
    if k == "person"@ {
        assert("person"@.len() == 6 && "org"@.len() == 3);
        assert("person"@.len() == 6 && "place"@.len() == 5);
        assert("person"@.len() == 6 && "concept"@.len() == 7);
        assert("person"@.len() == 6 && "event"@.len() == 5);
        assert("person"@.len() == 6 && "other"@.len() == 5);
        assert(kind_of_name(k) == "person"@);
    }
    if k == "people"@ {
        assert("person"@.len() == 6 && "org"@.len() == 3);
        assert("person"@.len() == 6 && "place"@.len() == 5);
        assert("person"@.len() == 6 && "concept"@.len() == 7);
        assert("person"@.len() == 6 && "event"@.len() == 5);
        assert("person"@.len() == 6 && "other"@.len() == 5);
        assert(kind_of_name(k) == "person"@);
    }
    if k == "人物"@ {
        assert("person"@.len() == 6 && "org"@.len() == 3);
        assert("person"@.len() == 6 && "place"@.len() == 5);
        assert("person"@.len() == 6 && "concept"@.len() == 7);
        assert("person"@.len() == 6 && "event"@.len() == 5);
        assert("person"@.len() == 6 && "other"@.len() == 5);
        assert(kind_of_name(k) == "person"@);
    }
    if k == "人"@ {
        assert("person"@.len() == 6 && "org"@.len() == 3);
        assert("person"@.len() == 6 && "place"@.len() == 5);
        assert("person"@.len() == 6 && "concept"@.len() == 7);
        assert("person"@.len() == 6 && "event"@.len() == 5);
        assert("person"@.len() == 6 && "other"@.len() == 5);
        assert(kind_of_name(k) == "person"@);
    }
    if k == "org"@ {
        assert("org"@.len() == 3 && "person"@.len() == 6);
        assert("org"@.len() == 3 && "people"@.len() == 6);
        assert("org"@.len() == 3 && "人物"@.len() == 2);
        assert("org"@.len() == 3 && "人"@.len() == 1);
        assert("org"@.len() == 3 && "person"@.len() == 6);
        assert("org"@.len() == 3 && "place"@.len() == 5);
        assert("org"@.len() == 3 && "concept"@.len() == 7);
        assert("org"@.len() == 3 && "event"@.len() == 5);
        assert("org"@.len() == 3 && "other"@.len() == 5);
        assert(kind_of_name(k) == "org"@);
    }
    if k == "organization"@ {
        assert("organization"@.len() == 12 && "person"@.len() == 6);
        assert("organization"@.len() == 12 && "people"@.len() == 6);
        assert("organization"@.len() == 12 && "人物"@.len() == 2);
        assert("organization"@.len() == 12 && "人"@.len() == 1);
        assert("org"@.len() == 3 && "person"@.len() == 6);
        assert("org"@.len() == 3 && "place"@.len() == 5);
        assert("org"@.len() == 3 && "concept"@.len() == 7);
        assert("org"@.len() == 3 && "event"@.len() == 5);
        assert("org"@.len() == 3 && "other"@.len() == 5);
        assert(kind_of_name(k) == "org"@);
    }
    if k == "organisation"@ {
        assert("organisation"@.len() == 12 && "person"@.len() == 6);
        assert("organisation"@.len() == 12 && "people"@.len() == 6);
        assert("organisation"@.len() == 12 && "人物"@.len() == 2);
        assert("organisation"@.len() == 12 && "人"@.len() == 1);
        assert("org"@.len() == 3 && "person"@.len() == 6);
        assert("org"@.len() == 3 && "place"@.len() == 5);
        assert("org"@.len() == 3 && "concept"@.len() == 7);
        assert("org"@.len() == 3 && "event"@.len() == 5);
        assert("org"@.len() == 3 && "other"@.len() == 5);
        assert(kind_of_name(k) == "org"@);
    }
    if k == "机构"@ {
        assert("机构"@.len() == 2 && "person"@.len() == 6);
        assert("机构"@.len() == 2 && "people"@.len() == 6);
        assert("机构"@[0] != "人物"@[0]);
        assert("机构"@.len() == 2 && "人"@.len() == 1);
        assert("org"@.len() == 3 && "person"@.len() == 6);
        assert("org"@.len() == 3 && "place"@.len() == 5);
        assert("org"@.len() == 3 && "concept"@.len() == 7);
        assert("org"@.len() == 3 && "event"@.len() == 5);
        assert("org"@.len() == 3 && "other"@.len() == 5);
        assert(kind_of_name(k) == "org"@);
    }
    if k == "组织"@ {
        assert("组织"@.len() == 2 && "person"@.len() == 6);
        assert("组织"@.len() == 2 && "people"@.len() == 6);
        assert("组织"@[0] != "人物"@[0]);
        assert("组织"@.len() == 2 && "人"@.len() == 1);
        assert("org"@.len() == 3 && "person"@.len() == 6);
        assert("org"@.len() == 3 && "place"@.len() == 5);
        assert("org"@.len() == 3 && "concept"@.len() == 7);
        assert("org"@.len() == 3 && "event"@.len() == 5);
        assert("org"@.len() == 3 && "other"@.len() == 5);
        assert(kind_of_name(k) == "org"@);
    }
    if k == "公司"@ {
        assert("公司"@.len() == 2 && "person"@.len() == 6);
        assert("公司"@.len() == 2 && "people"@.len() == 6);
        assert("公司"@[0] != "人物"@[0]);
        assert("公司"@.len() == 2 && "人"@.len() == 1);
        assert("org"@.len() == 3 && "person"@.len() == 6);
        assert("org"@.len() == 3 && "place"@.len() == 5);
        assert("org"@.len() == 3 && "concept"@.len() == 7);
        assert("org"@.len() == 3 && "event"@.len() == 5);
        assert("org"@.len() == 3 && "other"@.len() == 5);
        assert(kind_of_name(k) == "org"@);
    }
    if k == "产品"@ {
        assert("产品"@.len() == 2 && "person"@.len() == 6);
        assert("产品"@.len() == 2 && "people"@.len() == 6);
        assert("产品"@[0] != "人物"@[0]);
        assert("产品"@.len() == 2 && "人"@.len() == 1);
        assert("org"@.len() == 3 && "person"@.len() == 6);
        assert("org"@.len() == 3 && "place"@.len() == 5);
        assert("org"@.len() == 3 && "concept"@.len() == 7);
        assert("org"@.len() == 3 && "event"@.len() == 5);
        assert("org"@.len() == 3 && "other"@.len() == 5);
        assert(kind_of_name(k) == "org"@);
    }
    if k == "place"@ {
        assert("place"@.len() == 5 && "person"@.len() == 6);
        assert("place"@.len() == 5 && "people"@.len() == 6);
        assert("place"@.len() == 5 && "人物"@.len() == 2);
        assert("place"@.len() == 5 && "人"@.len() == 1);
        assert("place"@.len() == 5 && "org"@.len() == 3);
        assert("place"@.len() == 5 && "organization"@.len() == 12);
        assert("place"@.len() == 5 && "organisation"@.len() == 12);
        assert("place"@.len() == 5 && "机构"@.len() == 2);
        assert("place"@.len() == 5 && "组织"@.len() == 2);
        assert("place"@.len() == 5 && "公司"@.len() == 2);
        assert("place"@.len() == 5 && "产品"@.len() == 2);
        assert("place"@.len() == 5 && "person"@.len() == 6);
        assert("place"@.len() == 5 && "org"@.len() == 3);
        assert("place"@.len() == 5 && "concept"@.len() == 7);
        assert("place"@[0] != "event"@[0]);
        assert("place"@[0] != "other"@[0]);
        assert(kind_of_name(k) == "place"@);
    }
    if k == "location"@ {
        assert("location"@.len() == 8 && "person"@.len() == 6);
        assert("location"@.len() == 8 && "people"@.len() == 6);
        assert("location"@.len() == 8 && "人物"@.len() == 2);
        assert("location"@.len() == 8 && "人"@.len() == 1);
        assert("location"@.len() == 8 && "org"@.len() == 3);
        assert("location"@.len() == 8 && "organization"@.len() == 12);
        assert("location"@.len() == 8 && "organisation"@.len() == 12);
        assert("location"@.len() == 8 && "机构"@.len() == 2);
        assert("location"@.len() == 8 && "组织"@.len() == 2);
        assert("location"@.len() == 8 && "公司"@.len() == 2);
        assert("location"@.len() == 8 && "产品"@.len() == 2);
        assert("place"@.len() == 5 && "person"@.len() == 6);
        assert("place"@.len() == 5 && "org"@.len() == 3);
        assert("place"@.len() == 5 && "concept"@.len() == 7);
        assert("place"@[0] != "event"@[0]);
        assert("place"@[0] != "other"@[0]);
        assert(kind_of_name(k) == "place"@);
    }
    if k == "地点"@ {
        assert("地点"@.len() == 2 && "person"@.len() == 6);
        assert("地点"@.len() == 2 && "people"@.len() == 6);
        assert("地点"@[0] != "人物"@[0]);
        assert("地点"@.len() == 2 && "人"@.len() == 1);
        assert("地点"@.len() == 2 && "org"@.len() == 3);
        assert("地点"@.len() == 2 && "organization"@.len() == 12);
        assert("地点"@.len() == 2 && "organisation"@.len() == 12);
        assert("地点"@[0] != "机构"@[0]);
        assert("地点"@[0] != "组织"@[0]);
        assert("地点"@[0] != "公司"@[0]);
        assert("地点"@[0] != "产品"@[0]);
        assert("place"@.len() == 5 && "person"@.len() == 6);
        assert("place"@.len() == 5 && "org"@.len() == 3);
        assert("place"@.len() == 5 && "concept"@.len() == 7);
        assert("place"@[0] != "event"@[0]);
        assert("place"@[0] != "other"@[0]);
        assert(kind_of_name(k) == "place"@);
    }
    if k == "地方"@ {
        assert("地方"@.len() == 2 && "person"@.len() == 6);
        assert("地方"@.len() == 2 && "people"@.len() == 6);
        assert("地方"@[0] != "人物"@[0]);
        assert("地方"@.len() == 2 && "人"@.len() == 1);
        assert("地方"@.len() == 2 && "org"@.len() == 3);
        assert("地方"@.len() == 2 && "organization"@.len() == 12);
        assert("地方"@.len() == 2 && "organisation"@.len() == 12);
        assert("地方"@[0] != "机构"@[0]);
        assert("地方"@[0] != "组织"@[0]);
        assert("地方"@[0] != "公司"@[0]);
        assert("地方"@[0] != "产品"@[0]);
        assert("place"@.len() == 5 && "person"@.len() == 6);
        assert("place"@.len() == 5 && "org"@.len() == 3);
        assert("place"@.len() == 5 && "concept"@.len() == 7);
        assert("place"@[0] != "event"@[0]);
        assert("place"@[0] != "other"@[0]);
        assert(kind_of_name(k) == "place"@);
    }
    if k == "位置"@ {
        assert("位置"@.len() == 2 && "person"@.len() == 6);
        assert("位置"@.len() == 2 && "people"@.len() == 6);
        assert("位置"@[0] != "人物"@[0]);
        assert("位置"@.len() == 2 && "人"@.len() == 1);
        assert("位置"@.len() == 2 && "org"@.len() == 3);
        assert("位置"@.len() == 2 && "organization"@.len() == 12);
        assert("位置"@.len() == 2 && "organisation"@.len() == 12);
        assert("位置"@[0] != "机构"@[0]);
        assert("位置"@[0] != "组织"@[0]);
        assert("位置"@[0] != "公司"@[0]);
        assert("位置"@[0] != "产品"@[0]);
        assert("place"@.len() == 5 && "person"@.len() == 6);
        assert("place"@.len() == 5 && "org"@.len() == 3);
        assert("place"@.len() == 5 && "concept"@.len() == 7);
        assert("place"@[0] != "event"@[0]);
        assert("place"@[0] != "other"@[0]);
        assert(kind_of_name(k) == "place"@);
    }
    if k == "concept"@ {
        assert("concept"@.len() == 7 && "person"@.len() == 6);
        assert("concept"@.len() == 7 && "people"@.len() == 6);
        assert("concept"@.len() == 7 && "人物"@.len() == 2);
        assert("concept"@.len() == 7 && "人"@.len() == 1);
        assert("concept"@.len() == 7 && "org"@.len() == 3);
        assert("concept"@.len() == 7 && "organization"@.len() == 12);
        assert("concept"@.len() == 7 && "organisation"@.len() == 12);
        assert("concept"@.len() == 7 && "机构"@.len() == 2);
        assert("concept"@.len() == 7 && "组织"@.len() == 2);
        assert("concept"@.len() == 7 && "公司"@.len() == 2);
        assert("concept"@.len() == 7 && "产品"@.len() == 2);
        assert("concept"@.len() == 7 && "place"@.len() == 5);
        assert("concept"@.len() == 7 && "location"@.len() == 8);
        assert("concept"@.len() == 7 && "地点"@.len() == 2);
        assert("concept"@.len() == 7 && "地方"@.len() == 2);
        assert("concept"@.len() == 7 && "位置"@.len() == 2);
        assert("concept"@.len() == 7 && "person"@.len() == 6);
        assert("concept"@.len() == 7 && "org"@.len() == 3);
        assert("concept"@.len() == 7 && "place"@.len() == 5);
        assert("concept"@.len() == 7 && "event"@.len() == 5);
        assert("concept"@.len() == 7 && "other"@.len() == 5);
        assert(kind_of_name(k) == "concept"@);
    }
    if k == "term"@ {
        assert("term"@.len() == 4 && "person"@.len() == 6);
        assert("term"@.len() == 4 && "people"@.len() == 6);
        assert("term"@.len() == 4 && "人物"@.len() == 2);
        assert("term"@.len() == 4 && "人"@.len() == 1);
        assert("term"@.len() == 4 && "org"@.len() == 3);
        assert("term"@.len() == 4 && "organization"@.len() == 12);
        assert("term"@.len() == 4 && "organisation"@.len() == 12);
        assert("term"@.len() == 4 && "机构"@.len() == 2);
        assert("term"@.len() == 4 && "组织"@.len() == 2);
        assert("term"@.len() == 4 && "公司"@.len() == 2);
        assert("term"@.len() == 4 && "产品"@.len() == 2);
        assert("term"@.len() == 4 && "place"@.len() == 5);
        assert("term"@.len() == 4 && "location"@.len() == 8);
        assert("term"@.len() == 4 && "地点"@.len() == 2);
        assert("term"@.len() == 4 && "地方"@.len() == 2);
        assert("term"@.len() == 4 && "位置"@.len() == 2);
        assert("concept"@.len() == 7 && "person"@.len() == 6);
        assert("concept"@.len() == 7 && "org"@.len() == 3);
        assert("concept"@.len() == 7 && "place"@.len() == 5);
        assert("concept"@.len() == 7 && "event"@.len() == 5);
        assert("concept"@.len() == 7 && "other"@.len() == 5);
        assert(kind_of_name(k) == "concept"@);
    }
    if k == "概念"@ {
        assert("概念"@.len() == 2 && "person"@.len() == 6);
        assert("概念"@.len() == 2 && "people"@.len() == 6);
        assert("概念"@[0] != "人物"@[0]);
        assert("概念"@.len() == 2 && "人"@.len() == 1);
        assert("概念"@.len() == 2 && "org"@.len() == 3);
        assert("概念"@.len() == 2 && "organization"@.len() == 12);
        assert("概念"@.len() == 2 && "organisation"@.len() == 12);
        assert("概念"@[0] != "机构"@[0]);
        assert("概念"@[0] != "组织"@[0]);
        assert("概念"@[0] != "公司"@[0]);
        assert("概念"@[0] != "产品"@[0]);
        assert("概念"@.len() == 2 && "place"@.len() == 5);
        assert("概念"@.len() == 2 && "location"@.len() == 8);
        assert("概念"@[0] != "地点"@[0]);
        assert("概念"@[0] != "地方"@[0]);
        assert("概念"@[0] != "位置"@[0]);
        assert("concept"@.len() == 7 && "person"@.len() == 6);
        assert("concept"@.len() == 7 && "org"@.len() == 3);
        assert("concept"@.len() == 7 && "place"@.len() == 5);
        assert("concept"@.len() == 7 && "event"@.len() == 5);
        assert("concept"@.len() == 7 && "other"@.len() == 5);
        assert(kind_of_name(k) == "concept"@);
    }
    if k == "术语"@ {
        assert("术语"@.len() == 2 && "person"@.len() == 6);
        assert("术语"@.len() == 2 && "people"@.len() == 6);
        assert("术语"@[0] != "人物"@[0]);
        assert("术语"@.len() == 2 && "人"@.len() == 1);
        assert("术语"@.len() == 2 && "org"@.len() == 3);
        assert("术语"@.len() == 2 && "organization"@.len() == 12);
        assert("术语"@.len() == 2 && "organisation"@.len() == 12);
        assert("术语"@[0] != "机构"@[0]);
        assert("术语"@[0] != "组织"@[0]);
        assert("术语"@[0] != "公司"@[0]);
        assert("术语"@[0] != "产品"@[0]);
        assert("术语"@.len() == 2 && "place"@.len() == 5);
        assert("术语"@.len() == 2 && "location"@.len() == 8);
        assert("术语"@[0] != "地点"@[0]);
        assert("术语"@[0] != "地方"@[0]);
        assert("术语"@[0] != "位置"@[0]);
        assert("concept"@.len() == 7 && "person"@.len() == 6);
        assert("concept"@.len() == 7 && "org"@.len() == 3);
        assert("concept"@.len() == 7 && "place"@.len() == 5);
        assert("concept"@.len() == 7 && "event"@.len() == 5);
        assert("concept"@.len() == 7 && "other"@.len() == 5);
        assert(kind_of_name(k) == "concept"@);
    }
    if k == "方法"@ {
        assert("方法"@.len() == 2 && "person"@.len() == 6);
        assert("方法"@.len() == 2 && "people"@.len() == 6);
        assert("方法"@[0] != "人物"@[0]);
        assert("方法"@.len() == 2 && "人"@.len() == 1);
        assert("方法"@.len() == 2 && "org"@.len() == 3);
        assert("方法"@.len() == 2 && "organization"@.len() == 12);
        assert("方法"@.len() == 2 && "organisation"@.len() == 12);
        assert("方法"@[0] != "机构"@[0]);
        assert("方法"@[0] != "组织"@[0]);
        assert("方法"@[0] != "公司"@[0]);
        assert("方法"@[0] != "产品"@[0]);
        assert("方法"@.len() == 2 && "place"@.len() == 5);
        assert("方法"@.len() == 2 && "location"@.len() == 8);
        assert("方法"@[0] != "地点"@[0]);
        assert("方法"@[0] != "地方"@[0]);
        assert("方法"@[0] != "位置"@[0]);
        assert("concept"@.len() == 7 && "person"@.len() == 6);
        assert("concept"@.len() == 7 && "org"@.len() == 3);
        assert("concept"@.len() == 7 && "place"@.len() == 5);
        assert("concept"@.len() == 7 && "event"@.len() == 5);
        assert("concept"@.len() == 7 && "other"@.len() == 5);
        assert(kind_of_name(k) == "concept"@);
    }
    if k == "event"@ {
        assert("event"@.len() == 5 && "person"@.len() == 6);
        assert("event"@.len() == 5 && "people"@.len() == 6);
        assert("event"@.len() == 5 && "人物"@.len() == 2);
        assert("event"@.len() == 5 && "人"@.len() == 1);
        assert("event"@.len() == 5 && "org"@.len() == 3);
        assert("event"@.len() == 5 && "organization"@.len() == 12);
        assert("event"@.len() == 5 && "organisation"@.len() == 12);
        assert("event"@.len() == 5 && "机构"@.len() == 2);
        assert("event"@.len() == 5 && "组织"@.len() == 2);
        assert("event"@.len() == 5 && "公司"@.len() == 2);
        assert("event"@.len() == 5 && "产品"@.len() == 2);
        assert("event"@[0] != "place"@[0]);
        assert("event"@.len() == 5 && "location"@.len() == 8);
        assert("event"@.len() == 5 && "地点"@.len() == 2);
        assert("event"@.len() == 5 && "地方"@.len() == 2);
        assert("event"@.len() == 5 && "位置"@.len() == 2);
        assert("event"@.len() == 5 && "concept"@.len() == 7);
        assert("event"@.len() == 5 && "term"@.len() == 4);
        assert("event"@.len() == 5 && "概念"@.len() == 2);
        assert("event"@.len() == 5 && "术语"@.len() == 2);
        assert("event"@.len() == 5 && "方法"@.len() == 2);
        assert("event"@.len() == 5 && "person"@.len() == 6);
        assert("event"@.len() == 5 && "org"@.len() == 3);
        assert("event"@[0] != "place"@[0]);
        assert("event"@.len() == 5 && "concept"@.len() == 7);
        assert("event"@[0] != "other"@[0]);
        assert(kind_of_name(k) == "event"@);
    }
    if k == "meeting"@ {
        assert("meeting"@.len() == 7 && "person"@.len() == 6);
        assert("meeting"@.len() == 7 && "people"@.len() == 6);
        assert("meeting"@.len() == 7 && "人物"@.len() == 2);
        assert("meeting"@.len() == 7 && "人"@.len() == 1);
        assert("meeting"@.len() == 7 && "org"@.len() == 3);
        assert("meeting"@.len() == 7 && "organization"@.len() == 12);
        assert("meeting"@.len() == 7 && "organisation"@.len() == 12);
        assert("meeting"@.len() == 7 && "机构"@.len() == 2);
        assert("meeting"@.len() == 7 && "组织"@.len() == 2);
        assert("meeting"@.len() == 7 && "公司"@.len() == 2);
        assert("meeting"@.len() == 7 && "产品"@.len() == 2);
        assert("meeting"@.len() == 7 && "place"@.len() == 5);
        assert("meeting"@.len() == 7 && "location"@.len() == 8);
        assert("meeting"@.len() == 7 && "地点"@.len() == 2);
        assert("meeting"@.len() == 7 && "地方"@.len() == 2);
        assert("meeting"@.len() == 7 && "位置"@.len() == 2);
        assert("meeting"@[0] != "concept"@[0]);
        assert("meeting"@.len() == 7 && "term"@.len() == 4);
        assert("meeting"@.len() == 7 && "概念"@.len() == 2);
        assert("meeting"@.len() == 7 && "术语"@.len() == 2);
        assert("meeting"@.len() == 7 && "方法"@.len() == 2);
        assert("event"@.len() == 5 && "person"@.len() == 6);
        assert("event"@.len() == 5 && "org"@.len() == 3);
        assert("event"@[0] != "place"@[0]);
        assert("event"@.len() == 5 && "concept"@.len() == 7);
        assert("event"@[0] != "other"@[0]);
        assert(kind_of_name(k) == "event"@);
    }
    if k == "事件"@ {
        assert("事件"@.len() == 2 && "person"@.len() == 6);
        assert("事件"@.len() == 2 && "people"@.len() == 6);
        assert("事件"@[0] != "人物"@[0]);
        assert("事件"@.len() == 2 && "人"@.len() == 1);
        assert("事件"@.len() == 2 && "org"@.len() == 3);
        assert("事件"@.len() == 2 && "organization"@.len() == 12);
        assert("事件"@.len() == 2 && "organisation"@.len() == 12);
        assert("事件"@[0] != "机构"@[0]);
        assert("事件"@[0] != "组织"@[0]);
        assert("事件"@[0] != "公司"@[0]);
        assert("事件"@[0] != "产品"@[0]);
        assert("事件"@.len() == 2 && "place"@.len() == 5);
        assert("事件"@.len() == 2 && "location"@.len() == 8);
        assert("事件"@[0] != "地点"@[0]);
        assert("事件"@[0] != "地方"@[0]);
        assert("事件"@[0] != "位置"@[0]);
        assert("事件"@.len() == 2 && "concept"@.len() == 7);
        assert("事件"@.len() == 2 && "term"@.len() == 4);
        assert("事件"@[0] != "概念"@[0]);
        assert("事件"@[0] != "术语"@[0]);
        assert("事件"@[0] != "方法"@[0]);
        assert("event"@.len() == 5 && "person"@.len() == 6);
        assert("event"@.len() == 5 && "org"@.len() == 3);
        assert("event"@[0] != "place"@[0]);
        assert("event"@.len() == 5 && "concept"@.len() == 7);
        assert("event"@[0] != "other"@[0]);
        assert(kind_of_name(k) == "event"@);
    }
    if k == "会议"@ {
        assert("会议"@.len() == 2 && "person"@.len() == 6);
        assert("会议"@.len() == 2 && "people"@.len() == 6);
        assert("会议"@[0] != "人物"@[0]);
        assert("会议"@.len() == 2 && "人"@.len() == 1);
        assert("会议"@.len() == 2 && "org"@.len() == 3);
        assert("会议"@.len() == 2 && "organization"@.len() == 12);
        assert("会议"@.len() == 2 && "organisation"@.len() == 12);
        assert("会议"@[0] != "机构"@[0]);
        assert("会议"@[0] != "组织"@[0]);
        assert("会议"@[0] != "公司"@[0]);
        assert("会议"@[0] != "产品"@[0]);
        assert("会议"@.len() == 2 && "place"@.len() == 5);
        assert("会议"@.len() == 2 && "location"@.len() == 8);
        assert("会议"@[0] != "地点"@[0]);
        assert("会议"@[0] != "地方"@[0]);
        assert("会议"@[0] != "位置"@[0]);
        assert("会议"@.len() == 2 && "concept"@.len() == 7);
        assert("会议"@.len() == 2 && "term"@.len() == 4);
        assert("会议"@[0] != "概念"@[0]);
        assert("会议"@[0] != "术语"@[0]);
        assert("会议"@[0] != "方法"@[0]);
        assert("event"@.len() == 5 && "person"@.len() == 6);
        assert("event"@.len() == 5 && "org"@.len() == 3);
        assert("event"@[0] != "place"@[0]);
        assert("event"@.len() == 5 && "concept"@.len() == 7);
        assert("event"@[0] != "other"@[0]);
        assert(kind_of_name(k) == "event"@);
    }
    assert("other"@.len() == 5 && "person"@.len() == 6);
    assert("other"@.len() == 5 && "org"@.len() == 3);
    assert("other"@[0] != "place"@[0]);
    assert("other"@.len() == 5 && "concept"@.len() == 7);
    assert("other"@[0] != "event"@[0]);
}

/// Entity kind mapped onto the allowed list (unknown kinds become `other`).
pub fn normalize_kind(raw: &str) -> (r: String)
    ensures
        r@ == kind_of_name(normalize_name_s(raw@)),
        ({
            let k = normalize_name_s(raw@);
            let r = r@;
            &&& (k == "person"@ || k == "people"@ || k == "人物"@ || k == "人"@) ==> r == "person"@
            &&& (k == "org"@ || k == "organization"@ || k == "organisation"@ || k == "机构"@ || k == "组织"@
                || k == "公司"@ || k == "产品"@) ==> r == "org"@
            &&& (k == "place"@ || k == "location"@ || k == "地点"@ || k == "地方"@ || k == "位置"@) ==> r
                == "place"@
            &&& (k == "concept"@ || k == "term"@ || k == "概念"@ || k == "术语"@ || k == "方法"@) ==> r
                == "concept"@
            &&& (k == "event"@ || k == "meeting"@ || k == "事件"@ || k == "会议"@) ==> r == "event"@
        }),
{
    let k = normalize_chars(chars_of(raw).as_slice());
    let r = string_of(kind_chars(k.as_slice()).as_slice());
    proof {
        lemma_kind_aliases(normalize_name_s(raw@), r@);
    }
    r
}

/// Punctuation dropped from the end of a relation phrase.
pub open spec fn rel_punct(c: char) -> bool {
    c == '。' || c == '.' || c == '，' || c == ',' || c == '；' || c == ';' || c == '：' || c == ':'
}

/// Index after the last character before `j` that is not such punctuation.
pub open spec fn punct_back(s: Seq<char>, j: int) -> int
    decreases j,
{
    if 0 < j <= s.len() && rel_punct(s[j - 1]) {
        punct_back(s, j - 1)
    } else {
        j
    }
}

/// Meaning of `normalize_rel_kind`.
pub open spec fn rel_kind_s(raw: Seq<char>) -> Seq<char> {
    let k = normalize_name_s(raw);
    let k2 = k.take(punct_back(k, k.len() as int));
    if k2.len() == 0 {
        "关联"@
    } else {
        take_chars(k2, 12)
    }
}

proof fn lemma_punct_back(s: Seq<char>, j: int)
    requires
        0 <= j <= s.len(),
    ensures
        0 <= punct_back(s, j) <= j,
    decreases j,
{
    if 0 < j && rel_punct(s[j - 1]) {
        lemma_punct_back(s, j - 1);
    }
}

fn rel_kind_chars(raw: &[char]) -> (r: Vec<char>)
    ensures
        r@ == rel_kind_s(raw@),
{
    let k = normalize_chars(raw);
    let mut b = k.len();
    while b > 0 && (k[b - 1] == '。' || k[b - 1] == '.' || k[b - 1] == '，' || k[b - 1] == ','
        || k[b - 1] == '；' || k[b - 1] == ';' || k[b - 1] == '：' || k[b - 1] == ':')
        invariant
            b <= k@.len(),
            punct_back(k@, b as int) == punct_back(k@, k@.len() as int),
        decreases b,
    {
        b = b - 1;
    }
    let k2 = subvec(k.as_slice(), 0, b);
    assert(k2@ =~= k@.take(punct_back(k@, k@.len() as int)));
    if k2.len() == 0 {
        return chars_of("关联");
    }
    take_chars_exec(k2.as_slice(), 12)
}

/// Relation phrase: normalized, trailing punctuation removed, at most 12 characters
/// (`关联` when nothing is left).
pub fn normalize_rel_kind(raw: &str) -> (r: String)
    ensures
        r@ == rel_kind_s(raw@),
{
    string_of(rel_kind_chars(chars_of(raw).as_slice()).as_slice())
}

// ---------------------------------------------------------------- evidence

/// Sentence separators for evidence search.
pub open spec fn ev_sep(c: char) -> bool {
    c == '\n' || c == '。' || c == '；' || c == ';' || c == '！' || c == '!' || c == '？' || c == '?'
        || c == '\r'
}

/// Every separator turned into a newline.
pub open spec fn mark_seps(s: Seq<char>) -> Seq<char> {
    Seq::new(s.len(), |i: int| if ev_sep(s[i]) { '\n' } else { s[i] })
}

/// The first sentence from `i` on that contains both names (trimmed, at most 160 chars).
pub open spec fn evidence_from(ps: Seq<Seq<char>>, a: Seq<char>, b: Seq<char>, i: int) -> Seq<char>
    decreases ps.len() - i,
{
    if i < 0 || i >= ps.len() {
        seq![]
    } else {
        let line = trim_s(ps[i]);
        if line.len() > 0 && contains_s(line, a) && contains_s(line, b) {
            take_chars(line, 160)
        } else {
            evidence_from(ps, a, b, i + 1)
        }
    }
}

/// Meaning of `find_evidence`.
pub open spec fn find_evidence_s(text: Seq<char>, a: Seq<char>, b: Seq<char>) -> Seq<char> {
    evidence_from(split_s(mark_seps(normalize_name_s(text)), '\n'), a, b, 0)
}

fn find_evidence(text: &[char], a: &[char], b: &[char]) -> (r: Vec<char>)
    ensures
        r@ == find_evidence_s(text@, a@, b@),
{
    let norm = normalize_chars(text);
    let mut marked: Vec<char> = Vec::new();
    let mut i: usize = 0;
    while i < norm.len()
        invariant
            i <= norm@.len(),
            marked@ == Seq::new(i as nat, |k: int| if ev_sep(norm@[k]) { '\n' } else { norm@[k] }),
        decreases norm@.len() - i,
    {
        let c = norm[i];
        if c == '\n' || c == '。' || c == '；' || c == ';' || c == '！' || c == '!' || c == '？'
            || c == '?' || c == '\r' {
            marked.push('\n');
        } else {
            marked.push(c);
        }
        assert(marked@ =~= Seq::new(
            (i + 1) as nat,
            |k: int| if ev_sep(norm@[k]) { '\n' } else { norm@[k] },
        ));
        i = i + 1;
    }
    assert(marked@ =~= mark_seps(norm@));
    let ps = split_char(marked.as_slice(), '\n');
    let ghost pv = views(ps@);
    let mut j: usize = 0;
    while j < ps.len()
        invariant
            j <= ps@.len(),
            pv == views(ps@),
            pv == split_s(mark_seps(normalize_name_s(text@)), '\n'),
            evidence_from(pv, a@, b@, j as int) == evidence_from(pv, a@, b@, 0),
        decreases ps@.len() - j,
    {
        assert(pv[j as int] == ps@[j as int]@);
        let line = trim(ps[j].as_slice());
        if line.len() > 0 && contains(line.as_slice(), a) && contains(line.as_slice(), b) {
            assert(evidence_from(pv, a@, b@, j as int) == take_chars(line@, 160));
            let r = take_chars_exec(line.as_slice(), 160);
            assert(r@ == evidence_from(pv, a@, b@, 0));
            assert(pv == split_s(mark_seps(normalize_name_s(text@)), '\n'));
            return r;
        }
        j = j + 1;
    }
    Vec::new()
}

// ---------------------------------------------------------------- batching

/// Batches after the first `n` chunks: the closed batches, the open one and its size.
pub open spec fn batch_upto(chunks: Seq<(i64, Seq<char>)>, n: int) -> (
    Seq<Seq<(i64, Seq<char>)>>,
    Seq<(i64, Seq<char>)>,
    int,
)
    decreases n,
{
    if n <= 0 || n > chunks.len() {
        (seq![], seq![], 0)
    } else {
        let (done, cur, size) = batch_upto(chunks, n - 1);
        let len = chunks[n - 1].1.len() as int;
        if cur.len() > 0 && size + len > EXTRACT_BATCH_CHARS {
            (done.push(cur), seq![chunks[n - 1]], len)
        } else {
            (done, cur.push(chunks[n - 1]), size + len)
        }
    }
}

/// Meaning of `batch_chunks`.
pub open spec fn batch_chunks_s(chunks: Seq<(i64, Seq<char>)>) -> Seq<Seq<(i64, Seq<char>)>> {
    let (done, cur, size) = batch_upto(chunks, chunks.len() as int);
    if cur.len() > 0 {
        done.push(cur)
    } else {
        done
    }
}

/// View of a list of chunks.
pub open spec fn chunks_view(c: Seq<(i64, String)>) -> Seq<(i64, Seq<char>)> {
    Seq::new(c.len(), |i: int| (c[i].0, c[i].1@))
}

/// View of a list of batches.
pub open spec fn batches_view(b: Seq<Vec<(i64, String)>>) -> Seq<Seq<(i64, Seq<char>)>> {
    Seq::new(b.len(), |i: int| chunks_view(b[i]@))
}

fn char_count(s: &String) -> (n: usize)
    ensures
        n == s@.len(),
{
    chars_of(s.as_str()).len()
}

fn clone_chunks(v: &Vec<(i64, String)>) -> (r: Vec<(i64, String)>)
    ensures
        chunks_view(r@) == chunks_view(v@),
{
    let mut r: Vec<(i64, String)> = Vec::new();
    let mut i: usize = 0;
    while i < v.len()
        invariant
            i <= v@.len(),
            r@.len() == i,
            chunks_view(r@) == chunks_view(v@).take(i as int),
        decreases v@.len() - i,
    {
        let ghost prev = r@;
        let t = v[i].1.clone();
        r.push((v[i].0, t));
        assert forall|k: int| 0 <= k < i implies chunks_view(r@)[k] == chunks_view(v@)[k] by {
            assert(r@[k] == prev[k]);
            assert(chunks_view(prev)[k] == chunks_view(v@).take(i as int)[k]);
        }
        assert(chunks_view(r@) =~= chunks_view(v@).take(i + 1));
        i = i + 1;
    }
    assert(chunks_view(v@).take(v@.len() as int) =~= chunks_view(v@));
    r
}

/// Splits chunks into batches by a character budget; a chunk is never split.
pub fn batch_chunks(chunks: &[(i64, String)]) -> (r: Vec<Vec<(i64, String)>>)
    ensures
        batches_view(r@) == batch_chunks_s(chunks_view(chunks@)),
{
    let ghost cv = chunks_view(chunks@);
    let mut batches: Vec<Vec<(i64, String)>> = Vec::new();
    let mut cur: Vec<(i64, String)> = Vec::new();
    let mut size: usize = 0;
    let mut i: usize = 0;
    while i < chunks.len()
        invariant
            i <= chunks@.len(),
            cv == chunks_view(chunks@),
            (batches_view(batches@), chunks_view(cur@), size as int) == batch_upto(cv, i as int),
            cur@.len() == 0 ==> size == 0,
        decreases chunks@.len() - i,
    {
        let len = char_count(&chunks[i].1);
        assert(cv[i as int].1.len() == len);
        let ghost prev_b = batches_view(batches@);
        let ghost prev_c = chunks_view(cur@);
        if cur.len() > 0 && (len > EXTRACT_BATCH_CHARS || size > EXTRACT_BATCH_CHARS - len) {
            let done = clone_chunks(&cur);
            batches.push(done);
            assert(batches_view(batches@) =~= prev_b.push(prev_c));
            cur = Vec::new();
            cur.push((chunks[i].0, chunks[i].1.clone()));
            assert(chunks_view(cur@) =~= seq![cv[i as int]]);
            size = len;
        } else {
            cur.push((chunks[i].0, chunks[i].1.clone()));
            assert(chunks_view(cur@) =~= prev_c.push(cv[i as int]));
            size = size + len;
        }
        i = i + 1;
    }
    if cur.len() > 0 {
        let ghost prev_b = batches_view(batches@);
        let ghost prev_c = chunks_view(cur@);
        batches.push(cur);
        assert(batches_view(batches@) =~= prev_b.push(prev_c));
    }
    batches
}

// ---------------------------------------------------------------- validation

/// Name and kind of a raw entity (a bare name has an empty kind).
pub open spec fn raw_entity_parts(e: RawEntity) -> (Seq<char>, Seq<char>) {
    match e {
        RawEntity::Obj { name, kind } => (name@, kind@),
        RawEntity::Name(name) => (name@, seq![]),
    }
}

/// Views of raw entities.
pub open spec fn raw_entities_view(s: Seq<RawEntity>) -> Seq<(Seq<char>, Seq<char>)> {
    Seq::new(s.len(), |i: int| raw_entity_parts(s[i]))
}

/// Views of raw relations: from, to, kind, evidence.
pub open spec fn raw_relations_view(s: Seq<RawRelation>) -> Seq<
    (Seq<char>, Seq<char>, Seq<char>, Seq<char>),
> {
    Seq::new(s.len(), |i: int| (s[i].from@, s[i].to@, s[i].kind@, s[i].evidence@))
}

/// Views of validated entities: name, kind.
pub open spec fn entities_view(s: Seq<GraphEntity>) -> Seq<(Seq<char>, Seq<char>)> {
    Seq::new(s.len(), |i: int| (s[i].name@, s[i].kind@))
}

/// Views of validated relations: from, to, kind, evidence.
pub open spec fn relations_view(s: Seq<GraphRelation>) -> Seq<
    (Seq<char>, Seq<char>, Seq<char>, Seq<char>),
> {
    Seq::new(s.len(), |i: int| (s[i].from@, s[i].to@, s[i].kind@, s[i].evidence@))
}

/// The chunk texts joined by newlines.
pub open spec fn joined_s(chunks: Seq<(i64, Seq<char>)>) -> Seq<char> {
    join_s(Seq::new(chunks.len(), |i: int| chunks[i].1), seq!['\n'])
}

/// One raw entity offered to the accepted list: its normalized name must be
/// non-empty, at most 48 characters and occur in `text`; duplicates and
/// anything past the per-batch limit are dropped.
pub open spec fn entity_step(
    acc: Seq<(Seq<char>, Seq<char>)>,
    raw: (Seq<char>, Seq<char>),
    text: Seq<char>,
) -> Seq<(Seq<char>, Seq<char>)> {
    let name = normalize_name_s(raw.0);
    if acc.len() >= MAX_ENTITIES_PER_BATCH || name.len() == 0 || name.len() > 48 || !contains_s(
        text,
        name,
    ) {
        acc
    } else {
        let e = (name, kind_of_name(normalize_name_s(raw.1)));
        if acc.contains(e) {
            acc
        } else {
            acc.push(e)
        }
    }
}

/// Accepted entities after the first `n` raw ones.
pub open spec fn entities_upto(raw: Seq<(Seq<char>, Seq<char>)>, text: Seq<char>, n: int) -> Seq<
    (Seq<char>, Seq<char>),
>
    decreases n,
{
    if n <= 0 || n > raw.len() {
        seq![]
    } else {
        entity_step(entities_upto(raw, text, n - 1), raw[n - 1], text)
    }
}

/// Whether an accepted entity has this name.
pub open spec fn is_known(ents: Seq<(Seq<char>, Seq<char>)>, name: Seq<char>) -> bool {
    exists|i: int| 0 <= i < ents.len() && ents[i].0 == name
}

/// Evidence of a relation: the model's sentence when it occurs in the text
/// (at most 320 characters, cut to 160), else the first sentence naming both ends.
pub open spec fn evidence_s(given: Seq<char>, from: Seq<char>, to: Seq<char>, joined: Seq<char>) -> Seq<
    char,
> {
    let g = normalize_name_s(given);
    if g.len() > 0 && g.len() <= 2 * EVIDENCE_MAX_CHARS && contains_s(normalize_name_s(joined), g) {
        take_chars(g, 160)
    } else {
        find_evidence_s(joined, from, to)
    }
}

/// Whether a relation with these ends and this kind was accepted.
pub open spec fn has_triple(
    rels: Seq<(Seq<char>, Seq<char>, Seq<char>, Seq<char>)>,
    from: Seq<char>,
    to: Seq<char>,
    kind: Seq<char>,
) -> bool {
    exists|i: int| 0 <= i < rels.len() && rels[i].0 == from && rels[i].1 == to && rels[i].2 == kind
}

/// One raw relation offered to the accepted list: both ends known and distinct,
/// not seen before, within the per-batch limit.
pub open spec fn relation_step(
    acc: Seq<(Seq<char>, Seq<char>, Seq<char>, Seq<char>)>,
    raw: (Seq<char>, Seq<char>, Seq<char>, Seq<char>),
    ents: Seq<(Seq<char>, Seq<char>)>,
    joined: Seq<char>,
) -> Seq<(Seq<char>, Seq<char>, Seq<char>, Seq<char>)> {
    let from = normalize_name_s(raw.0);
    let to = normalize_name_s(raw.1);
    let kind = rel_kind_s(raw.2);
    if acc.len() >= MAX_RELATIONS_PER_BATCH || from.len() == 0 || to.len() == 0 || from == to
        || !is_known(ents, from) || !is_known(ents, to) || has_triple(acc, from, to, kind) {
        acc
    } else {
        acc.push((from, to, kind, evidence_s(raw.3, from, to, joined)))
    }
}

/// Accepted relations after the first `n` raw ones.
pub open spec fn relations_upto(
    raw: Seq<(Seq<char>, Seq<char>, Seq<char>, Seq<char>)>,
    ents: Seq<(Seq<char>, Seq<char>)>,
    joined: Seq<char>,
    n: int,
) -> Seq<(Seq<char>, Seq<char>, Seq<char>, Seq<char>)>
    decreases n,
{
    if n <= 0 || n > raw.len() {
        seq![]
    } else {
        relation_step(relations_upto(raw, ents, joined, n - 1), raw[n - 1], ents, joined)
    }
}

/// Chunks with normalized text.
pub open spec fn chunk_norms_s(chunks: Seq<(i64, Seq<char>)>) -> Seq<(i64, Seq<char>)> {
    Seq::new(chunks.len(), |i: int| (chunks[i].0, normalize_name_s(chunks[i].1)))
}

/// Id of the first chunk from `i` on whose text contains `name`.
pub open spec fn first_chunk(cn: Seq<(i64, Seq<char>)>, name: Seq<char>, i: int) -> Option<i64>
    decreases cn.len() - i,
{
    if i < 0 || i >= cn.len() {
        None
    } else if contains_s(cn[i].1, name) {
        Some(cn[i].0)
    } else {
        first_chunk(cn, name, i + 1)
    }
}

/// Whether `c` is the first chunk of some accepted entity.
pub open spec fn is_linked(
    chunks: Seq<(i64, Seq<char>)>,
    ents: Seq<(Seq<char>, Seq<char>)>,
    c: i64,
) -> bool {
    exists|k: int| 0 <= k < ents.len() && first_chunk(chunk_norms_s(chunks), ents[k].0, 0) == Some(c)
}

/// Whether any accepted entity lies in some chunk.
pub open spec fn any_linked(chunks: Seq<(i64, Seq<char>)>, ents: Seq<(Seq<char>, Seq<char>)>) -> bool {
    exists|k: int| 0 <= k < ents.len() && first_chunk(chunk_norms_s(chunks), ents[k].0, 0) is Some
}

/// Strictly increasing.
pub open spec fn sorted_strict(s: Seq<i64>) -> bool {
    forall|i: int, j: int| 0 <= i < j < s.len() ==> s[i] < s[j]
}

/// The chunk ids of a batch: the linked chunks in increasing order, or all
/// chunk ids in their order when no entity could be placed.
pub open spec fn chunk_ids_ok(
    ids: Seq<i64>,
    chunks: Seq<(i64, Seq<char>)>,
    ents: Seq<(Seq<char>, Seq<char>)>,
) -> bool {
    if any_linked(chunks, ents) {
        sorted_strict(ids) && forall|c: i64| ids.contains(c) <==> is_linked(chunks, ents, c)
    } else {
        ids == Seq::new(chunks.len(), |i: int| chunks[i].0)
    }
}

impl RawEntity {
    /// Name and kind (empty for a bare name).
    fn parts(&self) -> (r: (Vec<char>, Vec<char>))
        ensures
            (r.0@, r.1@) == raw_entity_parts(*self),
    {
        match self {
            RawEntity::Obj { name, kind } => (chars_of(name.as_str()), chars_of(kind.as_str())),
            RawEntity::Name(name) => (chars_of(name.as_str()), Vec::new()),
        }
    }
}

/// Views of pairs of character vectors.
pub open spec fn pairs_view(v: Seq<(Vec<char>, Vec<char>)>) -> Seq<(Seq<char>, Seq<char>)> {
    Seq::new(v.len(), |i: int| (v[i].0@, v[i].1@))
}

/// Views of quadruples of character vectors.
pub open spec fn quads_view(v: Seq<(Vec<char>, Vec<char>, Vec<char>, Vec<char>)>) -> Seq<
    (Seq<char>, Seq<char>, Seq<char>, Seq<char>),
> {
    Seq::new(v.len(), |i: int| (v[i].0@, v[i].1@, v[i].2@, v[i].3@))
}

fn has_pair(v: &Vec<(Vec<char>, Vec<char>)>, a: &[char], b: &[char]) -> (r: bool)
    ensures
        r == pairs_view(v@).contains((a@, b@)),
{
    let mut i: usize = 0;
    while i < v.len()
        invariant
            i <= v@.len(),
            forall|k: int| 0 <= k < i ==> pairs_view(v@)[k] != (a@, b@),
        decreases v@.len() - i,
    {
        if eq_chars(v[i].0.as_slice(), a) && eq_chars(v[i].1.as_slice(), b) {
            assert(pairs_view(v@)[i as int] == (a@, b@));
            return true;
        }
        i = i + 1;
    }
    false
}

fn has_name(v: &Vec<(Vec<char>, Vec<char>)>, a: &[char]) -> (r: bool)
    ensures
        r == is_known(pairs_view(v@), a@),
{
    let mut i: usize = 0;
    while i < v.len()
        invariant
            i <= v@.len(),
            forall|k: int| 0 <= k < i ==> pairs_view(v@)[k].0 != a@,
        decreases v@.len() - i,
    {
        if eq_chars(v[i].0.as_slice(), a) {
            assert(pairs_view(v@)[i as int].0 == a@);
            return true;
        }
        i = i + 1;
    }
    false
}

fn has_triple_exec(
    v: &Vec<(Vec<char>, Vec<char>, Vec<char>, Vec<char>)>,
    a: &[char],
    b: &[char],
    c: &[char],
) -> (r: bool)
    ensures
        r == has_triple(quads_view(v@), a@, b@, c@),
{
    let mut i: usize = 0;
    while i < v.len()
        invariant
            i <= v@.len(),
            forall|k: int|
                0 <= k < i ==> !(quads_view(v@)[k].0 == a@ && quads_view(v@)[k].1 == b@
                    && quads_view(v@)[k].2 == c@),
        decreases v@.len() - i,
    {
        if eq_chars(v[i].0.as_slice(), a) && eq_chars(v[i].1.as_slice(), b) && eq_chars(
            v[i].2.as_slice(),
            c,
        ) {
            assert(quads_view(v@)[i as int].0 == a@);
            return true;
        }
        i = i + 1;
    }
    false
}

/// Views of normalized chunks.
pub open spec fn norms_view(v: Seq<(i64, Vec<char>)>) -> Seq<(i64, Seq<char>)> {
    Seq::new(v.len(), |i: int| (v[i].0, v[i].1@))
}

fn first_chunk_exec(norms: &Vec<(i64, Vec<char>)>, name: &[char]) -> (r: Option<i64>)
    ensures
        r == first_chunk(norms_view(norms@), name@, 0),
{
    let ghost nv = norms_view(norms@);
    let mut i: usize = 0;
    while i < norms.len()
        invariant
            i <= norms@.len(),
            nv == norms_view(norms@),
            first_chunk(nv, name@, i as int) == first_chunk(nv, name@, 0),
        decreases norms@.len() - i,
    {
        if contains(norms[i].1.as_slice(), name) {
            return Some(norms[i].0);
        }
        i = i + 1;
    }
    None
}

fn insert_sorted(ids: &mut Vec<i64>, x: i64)
    requires
        sorted_strict(old(ids)@),
    ensures
        sorted_strict(final(ids)@),
        forall|c: i64| final(ids)@.contains(c) <==> (old(ids)@.contains(c) || c == x),
{
    let mut p: usize = 0;
    while p < ids.len() && ids[p] < x
        invariant
            p <= ids@.len(),
            forall|k: int| 0 <= k < p ==> ids@[k] < x,
        decreases ids@.len() - p,
    {
        p = p + 1;
    }
    if p < ids.len() && ids[p] == x {
        assert(ids@[p as int] == x);
        assert(ids@.contains(x));
        return;
    }
    let ghost before = ids@;
    assert(before == old(ids)@);
    ids.insert(p, x);
    assert forall|c: i64| ids@.contains(c) <==> (before.contains(c) || c == x) by {
        if ids@.contains(c) {
            let k = choose|k: int| 0 <= k < ids@.len() && ids@[k] == c;
            if k < p {
                assert(before[k] == c);
            } else if k > p {
                assert(before[k - 1] == c);
            }
        }
        if before.contains(c) {
            let k = choose|k: int| 0 <= k < before.len() && before[k] == c;
            if k < p {
                assert(ids@[k] == c);
            } else {
                assert(ids@[k + 1] == c);
            }
        }
        if c == x {
            assert(ids@[p as int] == x);
        }
    }
    assert forall|i: int, j: int| 0 <= i < j < ids@.len() implies ids@[i] < ids@[j] by {
        if j < p {
            assert(ids@[i] == before[i] && ids@[j] == before[j]);
        } else if j == p {
            assert(ids@[i] == before[i]);
        } else if i == p {
            assert(ids@[j] == before[j - 1]);
            assert(before[p as int] >= x);
            assert(before[p as int] != x);
        } else if i < p {
            assert(ids@[i] == before[i] && ids@[j] == before[j - 1]);
        } else {
            assert(ids@[i] == before[i - 1] && ids@[j] == before[j - 1]);
        }
    }
    assert(forall|c: i64| #[trigger] ids@.contains(c) <==> (old(ids)@.contains(c) || c == x));
}

/// Checks raw model output against the batch's own text: names normalized and
/// required to occur in the text, kinds mapped onto the allowed list,
/// duplicates, self-loops and relations to unknown entities dropped, evidence
/// checked, and each entity placed on the first chunk that contains it.
pub fn validate(raw: RawGraph, chunks: &[(i64, String)]) -> (r: BatchExtraction)
    ensures
        entities_view(r.entities@) == entities_upto(
            raw_entities_view(raw.entities@),
            normalize_name_s(joined_s(chunks_view(chunks@))),
            raw.entities@.len() as int,
        ),
        relations_view(r.relations@) == relations_upto(
            raw_relations_view(raw.relations@),
            entities_view(r.entities@),
            joined_s(chunks_view(chunks@)),
            raw.relations@.len() as int,
        ),
        chunk_ids_ok(r.chunk_ids@, chunks_view(chunks@), entities_view(r.entities@)),
        r.error is None,
{
    let ghost cv = chunks_view(chunks@);
    let mut texts: Vec<Vec<char>> = Vec::new();
    let mut norms: Vec<(i64, Vec<char>)> = Vec::new();
    let mut i: usize = 0;
    while i < chunks.len()
        invariant
            i <= chunks@.len(),
            cv == chunks_view(chunks@),
            texts@.len() == i,
            norms@.len() == i,
            views(texts@) == Seq::new(i as nat, |k: int| cv[k].1),
            norms_view(norms@) == chunk_norms_s(cv).take(i as int),
        decreases chunks@.len() - i,
    {
        let ghost pt = texts@;
        let ghost pn = norms@;
        let t = chars_of(chunks[i].1.as_str());
        let n = normalize_chars(t.as_slice());
        texts.push(t);
        norms.push((chunks[i].0, n));
        assert forall|k: int| 0 <= k < i implies texts@[k]@ == cv[k].1 by {
            assert(texts@[k] == pt[k]);
            assert(views(pt)[k] == pt[k]@);
        }
        assert(views(texts@) =~= Seq::new((i + 1) as nat, |k: int| cv[k].1));
        assert forall|k: int| 0 <= k < i implies norms_view(norms@)[k] == chunk_norms_s(cv)[k] by {
            assert(norms@[k] == pn[k]);
            assert(norms_view(pn)[k] == chunk_norms_s(cv).take(i as int)[k]);
        }
        assert(norms_view(norms@) =~= chunk_norms_s(cv).take(i + 1));
        i = i + 1;
    }
    assert(Seq::new(chunks@.len(), |k: int| cv[k].1) =~= Seq::new(cv.len(), |k: int| cv[k].1));
    assert(norms_view(norms@) =~= chunk_norms_s(cv));
    let sep: Vec<char> = vec!['\n'];
    assert(sep@ =~= seq!['\n']);
    let joined = join(&texts, sep.as_slice());
    let norm_text = normalize_chars(joined.as_slice());
    assert(joined@ == joined_s(cv));

    let ghost rev = raw_entities_view(raw.entities@);
    let mut ents: Vec<(Vec<char>, Vec<char>)> = Vec::new();
    let mut i: usize = 0;
    while i < raw.entities.len()
        invariant
            i <= raw.entities@.len(),
            rev == raw_entities_view(raw.entities@),
            pairs_view(ents@) == entities_upto(rev, norm_text@, i as int),
        decreases raw.entities@.len() - i,
    {
        let ghost prev = pairs_view(ents@);
        let (rn, rk) = raw.entities[i].parts();
        let name = normalize_chars(rn.as_slice());
        if ents.len() < MAX_ENTITIES_PER_BATCH && name.len() > 0 && name.len() <= 48 && contains(
            norm_text.as_slice(),
            name.as_slice(),
        ) {
            let kn = normalize_chars(rk.as_slice());
            let kind = kind_chars(kn.as_slice());
            if !has_pair(&ents, name.as_slice(), kind.as_slice()) {
                ents.push((name, kind));
                assert(pairs_view(ents@) =~= prev.push((name@, kind@)));
            }
        }
        i = i + 1;
    }

    let ghost rrv = raw_relations_view(raw.relations@);
    let ghost ev = pairs_view(ents@);
    let mut rels: Vec<(Vec<char>, Vec<char>, Vec<char>, Vec<char>)> = Vec::new();
    let mut i: usize = 0;
    while i < raw.relations.len()
        invariant
            i <= raw.relations@.len(),
            rrv == raw_relations_view(raw.relations@),
            ev == pairs_view(ents@),
            joined@ == joined_s(cv),
            norm_text@ == normalize_name_s(joined@),
            quads_view(rels@) == relations_upto(rrv, ev, joined@, i as int),
        decreases raw.relations@.len() - i,
    {
        let ghost prev = quads_view(rels@);
        let rr = &raw.relations[i];
        let from = normalize_chars(chars_of(rr.from.as_str()).as_slice());
        let to = normalize_chars(chars_of(rr.to.as_str()).as_slice());
        let kind = rel_kind_chars(chars_of(rr.kind.as_str()).as_slice());
        assert(rrv[i as int] == (rr.from@, rr.to@, rr.kind@, rr.evidence@));
        if rels.len() < MAX_RELATIONS_PER_BATCH && from.len() > 0 && to.len() > 0 && !eq_chars(
            from.as_slice(),
            to.as_slice(),
        ) && has_name(&ents, from.as_slice()) && has_name(&ents, to.as_slice())
            && !has_triple_exec(&rels, from.as_slice(), to.as_slice(), kind.as_slice()) {
            let given = normalize_chars(chars_of(rr.evidence.as_str()).as_slice());
            let evidence = if given.len() > 0 && given.len() <= 2 * EVIDENCE_MAX_CHARS && contains(
                norm_text.as_slice(),
                given.as_slice(),
            ) {
                take_chars_exec(given.as_slice(), EVIDENCE_MAX_CHARS)
            } else {
                find_evidence(joined.as_slice(), from.as_slice(), to.as_slice())
            };
            assert(evidence@ == evidence_s(rr.evidence@, from@, to@, joined@));
            rels.push((from, to, kind, evidence));
            assert(quads_view(rels@) =~= prev.push(
                (from@, to@, kind@, evidence_s(rr.evidence@, from@, to@, joined@)),
            ));
        }
        i = i + 1;
    }

    let mut ids: Vec<i64> = Vec::new();
    let ghost cn = chunk_norms_s(cv);
    let mut k: usize = 0;
    while k < ents.len()
        invariant
            k <= ents@.len(),
            ev == pairs_view(ents@),
            cn == norms_view(norms@),
            sorted_strict(ids@),
            forall|c: i64|
                ids@.contains(c) <==> exists|j: int|
                    0 <= j < k && first_chunk(cn, ev[j].0, 0) == Some(c),
        decreases ents@.len() - k,
    {
        let found = first_chunk_exec(&norms, ents[k].0.as_slice());
        assert(ev[k as int].0 == ents@[k as int].0@);
        let ghost before = ids@;
        match found {
            Some(cid) => {
                insert_sorted(&mut ids, cid);
            },
            None => {},
        }
        assert forall|c: i64|
            ids@.contains(c) <==> exists|j: int|
                0 <= j < k + 1 && first_chunk(cn, ev[j].0, 0) == Some(c) by {
            if ids@.contains(c) && !before.contains(c) {
                assert(first_chunk(cn, ev[k as int].0, 0) == Some(c));
            }
            if exists|j: int| 0 <= j < k + 1 && first_chunk(cn, ev[j].0, 0) == Some(c) {
                let j = choose|j: int| 0 <= j < k + 1 && first_chunk(cn, ev[j].0, 0) == Some(c);
                if j < k {
                    assert(before.contains(c));
                }
            }
        }
        k = k + 1;
    }
    if ids.len() == 0 {
        assert(!any_linked(cv, ev)) by {
            if any_linked(cv, ev) {
                let j = choose|j: int| 0 <= j < ev.len() && first_chunk(cn, ev[j].0, 0) is Some;
                let c = first_chunk(cn, ev[j].0, 0)->0;
                assert(ids@.contains(c));
            }
        }
        let mut j: usize = 0;
        while j < chunks.len()
            invariant
                j <= chunks@.len(),
                cv == chunks_view(chunks@),
                ids@ =~= Seq::new(j as nat, |m: int| cv[m].0),
            decreases chunks@.len() - j,
        {
            ids.push(chunks[j].0);
            j = j + 1;
        }
    } else {
        assert(any_linked(cv, ev)) by {
            assert(ids@.contains(ids@[0]));
        }
    }

    let mut entities: Vec<GraphEntity> = Vec::new();
    let mut m: usize = 0;
    while m < ents.len()
        invariant
            m <= ents@.len(),
            entities@.len() == m,
            entities_view(entities@) == pairs_view(ents@).take(m as int),
        decreases ents@.len() - m,
    {
        let ghost pe = entities@;
        entities.push(
            GraphEntity {
                name: string_of(ents[m].0.as_slice()),
                kind: string_of(ents[m].1.as_slice()),
            },
        );
        assert forall|k: int| 0 <= k < m implies entities_view(entities@)[k] == pairs_view(ents@)[k] by {
            assert(entities@[k] == pe[k]);
            assert(entities_view(pe)[k] == pairs_view(ents@).take(m as int)[k]);
        }
        assert(entities_view(entities@) =~= pairs_view(ents@).take(m + 1));
        m = m + 1;
    }
    assert(entities_view(entities@) =~= ev);
    let mut relations: Vec<GraphRelation> = Vec::new();
    let mut m: usize = 0;
    while m < rels.len()
        invariant
            m <= rels@.len(),
            relations@.len() == m,
            relations_view(relations@) == quads_view(rels@).take(m as int),
        decreases rels@.len() - m,
    {
        let ghost pr = relations@;
        relations.push(
            GraphRelation {
                from: string_of(rels[m].0.as_slice()),
                to: string_of(rels[m].1.as_slice()),
                kind: string_of(rels[m].2.as_slice()),
                evidence: string_of(rels[m].3.as_slice()),
            },
        );
        assert forall|k: int| 0 <= k < m implies relations_view(relations@)[k] == quads_view(rels@)[k] by {
            assert(relations@[k] == pr[k]);
            assert(relations_view(pr)[k] == quads_view(rels@).take(m as int)[k]);
        }
        assert(relations_view(relations@) =~= quads_view(rels@).take(m + 1));
        m = m + 1;
    }
    assert(relations_view(relations@) =~= quads_view(rels@));
    BatchExtraction { chunk_ids: ids, entities, relations, error: None }
}

// ---------------------------------------------------------------- content hash

/// FNV-1a offset basis.
pub const FNV_OFFSET: u64 = 0xcbf2_9ce4_8422_2325;

/// FNV-1a prime.
pub const FNV_PRIME: u64 = 0x0000_0100_0000_01b3;

/// One FNV-1a step.
pub open spec fn fnv_step(h: u64, b: u8) -> u64 {
    (h ^ (b as u64)).wrapping_mul(FNV_PRIME)
}

/// FNV-1a over `bytes`, starting from `h`.
pub open spec fn fnv_s(h: u64, bytes: Seq<u8>) -> u64
    decreases bytes.len(),
{
    if bytes.len() == 0 {
        h
    } else {
        fnv_step(fnv_s(h, bytes.drop_last()), bytes.last())
    }
}

/// The hash after the title and the first `n` chunk texts, as UTF-8.
pub open spec fn hash_upto(title: Seq<char>, chunks: Seq<(i64, Seq<char>)>, n: int) -> u64
    decreases n,
{
    if n <= 0 || n > chunks.len() {
        fnv_s(FNV_OFFSET, encode_utf8(title))
    } else {
        fnv_s(hash_upto(title, chunks, n - 1), encode_utf8(chunks[n - 1].1))
    }
}

/// Lower-case hexadecimal digit.
pub open spec fn hex_digit(d: nat) -> char {
    if d < 10 {
        ((d + 48) as u8) as char
    } else {
        ((d + 87) as u8) as char
    }
}

/// The last `w` hexadecimal digits of `n`, zero-padded.
pub open spec fn hex_pad_s(n: nat, w: nat) -> Seq<char>
    decreases w,
{
    if w == 0 {
        seq![]
    } else {
        hex_pad_s(n / 16, (w - 1) as nat).push(hex_digit(n % 16))
    }
}

fn fnv_bytes(h: u64, bytes: &[u8]) -> (r: u64)
    ensures
        r == fnv_s(h, bytes@),
{
    let mut acc = h;
    let mut i: usize = 0;
    while i < bytes.len()
        invariant
            i <= bytes@.len(),
            acc == fnv_s(h, bytes@.take(i as int)),
        decreases bytes@.len() - i,
    {
        assert(bytes@.take(i + 1).drop_last() =~= bytes@.take(i as int));
        acc = (acc ^ (bytes[i] as u64)).wrapping_mul(FNV_PRIME);
        i = i + 1;
    }
    assert(bytes@.take(bytes@.len() as int) =~= bytes@);
    acc
}

fn hex_pad(n: u64, w: usize) -> (r: Vec<char>)
    ensures
        r@ == hex_pad_s(n as nat, w as nat),
    decreases w,
{
    if w == 0 {
        Vec::new()
    } else {
        let mut v = hex_pad(n / 16, w - 1);
        let d = n % 16;
        let c = if d < 10 {
            ((d + 48) as u8) as char
        } else {
            ((d + 87) as u8) as char
        };
        v.push(c);
        v
    }
}

/// Ledger hash of a note: FNV-1a over the UTF-8 bytes of the title and of each
/// chunk text, as 16 lower-case hexadecimal digits.
pub fn content_hash(title: &str, chunks: &[(i64, String)]) -> (r: String)
    ensures
        r@ == hex_pad_s(hash_upto(title@, chunks_view(chunks@), chunks@.len() as int) as nat, 16),
{
    let ghost cv = chunks_view(chunks@);
    let mut h = fnv_bytes(FNV_OFFSET, title.as_bytes());
    let mut i: usize = 0;
    while i < chunks.len()
        invariant
            i <= chunks@.len(),
            cv == chunks_view(chunks@),
            h == hash_upto(title@, cv, i as int),
        decreases chunks@.len() - i,
    {
        h = fnv_bytes(h, chunks[i].1.as_str().as_bytes());
        i = i + 1;
    }
    string_of(hex_pad(h, 16).as_slice())
}

// ---------------------------------------------------------------- extraction requests

/// Meaning of `extract_user_prompt`.
pub open spec fn extract_user_prompt_s(title: Seq<char>, batch: Seq<(i64, Seq<char>)>) -> Seq<char> {
    "笔记《"@ + title + "》的片段：\n---\n"@ + join_s(
        Seq::new(batch.len(), |i: int| batch[i].1),
        seq!['\n', '\n'],
    ) + "\n---\n请按要求输出 JSON。"@
}

/// The user message asking for the graph of one batch of a note.
pub fn extract_user_prompt(title: &str, batch: &[(i64, String)]) -> (r: String)
    ensures
        r@ == extract_user_prompt_s(title@, chunks_view(batch@)),
{
    let ghost cv = chunks_view(batch@);
    let mut texts: Vec<Vec<char>> = Vec::new();
    let mut i: usize = 0;
    while i < batch.len()
        invariant
            i <= batch@.len(),
            cv == chunks_view(batch@),
            texts@.len() == i,
            forall|k: int| 0 <= k < i ==> #[trigger] texts@[k]@ == cv[k].1,
        decreases batch@.len() - i,
    {
        texts.push(chars_of(batch[i].1.as_str()));
        i = i + 1;
    }
    assert(views(texts@) =~= Seq::new(cv.len(), |k: int| cv[k].1));
    let sep: Vec<char> = vec!['\n', '\n'];
    assert(sep@ =~= seq!['\n', '\n']);
    let mut v = chars_of("笔记《");
    append_str(&mut v, title);
    append_str(&mut v, "》的片段：\n---\n");
    append(&mut v, join(&texts, sep.as_slice()).as_slice());
    append_str(&mut v, "\n---\n请按要求输出 JSON。");
    string_of(v.as_slice())
}

/// The ids of a batch's chunks, in order.
pub fn batch_chunk_ids(batch: &[(i64, String)]) -> (r: Vec<i64>)
    ensures
        r@ == Seq::new(batch@.len(), |i: int| batch@[i].0),
{
    let mut r: Vec<i64> = Vec::new();
    let mut i: usize = 0;
    while i < batch.len()
        invariant
            i <= batch@.len(),
            r@ == Seq::new(i as nat, |k: int| batch@[k].0),
        decreases batch@.len() - i,
    {
        r.push(batch[i].0);
        assert(r@ =~= Seq::new((i + 1) as nat, |k: int| batch@[k].0));
        i = i + 1;
    }
    r
}

/// The error kept for a batch that got no model output: the model's error,
/// or `未获得模型输出` when there was none.
pub fn batch_failure(last_err: &str) -> (r: String)
    ensures
        r@ == if last_err@.len() == 0 {
            "未获得模型输出"@
        } else {
            last_err@
        },
{
    if last_err.unicode_len() == 0 {
        string_of(chars_of("未获得模型输出").as_slice())
    } else {
        string_of(chars_of(last_err).as_slice())
    }
}

/// The line reported for a failed batch: its number (from one) and at most
/// 160 characters of the error.
pub fn batch_error_line(bi: usize, err: &str) -> (r: String)
    requires
        bi < usize::MAX,
    ensures
        r@ == "第 "@ + crate::text::dec_s((bi + 1) as nat) + " 批："@ + take_chars(err@, 160),
{
    let mut v = chars_of("第 ");
    append(&mut v, crate::text::dec((bi + 1) as u64).as_slice());
    append_str(&mut v, " 批：");
    append(&mut v, take_chars_exec(chars_of(err).as_slice(), 160).as_slice());
    string_of(v.as_slice())
}

/// A failed batch: its chunk ids and the error.
pub fn failed_batch(chunk_ids: Vec<i64>, error: String) -> (r: BatchExtraction)
    ensures
        r.chunk_ids@ == chunk_ids@,
        r.entities@.len() == 0,
        r.relations@.len() == 0,
        r.error matches Some(e) && e@ == error@,
{
    BatchExtraction { chunk_ids, entities: Vec::new(), relations: Vec::new(), error: Some(error) }
}

// ---------------------------------------------------------------- laws of validation

/// Kinds an entity can have.
pub open spec fn allowed_kind(k: Seq<char>) -> bool {
    k == "person"@ || k == "org"@ || k == "place"@ || k == "concept"@ || k == "event"@ || k
        == "other"@
}

/// Accepted entities are grounded: at most 40 of them, no two alike, each
/// named by a non-empty normalized name of at most 48 characters that occurs
/// in the text, with an allowed kind.
pub proof fn lemma_entities_grounded(raw: Seq<(Seq<char>, Seq<char>)>, text: Seq<char>, n: int)
    requires
        0 <= n <= raw.len(),
    ensures
        ({
            let es = entities_upto(raw, text, n);
            &&& es.len() <= MAX_ENTITIES_PER_BATCH
            &&& forall|i: int|
                0 <= i < es.len() ==> 0 < (#[trigger] es[i]).0.len() <= 48 && contains_s(text, es[i].0)
                    && allowed_kind(es[i].1)
            &&& forall|i: int, j: int| 0 <= i < j < es.len() ==> es[i] != es[j]
        }),
    decreases n,
{
    if n > 0 {
        lemma_entities_grounded(raw, text, n - 1);
        let prev = entities_upto(raw, text, n - 1);
        let es = entities_upto(raw, text, n);
        if es != prev {
            let name = normalize_name_s(raw[n - 1].0);
            let e = (name, kind_of_name(normalize_name_s(raw[n - 1].1)));
            assert(es == prev.push(e));
            assert(!prev.contains(e));
            assert forall|i: int, j: int| 0 <= i < j < es.len() implies es[i] != es[j] by {
                if j == prev.len() {
                    assert(es[i] == prev[i]);
                    if es[i] == e {
                        assert(prev.contains(e));
                    }
                }
            }
        }
    }
}

/// Accepted relations are grounded: at most 60, both ends accepted entities
/// and distinct, no two with the same ends and kind.
pub proof fn lemma_relations_grounded(
    raw: Seq<(Seq<char>, Seq<char>, Seq<char>, Seq<char>)>,
    ents: Seq<(Seq<char>, Seq<char>)>,
    joined: Seq<char>,
    n: int,
)
    requires
        0 <= n <= raw.len(),
    ensures
        ({
            let rs = relations_upto(raw, ents, joined, n);
            &&& rs.len() <= MAX_RELATIONS_PER_BATCH
            &&& forall|i: int|
                0 <= i < rs.len() ==> (#[trigger] rs[i]).0 != rs[i].1 && is_known(ents, rs[i].0)
                    && is_known(ents, rs[i].1)
            &&& forall|i: int, j: int|
                0 <= i < j < rs.len() ==> !(rs[i].0 == rs[j].0 && rs[i].1 == rs[j].1 && rs[i].2
                    == rs[j].2)
        }),
    decreases n,
{
    if n > 0 {
        lemma_relations_grounded(raw, ents, joined, n - 1);
        let prev = relations_upto(raw, ents, joined, n - 1);
        let rs = relations_upto(raw, ents, joined, n);
        if rs != prev {
            let from = normalize_name_s(raw[n - 1].0);
            let to = normalize_name_s(raw[n - 1].1);
            let kind = rel_kind_s(raw[n - 1].2);
            assert(!has_triple(prev, from, to, kind));
            assert forall|i: int, j: int| 0 <= i < j < rs.len() implies !(rs[i].0 == rs[j].0
                && rs[i].1 == rs[j].1 && rs[i].2 == rs[j].2) by {
                if j == prev.len() {
                    assert(rs[i] == prev[i]);
                }
            }
        }
    }
}

// ---------------------------------------------------------------- laws of batching

/// The batches one after the other.
pub open spec fn flatten_batches(bs: Seq<Seq<(i64, Seq<char>)>>) -> Seq<(i64, Seq<char>)>
    decreases bs.len(),
{
    if bs.len() == 0 {
        seq![]
    } else {
        flatten_batches(bs.drop_last()) + bs.last()
    }
}

/// Characters of a batch's texts.
pub open spec fn batch_size(b: Seq<(i64, Seq<char>)>) -> int
    decreases b.len(),
{
    if b.len() == 0 {
        0
    } else {
        batch_size(b.drop_last()) + b.last().1.len()
    }
}

/// A batch is not empty, and holds more than one chunk only within the budget.
pub open spec fn batch_ok(b: Seq<(i64, Seq<char>)>) -> bool {
    b.len() > 0 && (b.len() > 1 ==> batch_size(b) <= EXTRACT_BATCH_CHARS)
}

proof fn lemma_batch_upto(chunks: Seq<(i64, Seq<char>)>, n: int)
    requires
        0 <= n <= chunks.len(),
    ensures
        ({
            let (done, cur, size) = batch_upto(chunks, n);
            &&& flatten_batches(done) + cur == chunks.take(n)
            &&& size == batch_size(cur)
            &&& (cur.len() == 0 <==> n == 0)
            &&& cur.len() > 1 ==> size <= EXTRACT_BATCH_CHARS
            &&& forall|i: int| 0 <= i < done.len() ==> batch_ok(#[trigger] done[i])
        }),
    decreases n,
{
    if n > 0 {
        lemma_batch_upto(chunks, n - 1);
        let (done, cur, size) = batch_upto(chunks, n - 1);
        let c = chunks[n - 1];
        let len = c.1.len() as int;
        assert(chunks.take(n) =~= chunks.take(n - 1).push(c));
        if cur.len() > 0 && size + len > EXTRACT_BATCH_CHARS {
            let d2 = done.push(cur);
            assert(d2.drop_last() =~= done);
            assert(flatten_batches(d2) + seq![c] =~= chunks.take(n));
            assert(seq![c].drop_last() =~= Seq::<(i64, Seq<char>)>::empty());
            assert(batch_size(Seq::<(i64, Seq<char>)>::empty()) == 0);
            assert(seq![c].last() == c);
            assert(batch_size(seq![c]) == batch_size(seq![c].drop_last()) + seq![c].last().1.len());
            assert(batch_size(seq![c]) == len);
            assert forall|i: int| 0 <= i < d2.len() implies batch_ok(#[trigger] d2[i]) by {
                if i < done.len() {
                    assert(d2[i] == done[i]);
                }
            }
        } else {
            let c2 = cur.push(c);
            assert(c2.drop_last() =~= cur);
            assert(flatten_batches(done) + c2 =~= chunks.take(n));
        }
    }
}

/// Batching keeps every chunk, in order, and a chunk is never split: the
/// batches one after the other are the chunks; each batch holds at least one
/// chunk, and more than one only within the character budget.
pub proof fn lemma_batches_cover(chunks: Seq<(i64, Seq<char>)>)
    ensures
        flatten_batches(batch_chunks_s(chunks)) == chunks,
        forall|i: int|
            0 <= i < batch_chunks_s(chunks).len() ==> batch_ok(#[trigger] batch_chunks_s(chunks)[i]),
{
    lemma_batch_upto(chunks, chunks.len() as int);
    let (done, cur, size) = batch_upto(chunks, chunks.len() as int);
    assert(chunks.take(chunks.len() as int) =~= chunks);
    if cur.len() > 0 {
        let d2 = done.push(cur);
        assert(d2.drop_last() =~= done);
        assert forall|i: int| 0 <= i < d2.len() implies batch_ok(#[trigger] d2[i]) by {
            if i < done.len() {
                assert(d2[i] == done[i]);
            }
        }
    } else {
        assert(flatten_batches(done) + cur =~= flatten_batches(done));
    }
}

// ---------------------------------------------------------------- the ledger

/// The error text kept in the ledger: each error cut to 200 characters,
/// joined by `；`.
pub open spec fn ledger_error_s(errors: Seq<Seq<char>>) -> Seq<char> {
    join_s(Seq::new(errors.len(), |i: int| take_chars(errors[i], 200)), "；"@)
}

/// The error text kept in the ledger for a run.
pub fn ledger_error(errors: &[String]) -> (r: String)
    ensures
        r@ == ledger_error_s(crate::text::str_views(errors@)),
{
    let ghost ev = crate::text::str_views(errors@);
    let mut parts: Vec<Vec<char>> = Vec::new();
    let mut i: usize = 0;
    while i < errors.len()
        invariant
            i <= errors@.len(),
            ev == crate::text::str_views(errors@),
            parts@.len() == i,
            forall|k: int| 0 <= k < i ==> #[trigger] parts@[k]@ == take_chars(ev[k], 200),
        decreases errors@.len() - i,
    {
        parts.push(take_chars_exec(chars_of(errors[i].as_str()).as_slice(), 200));
        i = i + 1;
    }
    assert(views(parts@) =~= Seq::new(ev.len(), |k: int| take_chars(ev[k], 200)));
    string_of(join_str(&parts, "；").as_slice())
}

/// The hash kept in the ledger: none when any batch failed, so that the next
/// run extracts the note again.
pub fn ledger_hash(hash: &str, had_errors: bool) -> (r: String)
    ensures
        r@ == if had_errors {
            seq![]
        } else {
            hash@
        },
{
    if had_errors {
        String::new()
    } else {
        string_of(chars_of(hash).as_slice())
    }
}

/// The edges whose ends are both among the shown nodes, in their order.
pub open spec fn edges_among_s(ids: Seq<i64>, edges: Seq<GraphEdge>) -> Seq<GraphEdge> {
    edges.filter(|e: GraphEdge| ids.contains(e.src) && ids.contains(e.dst))
}

fn has_node(ids: &[i64], id: i64) -> (b: bool)
    ensures
        b == ids@.contains(id),
{
    let mut i: usize = 0;
    while i < ids.len()
        invariant
            i <= ids@.len(),
            forall|k: int| 0 <= k < i ==> ids@[k] != id,
        decreases ids@.len() - i,
    {
        if ids[i] == id {
            assert(ids@[i as int] == id);
            return true;
        }
        i = i + 1;
    }
    false
}

/// The edges of a snapshot: those between shown nodes.
pub fn edges_among(ids: &[i64], edges: Vec<GraphEdge>) -> (r: Vec<GraphEdge>)
    ensures
        r@ == edges_among_s(ids@, edges@),
{
    let ghost all = edges@;
    let ghost keep = |e: GraphEdge| ids@.contains(e.src) && ids@.contains(e.dst);
    let total = edges.len();
    let mut input = edges;
    let mut kept: Vec<GraphEdge> = Vec::new();
    let mut n: usize = 0;
    while input.len() > 0
        invariant
            total == all.len(),
            n + input@.len() == all.len(),
            input@ == all.skip(n as int),
            keep == (|e: GraphEdge| ids@.contains(e.src) && ids@.contains(e.dst)),
            kept@ == all.take(n as int).filter(keep),
        decreases input@.len(),
    {
        let e = input.remove(0);
        assert(e == all[n as int]);
        proof {
            all.take(n as int).lemma_filter_push(e, keep);
            assert(all.take(n as int).push(e) =~= all.take(n + 1));
        }
        if has_node(ids, e.src) && has_node(ids, e.dst) {
            kept.push(e);
        }
        assert(input@ =~= all.skip(n + 1));
        n = n + 1;
    }
    assert(all.take(n as int) =~= all);
    kept
}

} // verus!
