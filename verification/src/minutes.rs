//! Meeting minutes: the structured minutes, the prompts sent for them, the
//! JSON found in a model's reply and the Markdown rendering.
use vstd::prelude::*;
use crate::text::{
    append, append_str, chars_of, dec, dec_s, ends_with, idx_of, idx_of_exec, join_s, join_str,
    lemma_idx_of, lines, lines_from, lines_s, starts_with_s, str_views, string_of, strip_cr,
    subvec, trim, trim_end, trim_end_s, trim_s, trim_str, views,
};

verus! {

/// Maximum output tokens of a minutes request.
pub const MINUTES_MAX_TOKENS: u32 = 8192;

/// Transcripts of at least this many characters are summarized segment by segment.
pub const MAP_REDUCE_THRESHOLD_CHARS: usize = 60_000;

/// Characters of one segment.
pub const CHUNK_CHARS: usize = 20_000;

/// Longest transcript accepted.
pub const MAX_TRANSCRIPT_CHARS: usize = 1_500_000;

/// Characters of the previous reply quoted in a repair request.
pub const REPAIR_PREVIEW_CHARS: usize = 6_000;

/// System prompt for minutes of a whole meeting.
pub const MINUTES_SYSTEM_PROMPT: &'static str = "你是一名专业的会议纪要整理助手。你的任务是把会议的语音转写文本整理成一份结构化、可直接分发的会议纪要。\n\
\n\
【铁律】\n\
1. 只能依据【会议信息】和【转写原文】中的事实，严禁编造任何内容。\n\
2. 原文未提到的人名、数字、期限、结论、决议一律不要写；无法确定的信息留空或不写，绝不猜测。\n\
3. 转写文本可能存在同音字、错别字、断句错误、口语重复，请结合上下文修正明显的识别错误并去掉口头语，但不得改变原意。\n\
4. 待办事项必须来自原文中明确的承诺、要求或分工；owner（责任人）和 due（期限）只有在原文明确提及时才填写，否则为 null。\n\
5. 原文没有对应内容时，数组字段返回 []，字符串字段返回 null 或简短空说明，不要凑内容。\n\
6. 语言与原文一致（默认中文）；保持客观、书面化、条目清晰。\n\
\n\
【输出格式】\n\
只输出一个合法的 JSON 对象，不要输出 Markdown 代码块、解释或任何多余文字。JSON 结构如下：\n\
\n\
{\n\
  \"title\": \"会议标题（可用用户提供的标题，否则从内容概括一个简短标题）\",\n\
  \"meeting_date\": \"会议日期（原文/用户提供时才填，否则 null）\",\n\
  \"participants\": [\"参会人姓名（原文/用户明确提供时才填）\"],\n\
  \"overview\": \"整体摘要，3~6 句，说清楚会议主题、讨论重点和整体结论\",\n\
  \"topics\": [\n\
    {\"title\": \"议题名称\", \"points\": [\"该议题下的讨论要点，按发言逻辑归纳\"]}\n\
  ],\n\
  \"decisions\": [\"已达成的决议/结论，逐条列出\"],\n\
  \"action_items\": [\n\
    {\"task\": \"待办事项\", \"owner\": \"责任人或 null\", \"due\": \"期限或 null\", \"source\": \"对应的原文关键句（用于核对）\"}\n\
  ],\n\
  \"risks\": [\"风险、阻塞、遗留问题\"],\n\
  \"next_steps\": [\"下一步计划/时间安排\"]\n\
}";

/// System prompt for one segment of a long meeting.
pub const CHUNK_SYSTEM_PROMPT: &'static str = "你是一名会议内容抽取助手。这次你只处理一场长会议中的【一个片段】，请从这个片段里抽取信息，供后续合并使用。\n\
\n\
【铁律】\n\
1. 只依据片段原文，严禁编造；片段未提及的内容不要写。\n\
2. 修正明显的语音识别错误，去掉口头语，但不得改变原意。\n\
3. owner（责任人）和 due（期限）只有在原文明确提及时才填写，否则为 null。\n\
4. 不要输出任何解释，只输出一个合法 JSON 对象。\n\
\n\
【输出格式】\n\
{\n\
  \"overview\": \"本片段的要点，1~3 句\",\n\
  \"topics\": [{\"title\": \"议题\", \"points\": [\"要点\"]}],\n\
  \"decisions\": [\"本片段中达成的决议/结论\"],\n\
  \"action_items\": [{\"task\": \"待办\", \"owner\": \"责任人或 null\", \"due\": \"期限或 null\", \"source\": \"原文关键句\"}],\n\
  \"risks\": [\"风险/遗留问题\"],\n\
  \"next_steps\": [\"下一步计划\"]\n\
}";

/// System prompt that merges the segment extractions.
pub const MERGE_SYSTEM_PROMPT: &'static str = "你是一名会议纪要整理助手。输入是一场长会议按时间顺序分段抽取出的多份片段信息，请把它们合并成一份完整的结构化会议纪要。\n\
\n\
【铁律】\n\
1. 只使用片段信息里出现的事实，严禁编造。\n\
2. 合并同一议题的重复内容，保留时间顺序与因果关系；不同片段中的同一事项不要重复列出。\n\
3. owner（责任人）和 due（期限）只有在片段中明确提及时才填写，否则为 null。\n\
4. 只输出一个合法 JSON 对象，不要输出 Markdown 代码块、解释或多余文字。\n\
\n\
【输出格式】\n\
{\n\
  \"title\": \"会议标题（从内容概括或沿用用户提供）\",\n\
  \"meeting_date\": \"会议日期或 null\",\n\
  \"participants\": [\"参会人（片段中明确出现时才填）\"],\n\
  \"overview\": \"整场会议的整体摘要，3~6 句\",\n\
  \"topics\": [{\"title\": \"议题名称\", \"points\": [\"讨论要点\"]}],\n\
  \"decisions\": [\"达成的决议/结论\"],\n\
  \"action_items\": [{\"task\": \"待办\", \"owner\": \"责任人或 null\", \"due\": \"期限或 null\", \"source\": \"原文关键句\"}],\n\
  \"risks\": [\"风险、阻塞、遗留问题\"],\n\
  \"next_steps\": [\"下一步计划\"]\n\
}";


/// A topic with its discussion points.
#[derive(Debug, Clone, Default)]
pub struct Topic {
    pub title: String,
    pub points: Vec<String>,
}

/// An action item.
#[derive(Debug, Clone, Default)]
pub struct ActionItem {
    pub task: String,
    pub owner: Option<String>,
    pub due: Option<String>,
    pub source: Option<String>,
}

/// Structured minutes.
#[derive(Debug, Clone, Default)]
pub struct Minutes {
    pub title: String,
    pub meeting_date: Option<String>,
    pub participants: Vec<String>,
    pub overview: String,
    pub topics: Vec<Topic>,
    pub decisions: Vec<String>,
    pub action_items: Vec<ActionItem>,
    pub risks: Vec<String>,
    pub next_steps: Vec<String>,
}

/// Result of a minutes run.
#[derive(Debug, Clone)]
pub struct MinutesOutcome {
    pub minutes: Minutes,
    pub markdown: String,
    pub model: String,
    pub elapsed_ms: u64,
    pub completion_tokens: Option<u64>,
    pub repaired: bool,
    pub used_map_reduce: bool,
}

/// A JSON value, carried through unchanged.
#[verifier::external_type_specification]
#[verifier::external_body]
pub struct ExJsonValue(serde_json::Value);

// ---------------------------------------------------------------- code fences

/// The fence marker.
pub open spec fn fence() -> Seq<char> {
    seq!['`', '`', '`']
}

/// `s` with every trailing fence marker removed.
pub open spec fn strip_fences_end(s: Seq<char>) -> Seq<char>
    decreases s.len(),
{
    if s.len() >= 3 && s.subrange(s.len() - 3, s.len() as int) == fence() {
        strip_fences_end(s.take(s.len() - 3))
    } else {
        s
    }
}

/// Meaning of `strip_code_fence`: the text inside an optional opening fence
/// (whose first line, the language tag, is dropped) and any closing fences.
pub open spec fn strip_code_fence_s(text: Seq<char>) -> Seq<char> {
    let t = trim_s(text);
    let after = if starts_with_s(t, fence()) {
        let rest = t.skip(3);
        let k = idx_of(rest, '\n', 0);
        if k < rest.len() {
            rest.skip(k + 1)
        } else {
            rest
        }
    } else {
        t
    };
    trim_s(strip_fences_end(trim_s(after)))
}

fn is_fence_at(v: &[char], i: usize) -> (b: bool)
    requires
        i + 3 <= v@.len(),
    ensures
        b == (v@.subrange(i as int, i + 3) == fence()),
{
    let r = v[i] == '`' && v[i + 1] == '`' && v[i + 2] == '`';
    if r {
        assert(v@.subrange(i as int, i + 3) =~= fence());
    } else {
        assert(v@.subrange(i as int, i + 3)[0] == v@[i as int]);
        assert(v@.subrange(i as int, i + 3)[1] == v@[i + 1]);
        assert(v@.subrange(i as int, i + 3)[2] == v@[i + 2]);
    }
    r
}

/// Removes an enclosing Markdown code fence.
fn strip_code_fence(text: &[char]) -> (r: Vec<char>)
    ensures
        r@ == strip_code_fence_s(text@),
{
    let t = trim(text);
    let after = if t.len() >= 3 && is_fence_at(t.as_slice(), 0) {
        assert(t@.take(3) =~= t@.subrange(0, 3));
        let rest = subvec(t.as_slice(), 3, t.len());
        assert(rest@ =~= t@.skip(3));
        proof {
            lemma_idx_of(rest@, '\n', 0);
        }
        let k = idx_of_exec(rest.as_slice(), '\n', 0);
        if k < rest.len() {
            let a = subvec(rest.as_slice(), k + 1, rest.len());
            assert(a@ =~= rest@.skip(k + 1));
            a
        } else {
            rest
        }
    } else {
        proof {
            if t@.len() >= 3 {
                assert(t@.subrange(0, 3) =~= t@.take(3));
            }
        }
        t
    };
    let s = trim(after.as_slice());
    let mut n = s.len();
    assert(s@.take(n as int) =~= s@);
    while n >= 3 && is_fence_at(s.as_slice(), n - 3)
        invariant
            n <= s@.len(),
            strip_fences_end(s@.take(n as int)) == strip_fences_end(trim_s(after@)),
        decreases n,
    {
        assert(s@.take(n as int).subrange(n - 3, n as int) =~= s@.subrange(n - 3, n as int));
        assert(s@.take(n as int).take(n - 3) =~= s@.take(n - 3));
        n = n - 3;
    }
    proof {
        if n >= 3 {
            assert(s@.take(n as int).subrange(n - 3, n as int) =~= s@.subrange(n - 3, n as int));
        }
    }
    let body = subvec(s.as_slice(), 0, n);
    assert(body@ =~= s@.take(n as int));
    trim(body.as_slice())
}

// ---------------------------------------------------------------- JSON in a reply

/// The JSON object read from the start of `s` (text may follow it), if one can be.
pub uninterp spec fn json_object_prefix(s: Seq<char>) -> Option<serde_json::Value>;

/// Reads one JSON value from the start of `s` with `serde_json::Deserializer::from_str`
/// and `Value::deserialize`, keeping it when it is an object. Claimed: the result is
/// `json_object_prefix` of `s`, a function of the text alone; what it holds is not
/// spelt out.
#[verifier::external_body]
fn object_prefix(s: &str) -> (r: Option<serde_json::Value>)
    ensures
        r == json_object_prefix(s@),
{
    let mut de = serde_json::Deserializer::from_str(s);
    match <serde_json::Value as serde::Deserialize>::deserialize(&mut de) {
        Ok(serde_json::Value::Object(map)) => Some(serde_json::Value::Object(map)),
        Ok(_) => None,
        Err(_) => None,
    }
}

/// The cleaned reply in which a JSON object is looked for.
pub open spec fn json_search_text(text: Seq<char>) -> Seq<char> {
    strip_code_fence_s(trim_s(text))
}

/// Whether a JSON object starts at `i` of `c`.
pub open spec fn object_at(c: Seq<char>, i: int) -> bool {
    0 <= i < c.len() && c[i] == '{' && json_object_prefix(c.subrange(i, c.len() as int)) is Some
}

/// The first index from `i` on at which a JSON object starts.
pub open spec fn first_object_from(c: Seq<char>, i: int) -> Option<int>
    decreases c.len() - i,
{
    if i < 0 || i >= c.len() {
        None
    } else if object_at(c, i) {
        Some(i)
    } else {
        first_object_from(c, i + 1)
    }
}

proof fn lemma_first_object_from(c: Seq<char>, i: int)
    requires
        0 <= i <= c.len(),
    ensures
        match first_object_from(c, i) {
            Some(k) => i <= k < c.len() && object_at(c, k) && forall|j: int| i <= j < k ==> !object_at(c, j),
            None => forall|j: int| i <= j < c.len() ==> !object_at(c, j),
        },
    decreases c.len() - i,
{
    if i < c.len() && !object_at(c, i) {
        lemma_first_object_from(c, i + 1);
    }
}

/// Where the first JSON object of a reply starts: its index in the cleaned
/// reply (trimmed, code fence removed); none for a blank reply.
pub open spec fn first_object_s(text: Seq<char>) -> Option<int> {
    if trim_s(text).len() == 0 {
        None
    } else {
        first_object_from(json_search_text(text), 0)
    }
}

/// Index, in the cleaned reply, of the first `{` at which a JSON object can be
/// read: no object starts before it.
pub fn first_object_at(text: &str) -> (r: Option<usize>)
    ensures
        r matches Some(i) ==> first_object_s(text@) == Some(i as int),
        r is None ==> first_object_s(text@) is None,
        r matches Some(i) ==> object_at(json_search_text(text@), i as int) && forall|k: int|
            0 <= k < i ==> !object_at(json_search_text(text@), k),
        r is Some <==> (trim_s(text@).len() > 0 && exists|i: int|
            object_at(json_search_text(text@), i)),
{
    let t = trim_str(text);
    if t.len() == 0 {
        return None;
    }
    let cleaned = strip_code_fence(t.as_slice());
    let ghost c = cleaned@;
    proof {
        lemma_first_object_from(c, 0);
    }
    let mut i: usize = 0;
    while i < cleaned.len()
        invariant
            i <= c.len(),
            c == cleaned@,
            c == json_search_text(text@),
            trim_s(text@).len() > 0,
            first_object_from(c, i as int) == first_object_from(c, 0),
            forall|k: int| 0 <= k < i ==> !object_at(c, k),
        decreases c.len() - i,
    {
        if cleaned[i] == '{' {
            let rest = subvec(cleaned.as_slice(), i, cleaned.len());
            let s = string_of(rest.as_slice());
            let v = object_prefix(s.as_str());
            if v.is_some() {
                assert(object_at(c, i as int));
                return Some(i);
            }
        }
        i = i + 1;
    }
    None
}

/// The object read from the cleaned reply at the first index where one can be.
pub open spec fn first_object_value(text: Seq<char>) -> Option<serde_json::Value> {
    match first_object_s(text) {
        Some(i) => json_object_prefix(json_search_text(text).subrange(i, json_search_text(text).len() as int)),
        None => None,
    }
}

/// The first JSON object in a model's reply, tolerating code fences and text
/// around it: the object read at `first_object_at`.
pub fn extract_json_object(text: &str) -> (r: Option<serde_json::Value>)
    ensures
        r == first_object_value(text@),
        r is Some <==> first_object_s(text@) is Some,
        r is Some <==> (trim_s(text@).len() > 0 && exists|i: int|
            object_at(json_search_text(text@), i)),
{
    match first_object_at(text) {
        None => None,
        Some(i) => {
            let t = trim_str(text);
            let cleaned = strip_code_fence(t.as_slice());
            let rest = subvec(cleaned.as_slice(), i, cleaned.len());
            let s = string_of(rest.as_slice());
            let v = object_prefix(s.as_str());
            v
        },
    }
}

// ---------------------------------------------------------------- transcript segments

/// Keeps a segment only when it is not empty.
pub open spec fn keep_nonempty(done: Seq<Seq<char>>, c: Seq<char>) -> Seq<Seq<char>> {
    if c.len() > 0 {
        done.push(c)
    } else {
        done
    }
}

/// A closed segment: its lines joined and trimmed.
pub open spec fn segment_text(cur: Seq<Seq<char>>) -> Seq<char> {
    trim_s(join_s(cur, seq!['\n']))
}

/// Segments after the first `n` lines: the closed ones, the open one and its
/// size (each line counts its characters and one more).
pub open spec fn segments_upto(ls: Seq<Seq<char>>, cc: int, n: int) -> (
    Seq<Seq<char>>,
    Seq<Seq<char>>,
    int,
)
    decreases n,
{
    if n <= 0 || n > ls.len() {
        (seq![], seq![], 0)
    } else {
        let (done, cur, len) = segments_upto(ls, cc, n - 1);
        let ll = ls[n - 1].len() + 1int;
        if cur.len() > 0 && len + ll > cc {
            (keep_nonempty(done, segment_text(cur)), seq![ls[n - 1]], ll)
        } else {
            (done, cur.push(ls[n - 1]), len + ll)
        }
    }
}

/// Meaning of `split_transcript`: the whole text when it is short enough, else
/// its lines packed greedily into segments of at most `cc` counted characters
/// (a longer line stands alone), empty segments dropped.
pub open spec fn split_transcript_s(t: Seq<char>, cc: int) -> Seq<Seq<char>> {
    if t.len() <= cc {
        seq![t]
    } else {
        let ls = lines_s(t);
        let (done, cur, len) = segments_upto(ls, cc, ls.len() as int);
        if cur.len() > 0 {
            keep_nonempty(done, segment_text(cur))
        } else {
            done
        }
    }
}

proof fn lemma_lines_len(s: Seq<char>, i: int)
    requires
        0 <= i <= s.len(),
    ensures
        forall|k: int| 0 <= k < lines_from(s, i).len() ==> #[trigger] lines_from(s, i)[k].len() <= s.len(),
    decreases s.len() - i,
{
    if i < s.len() {
        lemma_idx_of(s, '\n', i);
        let k = idx_of(s, '\n', i);
        if k < s.len() && i <= k {
            lemma_lines_len(s, k + 1);
            let rest = lines_from(s, k + 1);
            assert(lines_from(s, i) == seq![strip_cr(s.subrange(i, k))] + rest);
            assert forall|m: int| 0 <= m < lines_from(s, i).len() implies #[trigger] lines_from(
                s,
                i,
            )[m].len() <= s.len() by {
                if m > 0 {
                    assert(lines_from(s, i)[m] == rest[m - 1]);
                }
            }
        }
    }
}

fn segment_of(cur: &Vec<Vec<char>>) -> (r: Vec<char>)
    ensures
        r@ == segment_text(views(cur@)),
{
    let sep: Vec<char> = vec!['\n'];
    assert(sep@ =~= seq!['\n']);
    let j = crate::text::join(cur, sep.as_slice());
    trim(j.as_slice())
}

/// Splits a transcript into segments of about `chunk_chars` characters,
/// keeping lines whole.
pub fn split_transcript(transcript: &str, chunk_chars: usize) -> (r: Vec<String>)
    requires
        transcript@.len() < usize::MAX,
    ensures
        str_views(r@) == split_transcript_s(transcript@, chunk_chars as int),
{
    let t = chars_of(transcript);
    if t.len() <= chunk_chars {
        let mut r: Vec<String> = Vec::new();
        r.push(string_of(t.as_slice()));
        assert(str_views(r@) =~= seq![transcript@]);
        return r;
    }
    let ls = lines(t.as_slice());
    let ghost lv = views(ls@);
    proof {
        lemma_lines_len(t@, 0);
    }
    let mut done: Vec<Vec<char>> = Vec::new();
    let mut cur: Vec<Vec<char>> = Vec::new();
    let mut len: usize = 0;
    let mut i: usize = 0;
    while i < ls.len()
        invariant
            i <= ls@.len(),
            lv == views(ls@),
            lv == lines_s(t@),
            t@ == transcript@,
            t@.len() < usize::MAX,
            forall|k: int| 0 <= k < lv.len() ==> #[trigger] lv[k].len() <= t@.len(),
            (views(done@), views(cur@), len as int) == segments_upto(lv, chunk_chars as int, i as int),
        decreases ls@.len() - i,
    {
        assert(lv[i as int] == ls@[i as int]@);
        let ll = ls[i].len() + 1;
        let ghost pd = views(done@);
        let ghost pc = views(cur@);
        if cur.len() > 0 && (len > chunk_chars || ll > chunk_chars - len) {
            let seg = segment_of(&cur);
            if seg.len() > 0 {
                done.push(seg);
                assert(views(done@) =~= pd.push(segment_text(pc)));
            }
            cur = Vec::new();
            cur.push(subvec(ls[i].as_slice(), 0, ls[i].len()));
            assert(ls@[i as int]@.subrange(0, ls@[i as int]@.len() as int) =~= ls@[i as int]@);
            assert(views(cur@) =~= seq![lv[i as int]]);
            len = ll;
        } else {
            cur.push(subvec(ls[i].as_slice(), 0, ls[i].len()));
            assert(ls@[i as int]@.subrange(0, ls@[i as int]@.len() as int) =~= ls@[i as int]@);
            assert(views(cur@) =~= pc.push(lv[i as int]));
            len = len + ll;
        }
        i = i + 1;
    }
    if cur.len() > 0 {
        let ghost pd = views(done@);
        let seg = segment_of(&cur);
        if seg.len() > 0 {
            done.push(seg);
            assert(views(done@) =~= pd.push(segment_text(views(cur@))));
        }
    }
    let r = crate::text::strings_of(&done);
    assert(str_views(r@) =~= views(done@));
    r
}

// ---------------------------------------------------------------- prompts

/// `"未提供"` ("not given").
pub open spec fn not_given() -> Seq<char> {
    "未提供"@
}

/// Meaning of `minutes_user_prompt`.
pub open spec fn minutes_user_prompt_s(
    title: Seq<char>,
    meeting_date: Option<Seq<char>>,
    participants: Seq<Seq<char>>,
    transcript: Seq<char>,
) -> Seq<char> {
    let t = if trim_s(title).len() == 0 {
        not_given()
    } else {
        trim_s(title)
    };
    let d = match meeting_date {
        Some(d) => d,
        None => not_given(),
    };
    let p = if participants.len() == 0 {
        not_given()
    } else {
        join_s(participants, "、"@)
    };
    "【会议信息】\n标题："@ + t + "\n日期："@ + d + "\n参会人："@ + p + "\n\n【转写原文】\n"@ + transcript
        + "\n"@
}

/// The user message asking for minutes of a transcript.
pub fn minutes_user_prompt(
    title: &str,
    meeting_date: Option<&str>,
    participants: &[String],
    transcript: &str,
) -> (r: String)
    ensures
        r@ == minutes_user_prompt_s(
            title@,
            match meeting_date {
                Some(d) => Some(d@),
                None => None,
            },
            str_views(participants@),
            transcript@,
        ),
{
    let mut out = chars_of("【会议信息】\n标题：");
    let t = trim_str(title);
    if t.len() == 0 {
        append_str(&mut out, "未提供");
    } else {
        append(&mut out, t.as_slice());
    }
    append_str(&mut out, "\n日期：");
    match meeting_date {
        Some(d) => append_str(&mut out, d),
        None => append_str(&mut out, "未提供"),
    }
    append_str(&mut out, "\n参会人：");
    if participants.len() == 0 {
        append_str(&mut out, "未提供");
    } else {
        let ps = crate::text::char_vecs(participants);
        let j = join_str(&ps, "、");
        append(&mut out, j.as_slice());
    }
    append_str(&mut out, "\n\n【转写原文】\n");
    append_str(&mut out, transcript);
    append_str(&mut out, "\n");
    string_of(out.as_slice())
}

// ---------------------------------------------------------------- Markdown

/// `"（无）"`, written where a section has nothing.
pub open spec fn none_mark() -> Seq<char> {
    "（无）"@
}

/// Bullet lines: `- ` and the trimmed item.
pub open spec fn bullets_s(items: Seq<Seq<char>>) -> Seq<Seq<char>> {
    Seq::new(items.len(), |i: int| "- "@ + trim_s(items[i]))
}

/// Numbered lines: `1. ` and the trimmed item, counting from one.
pub open spec fn numbered_s(items: Seq<Seq<char>>) -> Seq<Seq<char>> {
    Seq::new(items.len(), |i: int| dec_s((i + 1) as nat) + ". "@ + trim_s(items[i]))
}

/// `|` escaped as `\|`.
pub open spec fn escape_bars(s: Seq<char>) -> Seq<char>
    decreases s.len(),
{
    if s.len() == 0 {
        seq![]
    } else {
        escape_bars(s.drop_last()) + if s.last() == '|' {
            seq!['\\', '|']
        } else {
            seq![s.last()]
        }
    }
}

/// The value, or `—` when absent.
pub open spec fn or_dash(o: Option<String>) -> Seq<char> {
    match o {
        Some(s) => s@,
        None => "—"@,
    }
}

/// Title and metadata lines.
pub open spec fn head_s(m: Minutes) -> Seq<Seq<char>> {
    let date = match m.meeting_date {
        Some(d) => if trim_s(d@).len() > 0 {
            seq!["**日期**："@ + trim_s(d@)]
        } else {
            seq![]
        },
        None => seq![],
    };
    let people = if m.participants@.len() > 0 {
        seq!["**参会人**："@ + join_s(str_views(m.participants@), "、"@)]
    } else {
        seq![]
    };
    let meta = date + people;
    seq!["# "@ + trim_s(m.title@), seq![]] + if meta.len() > 0 {
        meta.push(seq![])
    } else {
        seq![]
    }
}

/// Overview section.
pub open spec fn overview_s(m: Minutes) -> Seq<Seq<char>> {
    seq![
        "## 一、会议摘要"@,
        seq![],
        if trim_s(m.overview@).len() == 0 {
            none_mark()
        } else {
            trim_s(m.overview@)
        },
        seq![],
    ]
}

/// The block of the topic at index `i`.
pub open spec fn topic_block(i: int, t: Topic) -> Seq<Seq<char>> {
    seq!["### "@ + dec_s((i + 1) as nat) + ". "@ + trim_s(t.title@), seq![]] + bullets_s(
        str_views(t.points@),
    ) + seq![seq![]]
}

/// Blocks of the first `n` topics.
pub open spec fn topics_upto(ts: Seq<Topic>, n: int) -> Seq<Seq<char>>
    decreases n,
{
    if n <= 0 || n > ts.len() {
        seq![]
    } else {
        topics_upto(ts, n - 1) + topic_block(n - 1, ts[n - 1])
    }
}

/// Topics section.
pub open spec fn topics_s(m: Minutes) -> Seq<Seq<char>> {
    seq!["## 二、议题与讨论"@, seq![]] + if m.topics@.len() == 0 {
        seq![none_mark(), seq![]]
    } else {
        topics_upto(m.topics@, m.topics@.len() as int)
    }
}

/// Decisions section.
pub open spec fn decisions_s(m: Minutes) -> Seq<Seq<char>> {
    seq!["## 三、决议事项"@, seq![]] + (if m.decisions@.len() == 0 {
        seq![none_mark()]
    } else {
        numbered_s(str_views(m.decisions@))
    }) + seq![seq![]]
}

/// The table row of the action item at index `i`.
pub open spec fn action_row(i: int, a: ActionItem) -> Seq<char> {
    "| "@ + dec_s((i + 1) as nat) + " | "@ + trim_s(escape_bars(a.task@)) + " | "@ + trim_s(
        or_dash(a.owner),
    ) + " | "@ + trim_s(or_dash(a.due)) + " |"@
}

/// Action items section.
pub open spec fn actions_s(m: Minutes) -> Seq<Seq<char>> {
    seq!["## 四、待办事项"@, seq![]] + (if m.action_items@.len() == 0 {
        seq![none_mark()]
    } else {
        seq!["| 序号 | 待办事项 | 责任人 | 期限 |"@, "| --- | --- | --- | --- |"@] + Seq::new(
            m.action_items@.len(),
            |i: int| action_row(i, m.action_items@[i]),
        )
    }) + seq![seq![]]
}

/// An optional bulleted section: absent when there are no items.
pub open spec fn optional_s(heading: Seq<char>, items: Seq<Seq<char>>) -> Seq<Seq<char>> {
    if items.len() == 0 {
        seq![]
    } else {
        seq![heading, seq![]] + bullets_s(items) + seq![seq![]]
    }
}

/// All lines of the rendering.
pub open spec fn render_lines_s(m: Minutes) -> Seq<Seq<char>> {
    head_s(m) + overview_s(m) + topics_s(m) + decisions_s(m) + actions_s(m) + optional_s(
        "## 五、风险与遗留问题"@,
        str_views(m.risks@),
    ) + optional_s("## 六、下一步计划"@, str_views(m.next_steps@))
}

/// Meaning of `render_markdown`: the lines joined by newlines, trailing
/// whitespace removed, one final newline.
pub open spec fn render_markdown_s(m: Minutes) -> Seq<char> {
    trim_end_s(join_s(render_lines_s(m), "\n"@)).push('\n')
}

fn push_line(lines: &mut Vec<Vec<char>>, l: Vec<char>)
    ensures
        views(final(lines)@) == views(old(lines)@).push(l@),
{
    lines.push(l);
    assert(views(lines@) =~= views(old(lines)@).push(l@));
}

fn push_lit(lines: &mut Vec<Vec<char>>, l: &str)
    ensures
        views(final(lines)@) == views(old(lines)@).push(l@),
{
    push_line(lines, chars_of(l));
}

fn extend_lines(dst: &mut Vec<Vec<char>>, src: Vec<Vec<char>>)
    ensures
        views(final(dst)@) == views(old(dst)@) + views(src@),
{
    let mut i: usize = 0;
    while i < src.len()
        invariant
            i <= src@.len(),
            views(dst@) == views(old(dst)@) + views(src@).take(i as int),
        decreases src@.len() - i,
    {
        let ghost before = views(dst@);
        push_line(dst, crate::text::copy_chars(src[i].as_slice()));
        assert(views(old(dst)@) + views(src@).take(i + 1) =~= before.push(src@[i as int]@));
        i = i + 1;
    }
    assert(views(src@).take(src@.len() as int) =~= views(src@));
}

fn prefixed(p: &str, s: &str) -> (r: Vec<char>)
    ensures
        r@ == p@ + trim_s(s@),
{
    let mut l = chars_of(p);
    let t = trim_str(s);
    append(&mut l, t.as_slice());
    l
}

fn bullets(items: &Vec<String>) -> (r: Vec<Vec<char>>)
    ensures
        views(r@) == bullets_s(str_views(items@)),
{
    let mut r: Vec<Vec<char>> = Vec::new();
    let mut i: usize = 0;
    while i < items.len()
        invariant
            i <= items@.len(),
            views(r@) == bullets_s(str_views(items@)).take(i as int),
        decreases items@.len() - i,
    {
        let ghost before = views(r@);
        push_line(&mut r, prefixed("- ", items[i].as_str()));
        assert(views(r@) =~= bullets_s(str_views(items@)).take(i + 1));
        i = i + 1;
    }
    assert(bullets_s(str_views(items@)).take(items@.len() as int) =~= bullets_s(
        str_views(items@),
    ));
    r
}

fn numbered(items: &Vec<String>) -> (r: Vec<Vec<char>>)
    ensures
        views(r@) == numbered_s(str_views(items@)),
{
    let mut r: Vec<Vec<char>> = Vec::new();
    let mut i: usize = 0;
    while i < items.len()
        invariant
            i <= items@.len(),
            views(r@) == numbered_s(str_views(items@)).take(i as int),
        decreases items@.len() - i,
    {
        let mut l = dec((i + 1) as u64);
        append_str(&mut l, ". ");
        let t = trim_str(items[i].as_str());
        append(&mut l, t.as_slice());
        push_line(&mut r, l);
        assert(views(r@) =~= numbered_s(str_views(items@)).take(i + 1));
        i = i + 1;
    }
    assert(numbered_s(str_views(items@)).take(items@.len() as int) =~= numbered_s(
        str_views(items@),
    ));
    r
}

fn escape_bars_exec(s: &str) -> (r: Vec<char>)
    ensures
        r@ == escape_bars(s@),
{
    let v = chars_of(s);
    let mut r: Vec<char> = Vec::new();
    let mut i: usize = 0;
    while i < v.len()
        invariant
            i <= v@.len(),
            v@ == s@,
            r@ == escape_bars(v@.take(i as int)),
        decreases v@.len() - i,
    {
        assert(v@.take(i + 1).drop_last() =~= v@.take(i as int));
        if v[i] == '|' {
            r.push('\\');
            r.push('|');
        } else {
            r.push(v[i]);
        }
        assert(r@ =~= escape_bars(v@.take(i + 1)));
        i = i + 1;
    }
    assert(v@.take(v@.len() as int) =~= v@);
    r
}

fn or_dash_exec(o: &Option<String>) -> (r: Vec<char>)
    ensures
        r@ == or_dash(*o),
{
    match o {
        Some(s) => chars_of(s.as_str()),
        None => chars_of("—"),
    }
}

fn head_lines(m: &Minutes) -> (r: Vec<Vec<char>>)
    ensures
        views(r@) == head_s(*m),
{
    let mut meta: Vec<Vec<char>> = Vec::new();
    match &m.meeting_date {
        Some(d) => {
            let t = trim_str(d.as_str());
            if t.len() > 0 {
                let mut l = chars_of("**日期**：");
                append(&mut l, t.as_slice());
                push_line(&mut meta, l);
            }
        },
        None => {},
    }
    let ghost date = views(meta@);
    if m.participants.len() > 0 {
        let mut l = chars_of("**参会人**：");
        let ps = crate::text::char_vecs(m.participants.as_slice());
        let j = join_str(&ps, "、");
        append(&mut l, j.as_slice());
        push_line(&mut meta, l);
    }
    let mut r: Vec<Vec<char>> = Vec::new();
    push_line(&mut r, prefixed("# ", m.title.as_str()));
    push_line(&mut r, Vec::new());
    if meta.len() > 0 {
        push_line(&mut meta, Vec::new());
        extend_lines(&mut r, meta);
    }
    r
}

fn overview_lines(m: &Minutes) -> (r: Vec<Vec<char>>)
    ensures
        views(r@) == overview_s(*m),
{
    let mut r: Vec<Vec<char>> = Vec::new();
    push_lit(&mut r, "## 一、会议摘要");
    push_line(&mut r, Vec::new());
    let t = trim_str(m.overview.as_str());
    if t.len() == 0 {
        push_lit(&mut r, "（无）");
    } else {
        push_line(&mut r, t);
    }
    push_line(&mut r, Vec::new());
    assert(views(r@) =~= overview_s(*m));
    r
}

fn topic_lines(m: &Minutes) -> (r: Vec<Vec<char>>)
    ensures
        views(r@) == topics_s(*m),
{
    let mut r: Vec<Vec<char>> = Vec::new();
    push_lit(&mut r, "## 二、议题与讨论");
    push_line(&mut r, Vec::new());
    if m.topics.len() == 0 {
        push_lit(&mut r, "（无）");
        push_line(&mut r, Vec::new());
        assert(views(r@) =~= topics_s(*m));
        return r;
    }
    let ghost head = views(r@);
    let mut i: usize = 0;
    while i < m.topics.len()
        invariant
            i <= m.topics@.len(),
            views(r@) == head + topics_upto(m.topics@, i as int),
        decreases m.topics@.len() - i,
    {
        let ghost before = views(r@);
        let topic = &m.topics[i];
        let mut block: Vec<Vec<char>> = Vec::new();
        let mut l = chars_of("### ");
        let n = dec((i + 1) as u64);
        append(&mut l, n.as_slice());
        append_str(&mut l, ". ");
        let t = trim_str(topic.title.as_str());
        append(&mut l, t.as_slice());
        push_line(&mut block, l);
        push_line(&mut block, Vec::new());
        let bs = bullets(&topic.points);
        extend_lines(&mut block, bs);
        push_line(&mut block, Vec::new());
        assert(views(block@) =~= topic_block(i as int, m.topics@[i as int]));
        extend_lines(&mut r, block);
        assert(views(r@) =~= head + topics_upto(m.topics@, i + 1));
        i = i + 1;
    }
    r
}

fn decision_lines(m: &Minutes) -> (r: Vec<Vec<char>>)
    ensures
        views(r@) == decisions_s(*m),
{
    let mut r: Vec<Vec<char>> = Vec::new();
    push_lit(&mut r, "## 三、决议事项");
    push_line(&mut r, Vec::new());
    if m.decisions.len() == 0 {
        push_lit(&mut r, "（无）");
    } else {
        let ns = numbered(&m.decisions);
        extend_lines(&mut r, ns);
    }
    push_line(&mut r, Vec::new());
    assert(views(r@) =~= decisions_s(*m));
    r
}

fn action_row_exec(i: usize, a: &ActionItem) -> (r: Vec<char>)
    requires
        i < usize::MAX,
    ensures
        r@ == action_row(i as int, *a),
{
    let mut l = chars_of("| ");
    let n = dec((i + 1) as u64);
    append(&mut l, n.as_slice());
    append_str(&mut l, " | ");
    let task = escape_bars_exec(a.task.as_str());
    let t = trim(task.as_slice());
    append(&mut l, t.as_slice());
    append_str(&mut l, " | ");
    let o = or_dash_exec(&a.owner);
    let ot = trim(o.as_slice());
    append(&mut l, ot.as_slice());
    append_str(&mut l, " | ");
    let d = or_dash_exec(&a.due);
    let dt = trim(d.as_slice());
    append(&mut l, dt.as_slice());
    append_str(&mut l, " |");
    l
}

fn action_lines(m: &Minutes) -> (r: Vec<Vec<char>>)
    ensures
        views(r@) == actions_s(*m),
{
    let mut r: Vec<Vec<char>> = Vec::new();
    push_lit(&mut r, "## 四、待办事项");
    push_line(&mut r, Vec::new());
    if m.action_items.len() == 0 {
        push_lit(&mut r, "（无）");
    } else {
        push_lit(&mut r, "| 序号 | 待办事项 | 责任人 | 期限 |");
        push_lit(&mut r, "| --- | --- | --- | --- |");
        let ghost head = views(r@);
        let ghost rows = Seq::new(
            m.action_items@.len(),
            |k: int| action_row(k, m.action_items@[k]),
        );
        let mut i: usize = 0;
        while i < m.action_items.len()
            invariant
                i <= m.action_items@.len(),
                rows == Seq::new(
                    m.action_items@.len(),
                    |k: int| action_row(k, m.action_items@[k]),
                ),
                views(r@) == head + rows.take(i as int),
            decreases m.action_items@.len() - i,
        {
            let l = action_row_exec(i, &m.action_items[i]);
            push_line(&mut r, l);
            assert(views(r@) =~= head + rows.take(i + 1));
            i = i + 1;
        }
        assert(rows.take(rows.len() as int) =~= rows);
    }
    push_line(&mut r, Vec::new());
    assert(views(r@) =~= actions_s(*m));
    r
}

fn optional_lines(heading: &str, items: &Vec<String>) -> (r: Vec<Vec<char>>)
    ensures
        views(r@) == optional_s(heading@, str_views(items@)),
{
    let mut r: Vec<Vec<char>> = Vec::new();
    if items.len() == 0 {
        assert(views(r@) =~= optional_s(heading@, str_views(items@)));
        return r;
    }
    push_lit(&mut r, heading);
    push_line(&mut r, Vec::new());
    let bs = bullets(items);
    extend_lines(&mut r, bs);
    push_line(&mut r, Vec::new());
    assert(views(r@) =~= optional_s(heading@, str_views(items@)));
    r
}

/// Renders minutes as Markdown: title and metadata, overview, numbered
/// topics, decisions, an action table (`|` in a task escaped), and the risk
/// and next-step sections when they have items; `（无）` marks an empty section.
pub fn render_markdown(m: &Minutes) -> (r: String)
    ensures
        r@ == render_markdown_s(*m),
        (match m.meeting_date {
            Some(d) => trim_s(d@).len() > 0 ==> crate::text::contains_s(r@, "\n"@ + "**日期**："@ + trim_s(d@) + "\n"@),
            None => true,
        }),
        (match m.meeting_date {
            Some(d) => trim_s(d@).len() > 0 ==> starts_with_s(
                r@,
                "# "@ + trim_s(m.title@) + "\n"@ + "\n"@ + "**日期**："@ + trim_s(d@) + "\n"@,
            ),
            None => true,
        }),
{
    proof {
        crate::render_law::lemma_render_date_line(*m);
    }
    let mut lines = head_lines(m);
    extend_lines(&mut lines, overview_lines(m));
    extend_lines(&mut lines, topic_lines(m));
    extend_lines(&mut lines, decision_lines(m));
    extend_lines(&mut lines, action_lines(m));
    extend_lines(&mut lines, optional_lines("## 五、风险与遗留问题", &m.risks));
    extend_lines(&mut lines, optional_lines("## 六、下一步计划", &m.next_steps));
    let out = join_str(&lines, "\n");
    let mut t = trim_end(out.as_slice());
    t.push('\n');
    string_of(t.as_slice())
}

// ---------------------------------------------------------------- a minutes run

/// Why minutes could not be made.
#[derive(Debug, Clone, Copy, PartialEq, Eq, Structural)]
pub enum MinutesError {
    /// the meeting has no transcript yet
    NoTranscript,
    /// the transcript has this many characters, more than allowed
    TooLong(usize),
}

impl MinutesError {
    /// A message for the user.
    pub fn message(&self) -> (r: String)
        ensures
            r@ == match *self {
                MinutesError::NoTranscript => "这场会议还没有转写文本，请先转写"@,
                MinutesError::TooLong(n) => "转写文本过长（"@ + dec_s(n as nat) + " 字），上限 "@ + dec_s(
                    MAX_TRANSCRIPT_CHARS as nat,
                ) + " 字"@,
            },
    {
        match self {
            MinutesError::NoTranscript => string_of(chars_of("这场会议还没有转写文本，请先转写").as_slice()),
            MinutesError::TooLong(n) => {
                let mut v = chars_of("转写文本过长（");
                append(&mut v, dec(*n as u64).as_slice());
                append_str(&mut v, " 字），上限 ");
                append(&mut v, dec(MAX_TRANSCRIPT_CHARS as u64).as_slice());
                append_str(&mut v, " 字");
                string_of(v.as_slice())
            },
        }
    }
}

/// The transcript a minutes run works on: trimmed, not empty, not too long.
pub fn prepare_transcript(transcript: &str) -> (r: Result<String, MinutesError>)
    ensures
        trim_s(transcript@).len() == 0 ==> r == Err::<String, MinutesError>(MinutesError::NoTranscript),
        trim_s(transcript@).len() > MAX_TRANSCRIPT_CHARS ==> r == Err::<String, MinutesError>(
            MinutesError::TooLong(trim_s(transcript@).len() as usize),
        ),
        0 < trim_s(transcript@).len() <= MAX_TRANSCRIPT_CHARS ==> r is Ok && r->Ok_0@ == trim_s(
            transcript@,
        ),
{
    let t = trim_str(transcript);
    if t.len() == 0 {
        return Err(MinutesError::NoTranscript);
    }
    if t.len() > MAX_TRANSCRIPT_CHARS {
        return Err(MinutesError::TooLong(t.len()));
    }
    Ok(string_of(t.as_slice()))
}

/// Whether a transcript is summarized segment by segment.
pub fn uses_map_reduce(transcript: &str) -> (b: bool)
    ensures
        b == (transcript@.len() >= MAP_REDUCE_THRESHOLD_CHARS),
{
    transcript.unicode_len() >= MAP_REDUCE_THRESHOLD_CHARS
}

/// The user message for segment `i` (from zero) of `n`.
pub fn chunk_prompt(i: usize, n: usize, chunk: &str) -> (r: String)
    requires
        i < usize::MAX,
    ensures
        r@ == "【片段序号】第 "@ + dec_s((i + 1) as nat) + " / "@ + dec_s(n as nat) + " 段\n【片段原文】\n"@
            + chunk@,
{
    let mut v = chars_of("【片段序号】第 ");
    append(&mut v, dec((i + 1) as u64).as_slice());
    append_str(&mut v, " / ");
    append(&mut v, dec(n as u64).as_slice());
    append_str(&mut v, " 段\n【片段原文】\n");
    append_str(&mut v, chunk);
    string_of(v.as_slice())
}

/// The user message that merges the segment extractions (their JSON text,
/// cut to the transcript limit).
pub fn merge_prompt(title: &str, partials_json: &str) -> (r: String)
    ensures
        r@ == minutes_user_prompt_s(
            title@,
            None,
            seq![],
            "以下是按时间顺序的分段抽取结果：\n"@ + crate::text::take_chars(
                partials_json@,
                MAX_TRANSCRIPT_CHARS as nat,
            ),
        ),
{
    let mut v = chars_of("以下是按时间顺序的分段抽取结果：\n");
    append(&mut v, crate::text::take_chars_exec(chars_of(partials_json).as_slice(), MAX_TRANSCRIPT_CHARS).as_slice());
    let t = string_of(v.as_slice());
    let none: Vec<String> = Vec::new();
    assert(str_views(none@) =~= seq![]);
    minutes_user_prompt(title, None, none.as_slice(), t.as_str())
}

/// The request to repair output that was not the expected JSON: the parse
/// error and at most 6000 characters of the output.
pub fn repair_prompt(err: &str, content: &str) -> (r: String)
    ensures
        r@ == "你上一步的输出不是合法的目标 JSON，解析失败。\n\n【解析错误】\n"@ + err@ + "\n\n【你上一步的输出】\n"@
            + crate::text::take_chars(content@, REPAIR_PREVIEW_CHARS as nat)
            + "\n\n请严格按之前约定的 JSON 结构重新输出，只输出 JSON 对象本身，不要任何解释或 Markdown 代码块。"@,
{
    let mut v = chars_of("你上一步的输出不是合法的目标 JSON，解析失败。\n\n【解析错误】\n");
    append_str(&mut v, err);
    append_str(&mut v, "\n\n【你上一步的输出】\n");
    append(&mut v, crate::text::take_chars_exec(chars_of(content).as_slice(), REPAIR_PREVIEW_CHARS).as_slice());
    append_str(
        &mut v,
        "\n\n请严格按之前约定的 JSON 结构重新输出，只输出 JSON 对象本身，不要任何解释或 Markdown 代码块。",
    );
    string_of(v.as_slice())
}

/// Error text when no JSON object was found in a reply.
pub const NO_JSON_MESSAGE: &'static str = "输出中找不到合法 JSON 对象";

/// Error text when the JSON has none of the fields that make minutes.
pub const EMPTY_MINUTES_MESSAGE: &'static str = "JSON 缺少 title/overview/topics 等有效字段";

/// Whether parsed minutes say anything: a title, an overview or a topic.
pub open spec fn minutes_usable(m: Minutes) -> bool {
    !(trim_s(m.title@).len() == 0 && trim_s(m.overview@).len() == 0 && m.topics@.len() == 0)
}

/// Parsed minutes accepted, or the reason they are not.
pub fn check_minutes(m: Minutes) -> (r: (Option<Minutes>, Option<String>))
    ensures
        minutes_usable(m) ==> r.0 == Some(m) && r.1 is None,
        !minutes_usable(m) ==> r.0 is None && r.1 is Some && r.1->0@ == EMPTY_MINUTES_MESSAGE@,
{
    if trim_str(m.title.as_str()).len() == 0 && trim_str(m.overview.as_str()).len() == 0
        && m.topics.len() == 0 {
        (None, Some(string_of(chars_of(EMPTY_MINUTES_MESSAGE).as_slice())))
    } else {
        (Some(m), None)
    }
}

} // verus!
