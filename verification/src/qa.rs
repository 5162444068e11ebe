//! Answers from the local notes: the prompt built from retrieved passages,
//! and the answer given when nothing was found.
use vstd::prelude::*;
use crate::models::{truncate_s, ChatMessage};
use crate::text::{append, append_str, chars_of, dec, dec_s, string_of, trim_s, trim_str};

verus! {

/// Characters of one passage put into the prompt.
pub const MAX_CHUNK_CHARS: usize = 1200;

/// System prompt of the question answering.
pub const SYSTEM_PROMPT: &'static str = "你是「BNU Notes」的本地知识库助手，只能依据用户提供的笔记片段回答。\n\
规则：\n\
1. 只使用片段中的信息，不要编造，也不要引入片段之外的知识；\n\
2. 片段不足以回答时，直接说明笔记里没有相关内容，并提示可以换个说法或补充笔记；\n\
3. 用简体中文回答，条理清晰，必要时分点；\n\
4. 每个结论后面用 [编号] 标注来源（例如 [1][2]），编号对应片段顺序。";

/// A retrieved passage as the prompt shows it.
#[derive(Debug, Clone)]
pub struct PromptChunk {
    pub note_id: String,
    pub title: String,
    pub start_line: i64,
    pub end_line: i64,
    pub text: String,
}

/// Meaning of `truncate_chars`: at most `n` characters, `…` marking a cut.
pub fn truncate_chars(s: &str, n: usize) -> (r: String)
    ensures
        r@ == truncate_s(s@, n as nat),
{
    crate::models::truncate(s, n)
}

/// Decimal text of a signed number.
pub open spec fn int_text(n: int) -> Seq<char> {
    if n >= 0 {
        dec_s(n as nat)
    } else {
        seq!['-'] + dec_s((-n) as nat)
    }
}

fn int_text_exec(n: i64) -> (r: Vec<char>)
    ensures
        r@ == int_text(n as int),
{
    if n >= 0 {
        dec(n as u64)
    } else {
        let mut v: Vec<char> = vec!['-'];
        let m: u64 = if n == i64::MIN {
            0x8000_0000_0000_0000
        } else {
            (-n) as u64
        };
        append(&mut v, dec(m).as_slice());
        assert(v@ =~= int_text(n as int));
        v
    }
}

/// One passage of the context: number, title, note, lines, text (trimmed, cut).
pub open spec fn passage_s(i: int, c: PromptChunk) -> Seq<char> {
    "["@ + dec_s((i + 1) as nat) + "] 《"@ + c.title@ + "》（"@ + c.note_id@ + " 第 "@ + int_text(
        c.start_line as int,
    ) + "-"@ + int_text(c.end_line as int) + " 行）\n"@ + truncate_s(trim_s(c.text@), MAX_CHUNK_CHARS as nat)
        + "\n\n"@
}

/// The passages of the first `n` chunks.
pub open spec fn context_upto(cs: Seq<PromptChunk>, n: int) -> Seq<char>
    decreases n,
{
    if n <= 0 || n > cs.len() {
        seq![]
    } else {
        context_upto(cs, n - 1) + passage_s(n - 1, cs[n - 1])
    }
}

/// The user message: the passages, then the trimmed question.
pub open spec fn user_prompt_s(question: Seq<char>, cs: Seq<PromptChunk>) -> Seq<char> {
    "以下是从我的本地笔记中检索到的片段：\n\n"@ + context_upto(cs, cs.len() as int) + "\n请依据这些片段回答我的问题："@
        + trim_s(question)
}

fn passage(i: usize, c: &PromptChunk) -> (r: Vec<char>)
    requires
        i < usize::MAX,
    ensures
        r@ == passage_s(i as int, *c),
{
    let mut ctx = chars_of("[");
    append(&mut ctx, dec((i + 1) as u64).as_slice());
    append_str(&mut ctx, "] 《");
    append_str(&mut ctx, c.title.as_str());
    append_str(&mut ctx, "》（");
    append_str(&mut ctx, c.note_id.as_str());
    append_str(&mut ctx, " 第 ");
    append(&mut ctx, int_text_exec(c.start_line).as_slice());
    append_str(&mut ctx, "-");
    append(&mut ctx, int_text_exec(c.end_line).as_slice());
    append_str(&mut ctx, " 行）\n");
    let t = string_of(trim_str(c.text.as_str()).as_slice());
    let cut = truncate_chars(t.as_str(), MAX_CHUNK_CHARS);
    append_str(&mut ctx, cut.as_str());
    append_str(&mut ctx, "\n\n");
    ctx
}

/// The messages for a question: the system prompt, then the passages
/// (numbered from one, with title, note and lines) and the question.
pub fn build_messages(question: &str, chunks: &[PromptChunk]) -> (r: Vec<ChatMessage>)
    ensures
        r@.len() == 2,
        r@[0].role@ == "system"@,
        r@[0].content@ == SYSTEM_PROMPT@,
        r@[1].role@ == "user"@,
        r@[1].content@ == user_prompt_s(question@, chunks@),
{
    let mut ctx: Vec<char> = Vec::new();
    let mut i: usize = 0;
    while i < chunks.len()
        invariant
            i <= chunks@.len(),
            ctx@ == context_upto(chunks@, i as int),
        decreases chunks@.len() - i,
    {
        let p = passage(i, &chunks[i]);
        append(&mut ctx, p.as_slice());
        assert(ctx@ =~= context_upto(chunks@, i + 1));
        i = i + 1;
    }
    let mut user = chars_of("以下是从我的本地笔记中检索到的片段：\n\n");
    append(&mut user, ctx.as_slice());
    append_str(&mut user, "\n请依据这些片段回答我的问题：");
    append(&mut user, trim_str(question).as_slice());
    let u = string_of(user.as_slice());
    let mut r: Vec<ChatMessage> = Vec::new();
    r.push(ChatMessage::system(SYSTEM_PROMPT));
    r.push(ChatMessage::user(u.as_str()));
    r
}

/// The answer given without calling a model when nothing was retrieved.
pub fn no_result_answer(question: &str) -> (r: String)
    ensures
        r@ == "在本地笔记里没有找到与「"@ + trim_s(question@)
            + "」相关的内容。\n\n可以试试：\n- 换个说法或关键词再问一次；\n- 如果笔记是刚加进 vault 的，先到「笔记」页点一次「扫描 vault」；\n- 在「设置」里配置嵌入模型并构建向量索引，语义检索能显著提高召回。"@,
{
    let mut v = chars_of("在本地笔记里没有找到与「");
    append(&mut v, trim_str(question).as_slice());
    append_str(
        &mut v,
        "」相关的内容。\n\n可以试试：\n- 换个说法或关键词再问一次；\n- 如果笔记是刚加进 vault 的，先到「笔记」页点一次「扫描 vault」；\n- 在「设置」里配置嵌入模型并构建向量索引，语义检索能显著提高召回。",
    );
    string_of(v.as_slice())
}

/// Why a question is not answered.
#[derive(Debug, Clone, Copy, PartialEq, Eq, Structural)]
pub enum AskRefusal {
    /// Nothing but whitespace was asked.
    EmptyQuestion,
    /// No chat endpoint is configured.
    NoChatModel,
}

/// The message shown for a refused question.
pub open spec fn refusal_text(r: AskRefusal) -> Seq<char> {
    match r {
        AskRefusal::EmptyQuestion => "问题不能为空"@,
        AskRefusal::NoChatModel => "未配置对话模型：请到「设置」里填写对话端点（问答需要它）"@,
    }
}

/// The message shown for a refused question.
pub fn refusal_message(r: AskRefusal) -> (m: String)
    ensures
        m@ == refusal_text(r),
{
    match r {
        AskRefusal::EmptyQuestion => String::from_str("问题不能为空"),
        AskRefusal::NoChatModel => String::from_str("未配置对话模型：请到「设置」里填写对话端点（问答需要它）"),
    }
}

/// How many passages are retrieved for an answer: the asked number, at least
/// one and at most twelve.
pub open spec fn answer_top_k(top_k: usize) -> usize {
    if top_k < 1 {
        1
    } else if top_k > 12 {
        12
    } else {
        top_k
    }
}

/// What a question is answered from: the question trimmed and the number of
/// passages to retrieve; refused when the question is blank, then when no
/// chat model is configured.
pub fn answer_plan(question: &str, has_chat_model: bool, top_k: usize) -> (r: Result<(String, usize), AskRefusal>)
    ensures
        trim_s(question@).len() == 0 ==> r == Err::<(String, usize), AskRefusal>(AskRefusal::EmptyQuestion),
        trim_s(question@).len() > 0 && !has_chat_model ==> r == Err::<(String, usize), AskRefusal>(
            AskRefusal::NoChatModel,
        ),
        trim_s(question@).len() > 0 && has_chat_model ==> r is Ok && r->Ok_0.0@ == trim_s(question@)
            && r->Ok_0.1 == answer_top_k(top_k),
{
    let q = trim_str(question);
    if q.len() == 0 {
        return Err(AskRefusal::EmptyQuestion);
    }
    if !has_chat_model {
        return Err(AskRefusal::NoChatModel);
    }
    let k: usize = if top_k < 1 {
        1
    } else if top_k > 12 {
        12
    } else {
        top_k
    };
    Ok((string_of(q.as_slice()), k))
}

} // verus!
