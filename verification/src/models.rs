//! Model endpoints: configuration (the API key never leaves in the public
//! view), the `/v1` root of an OpenAI-compatible service, and the pieces of a
//! chat reply read from a server-sent event stream.
use vstd::prelude::*;
use crate::text::{
    c_back, is_ws, lemma_c_back, lemma_ws_back, lemma_ws_skip, trim_start_s, ws_back, ws_skip,
    append, append_str, chars_of, ends_with_s, ends_with_str, eq_chars, starts_with_s, strip_prefix_str,
    string_of, take_chars, take_chars_exec, trim, trim_end_c, trim_end_char, trim_s, trim_str,
};

verus! {

/// One endpoint (the key in plain text, in memory only).
#[derive(Debug, Clone)]
pub struct EndpointConfig {
    pub base_url: String,
    pub model: String,
    /// extra request parameters
    pub params: serde_json::Value,
    /// `None` when saving means: keep the stored key
    pub api_key: Option<String>,
}

/// The four capabilities.
#[derive(Debug, Clone, Default)]
pub struct ModelConfig {
    pub chat: Option<EndpointConfig>,
    pub embedding: Option<EndpointConfig>,
    pub rerank: Option<EndpointConfig>,
    pub asr: Option<EndpointConfig>,
}

/// An endpoint as the front end sees it: whether a key is set, never the key.
#[derive(Debug, Clone)]
pub struct PublicEndpoint {
    pub base_url: String,
    pub model: String,
    pub params: serde_json::Value,
    pub has_key: bool,
}

/// The configuration as the front end sees it.
#[derive(Debug, Clone, Default)]
pub struct PublicModelConfig {
    pub chat: Option<PublicEndpoint>,
    pub embedding: Option<PublicEndpoint>,
    pub rerank: Option<PublicEndpoint>,
    pub asr: Option<PublicEndpoint>,
}

/// `Value::clone`, derived by serde_json: the copy equals the value it copies.
pub assume_specification[ <serde_json::Value as Clone>::clone ](v: &serde_json::Value) -> (r:
    serde_json::Value)
    ensures
        r == *v,
;

fn copy_string(s: &String) -> (r: String)
    ensures
        r@ == s@,
{
    s.clone()
}

fn copy_opt(s: &Option<String>) -> (r: Option<String>)
    ensures
        opt_view(r) == opt_view(*s),
{
    match s {
        Some(k) => Some(k.clone()),
        None => None,
    }
}

/// View of an optional string.
pub open spec fn opt_view(o: Option<String>) -> Option<Seq<char>> {
    match o {
        Some(s) => Some(s@),
        None => None,
    }
}

/// View of an endpoint: base URL, model, parameters, key.
pub open spec fn endpoint_view(e: EndpointConfig) -> (Seq<char>, Seq<char>, serde_json::Value, Option<Seq<char>>) {
    (e.base_url@, e.model@, e.params, opt_view(e.api_key))
}

/// View of an optional endpoint.
pub open spec fn opt_endpoint_view(o: Option<EndpointConfig>) -> Option<
    (Seq<char>, Seq<char>, serde_json::Value, Option<Seq<char>>),
> {
    match o {
        Some(e) => Some(endpoint_view(e)),
        None => None,
    }
}

/// Public view of an endpoint: base URL, model, parameters, whether a
/// non-empty key is set.
pub open spec fn public_of(o: Option<EndpointConfig>) -> Option<(Seq<char>, Seq<char>, serde_json::Value, bool)> {
    match o {
        Some(e) => Some(
            (
                e.base_url@,
                e.model@,
                e.params,
                match e.api_key {
                    Some(k) => k@.len() > 0,
                    None => false,
                },
            ),
        ),
        None => None,
    }
}

/// View of an optional public endpoint.
pub open spec fn public_view(o: Option<PublicEndpoint>) -> Option<(Seq<char>, Seq<char>, serde_json::Value, bool)> {
    match o {
        Some(p) => Some((p.base_url@, p.model@, p.params, p.has_key)),
        None => None,
    }
}

/// One capability merged: absent in the request keeps the old one; a missing
/// key keeps the old key; a blank base URL deletes the capability.
pub open spec fn merge_one_s(
    old: Option<(Seq<char>, Seq<char>, serde_json::Value, Option<Seq<char>>)>,
    new: Option<(Seq<char>, Seq<char>, serde_json::Value, Option<Seq<char>>)>,
) -> Option<(Seq<char>, Seq<char>, serde_json::Value, Option<Seq<char>>)> {
    match new {
        None => old,
        Some(n) => {
            let key = if n.3 is None {
                match old {
                    Some(o) => o.3,
                    None => None,
                }
            } else {
                n.3
            };
            if trim_s(n.0).len() == 0 {
                None
            } else {
                Some((n.0, n.1, n.2, key))
            }
        },
    }
}

fn public_one(e: &Option<EndpointConfig>) -> (r: Option<PublicEndpoint>)
    ensures
        public_view(r) == public_of(*e),
{
    match e {
        Some(e) => Some(
            PublicEndpoint {
                base_url: copy_string(&e.base_url),
                model: copy_string(&e.model),
                params: e.params.clone(),
                has_key: match &e.api_key {
                    Some(k) => k.as_str().unicode_len() > 0,
                    None => false,
                },
            },
        ),
        None => None,
    }
}

fn copy_endpoint(e: &Option<EndpointConfig>) -> (r: Option<EndpointConfig>)
    ensures
        opt_endpoint_view(r) == opt_endpoint_view(*e),
{
    match e {
        Some(e) => Some(
            EndpointConfig {
                base_url: copy_string(&e.base_url),
                model: copy_string(&e.model),
                params: e.params.clone(),
                api_key: copy_opt(&e.api_key),
            },
        ),
        None => None,
    }
}

fn merge_one(old: &Option<EndpointConfig>, new: Option<EndpointConfig>) -> (r: Option<EndpointConfig>)
    ensures
        opt_endpoint_view(r) == merge_one_s(opt_endpoint_view(*old), opt_endpoint_view(new)),
{
    match new {
        None => copy_endpoint(old),
        Some(n) => {
            let mut n = n;
            if n.api_key.is_none() {
                n.api_key = match old {
                    Some(o) => copy_opt(&o.api_key),
                    None => None,
                };
            }
            if trim_str(n.base_url.as_str()).len() == 0 {
                return None;
            }
            Some(n)
        },
    }
}

impl ModelConfig {
    /// The configuration without keys.
    pub fn public(&self) -> (r: PublicModelConfig)
        ensures
            public_view(r.chat) == public_of(self.chat),
            public_view(r.embedding) == public_of(self.embedding),
            public_view(r.rerank) == public_of(self.rerank),
            public_view(r.asr) == public_of(self.asr),
    {
        PublicModelConfig {
            chat: public_one(&self.chat),
            embedding: public_one(&self.embedding),
            rerank: public_one(&self.rerank),
            asr: public_one(&self.asr),
        }
    }

    /// Merges a save request into the configuration, capability by capability.
    pub fn merge(&mut self, incoming: ModelConfig)
        ensures
            opt_endpoint_view(final(self).chat) == merge_one_s(
                opt_endpoint_view(old(self).chat),
                opt_endpoint_view(incoming.chat),
            ),
            opt_endpoint_view(final(self).embedding) == merge_one_s(
                opt_endpoint_view(old(self).embedding),
                opt_endpoint_view(incoming.embedding),
            ),
            opt_endpoint_view(final(self).rerank) == merge_one_s(
                opt_endpoint_view(old(self).rerank),
                opt_endpoint_view(incoming.rerank),
            ),
            opt_endpoint_view(final(self).asr) == merge_one_s(
                opt_endpoint_view(old(self).asr),
                opt_endpoint_view(incoming.asr),
            ),
    {
        let ModelConfig { chat, embedding, rerank, asr } = incoming;
        self.chat = merge_one(&self.chat, chat);
        self.embedding = merge_one(&self.embedding, embedding);
        self.rerank = merge_one(&self.rerank, rerank);
        self.asr = merge_one(&self.asr, asr);
    }
}

// ---------------------------------------------------------------- URLs

/// Meaning of `api_root`: the trimmed URL without trailing slashes, with
/// `/v1` appended unless it already ends so.
pub open spec fn api_root_s(base_url: Seq<char>) -> Seq<char> {
    let b = trim_end_c(trim_s(base_url), '/');
    if ends_with_s(b, "/v1"@) {
        b
    } else {
        b + "/v1"@
    }
}

/// The OpenAI-compatible `/v1` root of a base URL.
pub fn api_root(base_url: &str) -> (r: String)
    ensures
        r@ == api_root_s(base_url@),
{
    let t = trim_str(base_url);
    let mut b = trim_end_char(t.as_slice(), '/');
    if !ends_with_str(b.as_slice(), "/v1") {
        append_str(&mut b, "/v1");
    }
    string_of(b.as_slice())
}

// ---------------------------------------------------------------- chat messages

/// One chat message.
#[derive(Debug, Clone)]
pub struct ChatMessage {
    pub role: String,
    pub content: String,
}

impl ChatMessage {
    /// A system message.
    pub fn system(content: &str) -> (r: Self)
        ensures
            r.role@ == "system"@,
            r.content@ == content@,
    {
        ChatMessage { role: string_of(chars_of("system").as_slice()), content: string_of(chars_of(content).as_slice()) }
    }

    /// A user message.
    pub fn user(content: &str) -> (r: Self)
        ensures
            r.role@ == "user"@,
            r.content@ == content@,
    {
        ChatMessage { role: string_of(chars_of("user").as_slice()), content: string_of(chars_of(content).as_slice()) }
    }
}

/// A complete chat reply.
#[derive(Debug, Clone)]
pub struct ChatReply {
    pub content: String,
    pub finish_reason: String,
    pub completion_tokens: Option<u64>,
    /// the model's reasoning, when it sent any
    pub reasoning: Option<String>,
}

/// An increment of a streamed reply.
#[derive(Debug, Clone, PartialEq, Eq)]
pub enum ChatStreamEvent {
    /// more of the answer
    Delta(String),
    /// more of the reasoning
    Reasoning(String),
}

/// What a stream has delivered so far.
#[derive(Debug, Default, Clone)]
pub struct ChatStreamAccum {
    pub content: String,
    pub reasoning: String,
    pub finish_reason: String,
    pub completion_tokens: Option<u64>,
    pub done: bool,
}

/// View of the accumulated stream: content, reasoning, finish reason, tokens, done.
pub open spec fn accum_view(a: ChatStreamAccum) -> (Seq<char>, Seq<char>, Seq<char>, Option<u64>, bool) {
    (a.content@, a.reasoning@, a.finish_reason@, a.completion_tokens, a.done)
}

/// View of an event: whether it is answer text (else reasoning), and the text.
pub open spec fn event_view(e: Option<ChatStreamEvent>) -> Option<(bool, Seq<char>)> {
    match e {
        Some(ChatStreamEvent::Delta(t)) => Some((true, t@)),
        Some(ChatStreamEvent::Reasoning(t)) => Some((false, t@)),
        None => None,
    }
}

// ---------------------------------------------------------------- JSON of a streamed chunk

/// The JSON document `serde_json::from_str::<Value>` reads from a text, if any.
pub uninterp spec fn json_parse(text: Seq<char>) -> Option<serde_json::Value>;

/// `Value::get` of a key: the member of an object, if any.
pub uninterp spec fn json_get(v: serde_json::Value, key: Seq<char>) -> Option<serde_json::Value>;

/// The first element of a value that is an array (`as_array` and `first`), if any.
pub uninterp spec fn json_array_first(v: serde_json::Value) -> Option<serde_json::Value>;

/// `Value::pointer` of a JSON pointer: the value it points at, if any.
pub uninterp spec fn json_pointer(v: serde_json::Value, path: Seq<char>) -> Option<serde_json::Value>;

/// `Value::as_u64`: the value as an unsigned integer, if it is one.
pub uninterp spec fn json_as_u64(v: serde_json::Value) -> Option<u64>;

/// `Value::as_str`: the value as a string, if it is one.
pub uninterp spec fn json_as_str(v: serde_json::Value) -> Option<Seq<char>>;

/// `serde_json::from_str::<Value>`: claimed equal to `json_parse` of the text.
#[verifier::external_body]
fn parse_json(data: &str) -> (r: Option<serde_json::Value>)
    ensures
        r == json_parse(data@),
{
    serde_json::from_str::<serde_json::Value>(data).ok()
}

/// `Value::get`, the member copied out: claimed equal to `json_get`.
#[verifier::external_body]
fn get_member(v: &serde_json::Value, key: &str) -> (r: Option<serde_json::Value>)
    ensures
        r == json_get(*v, key@),
{
    v.get(key).cloned()
}

/// `Value::as_array` and its first element, copied out: claimed equal to
/// `json_array_first`.
#[verifier::external_body]
fn first_element(v: &serde_json::Value) -> (r: Option<serde_json::Value>)
    ensures
        r == json_array_first(*v),
{
    v.as_array()?.first().cloned()
}

/// `Value::pointer`, the value copied out: claimed equal to `json_pointer`.
#[verifier::external_body]
fn pointed(v: &serde_json::Value, path: &str) -> (r: Option<serde_json::Value>)
    ensures
        r == json_pointer(*v, path@),
{
    v.pointer(path).cloned()
}

/// `Value::as_u64`: claimed equal to `json_as_u64`.
#[verifier::external_body]
fn as_u64_of(v: &serde_json::Value) -> (r: Option<u64>)
    ensures
        r == json_as_u64(*v),
{
    v.as_u64()
}

/// `Value::as_str`, copied into a `String`: claimed equal to `json_as_str`.
#[verifier::external_body]
fn as_str_of(v: &serde_json::Value) -> (r: Option<String>)
    ensures
        opt_view(r) == json_as_str(*v),
{
    Some(String::from(v.as_str()?))
}

/// Whether `data` is a JSON document.
pub open spec fn sse_is_json(data: Seq<char>) -> bool {
    json_parse(data) is Some
}

/// `usage.completion_tokens` of the JSON document `data`, as an unsigned integer.
pub open spec fn sse_tokens(data: Seq<char>) -> Option<u64> {
    match json_parse(data) {
        Some(v) => match json_pointer(v, "/usage/completion_tokens"@) {
            Some(t) => json_as_u64(t),
            None => None,
        },
        None => None,
    }
}

/// In the JSON document `data`, the value at the JSON pointer `path` inside
/// the first element of the `choices` array: `None` when there is none,
/// `Some(None)` when it is not a string, else the string.
pub open spec fn sse_choice(data: Seq<char>, path: Seq<char>) -> Option<Option<Seq<char>>> {
    match json_parse(data) {
        Some(v) => match json_get(v, "choices"@) {
            Some(c) => match json_array_first(c) {
                Some(ch) => match json_pointer(ch, path) {
                    Some(f) => Some(json_as_str(f)),
                    None => None,
                },
                None => None,
            },
            None => None,
        },
        None => None,
    }
}

/// Whether `data` is a JSON document.
fn is_json(data: &str) -> (b: bool)
    ensures
        b == sse_is_json(data@),
{
    parse_json(data).is_some()
}

/// `usage.completion_tokens` of a JSON document.
fn usage_tokens(data: &str) -> (r: Option<u64>)
    ensures
        r == sse_tokens(data@),
{
    match parse_json(data) {
        Some(v) => match pointed(&v, "/usage/completion_tokens") {
            Some(t) => as_u64_of(&t),
            None => None,
        },
        None => None,
    }
}

/// View of a nested optional string.
pub open spec fn opt2_view(o: Option<Option<String>>) -> Option<Option<Seq<char>>> {
    match o {
        Some(Some(s)) => Some(Some(s@)),
        Some(None) => Some(None),
        None => None,
    }
}

/// The string at `path` of the first element of `choices`.
fn first_choice(data: &str, path: &str) -> (r: Option<Option<String>>)
    ensures
        opt2_view(r) == sse_choice(data@, path@),
{
    let v = match parse_json(data) {
        Some(v) => v,
        None => return None,
    };
    let c = match get_member(&v, "choices") {
        Some(c) => c,
        None => return None,
    };
    let ch = match first_element(&c) {
        Some(ch) => ch,
        None => return None,
    };
    match pointed(&ch, path) {
        Some(f) => Some(as_str_of(&f)),
        None => None,
    }
}

/// A non-empty string at `path` of the first choice.
pub open spec fn choice_text(d: Seq<char>, path: Seq<char>) -> Option<Seq<char>> {
    match sse_choice(d, path) {
        Some(Some(t)) => if t.len() > 0 {
            Some(t)
        } else {
            None
        },
        _ => None,
    }
}

/// Meaning of `ChatStreamAccum::feed`: the accumulated state after one `data:`
/// payload and the event it yields. Blank payloads and non-JSON are ignored,
/// `[DONE]` ends the stream; token usage and a non-empty finish reason are
/// recorded; answer text wins over reasoning text.
pub open spec fn feed_s(a: (Seq<char>, Seq<char>, Seq<char>, Option<u64>, bool), data: Seq<char>) -> (
    (Seq<char>, Seq<char>, Seq<char>, Option<u64>, bool),
    Option<(bool, Seq<char>)>,
) {
    let d = trim_s(data);
    if d.len() == 0 {
        (a, None)
    } else if d == "[DONE]"@ {
        ((a.0, a.1, a.2, a.3, true), None)
    } else if !sse_is_json(d) {
        (a, None)
    } else {
        let tokens = match sse_tokens(d) {
            Some(t) => Some(t),
            None => a.3,
        };
        if sse_choice(d, seq![]) is None {
            ((a.0, a.1, a.2, tokens, a.4), None)
        } else {
            let finish = match choice_text(d, "/finish_reason"@) {
                Some(f) => f,
                None => a.2,
            };
            if sse_choice(d, "/delta"@) is None {
                ((a.0, a.1, finish, tokens, a.4), None)
            } else {
                match choice_text(d, "/delta/content"@) {
                    Some(c) => ((a.0 + c, a.1, finish, tokens, a.4), Some((true, c))),
                    None => match choice_text(d, "/delta/reasoning_content"@) {
                        Some(r) => ((a.0, a.1 + r, finish, tokens, a.4), Some((false, r))),
                        None => ((a.0, a.1, finish, tokens, a.4), None),
                    },
                }
            }
        }
    }
}

fn nonempty_text(o: Option<String>) -> (r: Option<String>)
    ensures
        opt_view(r) == match opt_view(o) {
            Some(t) => if t.len() > 0 {
                Some(t)
            } else {
                None
            },
            None => None,
        },
{
    match o {
        Some(t) => if t.as_str().unicode_len() > 0 {
            Some(t)
        } else {
            None
        },
        None => None,
    }
}

fn choice_text_exec(d: &str, path: &str) -> (r: Option<String>)
    ensures
        opt_view(r) == choice_text(d@, path@),
{
    match first_choice(d, path) {
        Some(t) => nonempty_text(t),
        None => None,
    }
}

fn push_str(s: &mut String, t: &String)
    ensures
        final(s)@ == old(s)@ + t@,
{
    let mut v = chars_of(s.as_str());
    append_str(&mut v, t.as_str());
    *s = string_of(v.as_slice());
}

impl ChatStreamAccum {
    /// Takes in the payload of one `data:` line and returns the event to pass on.
    pub fn feed(&mut self, data: &str) -> (r: Option<ChatStreamEvent>)
        ensures
            (accum_view(*final(self)), event_view(r)) == feed_s(accum_view(*old(self)), data@),
    {
        let dv = trim_str(data);
        let d = string_of(dv.as_slice());
        let ds = d.as_str();
        if dv.len() == 0 {
            return None;
        }
        if eq_chars(dv.as_slice(), chars_of("[DONE]").as_slice()) {
            self.done = true;
            return None;
        }
        if !is_json(ds) {
            return None;
        }
        match usage_tokens(ds) {
            Some(t) => {
                self.completion_tokens = Some(t);
            },
            None => {},
        }
        if first_choice(ds, "").is_none() {
            proof {
                reveal_strlit("");
                assert(""@ =~= seq![]);
            }
            return None;
        }
        proof {
            reveal_strlit("");
            assert(""@ =~= Seq::<char>::empty());
        }
        match choice_text_exec(ds, "/finish_reason") {
            Some(f) => {
                self.finish_reason = f;
            },
            None => {},
        }
        if first_choice(ds, "/delta").is_none() {
            return None;
        }
        match choice_text_exec(ds, "/delta/content") {
            Some(c) => {
                push_str(&mut self.content, &c);
                return Some(ChatStreamEvent::Delta(c));
            },
            None => {},
        }
        match choice_text_exec(ds, "/delta/reasoning_content") {
            Some(r) => {
                push_str(&mut self.reasoning, &r);
                Some(ChatStreamEvent::Reasoning(r))
            },
            None => None,
        }
    }

    /// The reply: content trimmed, reasoning trimmed (absent when blank),
    /// finish reason `stop` when none was sent.
    pub fn into_reply(self) -> (r: ChatReply)
        ensures
            r.content@ == trim_s(self.content@),
            opt_view(r.reasoning) == if trim_s(self.reasoning@).len() == 0 {
                None
            } else {
                Some(trim_s(self.reasoning@))
            },
            r.finish_reason@ == if self.finish_reason@.len() == 0 {
                "stop"@
            } else {
                self.finish_reason@
            },
            r.completion_tokens == self.completion_tokens,
    {
        let rt = trim_str(self.reasoning.as_str());
        let reasoning = if rt.len() == 0 {
            None
        } else {
            Some(string_of(rt.as_slice()))
        };
        let finish_reason = if self.finish_reason.as_str().unicode_len() == 0 {
            string_of(chars_of("stop").as_slice())
        } else {
            self.finish_reason
        };
        ChatReply {
            content: string_of(trim_str(self.content.as_str()).as_slice()),
            finish_reason,
            completion_tokens: self.completion_tokens,
            reasoning,
        }
    }
}

// ---------------------------------------------------------------- server-sent events

/// Whether `c` is a line break character.
pub open spec fn crlf(c: char) -> bool {
    c == '\r' || c == '\n'
}

/// Index after the last character before `j` that is not a line break.
pub open spec fn crlf_back(s: Seq<char>, j: int) -> int
    decreases j,
{
    if 0 < j <= s.len() && crlf(s[j - 1]) {
        crlf_back(s, j - 1)
    } else {
        j
    }
}

/// Meaning of `sse_payload`: after `data:` and at most one space, without
/// trailing line breaks; `None` for other lines.
pub open spec fn sse_payload_s(line: Seq<char>) -> Option<Seq<char>> {
    if starts_with_s(line, "data:"@) {
        let rest = line.skip("data:"@.len() as int);
        let r2 = if rest.len() > 0 && rest[0] == ' ' {
            rest.skip(1)
        } else {
            rest
        };
        Some(r2.take(crlf_back(r2, r2.len() as int)))
    } else {
        None
    }
}

proof fn lemma_crlf_back(s: Seq<char>, j: int)
    requires
        0 <= j <= s.len(),
    ensures
        0 <= crlf_back(s, j) <= j,
    decreases j,
{
    if 0 < j && crlf(s[j - 1]) {
        lemma_crlf_back(s, j - 1);
    }
}

/// The payload of a server-sent `data:` line.
pub fn sse_payload(line: &str) -> (r: Option<String>)
    ensures
        opt_view(r) == sse_payload_s(line@),
{
    let l = chars_of(line);
    let rest = match strip_prefix_str(l.as_slice(), "data:") {
        Some(r) => r,
        None => return None,
    };
    let r2 = if rest.len() > 0 && rest[0] == ' ' {
        let v = crate::text::subvec(rest.as_slice(), 1, rest.len());
        assert(v@ =~= rest@.skip(1));
        v
    } else {
        rest
    };
    let mut j = r2.len();
    while j > 0 && (r2[j - 1] == '\r' || r2[j - 1] == '\n')
        invariant
            j <= r2@.len(),
            crlf_back(r2@, j as int) == crlf_back(r2@, r2@.len() as int),
        decreases j,
    {
        j = j - 1;
    }
    let out = crate::text::subvec(r2.as_slice(), 0, j);
    assert(out@ =~= r2@.take(crlf_back(r2@, r2@.len() as int)));
    Some(string_of(out.as_slice()))
}

/// Meaning of `truncate`: at most `n` characters, `…` marking a cut.
pub open spec fn truncate_s(s: Seq<char>, n: nat) -> Seq<char> {
    if s.len() <= n {
        s
    } else {
        s.take(n as int) + "…"@
    }
}

/// The text cut to `n` characters, with `…` when something was cut.
pub fn truncate(s: &str, n: usize) -> (r: String)
    ensures
        r@ == truncate_s(s@, n as nat),
{
    let v = chars_of(s);
    if v.len() <= n {
        return string_of(v.as_slice());
    }
    let mut t = take_chars_exec(v.as_slice(), n);
    append_str(&mut t, "…");
    string_of(t.as_slice())
}

// ---------------------------------------------------------------- chat replies

/// Why a chat reply is unusable.
#[derive(Debug, Clone, PartialEq, Eq)]
pub enum ChatError {
    /// only reasoning came back and it was cut off by the token limit
    ThinkingTruncated,
    /// nothing came back: the finish reason
    EmptyContent(String),
}

impl ChatError {
    /// A message for the user.
    pub fn message(&self) -> (r: String)
        ensures
            r@ == match *self {
                ChatError::ThinkingTruncated => "模型思考太长被截断（finish_reason=length）。建议：提高 max_tokens，或设置 params.chat_template_kwargs.enable_thinking=false"@,
                ChatError::EmptyContent(f) => "模型返回内容为空（finish_reason="@ + f@ + "）"@,
            },
    {
        match self {
            ChatError::ThinkingTruncated => string_of(
                chars_of(
                    "模型思考太长被截断（finish_reason=length）。建议：提高 max_tokens，或设置 params.chat_template_kwargs.enable_thinking=false",
                ).as_slice(),
            ),
            ChatError::EmptyContent(f) => {
                let mut v = chars_of("模型返回内容为空（finish_reason=");
                append_str(&mut v, f.as_str());
                append_str(&mut v, "）");
                string_of(v.as_slice())
            },
        }
    }
}

/// The reasoning kept: trimmed, absent when blank.
pub open spec fn kept_reasoning(reasoning: Option<Seq<char>>) -> Option<Seq<char>> {
    match reasoning {
        Some(r) => if trim_s(r).len() > 0 {
            Some(trim_s(r))
        } else {
            None
        },
        None => None,
    }
}

/// The reply of a non-streamed chat from the fields the service sent: the
/// trimmed content, or the reasoning when there is no content (an error when
/// the reasoning was cut off, or when there is neither).
pub fn reply_from_parts(
    content: &str,
    reasoning: Option<&str>,
    finish: &str,
    completion_tokens: Option<u64>,
) -> (r: Result<ChatReply, ChatError>)
    ensures
        ({
            let c = trim_s(content@);
            let kr = kept_reasoning(
                match reasoning {
                    Some(x) => Some(x@),
                    None => None,
                },
            );
            if c.len() > 0 {
                r is Ok && r->Ok_0.content@ == c && opt_view(r->Ok_0.reasoning) == kr
                    && r->Ok_0.finish_reason@ == finish@ && r->Ok_0.completion_tokens
                    == completion_tokens
            } else {
                match kr {
                    Some(k) => if finish@ == "length"@ {
                        r == Err::<ChatReply, ChatError>(ChatError::ThinkingTruncated)
                    } else {
                        r is Ok && r->Ok_0.content@ == k && opt_view(r->Ok_0.reasoning) == kr
                            && r->Ok_0.finish_reason@ == finish@ && r->Ok_0.completion_tokens
                            == completion_tokens
                    },
                    None => r is Err && r->Err_0 is EmptyContent && r->Err_0->EmptyContent_0@ == finish@,
                }
            }
        }),
{
    let c = trim_str(content);
    let kr: Option<Vec<char>> = match reasoning {
        Some(x) => {
            let t = trim_str(x);
            if t.len() > 0 {
                Some(t)
            } else {
                None
            }
        },
        None => None,
    };
    let reasoning_out: Option<String> = match &kr {
        Some(k) => Some(string_of(k.as_slice())),
        None => None,
    };
    if c.len() > 0 {
        return Ok(
            ChatReply {
                content: string_of(c.as_slice()),
                finish_reason: string_of(chars_of(finish).as_slice()),
                completion_tokens,
                reasoning: reasoning_out,
            },
        );
    }
    match kr {
        Some(k) => {
            if eq_chars(chars_of(finish).as_slice(), chars_of("length").as_slice()) {
                Err(ChatError::ThinkingTruncated)
            } else {
                Ok(
                    ChatReply {
                        content: string_of(k.as_slice()),
                        finish_reason: string_of(chars_of(finish).as_slice()),
                        completion_tokens,
                        reasoning: reasoning_out,
                    },
                )
            }
        },
        None => Err(ChatError::EmptyContent(string_of(chars_of(finish).as_slice()))),
    }
}

// ---------------------------------------------------------------- laws

proof fn lemma_trim_edges(s: Seq<char>)
    requires
        s.len() > 0 ==> !is_ws(s[0]) && !is_ws(s.last()),
    ensures
        trim_s(s) == s,
{
    assert(ws_skip(s, 0) == 0);
    assert(s.skip(0) =~= s);
    assert(ws_back(s, s.len() as int) == s.len());
    assert(s.take(s.len() as int) =~= s);
}

proof fn lemma_trim_first(s: Seq<char>)
    ensures
        trim_s(s).len() > 0 ==> !is_ws(trim_s(s)[0]),
{
    lemma_ws_skip(s, 0);
    let t = trim_start_s(s);
    lemma_ws_back(t, t.len() as int);
    if trim_s(s).len() > 0 {
        assert(trim_s(s)[0] == t[0]);
        assert(t[0] == s[ws_skip(s, 0)]);
    }
}

/// The `/v1` root of a base URL ends with `/v1`, and normalizing it again
/// changes nothing: `/v1` is added only when missing.
pub proof fn lemma_api_root_idempotent(base_url: Seq<char>)
    ensures
        ends_with_s(api_root_s(base_url), "/v1"@),
        api_root_s(api_root_s(base_url)) == api_root_s(base_url),
{
    reveal_strlit("/v1");
    let t = trim_s(base_url);
    let b = trim_end_c(t, '/');
    let r = api_root_s(base_url);
    lemma_c_back(t, '/', t.len() as int);
    lemma_trim_first(base_url);
    if b.len() > 0 {
        assert(b[0] == t[0]);
    }
    if !ends_with_s(b, "/v1"@) {
        assert((b + "/v1"@).skip((b + "/v1"@).len() - 3) =~= "/v1"@);
    }
    assert(ends_with_s(r, "/v1"@));
    assert(r.len() >= 3);
    assert(r.last() == r.skip(r.len() - 3)[2]);
    assert(r.last() == '1');
    if b.len() > 0 {
        assert(r[0] == b[0]);
    } else {
        assert(r =~= "/v1"@);
    }
    lemma_trim_edges(r);
    assert(c_back(r, '/', r.len() as int) == r.len());
    assert(r.take(r.len() as int) =~= r);
}

// ---------------------------------------------------------------- streamed replies

/// The characters `String::from_utf8_lossy` gives for bytes: a function of the
/// bytes alone.
pub uninterp spec fn utf8_lossy(bytes: Seq<u8>) -> Seq<char>;

/// `String::from_utf8_lossy`: `utf8_lossy` of the bytes, which is the
/// characters they encode when they are UTF-8 (how invalid sequences become
/// U+FFFD is not spelt out).
#[verifier::external_body]
fn lossy_string(bytes: &[u8]) -> (r: String)
    ensures
        r@ == utf8_lossy(bytes@),
        vstd::utf8::valid_utf8(bytes@) ==> r@ == vstd::utf8::decode_utf8(bytes@),
{
    String::from_utf8_lossy(bytes).into_owned()
}

/// Takes the first whole line (with its newline) out of a byte buffer and
/// decodes it; a line is decoded only once complete, so a character split
/// across network reads stays intact.
pub fn take_line(buf: &mut Vec<u8>) -> (r: Option<String>)
    ensures
        match crate::text::idx_of_byte(old(buf)@, 10u8, 0) {
            Some(p) => r is Some && final(buf)@ == old(buf)@.skip(p + 1) && r->0@ == utf8_lossy(
                old(buf)@.take(p + 1),
            ) && (vstd::utf8::valid_utf8(
                old(buf)@.take(p + 1),
            ) ==> r->0@ == vstd::utf8::decode_utf8(old(buf)@.take(p + 1))),
            None => r is None && final(buf)@ == old(buf)@,
        },
{
    let mut p: usize = 0;
    while p < buf.len() && buf[p] != 10u8
        invariant
            p <= buf@.len(),
            buf@ == old(buf)@,
            crate::text::idx_of_byte(buf@, 10u8, p as int) == crate::text::idx_of_byte(buf@, 10u8, 0),
        decreases buf@.len() - p,
    {
        p = p + 1;
    }
    if p == buf.len() {
        return None;
    }
    let mut line: Vec<u8> = Vec::new();
    let mut i: usize = 0;
    let end = p + 1;
    while i < end
        invariant
            p < buf@.len(),
            end == p + 1,
            i <= p + 1,
            line@ == buf@.take(i as int),
        decreases p + 1 - i,
    {
        line.push(buf[i]);
        assert(line@ =~= buf@.take(i + 1));
        i = i + 1;
    }
    let mut rest: Vec<u8> = Vec::new();
    let mut j: usize = end;
    while j < buf.len()
        invariant
            p < buf@.len(),
            p + 1 <= j <= buf@.len(),
            rest@ == buf@.subrange(p + 1, j as int),
        decreases buf@.len() - j,
    {
        rest.push(buf[j]);
        assert(rest@ =~= buf@.subrange(p + 1, j + 1));
        j = j + 1;
    }
    let s = lossy_string(line.as_slice());
    assert(rest@ =~= buf@.skip(p + 1));
    *buf = rest;
    Some(s)
}

/// Meaning of `stream_outcome`: a cancelled stream keeps what came and says
/// `cancelled`; otherwise empty content is an error when cut off by the token
/// limit, is replaced by the reasoning when there is some, and is an error
/// when there is none.
pub open spec fn stream_outcome_ok(
    content: Seq<char>,
    reasoning: Option<Seq<char>>,
    finish: Seq<char>,
    cancelled: bool,
) -> Option<(Seq<char>, Seq<char>)> {
    if cancelled {
        Some((content, "cancelled"@))
    } else if content.len() > 0 {
        Some((content, finish))
    } else if finish == "length"@ {
        None
    } else {
        match reasoning {
            Some(r) => Some((r, finish)),
            None => None,
        }
    }
}

/// The result of a streamed chat from the reply put together so far.
pub fn stream_outcome(reply: ChatReply, cancelled: bool) -> (r: Result<ChatReply, ChatError>)
    ensures
        match stream_outcome_ok(reply.content@, opt_view(reply.reasoning), reply.finish_reason@, cancelled) {
            Some((c, f)) => r is Ok && r->Ok_0.content@ == c && r->Ok_0.finish_reason@ == f
                && opt_view(r->Ok_0.reasoning) == opt_view(reply.reasoning)
                && r->Ok_0.completion_tokens == reply.completion_tokens,
            None => r is Err && if !cancelled && reply.content@.len() == 0 && reply.finish_reason@
                == "length"@ {
                r->Err_0 is ThinkingTruncated
            } else {
                r->Err_0 is EmptyContent && r->Err_0->EmptyContent_0@ == reply.finish_reason@
            },
        },
{
    let ChatReply { content, finish_reason, completion_tokens, reasoning } = reply;
    if cancelled {
        return Ok(
            ChatReply {
                content,
                finish_reason: string_of(chars_of("cancelled").as_slice()),
                completion_tokens,
                reasoning,
            },
        );
    }
    if content.as_str().unicode_len() > 0 {
        return Ok(ChatReply { content, finish_reason, completion_tokens, reasoning });
    }
    if eq_chars(chars_of(finish_reason.as_str()).as_slice(), chars_of("length").as_slice()) {
        return Err(ChatError::ThinkingTruncated);
    }
    match reasoning {
        Some(r) => {
            let c = string_of(chars_of(r.as_str()).as_slice());
            Ok(ChatReply { content: c, finish_reason, completion_tokens, reasoning: Some(r) })
        },
        None => Err(ChatError::EmptyContent(finish_reason)),
    }
}

} // verus!
