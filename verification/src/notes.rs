//! Notes in the vault: ids, the checks that keep an id inside the vault, file
//! names for new notes, and the plan of a full-text search.
use vstd::prelude::*;
use crate::text::{
    append, append_str, chars_of, has_char, has_char_exec, is_ctrl, is_control, is_whitespace,
    is_ws, last_idx, last_idx_exec, lemma_last_idx, replace_char, replace_char_s, split_char,
    string_of, subvec, take_chars, take_chars_exec, trim, trim_s, trim_str, views,
};

verus! {

/// Whole seconds since the Unix epoch from `SystemTime::now` and
/// `duration_since`; `None` when the clock is before the epoch. Nothing is
/// claimed of the value: it is the time.
#[verifier::external_body]
fn clock_secs() -> (r: Option<u64>) {
    match std::time::SystemTime::now().duration_since(std::time::UNIX_EPOCH) {
        Ok(d) => Some(d.as_secs()),
        Err(_) => None,
    }
}

/// Seconds since the Unix epoch; 0 when the clock is before the epoch, and at
/// most `i64::MAX`.
pub fn now_secs() -> (r: i64)
    ensures
        r >= 0,
{
    match clock_secs() {
        Some(s) => if s > 0x7fff_ffff_ffff_ffff {
            0x7fff_ffff_ffff_ffff
        } else {
            s as i64
        },
        None => 0,
    }
}

/// A note's metadata.
#[derive(Debug, Clone, PartialEq, Eq)]
pub struct NoteMeta {
    pub id: String,
    pub title: String,
    pub rel_path: String,
    pub folder: String,
    pub tags: String,
    pub mtime: i64,
    pub size: i64,
    pub updated_at: i64,
}

/// A search hit.
#[derive(Debug, Clone, PartialEq, Eq)]
pub struct SearchHit {
    pub note_id: String,
    pub title: String,
    pub start_line: i64,
    pub end_line: i64,
    pub snippet: String,
}

/// Counts of a vault scan.
#[derive(Debug, Clone, Default, PartialEq, Eq)]
pub struct ScanStats {
    pub indexed: usize,
    pub skipped: usize,
    pub removed: usize,
}

/// A relative path with `/` separators.
pub fn note_id(rel: &str) -> (r: String)
    ensures
        r@ == replace_char_s(rel@, '\\', '/'),
{
    string_of(replace_char(chars_of(rel).as_slice(), '\\', '/').as_slice())
}

/// Why a note id was refused.
#[derive(Debug, Clone, Copy, PartialEq, Eq, Structural)]
pub enum NoteIdError {
    /// the id is empty
    Empty,
    /// it holds a NUL or a colon
    Illegal,
    /// it starts with `/` or `\`
    Absolute,
    /// a component is `..`
    ParentDir,
}

impl NoteIdError {
    /// A message for the user.
    pub fn message(&self) -> (r: String)
        ensures
            r@ == note_id_error_text(*self),
    {
        let s = match self {
            NoteIdError::Empty => "笔记 id 不能为空",
            NoteIdError::Illegal => "笔记 id 非法",
            NoteIdError::Absolute => "笔记 id 不能是绝对路径",
            NoteIdError::ParentDir => "笔记 id 不能包含 ..",
        };
        string_of(chars_of(s).as_slice())
    }
}

/// Text of a note id error.
pub open spec fn note_id_error_text(e: NoteIdError) -> Seq<char> {
    match e {
        NoteIdError::Empty => "笔记 id 不能为空"@,
        NoteIdError::Illegal => "笔记 id 非法"@,
        NoteIdError::Absolute => "笔记 id 不能是绝对路径"@,
        NoteIdError::ParentDir => "笔记 id 不能包含 .."@,
    }
}

/// Whether a `..` component starts at `i`.
pub open spec fn parent_at(id: Seq<char>, i: int) -> bool {
    0 <= i && i + 2 <= id.len() && id[i] == '.' && id[i + 1] == '.' && (i == 0 || id[i - 1] == '/'
        || id[i - 1] == '\\') && (i + 2 == id.len() || id[i + 2] == '/' || id[i + 2] == '\\')
}

/// Whether some component between `/` or `\` separators is `..`.
pub open spec fn has_parent_part(id: Seq<char>) -> bool {
    exists|i: int| #[trigger] parent_at(id, i)
}

/// Meaning of `ensure_safe_id`: the first check that fails, in order.
pub open spec fn safe_id_s(id: Seq<char>) -> Result<(), NoteIdError> {
    if id.len() == 0 {
        Err(NoteIdError::Empty)
    } else if has_char(id, '\0') {
        Err(NoteIdError::Illegal)
    } else if id[0] == '/' || id[0] == '\\' {
        Err(NoteIdError::Absolute)
    } else if has_char(id, ':') {
        Err(NoteIdError::Illegal)
    } else if has_parent_part(id) {
        Err(NoteIdError::ParentDir)
    } else {
        Ok(())
    }
}

/// Checks that a note id stays inside the vault: not empty, no NUL or colon,
/// not absolute, no `..` component.
pub fn ensure_safe_id(id: &str) -> (r: Result<(), NoteIdError>)
    ensures
        r == safe_id_s(id@),
{
    let v = chars_of(id);
    if v.len() == 0 {
        return Err(NoteIdError::Empty);
    }
    if has_char_exec(v.as_slice(), '\0') {
        return Err(NoteIdError::Illegal);
    }
    if v[0] == '/' || v[0] == '\\' {
        return Err(NoteIdError::Absolute);
    }
    if has_char_exec(v.as_slice(), ':') {
        return Err(NoteIdError::Illegal);
    }
    let n = v.len();
    let mut i: usize = 0;
    while n >= 2 && i <= n - 2
        invariant
            n == v@.len(),
            v@ == id@,
            v@.len() > 0,
            !has_char(id@, '\0'),
            !(id@[0] == '/' || id@[0] == '\\'),
            !has_char(id@, ':'),
            forall|k: int| 0 <= k < i ==> !#[trigger] parent_at(v@, k),
        decreases n - i,
    {
        if v[i] == '.' && v[i + 1] == '.' && (i == 0 || v[i - 1] == '/' || v[i - 1] == '\\') && (i
            + 2 == n || v[i + 2] == '/' || v[i + 2] == '\\') {
            assert(parent_at(v@, i as int));
            return Err(NoteIdError::ParentDir);
        }
        i = i + 1;
    }
    assert forall|k: int| !parent_at(v@, k) by {
        if 0 <= k < i {
        } else if parent_at(v@, k) {
            assert(k + 2 <= n);
            assert(false);
        }
    }
    Ok(())
}

/// The folder of a relative path: everything before the last `/` (empty when none).
pub open spec fn folder_of_s(rel: Seq<char>) -> Seq<char> {
    let k = last_idx(rel, '/', rel.len() as int);
    if k >= 0 {
        rel.take(k)
    } else {
        seq![]
    }
}

/// The folder of a relative note path.
pub fn folder_of(rel: &str) -> (r: String)
    ensures
        r@ == folder_of_s(rel@),
{
    let v = chars_of(rel);
    proof {
        lemma_last_idx(v@, '/', v@.len() as int);
    }
    match last_idx_exec(v.as_slice(), '/') {
        Some(k) => string_of(subvec(v.as_slice(), 0, k).as_slice()),
        None => String::new(),
    }
}

// ---------------------------------------------------------------- new notes

/// Characters that cannot stand in a file name.
pub open spec fn bad_file_char(c: char) -> bool {
    c == '/' || c == '\\' || c == ':' || c == '*' || c == '?' || c == '"' || c == '<' || c == '>'
        || c == '|' || is_ctrl(c)
}

/// Dots and spaces trimmed from both ends.
pub open spec fn dot_space(c: char) -> bool {
    c == '.' || c == ' '
}

/// First index from `i` that is not a dot or space.
pub open spec fn ds_skip(s: Seq<char>, i: int) -> int
    decreases s.len() - i,
{
    if 0 <= i < s.len() && dot_space(s[i]) {
        ds_skip(s, i + 1)
    } else {
        i
    }
}

/// Index after the last character before `j` that is not a dot or space.
pub open spec fn ds_back(s: Seq<char>, j: int) -> int
    decreases j,
{
    if 0 < j <= s.len() && dot_space(s[j - 1]) {
        ds_back(s, j - 1)
    } else {
        j
    }
}

/// Meaning of `sanitize_filename`: the trimmed title with unsafe characters
/// replaced by `-`, dots and spaces trimmed, `未命名` when empty, at most 60
/// characters.
pub open spec fn sanitize_filename_s(title: Seq<char>) -> Seq<char> {
    let t = trim_s(title);
    let m = Seq::new(t.len(), |i: int| if bad_file_char(t[i]) { '-' } else { t[i] });
    let a = ds_skip(m, 0);
    let b = ds_back(m, m.len() as int);
    let s = if a < b { m.subrange(a, b) } else { seq![] };
    let s2 = if s.len() == 0 { "未命名"@ } else { s };
    take_chars(s2, 60)
}

proof fn lemma_ds(s: Seq<char>, i: int, j: int)
    requires
        0 <= i <= s.len(),
        0 <= j <= s.len(),
    ensures
        i <= ds_skip(s, i) <= s.len(),
        0 <= ds_back(s, j) <= j,
    decreases s.len() - i + j,
{
    if i < s.len() && dot_space(s[i]) {
        lemma_ds(s, i + 1, j);
    }
    if 0 < j && dot_space(s[j - 1]) {
        lemma_ds(s, i, j - 1);
    }
}

/// A safe file name for a note title.
pub fn sanitize_filename(title: &str) -> (r: String)
    ensures
        r@ == sanitize_filename_s(title@),
{
    let t = trim_str(title);
    let mut m: Vec<char> = Vec::new();
    let mut i: usize = 0;
    while i < t.len()
        invariant
            i <= t@.len(),
            m@ == Seq::new(i as nat, |k: int| if bad_file_char(t@[k]) { '-' } else { t@[k] }),
        decreases t@.len() - i,
    {
        let c = t[i];
        let bad = c == '/' || c == '\\' || c == ':' || c == '*' || c == '?' || c == '"' || c == '<'
            || c == '>' || c == '|' || is_control(c);
        m.push(if bad { '-' } else { c });
        assert(m@ =~= Seq::new((i + 1) as nat, |k: int| if bad_file_char(t@[k]) { '-' } else { t@[k] }));
        i = i + 1;
    }
    proof {
        lemma_ds(m@, 0, m@.len() as int);
    }
    let mut a: usize = 0;
    while a < m.len() && (m[a] == '.' || m[a] == ' ')
        invariant
            a <= m@.len(),
            ds_skip(m@, a as int) == ds_skip(m@, 0),
        decreases m@.len() - a,
    {
        a = a + 1;
    }
    let mut b: usize = m.len();
    while b > 0 && (m[b - 1] == '.' || m[b - 1] == ' ')
        invariant
            b <= m@.len(),
            ds_back(m@, b as int) == ds_back(m@, m@.len() as int),
        decreases b,
    {
        b = b - 1;
    }
    let s = if a < b {
        subvec(m.as_slice(), a, b)
    } else {
        Vec::new()
    };
    let s2 = if s.len() == 0 {
        chars_of("未命名")
    } else {
        s
    };
    string_of(take_chars_exec(s2.as_slice(), 60).as_slice())
}

/// The folder with `/` trimmed from both ends.
pub open spec fn clean_folder(folder: Seq<char>) -> Seq<char> {
    crate::text::trim_c(folder, '/')
}

/// Meaning of `note_candidate`: `folder/base.md`, or `folder/base-n.md` for
/// the `n`-th try (from 2 on); no folder part when the folder is empty.
pub open spec fn note_candidate_s(folder: Seq<char>, base: Seq<char>, n: nat) -> Seq<char> {
    let f = clean_folder(folder);
    let name = if n >= 2 {
        base + "-"@ + crate::text::dec_s(n) + ".md"@
    } else {
        base + ".md"@
    };
    if f.len() == 0 {
        name
    } else {
        f + "/"@ + name
    }
}

/// The id tried for a new note: attempt `n` (below 2 for the first try).
pub fn note_candidate(folder: &str, base: &str, n: u64) -> (r: String)
    ensures
        r@ == note_candidate_s(folder@, base@, n as nat),
{
    let f = crate::text::trim_char(chars_of(folder).as_slice(), '/');
    let mut name = chars_of(base);
    if n >= 2 {
        append_str(&mut name, "-");
        append(&mut name, crate::text::dec(n).as_slice());
    }
    append_str(&mut name, ".md");
    if f.len() == 0 {
        return string_of(name.as_slice());
    }
    let mut out = f;
    append_str(&mut out, "/");
    append(&mut out, name.as_slice());
    string_of(out.as_slice())
}

/// The first text of a new note: `# title`.
pub fn new_note_content(title: &str) -> (r: String)
    ensures
        r@ == "# "@ + trim_s(title@) + "\n\n"@,
{
    let mut v = chars_of("# ");
    append(&mut v, trim_str(title).as_slice());
    append_str(&mut v, "\n\n");
    string_of(v.as_slice())
}

// ---------------------------------------------------------------- search

/// How a query is run.
#[derive(Debug, Clone, PartialEq, Eq)]
pub enum SearchPlan {
    /// nothing to search
    Empty,
    /// fewer than three characters: a substring match on the query
    Like(String),
    /// a full-text match expression
    Fts(String),
}

/// Runs of non-whitespace in `s[i..]` (`split_whitespace`).
pub open spec fn words_from(s: Seq<char>, i: int) -> Seq<Seq<char>>
    decreases s.len() - i, 1int,
{
    if i < 0 || i >= s.len() {
        seq![]
    } else if is_ws(s[i]) {
        words_from(s, i + 1)
    } else {
        let e = word_end(s, i);
        if e <= i || e > s.len() {
            seq![]
        } else {
            seq![s.subrange(i, e)] + words_from(s, e)
        }
    }
}

/// End of the word starting at `i`.
pub open spec fn word_end(s: Seq<char>, i: int) -> int
    decreases s.len() - i, 0int,
{
    if 0 <= i < s.len() && !is_ws(s[i]) {
        word_end(s, i + 1)
    } else {
        i
    }
}

/// A term quoted for the match expression, inner quotes doubled.
pub open spec fn quote_term(t: Seq<char>) -> Seq<char> {
    seq!['"'] + double_quotes(t) + seq!['"']
}

/// `"` doubled.
pub open spec fn double_quotes(t: Seq<char>) -> Seq<char>
    decreases t.len(),
{
    if t.len() == 0 {
        seq![]
    } else {
        double_quotes(t.drop_last()) + if t.last() == '"' {
            seq!['"', '"']
        } else {
            seq![t.last()]
        }
    }
}

/// Meaning of `search_plan`.
pub open spec fn search_plan_s(query: Seq<char>) -> (int, Seq<char>) {
    let q = trim_s(query);
    if q.len() == 0 {
        (0, seq![])
    } else if q.len() < 3 {
        (1, q)
    } else {
        let ws = words_from(q, 0);
        (2, crate::text::join_s(Seq::new(ws.len(), |i: int| quote_term(ws[i])), " AND "@))
    }
}

/// View of a plan: which way and its text.
pub open spec fn plan_view(p: SearchPlan) -> (int, Seq<char>) {
    match p {
        SearchPlan::Empty => (0, seq![]),
        SearchPlan::Like(q) => (1, q@),
        SearchPlan::Fts(e) => (2, e@),
    }
}

proof fn lemma_word_end(s: Seq<char>, i: int)
    requires
        0 <= i <= s.len(),
    ensures
        i <= word_end(s, i) <= s.len(),
    decreases s.len() - i,
{
    if i < s.len() && !is_ws(s[i]) {
        lemma_word_end(s, i + 1);
    }
}

fn quote_exec(t: &[char]) -> (r: Vec<char>)
    ensures
        r@ == quote_term(t@),
{
    let mut d: Vec<char> = Vec::new();
    let mut i: usize = 0;
    while i < t.len()
        invariant
            i <= t@.len(),
            d@ == double_quotes(t@.take(i as int)),
        decreases t@.len() - i,
    {
        assert(t@.take(i + 1).drop_last() =~= t@.take(i as int));
        if t[i] == '"' {
            d.push('"');
            d.push('"');
        } else {
            d.push(t[i]);
        }
        assert(d@ =~= double_quotes(t@.take(i + 1)));
        i = i + 1;
    }
    assert(t@.take(t@.len() as int) =~= t@);
    let mut r: Vec<char> = vec!['"'];
    append(&mut r, d.as_slice());
    r.push('"');
    assert(r@ =~= quote_term(t@));
    r
}

/// How a search query is run: nothing for a blank query, a substring match
/// below three characters, else each whitespace-separated term quoted and
/// joined with `AND`.
pub fn search_plan(query: &str) -> (r: SearchPlan)
    ensures
        plan_view(r) == search_plan_s(query@),
{
    let q = trim_str(query);
    if q.len() == 0 {
        return SearchPlan::Empty;
    }
    if q.len() < 3 {
        return SearchPlan::Like(string_of(q.as_slice()));
    }
    let ghost ws = words_from(q@, 0);
    let mut terms: Vec<Vec<char>> = Vec::new();
    let mut i: usize = 0;
    while i < q.len()
        invariant
            i <= q@.len(),
            views(terms@) + Seq::new(words_from(q@, i as int).len(), |k: int| quote_term(words_from(q@, i as int)[k]))
                == Seq::new(ws.len(), |k: int| quote_term(ws[k])),
            ws == words_from(q@, 0),
        decreases q@.len() - i,
    {
        if is_whitespace(q[i]) {
            i = i + 1;
        } else {
            proof {
                lemma_word_end(q@, i as int);
            }
            let mut e = i;
            while e < q.len() && !is_whitespace(q[e])
                invariant
                    i <= e <= q@.len(),
                    word_end(q@, e as int) == word_end(q@, i as int),
                decreases q@.len() - e,
            {
                e = e + 1;
            }
            let w = subvec(q.as_slice(), i, e);
            let ghost before = views(terms@);
            let qt = quote_exec(w.as_slice());
            terms.push(qt);
            assert(views(terms@) =~= before.push(quote_term(w@)));
            let ghost rest = words_from(q@, e as int);
            assert(words_from(q@, i as int) == seq![q@.subrange(i as int, e as int)] + rest);
            assert(views(terms@) + Seq::new(rest.len(), |k: int| quote_term(rest[k])) =~= before
                + Seq::new(words_from(q@, i as int).len(), |k: int| quote_term(words_from(q@, i as int)[k])));
            i = e;
        }
    }
    assert(views(terms@) =~= Seq::new(ws.len(), |k: int| quote_term(ws[k])));
    let expr = crate::text::join_str(&terms, " AND ");
    SearchPlan::Fts(string_of(expr.as_slice()))
}

/// Hits per search: between 1 and 100.
pub fn search_limit(limit: usize) -> (r: i64)
    ensures
        r == if limit < 1 {
            1
        } else if limit > 100 {
            100
        } else {
            limit as int
        },
{
    if limit < 1 {
        1
    } else if limit > 100 {
        100
    } else {
        limit as i64
    }
}

} // verus!
