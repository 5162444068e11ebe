//! Markdown parsing: the title and the front-matter tags.
//!
//! `body` is the complete text (front matter included), so that chunk line numbers
//! match the file.
use vstd::prelude::*;
use crate::text::{
    append, chars_of, copy_chars, eq_chars, idx_of, idx_of_exec, lemma_idx_of, lines, lines_s,
    split_char, split_s, starts_with_s, string_of, strip_prefix_str, strings_of, str_views,
    subvec, trim, trim_c, trim_char, trim_end, trim_end_c, trim_end_char, trim_end_s, trim_s,
    trim_start, trim_start_c, trim_start_char, trim_start_s, trim_str, views,
};

verus! {

/// Result of parsing a note.
#[derive(Debug, Clone, PartialEq, Eq)]
pub struct ParsedDoc {
    /// the first level-one heading, or the caller's fallback title
    pub title: String,
    /// tags of the front matter
    pub tags: Vec<String>,
    /// the complete text
    pub body: String,
}

// ---------------------------------------------------------------- front matter

/// End (exclusive) of the line that starts at `i`, newline included.
pub open spec fn line_end(s: Seq<char>, i: int) -> int {
    let k = idx_of(s, '\n', i);
    if k < s.len() {
        k + 1
    } else {
        s.len() as int
    }
}

/// Start of the closing `---` line at or after `p`, and its end.
pub open spec fn closing_fence(s: Seq<char>, p: int) -> Option<(int, int)>
    decreases s.len() - p,
{
    if p < 0 || p >= s.len() {
        None
    } else {
        let e = line_end(s, p);
        if trim_end_s(s.subrange(p, e)) == "---"@ {
            Some((p, e))
        } else if e > p {
            closing_fence(s, e)
        } else {
            None
        }
    }
}

/// Meaning of `split_frontmatter`: the front matter (between a first `---` line and
/// the next `---` line) and the rest of the text.
pub open spec fn split_frontmatter_s(s: Seq<char>) -> (Option<Seq<char>>, Seq<char>) {
    if s.len() == 0 {
        (None, s)
    } else {
        let e0 = line_end(s, 0);
        if trim_end_s(s.subrange(0, e0)) != "---"@ {
            (None, s)
        } else {
            match closing_fence(s, e0) {
                Some((p, e)) => (Some(s.subrange(e0, p)), s.subrange(e, s.len() as int)),
                None => (None, s),
            }
        }
    }
}

proof fn lemma_line_end(s: Seq<char>, i: int)
    requires
        0 <= i < s.len(),
    ensures
        i < line_end(s, i) <= s.len(),
{
    lemma_idx_of(s, '\n', i);
}

fn line_end_exec(s: &[char], i: usize) -> (r: usize)
    requires
        i < s@.len(),
    ensures
        r == line_end(s@, i as int),
        i < r <= s@.len(),
{
    proof {
        lemma_line_end(s@, i as int);
        lemma_idx_of(s@, '\n', i as int);
    }
    let k = idx_of_exec(s, '\n', i);
    if k < s.len() {
        k + 1
    } else {
        k
    }
}

fn is_fence(s: &[char], a: usize, b: usize) -> (r: bool)
    requires
        a <= b <= s@.len(),
    ensures
        r == (trim_end_s(s@.subrange(a as int, b as int)) == "---"@),
{
    let l = subvec(s, a, b);
    let t = trim_end(l.as_slice());
    eq_chars(t.as_slice(), chars_of("---").as_slice())
}

fn split_frontmatter(s: &[char]) -> (r: (Option<Vec<char>>, Vec<char>))
    ensures
        match r.0 {
            Some(f) => split_frontmatter_s(s@).0 == Some(f@),
            None => split_frontmatter_s(s@).0 is None,
        },
        r.1@ == split_frontmatter_s(s@).1,
{
    if s.len() == 0 {
        return (None, copy_chars(s));
    }
    let e0 = line_end_exec(s, 0);
    if !is_fence(s, 0, e0) {
        return (None, copy_chars(s));
    }
    let mut p = e0;
    while p < s.len()
        invariant
            0 < e0 <= p <= s@.len(),
            e0 == line_end(s@, 0),
            trim_end_s(s@.subrange(0, e0 as int)) == "---"@,
            closing_fence(s@, p as int) == closing_fence(s@, e0 as int),
        decreases s@.len() - p,
    {
        let e = line_end_exec(s, p);
        if is_fence(s, p, e) {
            return (Some(subvec(s, e0, p)), subvec(s, e, s.len()));
        }
        p = e;
    }
    (None, copy_chars(s))
}

// ---------------------------------------------------------------- tags

/// Meaning of `push_tag`: adds the cleaned tag unless it is empty or present.
pub open spec fn push_tag_s(out: Seq<Seq<char>>, raw: Seq<char>) -> Seq<Seq<char>> {
    let t = trim_s(trim_c(trim_c(trim_s(raw), '"'), '\''));
    if t.len() > 0 && !out.contains(t) {
        out.push(t)
    } else {
        out
    }
}

/// Tags after pushing the first `n` pieces.
pub open spec fn push_all(out: Seq<Seq<char>>, ps: Seq<Seq<char>>, n: int) -> Seq<Seq<char>>
    decreases n,
{
    if n <= 0 || n > ps.len() {
        out
    } else {
        push_tag_s(push_all(out, ps, n - 1), ps[n - 1])
    }
}

/// Tags and list state after the first `n` front-matter lines.
pub open spec fn tags_upto(ls: Seq<Seq<char>>, n: int) -> (Seq<Seq<char>>, bool)
    decreases n,
{
    if n <= 0 || n > ls.len() {
        (seq![], false)
    } else {
        let (out, in_list) = tags_upto(ls, n - 1);
        let line = trim_s(ls[n - 1]);
        if starts_with_s(line, "tags:"@) {
            let rest = trim_s(line.skip(5));
            if rest.len() > 0 {
                let inner = trim_end_c(trim_start_c(rest, '['), ']');
                let ps = split_s(inner, ',');
                (push_all(out, ps, ps.len() as int), false)
            } else {
                (out, true)
            }
        } else if in_list {
            if starts_with_s(line, "-"@) {
                (push_tag_s(out, line.skip(1)), true)
            } else if line.len() > 0 {
                (out, false)
            } else {
                (out, true)
            }
        } else {
            (out, false)
        }
    }
}

/// Meaning of `parse_tags`.
pub open spec fn parse_tags_s(front: Seq<char>) -> Seq<Seq<char>> {
    let ls = lines_s(front);
    tags_upto(ls, ls.len() as int).0
}

fn contains_line(out: &Vec<Vec<char>>, t: &[char]) -> (b: bool)
    ensures
        b == views(out@).contains(t@),
{
    let mut i: usize = 0;
    while i < out.len()
        invariant
            i <= out@.len(),
            forall|k: int| 0 <= k < i ==> views(out@)[k] != t@,
        decreases out@.len() - i,
    {
        if eq_chars(out[i].as_slice(), t) {
            assert(views(out@)[i as int] == t@);
            return true;
        }
        i = i + 1;
    }
    false
}

fn push_tag(out: &mut Vec<Vec<char>>, raw: &[char])
    ensures
        views(final(out)@) == push_tag_s(views(old(out)@), raw@),
{
    let a = trim(raw);
    let b = trim_char(a.as_slice(), '"');
    let c = trim_char(b.as_slice(), '\'');
    let t = trim(c.as_slice());
    if t.len() > 0 && !contains_line(out, t.as_slice()) {
        let ghost prev = views(out@);
        out.push(t);
        assert(views(out@) =~= prev.push(t@));
    }
}

fn parse_tags(front: &[char]) -> (r: Vec<Vec<char>>)
    ensures
        views(r@) == parse_tags_s(front@),
{
    let ls = lines(front);
    let ghost lv = views(ls@);
    let mut out: Vec<Vec<char>> = Vec::new();
    let mut in_list = false;
    let mut i: usize = 0;
    while i < ls.len()
        invariant
            i <= ls@.len(),
            lv == views(ls@),
            (views(out@), in_list) == tags_upto(lv, i as int),
        decreases ls@.len() - i,
    {
        assert(lv[i as int] == ls@[i as int]@);
        let line = trim(ls[i].as_slice());
        match strip_prefix_str(line.as_slice(), "tags:") {
            Some(rest0) => {
                proof {
                    reveal_strlit("tags:");
                }
                let rest = trim(rest0.as_slice());
                if rest.len() > 0 {
                    let a = trim_start_char(rest.as_slice(), '[');
                    let inner = trim_end_char(a.as_slice(), ']');
                    let ps = split_char(inner.as_slice(), ',');
                    let ghost pv = views(ps@);
                    let ghost o0 = views(out@);
                    let mut k: usize = 0;
                    while k < ps.len()
                        invariant
                            k <= ps@.len(),
                            pv == views(ps@),
                            views(out@) == push_all(o0, pv, k as int),
                        decreases ps@.len() - k,
                    {
                        assert(pv[k as int] == ps@[k as int]@);
                        push_tag(&mut out, ps[k].as_slice());
                        k = k + 1;
                    }
                    in_list = false;
                } else {
                    in_list = true;
                }
            },
            None => {
                if in_list {
                    match strip_prefix_str(line.as_slice(), "-") {
                        Some(item) => {
                            proof {
                                reveal_strlit("-");
                            }
                            push_tag(&mut out, item.as_slice());
                        },
                        None => {
                            if line.len() > 0 {
                                in_list = false;
                            }
                        },
                    }
                }
            },
        }
        i = i + 1;
    }
    out
}

// ---------------------------------------------------------------- title

/// The first ATX level-one heading (`# title`) from line `i` on.
pub open spec fn h1_from(ls: Seq<Seq<char>>, i: int) -> Option<Seq<char>>
    decreases ls.len() - i,
{
    if i < 0 || i >= ls.len() {
        None
    } else {
        let t = trim_start_s(ls[i]);
        if starts_with_s(t, "# "@) && trim_s(t.skip(2)).len() > 0 {
            Some(trim_s(t.skip(2)))
        } else {
            h1_from(ls, i + 1)
        }
    }
}

fn find_h1(text: &[char]) -> (r: Option<Vec<char>>)
    ensures
        match r {
            Some(t) => h1_from(lines_s(text@), 0) == Some(t@),
            None => h1_from(lines_s(text@), 0) is None,
        },
{
    let ls = lines(text);
    let ghost lv = views(ls@);
    let mut i: usize = 0;
    while i < ls.len()
        invariant
            i <= ls@.len(),
            lv == views(ls@),
            lv == lines_s(text@),
            h1_from(lv, i as int) == h1_from(lv, 0),
        decreases ls@.len() - i,
    {
        assert(lv[i as int] == ls@[i as int]@);
        let t = trim_start(ls[i].as_slice());
        match strip_prefix_str(t.as_slice(), "# ") {
            Some(rest) => {
                proof {
                    reveal_strlit("# ");
                }
                let title = trim(rest.as_slice());
                if title.len() > 0 {
                    return Some(title);
                }
            },
            None => {},
        }
        i = i + 1;
    }
    None
}

/// The first heading is the title: when line `i` of the lines after the front
/// matter is, left-trimmed, `# ` and a non-blank text, and no line before it
/// is, the title is that text trimmed; with no such line at all, the title is
/// the trimmed fallback.
pub proof fn lemma_title_first_heading(content: Seq<char>, fallback: Seq<char>, i: int)
    ensures
        ({
            let ls = lines_s(split_frontmatter_s(content).1);
            (0 <= i < ls.len() && starts_with_s(trim_start_s(ls[i]), "# "@) && trim_s(
                trim_start_s(ls[i]).skip(2),
            ).len() > 0 && forall|j: int|
                0 <= j < i ==> !(starts_with_s(trim_start_s(#[trigger] ls[j]), "# "@) && trim_s(
                    trim_start_s(ls[j]).skip(2),
                ).len() > 0)) ==> parse_s(content, fallback).0 == trim_s(trim_start_s(ls[i]).skip(2))
        }),
        (forall|j: int|
            0 <= j < lines_s(split_frontmatter_s(content).1).len() ==> !(starts_with_s(
                trim_start_s(#[trigger] lines_s(split_frontmatter_s(content).1)[j]),
                "# "@,
            ) && trim_s(trim_start_s(lines_s(split_frontmatter_s(content).1)[j]).skip(2)).len() > 0))
            ==> parse_s(content, fallback).0 == trim_s(fallback),
{
    let ls = lines_s(split_frontmatter_s(content).1);
    if 0 <= i < ls.len() {
        lemma_h1_at(ls, 0, i);
    }
    lemma_h1_none(ls, 0);
}

/// Looking from `a` on finds the first heading line, here `i`.
proof fn lemma_h1_at(ls: Seq<Seq<char>>, a: int, i: int)
    requires
        0 <= a <= i < ls.len(),
    ensures
        (starts_with_s(trim_start_s(ls[i]), "# "@) && trim_s(trim_start_s(ls[i]).skip(2)).len() > 0
            && forall|j: int|
            a <= j < i ==> !(starts_with_s(trim_start_s(#[trigger] ls[j]), "# "@) && trim_s(
                trim_start_s(ls[j]).skip(2),
            ).len() > 0)) ==> h1_from(ls, a) == Some(trim_s(trim_start_s(ls[i]).skip(2))),
    decreases i - a,
{
    if a < i {
        lemma_h1_at(ls, a + 1, i);
    }
}

/// With no heading line from `a` on, nothing is found.
proof fn lemma_h1_none(ls: Seq<Seq<char>>, a: int)
    requires
        0 <= a <= ls.len(),
    ensures
        (forall|j: int|
            a <= j < ls.len() ==> !(starts_with_s(trim_start_s(#[trigger] ls[j]), "# "@) && trim_s(
                trim_start_s(ls[j]).skip(2),
            ).len() > 0)) ==> h1_from(ls, a) is None,
    decreases ls.len() - a,
{
    if a < ls.len() {
        lemma_h1_none(ls, a + 1);
    }
}

/// Meaning of `parse`.
pub open spec fn parse_s(content: Seq<char>, fallback: Seq<char>) -> (Seq<char>, Seq<Seq<char>>) {
    let (front, rest) = split_frontmatter_s(content);
    let tags = match front {
        Some(f) => parse_tags_s(f),
        None => seq![],
    };
    let title = match h1_from(lines_s(rest), 0) {
        Some(t) => t,
        None => trim_s(fallback),
    };
    (title, tags)
}

/// Parses a note: title = first `# ` heading (else the trimmed fallback), tags = the
/// `tags:` of a leading `---` front matter (`[a, b]`, `a, b` or a `- a` list).
pub fn parse(content: &str, fallback_title: &str) -> (r: ParsedDoc)
    ensures
        r.title@ == parse_s(content@, fallback_title@).0,
        str_views(r.tags@) == parse_s(content@, fallback_title@).1,
        r.body@ == content@,
        forall|i: int|
            #![trigger lines_s(split_frontmatter_s(content@).1)[i]]
            0 <= i < lines_s(split_frontmatter_s(content@).1).len() && starts_with_s(
                trim_start_s(lines_s(split_frontmatter_s(content@).1)[i]),
                "# "@,
            ) && trim_s(trim_start_s(lines_s(split_frontmatter_s(content@).1)[i]).skip(2)).len() > 0
                && (forall|j: int|
                0 <= j < i ==> !(starts_with_s(
                    trim_start_s(#[trigger] lines_s(split_frontmatter_s(content@).1)[j]),
                    "# "@,
                ) && trim_s(trim_start_s(lines_s(split_frontmatter_s(content@).1)[j]).skip(2)).len()
                    > 0)) ==> r.title@ == trim_s(
                trim_start_s(lines_s(split_frontmatter_s(content@).1)[i]).skip(2),
            ),
{
    proof {
        assert forall|i: int|
            #![trigger lines_s(split_frontmatter_s(content@).1)[i]]
            0 <= i < lines_s(split_frontmatter_s(content@).1).len() implies (starts_with_s(
                trim_start_s(lines_s(split_frontmatter_s(content@).1)[i]),
                "# "@,
            ) && trim_s(trim_start_s(lines_s(split_frontmatter_s(content@).1)[i]).skip(2)).len() > 0
                && (forall|j: int|
                0 <= j < i ==> !(starts_with_s(
                    trim_start_s(#[trigger] lines_s(split_frontmatter_s(content@).1)[j]),
                    "# "@,
                ) && trim_s(trim_start_s(lines_s(split_frontmatter_s(content@).1)[j]).skip(2)).len()
                    > 0)) ==> parse_s(content@, fallback_title@).0 == trim_s(
                trim_start_s(lines_s(split_frontmatter_s(content@).1)[i]).skip(2),
            )) by {
            lemma_title_first_heading(content@, fallback_title@, i);
        }
    }
    let v = chars_of(content);
    let (front, rest) = split_frontmatter(v.as_slice());
    let tags: Vec<Vec<char>> = match front {
        Some(f) => parse_tags(f.as_slice()),
        None => Vec::new(),
    };
    assert(views(tags@) == parse_s(content@, fallback_title@).1);
    let title = match find_h1(rest.as_slice()) {
        Some(t) => t,
        None => trim_str(fallback_title),
    };
    let tag_strings = strings_of(&tags);
    assert(str_views(tag_strings@) =~= views(tags@));
    ParsedDoc {
        title: string_of(title.as_slice()),
        tags: tag_strings,
        body: string_of(v.as_slice()),
    }
}

} // verus!
