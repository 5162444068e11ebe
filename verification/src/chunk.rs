//! Splitting Markdown into chunks with line numbers: headings first, then
//! paragraphs packed together, over-long paragraphs cut hard.
//!
//! Line numbers are 1-based lines of the file.
use vstd::prelude::*;
use crate::text::{
    append, blank, c_skip, copy_chars, idx_of, idx_of_exec, is_blank, join, join_s, lemma_c_skip,
    lemma_idx_of, lemma_split_len, split_char, split_s, string_of, subvec, trim_end, trim_end_s, trim_start,
    trim_start_s, views,
};

verus! {

/// Size a chunk aims at (characters).
pub const TARGET_CHUNK_CHARS: usize = 600;

/// Largest chunk; longer paragraphs are cut.
pub const MAX_CHUNK_CHARS: usize = 900;

/// Overlap kept between neighbouring chunks (characters).
pub const OVERLAP_CHARS: usize = 80;

/// A chunk of a note.
#[derive(Debug, Clone, PartialEq, Eq)]
pub struct Chunk {
    pub seq: usize,
    pub start_line: usize,
    pub end_line: usize,
    pub text: String,
}

// ---------------------------------------------------------------- headings

/// A Markdown heading line: up to six `#` after optional whitespace, then a space.
pub open spec fn is_heading_s(line: Seq<char>) -> bool {
    let t = trim_start_s(line);
    let h = c_skip(t, '#', 0);
    1 <= h <= 6 && h < t.len() && t[h] == ' '
}

fn is_heading(line: &[char]) -> (b: bool)
    ensures
        b == is_heading_s(line@),
{
    let t = trim_start(line);
    let mut h: usize = 0;
    while h < t.len() && t[h] == '#'
        invariant
            h <= t@.len(),
            c_skip(t@, '#', h as int) == c_skip(t@, '#', 0),
        decreases t@.len() - h,
    {
        h = h + 1;
    }
    1 <= h && h <= 6 && h < t.len() && t[h] == ' '
}

// ---------------------------------------------------------------- hard split

/// Pieces of `s[i..]` that each end with a newline (the last may not): `split_inclusive('\n')`.
pub open spec fn split_incl_from(s: Seq<char>, i: int) -> Seq<Seq<char>>
    decreases s.len() - i,
{
    if i < 0 || i >= s.len() {
        seq![]
    } else {
        let k = idx_of(s, '\n', i);
        if i <= k < s.len() {
            seq![s.subrange(i, k + 1)] + split_incl_from(s, k + 1)
        } else {
            seq![s.subrange(i, s.len() as int)]
        }
    }
}

fn split_inclusive(v: &[char]) -> (r: Vec<Vec<char>>)
    ensures
        views(r@) == split_incl_from(v@, 0),
{
    let mut r: Vec<Vec<char>> = Vec::new();
    let mut i: usize = 0;
    while i < v.len()
        invariant
            i <= v@.len(),
            views(r@) + split_incl_from(v@, i as int) == split_incl_from(v@, 0),
        decreases v@.len() - i,
    {
        proof {
            lemma_idx_of(v@, '\n', i as int);
        }
        let k = idx_of_exec(v, '\n', i);
        let ghost old_r = r@;
        if k < v.len() {
            r.push(subvec(v, i, k + 1));
            assert(views(r@) =~= views(old_r).push(v@.subrange(i as int, k + 1)));
            assert(views(old_r) + split_incl_from(v@, i as int) =~= views(r@) + split_incl_from(
                v@,
                k + 1,
            ));
            i = k + 1;
        } else {
            r.push(subvec(v, i, v.len()));
            assert(views(r@) =~= views(old_r).push(v@.subrange(i as int, v@.len() as int)));
            assert(views(old_r) + split_incl_from(v@, i as int) =~= views(r@));
            return r;
        }
    }
    assert(views(r@) + split_incl_from(v@, i as int) =~= views(r@));
    r
}

/// Hard split: the first `j` characters of an over-long line added one by one,
/// a piece closed whenever it reaches `max`.
pub open spec fn hs_chars(out: Seq<Seq<char>>, cur: Seq<char>, line: Seq<char>, max: int, j: int) -> (
    Seq<Seq<char>>,
    Seq<char>,
)
    decreases j,
{
    if j <= 0 || j > line.len() {
        (out, cur)
    } else {
        let (o, c) = hs_chars(out, cur, line, max, j - 1);
        let c2 = c.push(line[j - 1]);
        if c2.len() >= max {
            (o.push(c2), seq![])
        } else {
            (o, c2)
        }
    }
}

/// Hard split: one line added to the pieces.
pub open spec fn hs_line(out: Seq<Seq<char>>, cur: Seq<char>, line: Seq<char>, max: int) -> (
    Seq<Seq<char>>,
    Seq<char>,
) {
    let (o1, c1) = if cur.len() + line.len() > max && cur.len() > 0 {
        (out.push(cur), seq![])
    } else {
        (out, cur)
    };
    if line.len() > max {
        hs_chars(o1, c1, line, max, line.len() as int)
    } else {
        (o1, c1 + line)
    }
}

/// Hard split after the first `n` lines.
pub open spec fn hs_upto(ls: Seq<Seq<char>>, max: int, n: int) -> (Seq<Seq<char>>, Seq<char>)
    decreases n,
{
    if n <= 0 || n > ls.len() {
        (seq![], seq![])
    } else {
        let (o, c) = hs_upto(ls, max, n - 1);
        hs_line(o, c, ls[n - 1], max)
    }
}

/// Meaning of `hard_split`: lines kept whole where they fit in `max`
/// characters, longer lines cut by characters; a blank remainder is dropped.
pub open spec fn hard_split_s(text: Seq<char>, max: int) -> Seq<Seq<char>> {
    let ls = split_incl_from(text, 0);
    let (o, c) = hs_upto(ls, max, ls.len() as int);
    if !blank(c) {
        o.push(c)
    } else {
        o
    }
}

fn push_piece(out: &mut Vec<Vec<char>>, cur: Vec<char>)
    ensures
        views(final(out)@) == views(old(out)@).push(cur@),
{
    out.push(cur);
    assert(views(out@) =~= views(old(out)@).push(cur@));
}

fn hard_split(text: &[char], max: usize) -> (r: Vec<Vec<char>>)
    ensures
        views(r@) == hard_split_s(text@, max as int),
{
    let ls = split_inclusive(text);
    let ghost lv = views(ls@);
    let mut out: Vec<Vec<char>> = Vec::new();
    let mut cur: Vec<char> = Vec::new();
    let mut i: usize = 0;
    while i < ls.len()
        invariant
            i <= ls@.len(),
            lv == views(ls@),
            lv == split_incl_from(text@, 0),
            (views(out@), cur@) == hs_upto(lv, max as int, i as int),
        decreases ls@.len() - i,
    {
        let line = &ls[i];
        assert(lv[i as int] == line@);
        let ghost o0 = views(out@);
        let ghost c0 = cur@;
        if cur.len() > max || line.len() > max - cur.len() {
            if cur.len() > 0 {
                let done = copy_chars(cur.as_slice());
                push_piece(&mut out, done);
                cur = Vec::new();
            }
        }
        let ghost o1 = views(out@);
        let ghost c1 = cur@;
        if line.len() > max {
            let mut j: usize = 0;
            while j < line.len()
                invariant
                    j <= line@.len(),
                    (views(out@), cur@) == hs_chars(o1, c1, line@, max as int, j as int),
                decreases line@.len() - j,
            {
                cur.push(line[j]);
                if cur.len() >= max {
                    let done = copy_chars(cur.as_slice());
                    push_piece(&mut out, done);
                    cur = Vec::new();
                }
                j = j + 1;
            }
        } else {
            append(&mut cur, line.as_slice());
        }
        i = i + 1;
    }
    if !is_blank(cur.as_slice()) {
        push_piece(&mut out, cur);
    }
    out
}

// ---------------------------------------------------------------- sections and paragraphs

/// Sections after the first `k` lines: the closed `(start, end)` ranges and the
/// start of the open one; a heading line (not the first) opens a section.
pub open spec fn sections_upto(ls: Seq<Seq<char>>, k: int) -> (Seq<(int, int)>, int)
    decreases k,
{
    if k <= 0 || k > ls.len() {
        (seq![], 1)
    } else {
        let (ss, st) = sections_upto(ls, k - 1);
        if k > 1 && is_heading_s(ls[k - 1]) {
            (ss.push((st, k - 1)), k)
        } else {
            (ss, st)
        }
    }
}

/// The sections of a note, as 1-based inclusive line ranges.
pub open spec fn sections_s(ls: Seq<Seq<char>>) -> Seq<(int, int)> {
    let (ss, st) = sections_upto(ls, ls.len() as int);
    ss.push((st, ls.len() as int))
}

/// Text of lines `s..=e` (1-based).
pub open spec fn section_text_s(ls: Seq<Seq<char>>, s: int, e: int) -> Seq<char> {
    join_s(ls.subrange(s - 1, e), seq!['\n'])
}

/// Paragraphs of lines `s..` after `m` lines: closed paragraphs, the start of
/// the open one and its lines.
pub open spec fn paras_upto(ls: Seq<Seq<char>>, s: int, m: int) -> (
    Seq<(int, int, Seq<char>)>,
    int,
    Seq<Seq<char>>,
)
    decreases m,
{
    if m <= 0 {
        (seq![], s, seq![])
    } else {
        let (out, cs, buf) = paras_upto(ls, s, m - 1);
        let i = s + m - 1;
        let line = ls[i - 1];
        if blank(line) {
            (if buf.len() > 0 {
                out.push((cs, i - 1, join_s(buf, seq!['\n'])))
            } else {
                out
            }, i + 1, seq![])
        } else {
            (out, if buf.len() == 0 {
                i
            } else {
                cs
            }, buf.push(line))
        }
    }
}

/// Paragraphs (separated by blank lines) of lines `s..=e`, with their line ranges.
pub open spec fn paragraphs_s(ls: Seq<Seq<char>>, s: int, e: int) -> Seq<(int, int, Seq<char>)> {
    let (out, cs, buf) = paras_upto(ls, s, e - s + 1);
    if buf.len() > 0 {
        out.push((cs, e, join_s(buf, seq!['\n'])))
    } else {
        out
    }
}

/// Views of paragraphs.
pub open spec fn paras_view(v: Seq<(usize, usize, Vec<char>)>) -> Seq<(int, int, Seq<char>)> {
    Seq::new(v.len(), |i: int| (v[i].0 as int, v[i].1 as int, v[i].2@))
}

fn nl() -> (r: Vec<char>)
    ensures
        r@ == seq!['\n'],
{
    let r: Vec<char> = vec!['\n'];
    assert(r@ =~= seq!['\n']);
    r
}

fn copy_lines(lines: &Vec<Vec<char>>, a: usize, b: usize) -> (r: Vec<Vec<char>>)
    requires
        a <= b <= lines@.len(),
    ensures
        views(r@) == views(lines@).subrange(a as int, b as int),
{
    let mut r: Vec<Vec<char>> = Vec::new();
    let mut i = a;
    while i < b
        invariant
            a <= i <= b <= lines@.len(),
            r@.len() == i - a,
            views(r@) == views(lines@).subrange(a as int, i as int),
        decreases b - i,
    {
        let ghost before = r@;
        r.push(copy_chars(lines[i].as_slice()));
        assert forall|k: int| 0 <= k < i - a implies views(r@)[k] == views(lines@)[a + k] by {
            assert(r@[k] == before[k]);
            assert(views(before)[k] == views(lines@).subrange(a as int, i as int)[k]);
        }
        assert(views(r@) =~= views(lines@).subrange(a as int, i + 1));
        i = i + 1;
    }
    r
}

fn section_text(lines: &Vec<Vec<char>>, start: usize, end: usize) -> (r: Vec<char>)
    requires
        1 <= start,
        start - 1 <= end <= lines@.len(),
    ensures
        r@ == section_text_s(views(lines@), start as int, end as int),
{
    let part = copy_lines(lines, start - 1, end);
    join(&part, nl().as_slice())
}

fn paragraphs(lines: &Vec<Vec<char>>, start: usize, end: usize) -> (r: Vec<(usize, usize, Vec<char>)>)
    requires
        1 <= start <= end,
        end < lines@.len() + 1,
        lines@.len() < usize::MAX,
    ensures
        paras_view(r@) == paragraphs_s(views(lines@), start as int, end as int),
{
    let ghost lv = views(lines@);
    let mut out: Vec<(usize, usize, Vec<char>)> = Vec::new();
    let mut cur_start = start;
    let mut buf: Vec<Vec<char>> = Vec::new();
    let mut i = start;
    while i <= end
        invariant
            1 <= start <= i,
            i <= end + 1,
            end <= lines@.len(),
            lines@.len() < usize::MAX,
            lv == views(lines@),
            (paras_view(out@), cur_start as int, views(buf@)) == paras_upto(
                lv,
                start as int,
                i - start,
            ),
        decreases end + 1 - i,
    {
        let line = &lines[i - 1];
        assert(lv[i - 1] == line@);
        let ghost po = paras_view(out@);
        let ghost pb = views(buf@);
        if is_blank(line.as_slice()) {
            if buf.len() > 0 {
                let text = join(&buf, nl().as_slice());
                out.push((cur_start, i - 1, text));
                assert(paras_view(out@) =~= po.push((cur_start as int, i - 1, join_s(pb, seq!['\n']))));
                buf = Vec::new();
            }
            assert(views(buf@) =~= seq![]);
            cur_start = i + 1;
        } else {
            if buf.len() == 0 {
                cur_start = i;
            }
            buf.push(copy_chars(line.as_slice()));
            assert(views(buf@) =~= pb.push(line@));
        }
        i = i + 1;
    }
    if buf.len() > 0 {
        let ghost po = paras_view(out@);
        let text = join(&buf, nl().as_slice());
        out.push((cur_start, end, text));
        assert(paras_view(out@) =~= po.push((cur_start as int, end as int, join_s(views(buf@), seq!['\n']))));
    }
    out
}

// ---------------------------------------------------------------- packing

/// Texts of paragraphs.
pub open spec fn texts_of(cur: Seq<(int, int, Seq<char>)>) -> Seq<Seq<char>> {
    Seq::new(cur.len(), |i: int| cur[i].2)
}

/// Closes the open chunk: its paragraphs joined by blank lines; the last
/// paragraph is kept as overlap when it has at most 200 characters.
pub open spec fn flush_s(out: Seq<(int, int, Seq<char>)>, cur: Seq<(int, int, Seq<char>)>) -> (
    Seq<(int, int, Seq<char>)>,
    Seq<(int, int, Seq<char>)>,
) {
    if cur.len() == 0 {
        (out, cur)
    } else {
        let last = cur.last();
        (
            out.push((cur[0].0, last.1, trim_end_s(join_s(texts_of(cur), seq!['\n', '\n'])))),
            if last.2.len() <= 200 {
                seq![last]
            } else {
                seq![]
            },
        )
    }
}

/// Counted size of open paragraphs: characters plus two each.
pub open spec fn len_sum(cur: Seq<(int, int, Seq<char>)>) -> int
    decreases cur.len(),
{
    if cur.len() == 0 {
        0
    } else {
        len_sum(cur.drop_last()) + cur.last().2.len() + 2
    }
}

/// Chunks of the pieces of a hard-split paragraph, all with its line range.
pub open spec fn pieces_chunks(s: int, e: int, pieces: Seq<Seq<char>>) -> Seq<(int, int, Seq<char>)> {
    Seq::new(pieces.len(), |i: int| (s, e, trim_end_s(pieces[i])))
}

/// One paragraph added to the packing state (chunks, open paragraphs, size).
pub open spec fn pack_step(
    st: (Seq<(int, int, Seq<char>)>, Seq<(int, int, Seq<char>)>, int),
    p: (int, int, Seq<char>),
) -> (Seq<(int, int, Seq<char>)>, Seq<(int, int, Seq<char>)>, int) {
    let (out, cur, cl) = st;
    let plen = p.2.len() as int;
    if plen > MAX_CHUNK_CHARS {
        let (o2, c2) = flush_s(out, cur);
        (o2 + pieces_chunks(p.0, p.1, hard_split_s(p.2, MAX_CHUNK_CHARS as int)), c2, 0)
    } else if cl + plen > TARGET_CHUNK_CHARS && cur.len() > 0 {
        let (o2, c2) = flush_s(out, cur);
        (o2, c2.push(p), len_sum(c2) + plen + 2)
    } else {
        (out, cur.push(p), cl + plen + 2)
    }
}

/// Packing state after the first `n` paragraphs.
pub open spec fn pack_upto(
    out: Seq<(int, int, Seq<char>)>,
    paras: Seq<(int, int, Seq<char>)>,
    n: int,
) -> (Seq<(int, int, Seq<char>)>, Seq<(int, int, Seq<char>)>, int)
    decreases n,
{
    if n <= 0 || n > paras.len() {
        (out, seq![], 0)
    } else {
        pack_step(pack_upto(out, paras, n - 1), paras[n - 1])
    }
}

/// Meaning of `pack_paragraphs`: the chunks appended to `out`.
pub open spec fn pack_s(out: Seq<(int, int, Seq<char>)>, paras: Seq<(int, int, Seq<char>)>) -> Seq<
    (int, int, Seq<char>),
> {
    let (o, c, cl) = pack_upto(out, paras, paras.len() as int);
    flush_s(o, c).0
}

/// Views of chunks: start line, end line, text.
pub open spec fn out_view(v: Seq<Chunk>) -> Seq<(int, int, Seq<char>)> {
    Seq::new(v.len(), |i: int| (v[i].start_line as int, v[i].end_line as int, v[i].text@))
}

/// Each chunk's `seq` is its position.
pub open spec fn seq_ok(v: Seq<Chunk>) -> bool {
    forall|i: int| 0 <= i < v.len() ==> #[trigger] v[i].seq == i
}

fn push_chunk(out: &mut Vec<Chunk>, start: usize, end: usize, text: &[char])
    requires
        seq_ok(old(out)@),
    ensures
        seq_ok(final(out)@),
        out_view(final(out)@) == out_view(old(out)@).push((start as int, end as int, trim_end_s(text@))),
{
    let t = trim_end(text);
    let c = Chunk { seq: out.len(), start_line: start, end_line: end, text: string_of(t.as_slice()) };
    out.push(c);
    assert(out_view(out@) =~= out_view(old(out)@).push((start as int, end as int, trim_end_s(text@))));
}

fn copy_para(p: &(usize, usize, Vec<char>)) -> (r: (usize, usize, Vec<char>))
    ensures
        r.0 == p.0,
        r.1 == p.1,
        r.2@ == p.2@,
{
    (p.0, p.1, copy_chars(p.2.as_slice()))
}

fn flush(out: &mut Vec<Chunk>, cur: &mut Vec<(usize, usize, Vec<char>)>)
    requires
        seq_ok(old(out)@),
    ensures
        seq_ok(final(out)@),
        (out_view(final(out)@), paras_view(final(cur)@)) == flush_s(
            out_view(old(out)@),
            paras_view(old(cur)@),
        ),
{
    if cur.len() == 0 {
        return;
    }
    let ghost cv = paras_view(cur@);
    let mut texts: Vec<Vec<char>> = Vec::new();
    let mut i: usize = 0;
    while i < cur.len()
        invariant
            i <= cur@.len(),
            cv == paras_view(cur@),
            texts@.len() == i,
            views(texts@) == texts_of(cv).take(i as int),
        decreases cur@.len() - i,
    {
        let ghost before = texts@;
        texts.push(copy_chars(cur[i].2.as_slice()));
        assert forall|k: int| 0 <= k < i implies views(texts@)[k] == texts_of(cv)[k] by {
            assert(texts@[k] == before[k]);
            assert(views(before)[k] == texts_of(cv).take(i as int)[k]);
        }
        assert(views(texts@) =~= texts_of(cv).take(i + 1));
        i = i + 1;
    }
    assert(texts_of(cv).take(cur@.len() as int) =~= texts_of(cv));
    let sep: Vec<char> = vec!['\n', '\n'];
    assert(sep@ =~= seq!['\n', '\n']);
    let text = join(&texts, sep.as_slice());
    let s = cur[0].0;
    let e = cur[cur.len() - 1].1;
    push_chunk(out, s, e, text.as_slice());
    let last = copy_para(&cur[cur.len() - 1]);
    let keep = last.2.len() <= 200;
    *cur = Vec::new();
    if keep {
        cur.push(last);
    }
    assert(paras_view(cur@) =~= (if cv.last().2.len() <= 200 {
        seq![cv.last()]
    } else {
        seq![]
    }));
}

fn push_pieces(out: &mut Vec<Chunk>, start: usize, end: usize, pieces: &Vec<Vec<char>>)
    requires
        seq_ok(old(out)@),
    ensures
        seq_ok(final(out)@),
        out_view(final(out)@) == out_view(old(out)@) + pieces_chunks(
            start as int,
            end as int,
            views(pieces@),
        ),
{
    let mut i: usize = 0;
    while i < pieces.len()
        invariant
            i <= pieces@.len(),
            seq_ok(out@),
            out_view(out@) == out_view(old(out)@) + pieces_chunks(
                start as int,
                end as int,
                views(pieces@),
            ).take(i as int),
        decreases pieces@.len() - i,
    {
        let ghost before = out_view(out@);
        push_chunk(out, start, end, pieces[i].as_slice());
        assert(out_view(out@) =~= out_view(old(out)@) + pieces_chunks(
            start as int,
            end as int,
            views(pieces@),
        ).take(i + 1));
        i = i + 1;
    }
    assert(pieces_chunks(start as int, end as int, views(pieces@)).take(pieces@.len() as int)
        =~= pieces_chunks(start as int, end as int, views(pieces@)));
}

fn cur_size(cur: &Vec<(usize, usize, Vec<char>)>) -> (n: usize)
    requires
        cur@.len() <= 1,
        cur@.len() == 1 ==> cur@[0].2@.len() <= 200,
    ensures
        n == len_sum(paras_view(cur@)),
        n <= 202,
{
    if cur.len() == 0 {
        assert(paras_view(cur@) =~= seq![]);
        0
    } else {
        assert(paras_view(cur@).drop_last() =~= seq![]);
        assert(len_sum(paras_view(cur@).drop_last()) == 0);
        assert(paras_view(cur@).last().2.len() == cur@[0].2@.len());
        cur[0].2.len() + 2
    }
}

fn pack_paragraphs(out: &mut Vec<Chunk>, paras: Vec<(usize, usize, Vec<char>)>)
    requires
        seq_ok(old(out)@),
    ensures
        seq_ok(final(out)@),
        out_view(final(out)@) == pack_s(out_view(old(out)@), paras_view(paras@)),
{
    let ghost pv = paras_view(paras@);
    let ghost o0 = out_view(out@);
    let mut cur: Vec<(usize, usize, Vec<char>)> = Vec::new();
    let mut cur_len: usize = 0;
    let mut i: usize = 0;
    assert(paras_view(cur@) =~= seq![]);
    while i < paras.len()
        invariant
            i <= paras@.len(),
            pv == paras_view(paras@),
            seq_ok(out@),
            cur_len <= 1104,
            cur@.len() == 0 ==> cur_len == 0,
            (out_view(out@), paras_view(cur@), cur_len as int) == pack_upto(o0, pv, i as int),
        decreases paras@.len() - i,
    {
        let p = copy_para(&paras[i]);
        assert(pv[i as int] == (p.0 as int, p.1 as int, p.2@));
        let plen = p.2.len();
        if plen > MAX_CHUNK_CHARS {
            flush(out, &mut cur);
            cur_len = 0;
            let pieces = hard_split(p.2.as_slice(), MAX_CHUNK_CHARS);
            push_pieces(out, p.0, p.1, &pieces);
        } else if cur_len + plen > TARGET_CHUNK_CHARS && cur.len() > 0 {
            let ghost pc = paras_view(cur@);
            flush(out, &mut cur);
            assert(paras_view(cur@).len() == cur@.len());
            assert(cur@.len() == 1 ==> paras_view(cur@)[0].2 == cur@[0].2@);
            assert(cur@.len() == 1 ==> cur@[0].2@.len() <= 200);
            let cs = cur_size(&cur);
            let ghost c2 = paras_view(cur@);
            cur.push(p);
            assert(paras_view(cur@) =~= c2.push(pv[i as int]));
            cur_len = cs + plen + 2;
        } else {
            let ghost c2 = paras_view(cur@);
            cur.push(p);
            assert(paras_view(cur@) =~= c2.push(pv[i as int]));
            cur_len = cur_len + plen + 2;
        }
        i = i + 1;
    }
    flush(out, &mut cur);
}

// ---------------------------------------------------------------- whole notes

/// One section added to the chunks: skipped when blank, one chunk when short,
/// packed paragraphs otherwise.
pub open spec fn section_step(out: Seq<(int, int, Seq<char>)>, ls: Seq<Seq<char>>, sec: (int, int)) -> Seq<
    (int, int, Seq<char>),
> {
    let text = section_text_s(ls, sec.0, sec.1);
    if blank(text) {
        out
    } else if text.len() <= TARGET_CHUNK_CHARS {
        out.push((sec.0, sec.1, trim_end_s(text)))
    } else {
        pack_s(out, paragraphs_s(ls, sec.0, sec.1))
    }
}

/// Chunks of the first `k` sections.
pub open spec fn sections_chunks(ls: Seq<Seq<char>>, secs: Seq<(int, int)>, k: int) -> Seq<
    (int, int, Seq<char>),
>
    decreases k,
{
    if k <= 0 || k > secs.len() {
        seq![]
    } else {
        section_step(sections_chunks(ls, secs, k - 1), ls, secs[k - 1])
    }
}

/// Meaning of `chunk_markdown`: chunks (start line, end line, text) in order;
/// none for a blank note. A chunk's `seq` is its position.
pub open spec fn chunk_markdown_s(body: Seq<char>) -> Seq<(int, int, Seq<char>)> {
    let ls = split_s(body, '\n');
    if forall|i: int| 0 <= i < ls.len() ==> blank(#[trigger] ls[i]) {
        seq![]
    } else {
        let secs = sections_s(ls);
        sections_chunks(ls, secs, secs.len() as int)
    }
}

pub proof fn lemma_sections(ls: Seq<Seq<char>>, k: int)
    requires
        0 <= k <= ls.len(),
    ensures
        ({
            let (ss, st) = sections_upto(ls, k);
            &&& 1 <= st
            &&& st <= k || st == 1
            &&& forall|j: int| 0 <= j < ss.len() ==> 1 <= #[trigger] ss[j].0 <= ss[j].1 < st
        }),
    decreases k,
{
    if k > 0 {
        lemma_sections(ls, k - 1);
    }
}

/// Splits a note into chunks with line numbers: a section per heading, short
/// sections whole, longer ones packed by paragraphs with some overlap,
/// paragraphs over the maximum cut hard.
pub fn chunk_markdown(body: &str) -> (r: Vec<Chunk>)
    requires
        body@.len() + 2 <= usize::MAX,
    ensures
        seq_ok(r@),
        out_view(r@) == chunk_markdown_s(body@),
        crate::chunk_law::all_ok(out_view(r@), split_s(body@, '\n').len() as int),
        r@.len() == 0 <==> forall|i: int|
            0 <= i < split_s(body@, '\n').len() ==> blank(#[trigger] split_s(body@, '\n')[i]),
{
    proof {
        crate::chunk_law::lemma_chunks_well_formed(body@);
        crate::chunk_law::lemma_no_chunks_iff_blank(body@);
    }
    let chars = crate::text::chars_of(body);
    let lines = split_char(chars.as_slice(), '\n');
    let ghost lv = views(lines@);
    proof {
        lemma_split_len(body@, '\n', 0);
    }
    let mut all_blank = true;
    let mut i: usize = 0;
    while i < lines.len()
        invariant
            i <= lines@.len(),
            lv == views(lines@),
            all_blank == forall|k: int| 0 <= k < i ==> blank(#[trigger] lv[k]),
        decreases lines@.len() - i,
    {
        assert(lv[i as int] == lines@[i as int]@);
        if !is_blank(lines[i].as_slice()) {
            all_blank = false;
        }
        i = i + 1;
    }
    let mut out: Vec<Chunk> = Vec::new();
    if all_blank {
        assert(out_view(out@) =~= seq![]);
        return out;
    }
    let n = lines.len();
    let mut secs: Vec<(usize, usize)> = Vec::new();
    let mut start: usize = 1;
    let mut k: usize = 0;
    while k < n
        invariant
            n == lines@.len(),
            lv == views(lines@),
            k <= n,
            n < usize::MAX,
            (secs@.map_values(|p: (usize, usize)| (p.0 as int, p.1 as int)), start as int)
                == sections_upto(lv, k as int),
        decreases n - k,
    {
        let ghost before = secs@;
        assert(lv[k as int] == lines@[k as int]@);
        if k + 1 > 1 && is_heading(lines[k].as_slice()) {
            proof {
                lemma_sections(lv, k as int);
            }
            secs.push((start, k));
            assert(secs@.map_values(|p: (usize, usize)| (p.0 as int, p.1 as int)) =~= before.map_values(
                |p: (usize, usize)| (p.0 as int, p.1 as int),
            ).push((start as int, k as int)));
            start = k + 1;
        }
        k = k + 1;
    }
    proof {
        lemma_sections(lv, n as int);
    }
    let ghost b0 = secs@;
    secs.push((start, n));
    let ghost sv = secs@.map_values(|p: (usize, usize)| (p.0 as int, p.1 as int));
    assert(sv =~= b0.map_values(|p: (usize, usize)| (p.0 as int, p.1 as int)).push(
        (start as int, n as int),
    ));
    assert(sv == sections_s(lv));
    let mut j: usize = 0;
    while j < secs.len()
        invariant
            n == lines@.len(),
            1 <= n < usize::MAX,
            lv == views(lines@),
            sv == secs@.map_values(|p: (usize, usize)| (p.0 as int, p.1 as int)),
            forall|m: int| 0 <= m < sv.len() ==> 1 <= #[trigger] sv[m].0 <= sv[m].1 <= n,
            j <= secs@.len(),
            seq_ok(out@),
            out_view(out@) == sections_chunks(lv, sv, j as int),
        decreases secs@.len() - j,
    {
        let (s, e) = secs[j];
        assert(sv[j as int] == (s as int, e as int));
        let text = section_text(&lines, s, e);
        if is_blank(text.as_slice()) {
        } else if text.len() <= TARGET_CHUNK_CHARS {
            push_chunk(&mut out, s, e, text.as_slice());
        } else {
            let paras = paragraphs(&lines, s, e);
            pack_paragraphs(&mut out, paras);
        }
        j = j + 1;
    }
    out
}

} // verus!
