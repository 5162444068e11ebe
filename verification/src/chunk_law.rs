//! What every chunk of a note satisfies: its lines lie inside the note, start
//! before end, and its text has no trailing whitespace; a note has no chunks
//! exactly when all its lines are blank.
use vstd::prelude::*;
use crate::chunk::{
    chunk_markdown_s, flush_s, hard_split_s, hs_chars, hs_upto, pack_s, pack_step, pack_upto,
    paragraphs_s, paras_upto, pieces_chunks, section_step, section_text_s, sections_chunks,
    sections_s, sections_upto, split_incl_from, TARGET_CHUNK_CHARS, MAX_CHUNK_CHARS,
};
use crate::line_laws::lemma_join_front;
use crate::minutes_law::lemma_trim_end_idem;
use crate::text::{blank, idx_of, is_ws, join_s, lemma_idx_of, lemma_split_len, split_s, trim_end_s};

verus! {

/// A chunk of a note of `n` lines: 1-based lines `start..=end` inside the note,
/// text without trailing whitespace.
pub open spec fn chunk_ok(c: (int, int, Seq<char>), n: int) -> bool {
    &&& 1 <= c.0 <= c.1 <= n
    &&& c.2 == trim_end_s(c.2)
}

pub open spec fn all_ok(out: Seq<(int, int, Seq<char>)>, n: int) -> bool {
    forall|i: int| 0 <= i < out.len() ==> chunk_ok(#[trigger] out[i], n)
}

/// Paragraph-like ranges inside `s..=e`, each starting before it ends, one after another.
pub open spec fn ranges_ok(p: Seq<(int, int, Seq<char>)>, s: int, e: int) -> bool {
    &&& forall|i: int| 0 <= i < p.len() ==> s <= (#[trigger] p[i]).0 <= p[i].1 <= e
    &&& forall|a: int, b: int| 0 <= a < b < p.len() ==> (#[trigger] p[a]).1 < (#[trigger] p[b]).0
}

proof fn lemma_paras(ls: Seq<Seq<char>>, s: int, m: int)
    requires
        1 <= s,
        0 <= m,
        s + m - 1 <= ls.len(),
    ensures
        ({
            let (out, cs, buf) = paras_upto(ls, s, m);
            &&& ranges_ok(out, s, s + m - 1)
            &&& forall|j: int| 0 <= j < out.len() ==> (#[trigger] out[j]).1 < cs
            &&& s <= cs <= s + m
            &&& buf.len() > 0 ==> cs <= s + m - 1
        }),
    decreases m,
{
    if m > 0 {
        lemma_paras(ls, s, m - 1);
        let (out, cs, buf) = paras_upto(ls, s, m - 1);
        let (o2, c2, b2) = paras_upto(ls, s, m);
        let i = s + m - 1;
        if blank(ls[i - 1]) && buf.len() > 0 {
            assert(o2 == out.push((cs, i - 1, crate::text::join_s(buf, seq!['\n']))));
            assert forall|a: int, b: int| 0 <= a < b < o2.len() implies (#[trigger] o2[a]).1 < (
            #[trigger] o2[b]).0 by {
                if b == o2.len() - 1 {
                    assert(o2[a] == out[a]);
                } else {
                    assert(o2[a] == out[a] && o2[b] == out[b]);
                }
            }
            assert forall|j: int| 0 <= j < o2.len() implies s <= (#[trigger] o2[j]).0 <= o2[j].1 <= s + m - 1 by {
                if j < out.len() {
                    assert(o2[j] == out[j]);
                }
            }
        }
    }
}

proof fn lemma_paragraphs(ls: Seq<Seq<char>>, s: int, e: int)
    requires
        1 <= s <= e <= ls.len(),
    ensures
        ranges_ok(paragraphs_s(ls, s, e), s, e),
{
    lemma_paras(ls, s, e - s + 1);
    let (out, cs, buf) = paras_upto(ls, s, e - s + 1);
    if buf.len() > 0 {
        let p = out.push((cs, e, crate::text::join_s(buf, seq!['\n'])));
        assert(paragraphs_s(ls, s, e) == p);
        assert forall|a: int, b: int| 0 <= a < b < p.len() implies (#[trigger] p[a]).1 < (#[trigger] p[b]).0 by {
            if b == p.len() - 1 {
                assert(p[a] == out[a]);
            } else {
                assert(p[a] == out[a] && p[b] == out[b]);
            }
        }
        assert forall|j: int| 0 <= j < p.len() implies s <= (#[trigger] p[j]).0 <= p[j].1 <= e by {
            if j < out.len() {
                assert(p[j] == out[j]);
            }
        }
    }
}

/// The open paragraphs of the packing: in the section, in order, and before
/// the paragraph `next` that comes.
pub open spec fn cur_ok(cur: Seq<(int, int, Seq<char>)>, s: int, e: int) -> bool {
    ranges_ok(cur, s, e)
}

proof fn lemma_flush(out: Seq<(int, int, Seq<char>)>, cur: Seq<(int, int, Seq<char>)>, s: int, e: int, n: int)
    requires
        all_ok(out, n),
        cur_ok(cur, s, e),
        1 <= s,
        e <= n,
    ensures
        all_ok(flush_s(out, cur).0, n),
        cur_ok(flush_s(out, cur).1, s, e),
        flush_s(out, cur).1.len() <= 1,
        flush_s(out, cur).1.len() == 1 ==> flush_s(out, cur).1[0] == cur.last(),
{
    if cur.len() > 0 {
        let last = cur.last();
        let text = trim_end_s(crate::text::join_s(crate::chunk::texts_of(cur), seq!['\n', '\n']));
        lemma_trim_end_idem(crate::text::join_s(crate::chunk::texts_of(cur), seq!['\n', '\n']));
        if cur.len() > 1 {
            assert(cur[0].1 < cur[cur.len() - 1].0);
        }
        let o = flush_s(out, cur).0;
        assert(o == out.push((cur[0].0, last.1, text)));
        assert forall|i: int| 0 <= i < o.len() implies chunk_ok(#[trigger] o[i], n) by {
            if i < out.len() {
                assert(o[i] == out[i]);
            }
        }
    }
}

proof fn lemma_pack(
    out0: Seq<(int, int, Seq<char>)>,
    paras: Seq<(int, int, Seq<char>)>,
    k: int,
    s: int,
    e: int,
    n: int,
)
    requires
        all_ok(out0, n),
        ranges_ok(paras, s, e),
        1 <= s,
        e <= n,
        0 <= k <= paras.len(),
    ensures
        ({
            let (o, c, cl) = pack_upto(out0, paras, k);
            &&& all_ok(o, n)
            &&& cur_ok(c, s, e)
            &&& k < paras.len() ==> forall|j: int| 0 <= j < c.len() ==> (#[trigger] c[j]).1 < paras[k].0
        }),
    decreases k,
{
    if k > 0 {
        lemma_pack(out0, paras, k - 1, s, e, n);
        let (o, c, cl) = pack_upto(out0, paras, k - 1);
        let p = paras[k - 1];
        let plen = p.2.len() as int;
        lemma_flush(o, c, s, e, n);
        let (o2, c2) = flush_s(o, c);
        if plen > MAX_CHUNK_CHARS {
            let pcs = pieces_chunks(p.0, p.1, crate::chunk::hard_split_s(p.2, MAX_CHUNK_CHARS as int));
            let o3 = o2 + pcs;
            assert forall|i: int| 0 <= i < o3.len() implies chunk_ok(#[trigger] o3[i], n) by {
                if i < o2.len() {
                    assert(o3[i] == o2[i]);
                } else {
                    assert(o3[i] == pcs[i - o2.len()]);
                    lemma_trim_end_idem(crate::chunk::hard_split_s(p.2, MAX_CHUNK_CHARS as int)[i - o2.len()]);
                }
            }
            if k < paras.len() {
                assert(paras[k - 1].1 < paras[k].0);
                assert forall|j: int| 0 <= j < c2.len() implies (#[trigger] c2[j]).1 < paras[k].0 by {
                    assert(c2[j] == c.last());
                    assert(c.last() == c[c.len() - 1]);
                }
            }
        } else {
            let cc = if cl + plen > TARGET_CHUNK_CHARS && c.len() > 0 {
                c2
            } else {
                c
            };
            let c3 = cc.push(p);
            assert(cur_ok(cc, s, e));
            assert forall|j: int| 0 <= j < cc.len() implies (#[trigger] cc[j]).1 < p.0 by {
                if cl + plen > TARGET_CHUNK_CHARS && c.len() > 0 {
                    assert(cc[j] == c[c.len() - 1]);
                }
            }
            assert forall|a: int, b: int| 0 <= a < b < c3.len() implies (#[trigger] c3[a]).1 < (
            #[trigger] c3[b]).0 by {
                if b == c3.len() - 1 {
                    assert(c3[a] == cc[a]);
                } else {
                    assert(c3[a] == cc[a] && c3[b] == cc[b]);
                }
            }
            assert forall|j: int| 0 <= j < c3.len() implies s <= (#[trigger] c3[j]).0 <= c3[j].1 <= e by {
                if j < cc.len() {
                    assert(c3[j] == cc[j]);
                }
            }
            if k < paras.len() {
                assert(paras[k - 1].1 < paras[k].0);
                assert forall|j: int| 0 <= j < c3.len() implies (#[trigger] c3[j]).1 < paras[k].0 by {
                    if j < cc.len() {
                        assert(c3[j] == cc[j]);
                    }
                }
            }
        }
    }
}

proof fn lemma_sections_ok(ls: Seq<Seq<char>>)
    requires
        ls.len() >= 1,
    ensures
        forall|j: int| 0 <= j < sections_s(ls).len() ==> 1 <= (#[trigger] sections_s(ls)[j]).0
            <= sections_s(ls)[j].1 <= ls.len(),
{
    crate::chunk::lemma_sections(ls, ls.len() as int);
    let (ss, st) = sections_upto(ls, ls.len() as int);
    assert forall|j: int| 0 <= j < sections_s(ls).len() implies 1 <= (#[trigger] sections_s(ls)[j]).0
        <= sections_s(ls)[j].1 <= ls.len() by {
        if j < ss.len() {
            assert(sections_s(ls)[j] == ss[j]);
        }
    }
}

proof fn lemma_sections_chunks(ls: Seq<Seq<char>>, secs: Seq<(int, int)>, k: int)
    requires
        0 <= k <= secs.len(),
        forall|j: int| 0 <= j < secs.len() ==> 1 <= (#[trigger] secs[j]).0 <= secs[j].1 <= ls.len(),
    ensures
        all_ok(sections_chunks(ls, secs, k), ls.len() as int),
    decreases k,
{
    if k > 0 {
        lemma_sections_chunks(ls, secs, k - 1);
        let out = sections_chunks(ls, secs, k - 1);
        let sec = secs[k - 1];
        let text = crate::chunk::section_text_s(ls, sec.0, sec.1);
        let r = section_step(out, ls, sec);
        if blank(text) {
        } else if text.len() <= TARGET_CHUNK_CHARS {
            lemma_trim_end_idem(text);
            assert forall|i: int| 0 <= i < r.len() implies chunk_ok(#[trigger] r[i], ls.len() as int) by {
                if i < out.len() {
                    assert(r[i] == out[i]);
                }
            }
        } else {
            let paras = paragraphs_s(ls, sec.0, sec.1);
            lemma_paragraphs(ls, sec.0, sec.1);
            lemma_pack(out, paras, paras.len() as int, sec.0, sec.1, ls.len() as int);
            let (o, c, cl) = pack_upto(out, paras, paras.len() as int);
            lemma_flush(o, c, sec.0, sec.1, ls.len() as int);
        }
    }
}

/// Every chunk of a note lies inside the note (1-based lines, start not after
/// end) and has no trailing whitespace; a note whose lines are all blank has
/// no chunks.
pub proof fn lemma_chunks_well_formed(body: Seq<char>)
    ensures
        all_ok(chunk_markdown_s(body), split_s(body, '\n').len() as int),
        (forall|i: int|
            0 <= i < split_s(body, '\n').len() ==> blank(#[trigger] split_s(body, '\n')[i]))
            ==> chunk_markdown_s(body).len() == 0,
{
    let ls = split_s(body, '\n');
    lemma_split_len(body, '\n', 0);
    if !(forall|i: int| 0 <= i < ls.len() ==> blank(#[trigger] ls[i])) {
        lemma_sections_ok(ls);
        let secs = sections_s(ls);
        lemma_sections_chunks(ls, secs, secs.len() as int);
    }
}

// ---------------------------------------------------------------- a note with text has chunks

/// A text with a character that is not whitespace.
proof fn lemma_blank_concat(x: Seq<char>, y: Seq<char>)
    ensures
        blank(x + y) ==> blank(x) && blank(y),
{
    if blank(x + y) {
        assert forall|k: int| 0 <= k < x.len() implies is_ws(#[trigger] x[k]) by {
            assert((x + y)[k] == x[k]);
        }
        assert forall|k: int| 0 <= k < y.len() implies is_ws(#[trigger] y[k]) by {
            assert((x + y)[x.len() + k] == y[k]);
        }
    }
}

/// Joining parts one of which is not blank gives a text that is not blank.
pub proof fn lemma_join_not_blank(parts: Seq<Seq<char>>, sep: Seq<char>, x: int)
    requires
        0 <= x < parts.len(),
        !blank(parts[x]),
    ensures
        !blank(join_s(parts, sep)),
    decreases parts.len(),
{
    if parts.len() == 1 {
        assert(join_s(parts, sep) == parts[0]);
    } else {
        let d = parts.drop_last();
        let j = join_s(parts, sep);
        assert(j == join_s(d, sep) + sep + parts.last());
        lemma_blank_concat(join_s(d, sep) + sep, parts.last());
        lemma_blank_concat(join_s(d, sep), sep);
        if x < parts.len() - 1 {
            assert(d[x] == parts[x]);
            lemma_join_not_blank(d, sep, x);
        }
    }
}

/// The pieces of `s[i..]` split after line feeds put back together give `s[i..]`.
proof fn lemma_split_incl_join(s: Seq<char>, i: int)
    requires
        0 <= i <= s.len(),
    ensures
        join_s(split_incl_from(s, i), seq![]) == s.subrange(i, s.len() as int),
    decreases s.len() - i,
{
    if i < s.len() {
        lemma_idx_of(s, '\n', i);
        let k = idx_of(s, '\n', i);
        let ps = split_incl_from(s, i);
        if k < s.len() {
            lemma_split_incl_join(s, k + 1);
            let rest = split_incl_from(s, k + 1);
            assert(ps == seq![s.subrange(i, k + 1)] + rest);
            if rest.len() == 0 {
                assert(ps =~= seq![s.subrange(i, k + 1)]);
                assert(join_s(ps, seq![]) == ps[0]);
                assert(k + 1 == s.len()) by {
                    if k + 1 < s.len() {
                        lemma_idx_of(s, '\n', k + 1);
                    }
                }
            } else {
                lemma_join_front(ps, seq![]);
                assert(ps.drop_first() =~= rest);
            }
            assert(s.subrange(i, k + 1) + seq![] + s.subrange(k + 1, s.len() as int) =~= s.subrange(
                i,
                s.len() as int,
            ));
        } else {
            assert(join_s(ps, seq![]) == ps[0]);
        }
    } else {
        assert(split_incl_from(s, i) =~= Seq::<Seq<char>>::empty());
    }
}

/// Cutting an over-long line by characters: pieces are only added, and while
/// none is, the open piece holds all that came.
proof fn lemma_hs_chars_keeps(out: Seq<Seq<char>>, cur: Seq<char>, line: Seq<char>, max: int, j: int)
    requires
        0 <= j <= line.len(),
    ensures
        hs_chars(out, cur, line, max, j).0.len() >= out.len(),
        hs_chars(out, cur, line, max, j).0.len() == out.len() ==> hs_chars(out, cur, line, max, j).1
            == cur + line.take(j),
    decreases j,
{
    if j > 0 {
        lemma_hs_chars_keeps(out, cur, line, max, j - 1);
        let (o, c) = hs_chars(out, cur, line, max, j - 1);
        if o.len() == out.len() {
            assert(c == cur + line.take(j - 1));
            assert(c.push(line[j - 1]) =~= cur + line.take(j));
        }
    } else {
        assert(cur + line.take(0) =~= cur);
    }
}

/// Hard split: while no piece is closed, the open piece holds every line so far.
proof fn lemma_hs_keeps(ls: Seq<Seq<char>>, max: int, n: int)
    requires
        0 <= n <= ls.len(),
    ensures
        hs_upto(ls, max, n).0.len() == 0 ==> hs_upto(ls, max, n).1 == join_s(ls.take(n), seq![]),
    decreases n,
{
    if n > 0 {
        lemma_hs_keeps(ls, max, n - 1);
        let (o, c) = hs_upto(ls, max, n - 1);
        let line = ls[n - 1];
        let (o1, c1) = if c.len() + line.len() > max && c.len() > 0 {
            (o.push(c), seq![])
        } else {
            (o, c)
        };
        if line.len() > max {
            lemma_hs_chars_keeps(o1, c1, line, max, line.len() as int);
            assert(line.take(line.len() as int) =~= line);
        }
        let (o2, c2) = hs_upto(ls, max, n);
        if o2.len() == 0 {
            assert(o1.len() == 0);
            assert(o.len() == 0);
            assert(c2 == c + line);
            if n == 1 {
                assert(ls.take(1) =~= seq![line]);
                assert(ls.take(0) =~= Seq::<Seq<char>>::empty());
                assert(c =~= Seq::<char>::empty());
                assert(join_s(ls.take(1), seq![]) == line);
                assert(c + line =~= line);
            } else {
                assert(ls.take(n).drop_last() =~= ls.take(n - 1));
                assert(join_s(ls.take(n), seq![]) == join_s(ls.take(n - 1), seq![]) + seq![] + line);
                assert(c + line =~= join_s(ls.take(n - 1), seq![]) + seq![] + line);
            }
        }
    }
}

/// A text that is not blank is cut into at least one piece.
proof fn lemma_hard_split_some(text: Seq<char>, max: int)
    requires
        !blank(text),
    ensures
        hard_split_s(text, max).len() > 0,
{
    let ls = split_incl_from(text, 0);
    lemma_hs_keeps(ls, max, ls.len() as int);
    lemma_split_incl_join(text, 0);
    assert(ls.take(ls.len() as int) =~= ls);
    assert(text.subrange(0, text.len() as int) =~= text);
}

/// Paragraphs: every closed one and the open lines are not blank, and once a
/// line that is not blank came, there is a paragraph or open lines.
proof fn lemma_paras_some(ls: Seq<Seq<char>>, s: int, m: int)
    requires
        1 <= s,
        0 <= m,
        s + m - 1 <= ls.len(),
    ensures
        ({
            let (out, cs, buf) = paras_upto(ls, s, m);
            &&& forall|j: int| 0 <= j < out.len() ==> !blank(#[trigger] out[j].2)
            &&& forall|j: int| 0 <= j < buf.len() ==> !blank(#[trigger] buf[j])
            &&& (exists|x: int| s - 1 <= x < s + m - 1 && !blank(#[trigger] ls[x])) ==> out.len() > 0
                || buf.len() > 0
        }),
    decreases m,
{
    if m > 0 {
        lemma_paras_some(ls, s, m - 1);
        let (out, cs, buf) = paras_upto(ls, s, m - 1);
        let (o2, c2, b2) = paras_upto(ls, s, m);
        let i = s + m - 1;
        let line = ls[i - 1];
        if blank(line) {
            if buf.len() > 0 {
                let p = join_s(buf, seq!['\n']);
                lemma_join_not_blank(buf, seq!['\n'], 0);
                assert(o2 == out.push((cs, i - 1, p)));
                assert forall|j: int| 0 <= j < o2.len() implies !blank(#[trigger] o2[j].2) by {
                    if j < out.len() {
                        assert(o2[j] == out[j]);
                    }
                }
            } else {
                if exists|x: int| s - 1 <= x < s + m - 1 && !blank(#[trigger] ls[x]) {
                    let x = choose|x: int| s - 1 <= x < s + m - 1 && !blank(#[trigger] ls[x]);
                    assert(x != i - 1);
                }
            }
        } else {
            assert(b2 == buf.push(line));
            assert forall|j: int| 0 <= j < b2.len() implies !blank(#[trigger] b2[j]) by {
                if j < buf.len() {
                    assert(b2[j] == buf[j]);
                }
            }
        }
    }
}

/// The paragraphs of lines `s..=e` with a line that is not blank: at least one,
/// none blank.
proof fn lemma_paragraphs_some(ls: Seq<Seq<char>>, s: int, e: int, x: int)
    requires
        1 <= s <= e <= ls.len(),
        s - 1 <= x < e,
        !blank(ls[x]),
    ensures
        paragraphs_s(ls, s, e).len() > 0,
        forall|j: int| 0 <= j < paragraphs_s(ls, s, e).len() ==> !blank(#[trigger] paragraphs_s(ls, s, e)[j].2),
{
    lemma_paras_some(ls, s, e - s + 1);
    let (out, cs, buf) = paras_upto(ls, s, e - s + 1);
    assert(s - 1 <= x < s + (e - s + 1) - 1 && !blank(ls[x]));
    if buf.len() > 0 {
        let p = out.push((cs, e, join_s(buf, seq!['\n'])));
        lemma_join_not_blank(buf, seq!['\n'], 0);
        assert forall|j: int| 0 <= j < p.len() implies !blank(#[trigger] p[j].2) by {
            if j < out.len() {
                assert(p[j] == out[j]);
            }
        }
    }
}

/// Packing paragraphs that are not blank only adds chunks, and after one
/// paragraph there is a new chunk or open paragraphs.
proof fn lemma_pack_some(out0: Seq<(int, int, Seq<char>)>, paras: Seq<(int, int, Seq<char>)>, k: int)
    requires
        0 <= k <= paras.len(),
    ensures
        pack_upto(out0, paras, k).0.len() >= out0.len(),
        k > 0 && (forall|j: int| 0 <= j < paras.len() ==> !blank(#[trigger] paras[j].2)) ==> pack_upto(
            out0,
            paras,
            k,
        ).0.len() > out0.len() || pack_upto(out0, paras, k).1.len() > 0,
    decreases k,
{
    if k > 0 {
        lemma_pack_some(out0, paras, k - 1);
        let (o, c, cl) = pack_upto(out0, paras, k - 1);
        let p = paras[k - 1];
        let (o2, c2) = flush_s(o, c);
        assert(o2.len() >= o.len());
        assert(c.len() > 0 ==> o2.len() == o.len() + 1);
        if p.2.len() > MAX_CHUNK_CHARS {
            if !blank(p.2) {
                lemma_hard_split_some(p.2, MAX_CHUNK_CHARS as int);
            }
            let pcs = pieces_chunks(p.0, p.1, hard_split_s(p.2, MAX_CHUNK_CHARS as int));
            assert((o2 + pcs).len() == o2.len() + pcs.len());
        }
    }
}

/// A section with a line that is not blank adds a chunk; no section takes one away.
proof fn lemma_section_some(out: Seq<(int, int, Seq<char>)>, ls: Seq<Seq<char>>, sec: (int, int))
    requires
        1 <= sec.0 <= sec.1 <= ls.len(),
    ensures
        section_step(out, ls, sec).len() >= out.len(),
        (exists|x: int| sec.0 - 1 <= x < sec.1 && !blank(#[trigger] ls[x])) ==> section_step(out, ls, sec).len()
            > out.len(),
{
    let text = section_text_s(ls, sec.0, sec.1);
    let sub = ls.subrange(sec.0 - 1, sec.1);
    if exists|x: int| sec.0 - 1 <= x < sec.1 && !blank(#[trigger] ls[x]) {
        let x = choose|x: int| sec.0 - 1 <= x < sec.1 && !blank(#[trigger] ls[x]);
        assert(sub[x - (sec.0 - 1)] == ls[x]);
        lemma_join_not_blank(sub, seq!['\n'], x - (sec.0 - 1));
        if text.len() > TARGET_CHUNK_CHARS {
            lemma_paragraphs_some(ls, sec.0, sec.1, x);
            let paras = paragraphs_s(ls, sec.0, sec.1);
            lemma_pack_some(out, paras, paras.len() as int);
            let (o, c, cl) = pack_upto(out, paras, paras.len() as int);
            assert(flush_s(o, c).0.len() >= o.len());
            assert(c.len() > 0 ==> flush_s(o, c).0.len() == o.len() + 1);
        }
    } else if !blank(text) && text.len() > TARGET_CHUNK_CHARS {
        let paras = paragraphs_s(ls, sec.0, sec.1);
        lemma_pack_some(out, paras, paras.len() as int);
        let (o, c, cl) = pack_upto(out, paras, paras.len() as int);
        assert(flush_s(o, c).0.len() >= o.len());
    }
}

/// Sections after the first `k` lines: the closed ones and the open one cover
/// every line before `k` from the first on.
proof fn lemma_sections_cover(ls: Seq<Seq<char>>, k: int, x: int)
    requires
        0 <= x < k <= ls.len(),
    ensures
        ({
            let (ss, st) = sections_upto(ls, k);
            (exists|j: int| 0 <= j < ss.len() && (#[trigger] ss[j]).0 <= x + 1 <= ss[j].1) || st <= x + 1
        }),
    decreases k,
{
    crate::chunk::lemma_sections(ls, k);
    let (ss, st) = sections_upto(ls, k);
    if x < k - 1 {
        lemma_sections_cover(ls, k - 1, x);
        let (ss0, st0) = sections_upto(ls, k - 1);
        if k > 1 && crate::chunk::is_heading_s(ls[k - 1]) {
            assert(ss == ss0.push((st0, k - 1)));
            if exists|j: int| 0 <= j < ss0.len() && (#[trigger] ss0[j]).0 <= x + 1 <= ss0[j].1 {
                let j = choose|j: int| 0 <= j < ss0.len() && (#[trigger] ss0[j]).0 <= x + 1 <= ss0[j].1;
                assert(ss[j] == ss0[j]);
            } else {
                assert(ss[ss0.len() as int] == (st0, k - 1));
            }
        }
    } else {
        crate::chunk::lemma_sections(ls, k - 1);
    }
}

/// Chunks of sections only grow, and grow at a section with a line that is
/// not blank.
proof fn lemma_sections_some(ls: Seq<Seq<char>>, secs: Seq<(int, int)>, k: int, j: int)
    requires
        0 <= k <= secs.len(),
        forall|i: int| 0 <= i < secs.len() ==> 1 <= (#[trigger] secs[i]).0 <= secs[i].1 <= ls.len(),
    ensures
        0 <= j < k && (exists|x: int| secs[j].0 - 1 <= x < secs[j].1 && !blank(#[trigger] ls[x]))
            ==> sections_chunks(ls, secs, k).len() > 0,
    decreases k,
{
    if k > 0 {
        lemma_sections_some(ls, secs, k - 1, j);
        let out = sections_chunks(ls, secs, k - 1);
        lemma_section_some(out, ls, secs[k - 1]);
    }
}

/// A note with a line that is not blank has a chunk.
pub proof fn lemma_text_has_chunks(body: Seq<char>)
    requires
        exists|i: int| 0 <= i < split_s(body, '\n').len() && !blank(#[trigger] split_s(body, '\n')[i]),
    ensures
        chunk_markdown_s(body).len() > 0,
{
    let ls = split_s(body, '\n');
    lemma_split_len(body, '\n', 0);
    let x = choose|i: int| 0 <= i < ls.len() && !blank(#[trigger] ls[i]);
    lemma_sections_ok(ls);
    let secs = sections_s(ls);
    let (ss, st) = sections_upto(ls, ls.len() as int);
    lemma_sections_cover(ls, ls.len() as int, x);
    crate::chunk::lemma_sections(ls, ls.len() as int);
    let j = if exists|j: int| 0 <= j < ss.len() && (#[trigger] ss[j]).0 <= x + 1 <= ss[j].1 {
        choose|j: int| 0 <= j < ss.len() && (#[trigger] ss[j]).0 <= x + 1 <= ss[j].1
    } else {
        ss.len() as int
    };
    assert(secs[j].0 <= x + 1 <= secs[j].1) by {
        if j < ss.len() {
            assert(secs[j] == ss[j]);
        }
    }
    assert(secs[j].0 - 1 <= x < secs[j].1 && !blank(ls[x]));
    lemma_sections_some(ls, secs, secs.len() as int, j);
}

/// A note has no chunks exactly when all its lines are blank.
pub proof fn lemma_no_chunks_iff_blank(body: Seq<char>)
    ensures
        chunk_markdown_s(body).len() == 0 <==> forall|i: int|
            0 <= i < split_s(body, '\n').len() ==> blank(#[trigger] split_s(body, '\n')[i]),
{
    lemma_chunks_well_formed(body);
    if exists|i: int| 0 <= i < split_s(body, '\n').len() && !blank(#[trigger] split_s(body, '\n')[i]) {
        lemma_text_has_chunks(body);
    }
}

} // verus!
