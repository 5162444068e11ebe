//! Writing the transcript of a reference into a meeting note twice gives the
//! note of writing it once.
use vstd::prelude::*;
use crate::line_laws::{
    lemma_join_last, lemma_last_line, lemma_lines_no_lf, lemma_lines_no_trailing_cr,
    lemma_lines_of_join, lemma_lines_of_join_strip, no_cr_before_crlf, no_line_feed,
    no_trailing_cr, strip_inner,
};
use crate::meeting_note::{
    hand_from, lemma_quote_end, quote_end, quote_line, quoted_line, quoted_upto, ref_of,
    replace_transcripts_s, replaced_from, transcript_lines_s, TranscriptEntry, SKELETON_NOTICE_MARK,
    TRANSCRIPT_TAG,
};
use crate::text::{
    blank, contains_s, ends_with_s, has_char, is_ws, join_s, lemma_ws_back, lemma_ws_skip, lines_s,
    starts_with_s, strip_cr, trim_end_s, trim_s, trim_start_s, ws_back, ws_skip,
};

verus! {

proof fn lemma_trim_prefix(l: Seq<char>)
    ensures
        trim_s(l).len() > 0 ==> trim_start_s(l).len() > 0 && trim_s(l)[0] == trim_start_s(l)[0],
        trim_s(l).len() > 0 ==> l.len() > 0,
{
    let t = trim_start_s(l);
    lemma_ws_skip(l, 0);
    lemma_ws_back(t, t.len() as int);
}

/// A reference line is not a quote line.
proof fn lemma_ref_not_quote(l: Seq<char>)
    requires
        ref_of(l) is Some,
    ensures
        !quote_line(l),
        l.len() > 0,
{
    reveal_strlit("/v");
    reveal_strlit("/video");
    reveal_strlit(">");
    let t = trim_s(l);
    lemma_trim_prefix(l);
    assert(starts_with_s(t, "/v"@) || starts_with_s(t, "/video"@));
    assert(t.len() > 0 && t[0] == '/') by {
        if starts_with_s(t, "/v"@) {
            assert(t.take(2)[0] == '/');
        } else {
            assert(t.take(6)[0] == '/');
        }
    }
    if quote_line(l) {
        assert(trim_start_s(l).take(1)[0] == '>');
    }
}

proof fn lemma_quote_end_stops(ls: Seq<Seq<char>>, a: int)
    requires
        0 <= a <= ls.len(),
    ensures
        quote_end(ls, a) < ls.len() ==> !quote_line(ls[quote_end(ls, a)]),
    decreases ls.len() - a,
{
    if a < ls.len() && quote_line(ls[a]) {
        lemma_quote_end_stops(ls, a + 1);
    }
}

proof fn lemma_quote_end_before(ls: Seq<Seq<char>>, a: int, p: int)
    requires
        0 <= a <= p < ls.len(),
        !quote_line(ls[p]),
    ensures
        quote_end(ls, a) <= p,
    decreases p - a,
{
    if a < p && quote_line(ls[a]) {
        lemma_quote_end_before(ls, a + 1, p);
    }
}

proof fn lemma_quote_run(ls: Seq<Seq<char>>, a: int, b: int)
    requires
        0 <= a <= b <= ls.len(),
        forall|t: int| a <= t < b ==> quote_line(#[trigger] ls[t]),
        b == ls.len() || !quote_line(ls[b]),
    ensures
        quote_end(ls, a) == b,
    decreases b - a,
{
    if a < b {
        lemma_quote_run(ls, a + 1, b);
    }
}

/// Whether line index `x` (line number `x + 1`) has an entry.
pub open spec fn keyed(m: Map<usize, TranscriptEntry>, x: int) -> bool {
    m.contains_key((x + 1) as usize)
}

/// Without keys from line `i` on, the lines from `i` are written unchanged.
proof fn lemma_unkeyed(ls: Seq<Seq<char>>, m: Map<usize, TranscriptEntry>, i: int)
    requires
        0 <= i <= ls.len(),
        ls.len() <= usize::MAX,
        forall|x: int| i <= x < ls.len() ==> !#[trigger] keyed(m, x),
    ensures
        replaced_from(ls, m, i) == ls.skip(i),
    decreases ls.len() - i,
{
    if i < ls.len() {
        if ref_of(ls[i]) is None {
            lemma_unkeyed(ls, m, i + 1);
            assert(seq![ls[i]] + ls.skip(i + 1) =~= ls.skip(i));
        } else {
            assert(!keyed(m, i));
            lemma_quote_end(ls, i + 1);
            let j = quote_end(ls, i + 1);
            lemma_unkeyed(ls, m, j);
            assert(seq![ls[i]] + ls.subrange(i + 1, j) + ls.skip(j) =~= ls.skip(i));
        }
    } else {
        assert(ls.skip(i) =~= Seq::<Seq<char>>::empty());
    }
}

/// Without keys before the reference line `p`, the lines before it are
/// written unchanged.
proof fn lemma_prefix(ls: Seq<Seq<char>>, m: Map<usize, TranscriptEntry>, i: int, p: int)
    requires
        0 <= i <= p < ls.len(),
        ls.len() <= usize::MAX,
        ref_of(ls[p]) is Some,
        forall|x: int| i <= x < p ==> !#[trigger] keyed(m, x),
    ensures
        replaced_from(ls, m, i) == ls.subrange(i, p) + replaced_from(ls, m, p),
    decreases p - i,
{
    if i < p {
        if ref_of(ls[i]) is None {
            lemma_prefix(ls, m, i + 1, p);
            assert(seq![ls[i]] + ls.subrange(i + 1, p) =~= ls.subrange(i, p));
        } else {
            assert(!keyed(m, i));
            lemma_ref_not_quote(ls[p]);
            lemma_quote_end(ls, i + 1);
            lemma_quote_end_before(ls, i + 1, p);
            let j = quote_end(ls, i + 1);
            lemma_prefix(ls, m, j, p);
            assert(seq![ls[i]] + ls.subrange(i + 1, j) + ls.subrange(j, p) =~= ls.subrange(i, p));
        }
    } else {
        assert(ls.subrange(i, p) =~= Seq::<Seq<char>>::empty());
    }
}

/// The block written for an entry.
pub open spec fn block_of(e: TranscriptEntry) -> Seq<Seq<char>> {
    if blank(e.text@) {
        seq![]
    } else {
        transcript_lines_s(e.meta@, e.text@)
    }
}

proof fn lemma_quoted_lines(ls: Seq<Seq<char>>, n: int)
    requires
        0 <= n <= ls.len(),
        no_line_feed(ls),
    ensures
        quoted_upto(ls, n).len() == n,
        forall|t: int|
            0 <= t < n ==> {
                let q = #[trigger] quoted_upto(ls, n)[t];
                &&& q.len() > 0 && q[0] == '>'
                &&& !has_char(q, '\n')
                &&& !is_ws(q.last())
            },
    decreases n,
{
    reveal_strlit(">");
    reveal_strlit("> ");
    if n > 0 {
        lemma_quoted_lines(ls, n - 1);
        let l = ls[n - 1];
        let te = trim_end_s(l);
        lemma_ws_back(l, l.len() as int);
        let q = quoted_line(l);
        assert(!has_char(l, '\n'));
        assert(q.len() > 0 && q[0] == '>');
        assert(!has_char(q, '\n')) by {
            if has_char(q, '\n') {
                let t = choose|t: int| 0 <= t < q.len() && q[t] == '\n';
                if te.len() > 0 {
                    assert(t >= 2);
                    assert(q[t] == te[t - 2]);
                    assert(te[t - 2] == l[t - 2]);
                }
            }
        }
        assert(!is_ws(q.last())) by {
            if te.len() > 0 {
                assert(q.last() == te.last());
                assert(te.last() == l[ws_back(l, l.len() as int) - 1]);
            }
        }
        let prev = quoted_upto(ls, n - 1);
        assert(quoted_upto(ls, n) == prev.push(q));
        assert forall|t: int| 0 <= t < n implies {
            let r = #[trigger] quoted_upto(ls, n)[t];
            &&& r.len() > 0 && r[0] == '>'
            &&& !has_char(r, '\n')
            &&& !is_ws(r.last())
        } by {
            if t < n - 1 {
                assert(quoted_upto(ls, n)[t] == prev[t]);
            }
        }
    }
}

/// Every line of a written block is a quote line without a line feed whose
/// last character is not whitespace.
proof fn lemma_block_lines(e: TranscriptEntry)
    requires
        !has_char(e.meta@, '\n'),
    ensures
        forall|t: int|
            0 <= t < block_of(e).len() ==> {
                let q = #[trigger] block_of(e)[t];
                &&& q.len() > 0 && q[0] == '>'
                &&& quote_line(q)
                &&& !has_char(q, '\n')
                &&& q.last() != '\r'
            },
{
    reveal_strlit(">");
    reveal_strlit("> ");
    reveal_strlit(" ");
    reveal_strlit("🎙 转写");
    if !blank(e.text@) {
        let tl = lines_s(e.text@);
        lemma_lines_no_lf(e.text@, 0);
        lemma_quoted_lines(tl, tl.len() as int);
        let m = trim_s(e.meta@);
        let mt = trim_start_s(e.meta@);
        lemma_ws_skip(e.meta@, 0);
        lemma_ws_back(mt, mt.len() as int);
        let first = "> "@ + TRANSCRIPT_TAG@ + " "@ + m;
        assert(!has_char(first, '\n')) by {
            if has_char(first, '\n') {
                let t = choose|t: int| 0 <= t < first.len() && first[t] == '\n';
                let head = "> "@ + TRANSCRIPT_TAG@ + " "@;
                if t >= head.len() {
                    assert(first[t] == m[t - head.len()]);
                    assert(m[t - head.len()] == mt[t - head.len()]);
                    assert(mt[t - head.len()] == e.meta@[ws_skip(e.meta@, 0) + t - head.len()]);
                }
            }
        }
        assert(first.last() != '\r') by {
            if m.len() > 0 {
                assert(first.last() == m.last());
                assert(m.last() == mt[ws_back(mt, mt.len() as int) - 1]);
                assert(is_ws('\r'));
            } else {
                assert(first.last() == ' ');
            }
        }
        let b = block_of(e);
        let qs = quoted_upto(tl, tl.len() as int);
        assert(b == seq![first, ">"@] + qs);
        assert forall|t: int| 0 <= t < b.len() implies {
            let q = #[trigger] b[t];
            &&& q.len() > 0 && q[0] == '>'
            &&& quote_line(q)
            &&& !has_char(q, '\n')
            &&& q.last() != '\r'
        } by {
            let q = b[t];
            if t >= 2 {
                assert(q == qs[t - 2]);
                assert(is_ws('\r'));
            }
            assert(q.len() > 0 && q[0] == '>');
            assert(!is_ws(q[0]));
            assert(ws_skip(q, 0) == 0);
            assert(trim_start_s(q) =~= q);
            assert(q.take(1) =~= ">"@);
        }
    }
}

// ---------------------------------------------------------------- hand-written lines stay

/// Lines from `a` up to the end of their quote block are quote lines.
proof fn lemma_quote_prefix(ls: Seq<Seq<char>>, a: int)
    requires
        0 <= a <= ls.len(),
    ensures
        forall|t: int| a <= t < quote_end(ls, a) ==> quote_line(#[trigger] ls[t]),
    decreases ls.len() - a,
{
    if a < ls.len() && quote_line(ls[a]) {
        lemma_quote_prefix(ls, a + 1);
    }
}

/// A line starting with `>` is a quote line.
proof fn lemma_gt_quote(q: Seq<char>)
    requires
        q.len() > 0,
        q[0] == '>',
    ensures
        quote_line(q),
{
    reveal_strlit(">");
    assert(!is_ws(q[0]));
    assert(ws_skip(q, 0) == 0);
    assert(trim_start_s(q) =~= q);
    assert(q.take(1) =~= ">"@);
}

/// Every line of a written block is a quote line.
proof fn lemma_block_quoted(e: TranscriptEntry)
    ensures
        forall|t: int| 0 <= t < block_of(e).len() ==> quote_line(#[trigger] block_of(e)[t]),
{
    reveal_strlit(">");
    reveal_strlit("> ");
    if !blank(e.text@) {
        let tl = lines_s(e.text@);
        let qs = quoted_upto(tl, tl.len() as int);
        let first = "> "@ + TRANSCRIPT_TAG@ + " "@ + trim_s(e.meta@);
        let b = block_of(e);
        assert(b == seq![first, ">"@] + qs);
        lemma_quoted_upto_gt(tl, tl.len() as int);
        assert forall|t: int| 0 <= t < b.len() implies quote_line(#[trigger] b[t]) by {
            if t >= 2 {
                assert(b[t] == qs[t - 2]);
            }
            lemma_gt_quote(b[t]);
        }
    }
}

proof fn lemma_quoted_upto_gt(ls: Seq<Seq<char>>, n: int)
    requires
        0 <= n <= ls.len(),
    ensures
        quoted_upto(ls, n).len() == n,
        forall|t: int|
            0 <= t < n ==> (#[trigger] quoted_upto(ls, n)[t]).len() > 0 && quoted_upto(ls, n)[t][0]
                == '>',
    decreases n,
{
    reveal_strlit(">");
    reveal_strlit("> ");
    if n > 0 {
        lemma_quoted_upto_gt(ls, n - 1);
        let prev = quoted_upto(ls, n - 1);
        let q = quoted_line(ls[n - 1]);
        assert(q.len() > 0 && q[0] == '>');
        assert forall|t: int| 0 <= t < n implies (#[trigger] quoted_upto(ls, n)[t]).len() > 0
            && quoted_upto(ls, n)[t][0] == '>' by {
            if t < n - 1 {
                assert(quoted_upto(ls, n)[t] == prev[t]);
            }
        }
    }
}

proof fn lemma_quote_end_shift(pre: Seq<Seq<char>>, r: Seq<Seq<char>>, i: int)
    requires
        0 <= i <= r.len(),
    ensures
        quote_end(pre + r, pre.len() + i) == pre.len() + quote_end(r, i),
    decreases r.len() - i,
{
    if i < r.len() {
        assert((pre + r)[pre.len() + i] == r[i]);
        if quote_line(r[i]) {
            lemma_quote_end_shift(pre, r, i + 1);
        }
    }
}

/// Reading hand-written lines after a prefix is reading them in the rest.
proof fn lemma_hand_shift(pre: Seq<Seq<char>>, r: Seq<Seq<char>>, i: int)
    requires
        0 <= i <= r.len(),
    ensures
        hand_from(pre + r, pre.len() + i) == hand_from(r, i),
    decreases r.len() - i,
{
    let s = pre + r;
    if i < r.len() {
        assert(s[pre.len() + i] == r[i]);
        if ref_of(r[i]) is Some {
            lemma_quote_end_shift(pre, r, i + 1);
            lemma_quote_end(r, i + 1);
            lemma_hand_shift(pre, r, quote_end(r, i + 1));
        } else {
            lemma_hand_shift(pre, r, i + 1);
        }
    }
}

/// The rewritten lines from a line on start with that line.
proof fn lemma_replaced_first(ls: Seq<Seq<char>>, m: Map<usize, TranscriptEntry>, j: int)
    requires
        0 <= j < ls.len(),
    ensures
        replaced_from(ls, m, j).len() > 0,
        replaced_from(ls, m, j)[0] == ls[j],
{
    lemma_quote_end(ls, j + 1);
}

/// The block a reference line gets when the lines are rewritten.
pub open spec fn new_block(ls: Seq<Seq<char>>, m: Map<usize, TranscriptEntry>, i: int) -> Seq<Seq<char>> {
    if m.contains_key((i + 1) as usize) {
        block_of(m[(i + 1) as usize])
    } else {
        ls.subrange(i + 1, quote_end(ls, i + 1))
    }
}

/// Rewriting transcript blocks leaves the hand-written lines of the lines from
/// `i` on as they were.
proof fn lemma_hand_of_replaced(ls: Seq<Seq<char>>, m: Map<usize, TranscriptEntry>, i: int)
    requires
        0 <= i <= ls.len(),
    ensures
        hand_from(replaced_from(ls, m, i), 0) == hand_from(ls, i),
    decreases ls.len() - i,
{
    if i < ls.len() {
        let l = ls[i];
        if ref_of(l) is None {
            lemma_hand_of_replaced(ls, m, i + 1);
            let r = replaced_from(ls, m, i + 1);
            assert(replaced_from(ls, m, i) == seq![l] + r);
            lemma_hand_shift(seq![l], r, 0);
            assert((seq![l] + r)[0] == l);
        } else {
            lemma_quote_end(ls, i + 1);
            let j = quote_end(ls, i + 1);
            lemma_hand_of_replaced(ls, m, j);
            let blk = new_block(ls, m, i);
            let r = replaced_from(ls, m, j);
            let pre = seq![l] + blk;
            let n = pre + r;
            assert(blk == (if m.contains_key((i + 1) as usize) {
                let e = m[(i + 1) as usize];
                if blank(e.text@) {
                    seq![]
                } else {
                    transcript_lines_s(e.meta@, e.text@)
                }
            } else {
                ls.subrange(i + 1, j)
            }));
            assert(replaced_from(ls, m, i) =~= n);
            // the new block is a run of quote lines ended by the next line
            if m.contains_key((i + 1) as usize) {
                lemma_block_quoted(m[(i + 1) as usize]);
            } else {
                lemma_quote_prefix(ls, i + 1);
            }
            assert forall|t: int| 1 <= t < pre.len() implies quote_line(#[trigger] n[t]) by {
                assert(n[t] == blk[t - 1]);
                if !m.contains_key((i + 1) as usize) {
                    assert(blk[t - 1] == ls[i + 1 + t - 1]);
                }
            }
            if j < ls.len() {
                lemma_replaced_first(ls, m, j);
                lemma_quote_end_stops(ls, i + 1);
                assert(n[pre.len() as int] == ls[j]);
            }
            lemma_quote_run(n, 1, pre.len() as int);
            assert(n[0] == l);
            lemma_hand_shift(pre, r, 0);
        }
    }
}

/// Lines of a rewritten note hold no line feed and end in no carriage return,
/// and the last one is the last line of the note or not empty.
proof fn lemma_replaced_clean(ls: Seq<Seq<char>>, m: Map<usize, TranscriptEntry>, i: int)
    requires
        0 <= i <= ls.len(),
        no_line_feed(ls),
        forall|k: usize| m.contains_key(k) ==> !has_char(#[trigger] m[k].meta@, '\n'),
    ensures
        no_line_feed(replaced_from(ls, m, i)),
        no_trailing_cr(ls) ==> no_trailing_cr(replaced_from(ls, m, i)),
        replaced_from(ls, m, i).len() > 0 ==> replaced_from(ls, m, i).last() == ls.last()
            || replaced_from(ls, m, i).last().len() > 0,
    decreases ls.len() - i,
{
    if i < ls.len() {
        let l = ls[i];
        if ref_of(l) is None {
            lemma_replaced_clean(ls, m, i + 1);
            let r = replaced_from(ls, m, i + 1);
            let n = seq![l] + r;
            assert(replaced_from(ls, m, i) == n);
            assert forall|t: int| 0 <= t < n.len() implies !has_char(#[trigger] n[t], '\n') && (no_trailing_cr(ls)
                ==> !(n[t].len() > 0 && n[t].last() == '\r')) by {
                if t > 0 {
                    assert(n[t] == r[t - 1]);
                }
            }
            if r.len() == 0 && i + 1 < ls.len() {
                lemma_replaced_first(ls, m, i + 1);
            }
        } else {
            lemma_ref_not_quote(l);
            lemma_quote_end(ls, i + 1);
            let j = quote_end(ls, i + 1);
            lemma_replaced_clean(ls, m, j);
            let blk = new_block(ls, m, i);
            let r = replaced_from(ls, m, j);
            let n = seq![l] + blk + r;
            assert(replaced_from(ls, m, i) =~= n);
            if m.contains_key((i + 1) as usize) {
                lemma_block_lines(m[(i + 1) as usize]);
            }
            assert forall|t: int| 0 <= t < n.len() implies !has_char(#[trigger] n[t], '\n') && (no_trailing_cr(ls)
                ==> !(n[t].len() > 0 && n[t].last() == '\r')) by {
                if 1 <= t < 1 + blk.len() {
                    assert(n[t] == blk[t - 1]);
                    if !m.contains_key((i + 1) as usize) {
                        assert(blk[t - 1] == ls[i + t]);
                    }
                } else if t >= 1 + blk.len() {
                    assert(n[t] == r[t - 1 - blk.len()]);
                }
            }
            if r.len() == 0 && blk.len() > 0 {
                assert(n.last() == blk.last());
                if !m.contains_key((i + 1) as usize) {
                    assert(blk.last() == ls[j - 1]);
                    lemma_quote_prefix(ls, i + 1);
                    assert(quote_line(ls[j - 1]));
                    reveal_strlit(">");
                    if ls[j - 1].len() == 0 {
                        assert(trim_start_s(ls[j - 1]).len() == 0);
                    }
                } else {
                    assert(blk[blk.len() - 1].len() > 0);
                }
            }
        }
    }
}

/// The lines of a rewritten note are the rewritten lines of the note.
proof fn lemma_lines_of_replaced(b: Seq<char>, m: Map<usize, TranscriptEntry>)
    requires
        no_trailing_cr(lines_s(b)),
        forall|k: usize| m.contains_key(k) ==> !has_char(#[trigger] m[k].meta@, '\n'),
    ensures
        lines_s(replace_transcripts_s(b, m)) == replaced_from(lines_s(b), m, 0),
{
    reveal_strlit("\n");
    let ls = lines_s(b);
    lemma_lines_no_lf(b, 0);
    lemma_replaced_clean(ls, m, 0);
    let n = replaced_from(ls, m, 0);
    let nl = ends_with_s(b, "\n"@);
    if nl {
        assert(b.len() > 0);
        assert(b.last() == '\n') by {
            assert(b.skip(b.len() - 1) =~= "\n"@);
            assert(b.skip(b.len() - 1)[0] == b.last());
        }
        crate::text::lemma_idx_of(b, '\n', 0);
        assert(ls.len() > 0);
        lemma_replaced_first(ls, m, 0);
    } else if b.len() > 0 {
        if b.last() == '\n' {
            assert(b.skip(b.len() - 1) =~= "\n"@);
        }
        lemma_last_line(b, 0);
        if n.len() > 0 {
            assert(n.last() == ls.last() || n.last().len() > 0);
        }
    } else {
        assert(ls =~= Seq::<Seq<char>>::empty());
    }
    lemma_lines_of_join(n, nl);
    assert(seq!['\n'] =~= "\n"@);
}

// ---------------------------------------------------------------- a note ending in a carriage return

/// Skipping leading whitespace of a text with a whitespace character appended.
proof fn lemma_ws_skip_push(d: Seq<char>, c: char, i: int)
    requires
        0 <= i <= d.len(),
        is_ws(c),
    ensures
        ws_skip(d.push(c), i) == if ws_skip(d, i) < d.len() { ws_skip(d, i) } else { d.len() as int + 1 },
    decreases d.len() - i,
{
    let l = d.push(c);
    if i < d.len() {
        assert(l[i] == d[i]);
        if is_ws(d[i]) {
            lemma_ws_skip_push(d, c, i + 1);
        }
    } else {
        assert(l[i] == c);
        assert(ws_skip(l, i + 1) == i + 1);
    }
}

/// Whitespace found backwards from `j` does not look past `j`.
proof fn lemma_ws_back_push(d: Seq<char>, c: char, j: int)
    requires
        0 <= j <= d.len(),
    ensures
        ws_back(d.push(c), j) == ws_back(d, j),
    decreases j,
{
    if j > 0 {
        assert(d.push(c)[j - 1] == d[j - 1]);
        lemma_ws_back_push(d, c, j - 1);
    }
}

/// A line and the line without a carriage return at its end trim to the same text.
proof fn lemma_trim_strip_cr(l: Seq<char>)
    ensures
        trim_s(strip_cr(l)) == trim_s(l),
{
    if l.len() > 0 && l.last() == '\r' {
        let d = l.drop_last();
        assert(l =~= d.push('\r'));
        assert(is_ws('\r'));
        lemma_ws_skip(d, 0);
        lemma_ws_skip_push(d, '\r', 0);
        let k = ws_skip(d, 0);
        if k < d.len() {
            let t = trim_start_s(d);
            assert(trim_start_s(l) =~= t.push('\r'));
            let tl = t.push('\r');
            assert(ws_back(tl, tl.len() as int) == ws_back(tl, t.len() as int));
            lemma_ws_back_push(t, '\r', t.len() as int);
            lemma_ws_back(t, t.len() as int);
            assert(trim_end_s(tl) =~= trim_end_s(t));
        } else {
            assert(trim_start_s(l) =~= Seq::<char>::empty());
            assert(trim_start_s(d) =~= Seq::<char>::empty());
        }
    }
}

/// Two lists of lines that differ only in reference lines, which are reference
/// lines in both.
pub open spec fn same_but_refs(o: Seq<Seq<char>>, p: Seq<Seq<char>>) -> bool {
    &&& o.len() == p.len()
    &&& forall|x: int|
        0 <= x < o.len() ==> #[trigger] p[x] == o[x] || (ref_of(o[x]) is Some && ref_of(p[x]) is Some)
}

proof fn lemma_quote_end_same(o: Seq<Seq<char>>, p: Seq<Seq<char>>, j: int)
    requires
        same_but_refs(o, p),
        0 <= j <= o.len(),
    ensures
        quote_end(p, j) == quote_end(o, j),
    decreases o.len() - j,
{
    if j < o.len() {
        if p[j] != o[j] {
            lemma_ref_not_quote(o[j]);
            lemma_ref_not_quote(p[j]);
        } else {
            lemma_quote_end_same(o, p, j + 1);
        }
    }
}

/// Hand-written lines do not depend on how a reference line is written.
proof fn lemma_hand_same(o: Seq<Seq<char>>, p: Seq<Seq<char>>, i: int)
    requires
        same_but_refs(o, p),
        0 <= i <= o.len(),
    ensures
        hand_from(p, i) == hand_from(o, i),
    decreases o.len() - i,
{
    if i < o.len() {
        assert(p[i] == o[i] || (ref_of(o[i]) is Some && ref_of(p[i]) is Some));
        if ref_of(o[i]) is Some {
            lemma_quote_end(o, i + 1);
            lemma_quote_end_same(o, p, i + 1);
            lemma_hand_same(o, p, quote_end(o, i + 1));
        } else {
            lemma_hand_same(o, p, i + 1);
        }
    }
}

/// In rewritten lines, a line that ends with a carriage return and is not the
/// last is a reference line, when only the last of the note's lines can end
/// with one.
proof fn lemma_replaced_cr(ls: Seq<Seq<char>>, m: Map<usize, TranscriptEntry>, i: int)
    requires
        0 <= i <= ls.len(),
        forall|x: int| 0 <= x < ls.len() - 1 ==> !((#[trigger] ls[x]).len() > 0 && ls[x].last() == '\r'),
        forall|k: usize| m.contains_key(k) ==> !has_char(#[trigger] m[k].meta@, '\n'),
    ensures
        forall|x: int|
            0 <= x < replaced_from(ls, m, i).len() - 1 ==> !((#[trigger] replaced_from(ls, m, i)[x]).len()
                > 0 && replaced_from(ls, m, i)[x].last() == '\r') || ref_of(replaced_from(ls, m, i)[x]) is Some,
    decreases ls.len() - i,
{
    if i < ls.len() {
        let l = ls[i];
        if ref_of(l) is None {
            lemma_replaced_cr(ls, m, i + 1);
            let r = replaced_from(ls, m, i + 1);
            let n = seq![l] + r;
            assert(replaced_from(ls, m, i) == n);
            assert forall|x: int| 0 <= x < n.len() - 1 implies !((#[trigger] n[x]).len() > 0 && n[x].last()
                == '\r') || ref_of(n[x]) is Some by {
                if x > 0 {
                    assert(n[x] == r[x - 1]);
                } else {
                    assert(i + 1 < ls.len());
                }
            }
        } else {
            lemma_quote_end(ls, i + 1);
            let j = quote_end(ls, i + 1);
            lemma_replaced_cr(ls, m, j);
            let blk = new_block(ls, m, i);
            let r = replaced_from(ls, m, j);
            let n = seq![l] + blk + r;
            assert(replaced_from(ls, m, i) =~= n);
            if m.contains_key((i + 1) as usize) {
                lemma_block_lines(m[(i + 1) as usize]);
            }
            assert forall|x: int| 0 <= x < n.len() - 1 implies !((#[trigger] n[x]).len() > 0 && n[x].last()
                == '\r') || ref_of(n[x]) is Some by {
                if 1 <= x < 1 + blk.len() {
                    assert(n[x] == blk[x - 1]);
                    if !m.contains_key((i + 1) as usize) {
                        assert(blk[x - 1] == ls[i + x]);
                        if i + x == ls.len() - 1 {
                            assert(j == ls.len());
                            assert(r.len() == 0);
                        }
                    }
                } else if x >= 1 + blk.len() {
                    assert(n[x] == r[x - 1 - blk.len()]);
                }
            }
        }
    }
}

/// Writing transcript blocks never touches hand-written lines: the lines of the
/// note outside reference lines, their quote blocks and the notice of a new
/// note are the same before and after, for any entries whose labels are one
/// line and any note, LF or CRLF, that has no carriage return right before a
/// CRLF line ending (`"\r\r\n"`).
pub proof fn lemma_replace_keeps_handwritten(b: Seq<char>, m: Map<usize, TranscriptEntry>)
    requires
        no_cr_before_crlf(b),
        forall|k: usize| m.contains_key(k) ==> !has_char(#[trigger] m[k].meta@, '\n'),
    ensures
        hand_from(lines_s(replace_transcripts_s(b, m)), 0) == hand_from(lines_s(b), 0),
{
    lemma_lines_no_trailing_cr(b, 0);
    let ls = lines_s(b);
    lemma_hand_of_replaced(ls, m, 0);
    if !(b.len() > 0 && b.last() == '\r') {
        lemma_lines_of_replaced(b, m);
    } else {
        // the last line keeps its carriage return, and only a reference line
        // before a new block loses one when the note is split again
        reveal_strlit("\n");
        let n = replaced_from(ls, m, 0);
        let r = replace_transcripts_s(b, m);
        assert(!ends_with_s(b, "\n"@)) by {
            if ends_with_s(b, "\n"@) {
                assert(b.skip(b.len() - 1) =~= "\n"@);
                assert(b.skip(b.len() - 1)[0] == b.last());
            }
        }
        assert("\n"@ =~= seq!['\n']);
        assert(r =~= join_s(n, seq!['\n']) + Seq::<char>::empty());
        lemma_lines_no_lf(b, 0);
        lemma_replaced_clean(ls, m, 0);
        lemma_last_line(b, 0);
        lemma_lines_of_join_strip(n, false);
        lemma_replaced_cr(ls, m, 0);
        let w = strip_inner(n, false);
        assert(same_but_refs(n, w)) by {
            assert forall|x: int| 0 <= x < n.len() implies #[trigger] w[x] == n[x] || (ref_of(n[x]) is Some
                && ref_of(w[x]) is Some) by {
                if x < n.len() - 1 {
                    lemma_trim_strip_cr(n[x]);
                }
            }
        }
        lemma_hand_same(n, w, 0);
    }
}

// ---------------------------------------------------------------- running the rewrite again

/// The entries of a rewrite, keyed again by the line numbers their reference
/// lines have in the rewritten note (`o` lines of it come before line `i`).
pub open spec fn rekey(ls: Seq<Seq<char>>, m: Map<usize, TranscriptEntry>, i: int, o: int) -> Map<
    usize,
    TranscriptEntry,
>
    decreases ls.len() - i,
{
    if i < 0 || i >= ls.len() {
        Map::empty()
    } else if ref_of(ls[i]) is None {
        rekey(ls, m, i + 1, o + 1)
    } else {
        let j = quote_end(ls, i + 1);
        if i + 1 <= j <= ls.len() {
            let rest = rekey(ls, m, j, o + 1 + new_block(ls, m, i).len());
            if m.contains_key((i + 1) as usize) {
                rest.insert((o + 1) as usize, m[(i + 1) as usize])
            } else {
                rest
            }
        } else {
            Map::empty()
        }
    }
}

/// The keys given from line `i` on are line numbers after the first `o` lines.
proof fn lemma_rekey_dom(ls: Seq<Seq<char>>, m: Map<usize, TranscriptEntry>, i: int, o: int)
    requires
        0 <= i <= ls.len(),
        0 <= o,
        o + replaced_from(ls, m, i).len() <= usize::MAX,
    ensures
        forall|k: usize| #[trigger] rekey(ls, m, i, o).contains_key(k) ==> o + 1 <= k <= o
            + replaced_from(ls, m, i).len(),
    decreases ls.len() - i,
{
    if i < ls.len() {
        if ref_of(ls[i]) is None {
            assert(replaced_from(ls, m, i).len() == 1 + replaced_from(ls, m, i + 1).len());
            lemma_rekey_dom(ls, m, i + 1, o + 1);
            assert(rekey(ls, m, i, o) == rekey(ls, m, i + 1, o + 1));
        } else {
            lemma_quote_end(ls, i + 1);
            let j = quote_end(ls, i + 1);
            let blk = new_block(ls, m, i);
            assert(replaced_from(ls, m, i) =~= seq![ls[i]] + blk + replaced_from(ls, m, j));
            lemma_rekey_dom(ls, m, j, o + 1 + blk.len());
            assert(((o + 1) as usize) as int == o + 1);
            let rest = rekey(ls, m, j, o + 1 + blk.len());
            let len = replaced_from(ls, m, i).len();
            assert(len == 1 + blk.len() + replaced_from(ls, m, j).len());
            if m.contains_key((i + 1) as usize) {
                assert(rekey(ls, m, i, o) == rest.insert((o + 1) as usize, m[(i + 1) as usize]));
                assert forall|k: usize| #[trigger] rekey(ls, m, i, o).contains_key(k) implies o + 1
                    <= k <= o + len by {
                    if k != (o + 1) as usize {
                        assert(rest.contains_key(k));
                    }
                }
            } else {
                assert(rekey(ls, m, i, o) == rest);
            }
        }
    }
}

/// Rewriting the rewritten lines from output line `o` with the re-keyed entries
/// gives them back, when `mm` agrees with the re-keyed entries from there on.
proof fn lemma_rekey_idem(
    ls: Seq<Seq<char>>,
    m: Map<usize, TranscriptEntry>,
    i: int,
    o: int,
    mm: Map<usize, TranscriptEntry>,
)
    requires
        0 <= i <= ls.len(),
        0 <= o <= replaced_from(ls, m, 0).len(),
        replaced_from(ls, m, 0).len() <= usize::MAX,
        replaced_from(ls, m, 0).skip(o) == replaced_from(ls, m, i),
        forall|k: usize|
            k >= o + 1 ==> (#[trigger] mm.contains_key(k) == rekey(ls, m, i, o).contains_key(k)
                && (mm.contains_key(k) ==> mm[k] == rekey(ls, m, i, o)[k])),
    ensures
        replaced_from(replaced_from(ls, m, 0), mm, o) == replaced_from(ls, m, i),
    decreases ls.len() - i,
{
    let n = replaced_from(ls, m, 0);
    let r = replaced_from(ls, m, i);
    assert(o + r.len() == n.len()) by {
        assert(n.skip(o).len() == r.len());
    }
    if i >= ls.len() {
        assert(r.len() == 0);
    } else if ref_of(ls[i]) is None {
        let r1 = replaced_from(ls, m, i + 1);
        assert(r == seq![ls[i]] + r1);
        assert(n[o] == ls[i]) by {
            assert(n.skip(o)[0] == n[o]);
        }
        assert(n.skip(o + 1) =~= r1) by {
            assert(n.skip(o + 1) =~= n.skip(o).drop_first());
        }
        lemma_rekey_idem(ls, m, i + 1, o + 1, mm);
    } else {
        lemma_quote_end(ls, i + 1);
        let j = quote_end(ls, i + 1);
        let blk = new_block(ls, m, i);
        let rj = replaced_from(ls, m, j);
        assert(r =~= seq![ls[i]] + blk + rj);
        let e = o + 1 + blk.len();
        assert(n[o] == ls[i]) by {
            assert(n.skip(o)[0] == n[o]);
        }
        assert forall|t: int| 0 <= t < blk.len() implies n[o + 1 + t] == #[trigger] blk[t] by {
            assert(n.skip(o)[1 + t] == n[o + 1 + t]);
        }
        assert(n.skip(e) =~= rj) by {
            assert forall|t: int| 0 <= t < rj.len() implies n.skip(e)[t] == rj[t] by {
                assert(n.skip(o)[1 + blk.len() + t] == n[e + t]);
            }
        }
        // the block in the rewritten lines runs exactly as far
        if m.contains_key((i + 1) as usize) {
            lemma_block_quoted(m[(i + 1) as usize]);
        } else {
            lemma_quote_prefix(ls, i + 1);
        }
        assert forall|t: int| o + 1 <= t < e implies quote_line(#[trigger] n[t]) by {
            assert(n[t] == blk[t - o - 1]);
            if !m.contains_key((i + 1) as usize) {
                assert(blk[t - o - 1] == ls[i + 1 + (t - o - 1)]);
            }
        }
        if j < ls.len() {
            lemma_replaced_first(ls, m, j);
            lemma_quote_end_stops(ls, i + 1);
            assert(n[e] == rj[0]) by {
                assert(n.skip(e)[0] == n[e]);
            }
        }
        lemma_quote_run(n, o + 1, e);
        // the key of this reference line in the re-keyed entries
        lemma_rekey_dom(ls, m, j, e);
        let rest = rekey(ls, m, j, e);
        assert(!rest.contains_key((o + 1) as usize));
        let rk = rekey(ls, m, i, o);
        assert(n.len() <= usize::MAX);
        assert(((o + 1) as usize) as int == o + 1);
        if m.contains_key((i + 1) as usize) {
            assert(rk == rest.insert((o + 1) as usize, m[(i + 1) as usize]));
            assert(mm.contains_key((o + 1) as usize));
            assert(mm[(o + 1) as usize] == m[(i + 1) as usize]);
        } else {
            assert(rk == rest);
            assert(!mm.contains_key((o + 1) as usize));
            assert(n.subrange(o + 1, e) =~= blk);
        }
        assert forall|k: usize| k >= e + 1 implies (#[trigger] mm.contains_key(k) == rest.contains_key(k)
            && (mm.contains_key(k) ==> mm[k] == rest[k])) by {
            assert(k >= o + 1);
            assert(k != (o + 1) as usize);
        }
        lemma_rekey_idem(ls, m, j, e, mm);
        let nb = if mm.contains_key((o + 1) as usize) {
            let en = mm[(o + 1) as usize];
            if blank(en.text@) {
                seq![]
            } else {
                transcript_lines_s(en.meta@, en.text@)
            }
        } else {
            n.subrange(o + 1, e)
        };
        assert(nb == blk);
        assert(replaced_from(n, mm, o) == seq![n[o]] + nb + replaced_from(n, mm, e));
    }
}

/// Running the rewrite again on its result, with the same entries keyed by the
/// line numbers their reference lines now have, changes nothing: the note's
/// transcript blocks are written idempotently. Stated for entries whose labels
/// are one line and notes, LF or CRLF, that have no carriage return right before
/// a CRLF line ending and do not end with a carriage return.
pub proof fn lemma_rewrite_again_changes_nothing(b: Seq<char>, m: Map<usize, TranscriptEntry>)
    requires
        no_cr_before_crlf(b),
        !(b.len() > 0 && b.last() == '\r'),
        forall|k: usize| m.contains_key(k) ==> !has_char(#[trigger] m[k].meta@, '\n'),
        replaced_from(lines_s(b), m, 0).len() <= usize::MAX,
    ensures
        replace_transcripts_s(
            replace_transcripts_s(b, m),
            rekey(lines_s(b), m, 0, 0),
        ) == replace_transcripts_s(b, m),
{
    reveal_strlit("\n");
    lemma_lines_no_trailing_cr(b, 0);
    let ls = lines_s(b);
    let n = replaced_from(ls, m, 0);
    let r = replace_transcripts_s(b, m);
    lemma_lines_of_replaced(b, m);
    assert(n.skip(0) =~= n);
    lemma_rekey_idem(ls, m, 0, 0, rekey(ls, m, 0, 0));
    // the rewritten note ends with a line feed exactly when the note did
    lemma_lines_no_lf(b, 0);
    lemma_replaced_clean(ls, m, 0);
    let jn = join_s(n, "\n"@);
    if !ends_with_s(b, "\n"@) {
        assert(r =~= jn);
        if jn.len() > 0 && ends_with_s(jn, "\n"@) {
            assert(jn.last() == '\n') by {
                assert(jn.skip(jn.len() - 1)[0] == jn.last());
            }
            if n.len() == 0 {
                assert(jn.len() == 0);
            } else {
                if b.len() > 0 {
                    if b.last() == '\n' {
                        assert(b.skip(b.len() - 1) =~= "\n"@);
                    }
                    lemma_last_line(b, 0);
                }
                assert(n.last().len() > 0) by {
                    if b.len() == 0 {
                        assert(ls =~= Seq::<Seq<char>>::empty());
                    }
                }
                lemma_join_last(n, "\n"@);
                assert(!has_char(n.last(), '\n'));
                assert(n.last()[n.last().len() - 1] == '\n');
            }
        }
    } else {
        assert(ends_with_s(r, "\n"@)) by {
            assert(r.skip(r.len() - 1) =~= "\n"@);
        }
    }
}

} // verus!
