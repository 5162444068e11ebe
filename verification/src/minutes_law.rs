//! Writing the minutes section into a meeting note and reading it back.
use vstd::prelude::*;
use crate::line_laws::{
    lemma_join_front, lemma_join_last, lemma_join_no_cr_before_crlf, lemma_lines_cons,
    lemma_lines_no_lf, lemma_lines_no_trailing_cr, lemma_lines_of_join, no_cr_before_crlf,
    no_line_feed, no_trailing_cr,
};
use crate::meeting_note::{
    handwritten_s, last_heading, lemma_last_heading, split_minutes_s, upsert_minutes_s,
    MINUTES_HEADING,
};
use crate::text::{
    has_char, idx_of, is_ws, join_s, lemma_idx_of, lemma_ws_back, lines_from, lines_s, strip_cr, trim_end_s,
    trim_s, trim_start_s, ws_back, ws_skip,
};

verus! {

/// No carriage return stands right before a line feed.
pub open spec fn no_crlf(s: Seq<char>) -> bool {
    forall|i: int| 0 <= i < s.len() - 1 ==> !(#[trigger] s[i] == '\r' && s[i + 1] == '\n')
}

/// A text splits at its first line feed into the text before it and the text after it.
proof fn lemma_first_lf(x: Seq<char>)
    requires
        has_char(x, '\n'),
    ensures
        0 <= idx_of(x, '\n', 0) < x.len(),
        !has_char(x.take(idx_of(x, '\n', 0)), '\n'),
        x =~= x.take(idx_of(x, '\n', 0)) + seq!['\n'] + x.skip(idx_of(x, '\n', 0) + 1),
{
    lemma_idx_of(x, '\n', 0);
    let k = idx_of(x, '\n', 0);
    if k >= x.len() {
        let j = choose|j: int| 0 <= j < x.len() && x[j] == '\n';
        assert(x[j] != '\n');
    }
    let a = x.take(k);
    if has_char(a, '\n') {
        let j = choose|j: int| 0 <= j < a.len() && a[j] == '\n';
        assert(x[j] == '\n');
    }
}

/// The lines of `x`, a line feed and `r` are those of `x` with its line feed, then those of `r`.
proof fn lemma_lines_append(x: Seq<char>, r: Seq<char>)
    ensures
        lines_s(x + seq!['\n'] + r) == lines_s(x + seq!['\n']) + lines_s(r),
    decreases x.len(),
{
    let e = Seq::<char>::empty();
    assert(lines_s(e) =~= Seq::<Seq<char>>::empty());
    if !has_char(x, '\n') {
        lemma_lines_cons(x, r);
        lemma_lines_cons(x, e);
        assert(x + seq!['\n'] + e =~= x + seq!['\n']);
        assert(seq![strip_cr(x)] + lines_s(e) =~= seq![strip_cr(x)]);
    } else {
        lemma_first_lf(x);
        let k = idx_of(x, '\n', 0);
        let a = x.take(k);
        let y = x.skip(k + 1);
        lemma_lines_append(y, r);
        lemma_lines_cons(a, y + seq!['\n'] + r);
        assert(x + seq!['\n'] + r =~= a + seq!['\n'] + (y + seq!['\n'] + r));
        lemma_lines_cons(a, y + seq!['\n']);
        assert(x + seq!['\n'] =~= a + seq!['\n'] + (y + seq!['\n']));
        assert(seq![strip_cr(a)] + (lines_s(y + seq!['\n']) + lines_s(r)) =~= (seq![strip_cr(a)]
            + lines_s(y + seq!['\n'])) + lines_s(r));
    }
}

/// A text with a line feed after it has at least one line.
proof fn lemma_lines_nonempty(x: Seq<char>)
    ensures
        lines_s(x + seq!['\n']).len() >= 1,
{
    let s = x + seq!['\n'];
    lemma_idx_of(s, '\n', 0);
    assert(s[x.len() as int] == '\n');
}

/// Joining the lines of `x` (with a line feed after it) gives `x` back, when `x`
/// has no carriage return before a line feed and does not end with one.
proof fn lemma_join_lines(x: Seq<char>)
    requires
        no_crlf(x),
        !(x.len() > 0 && x.last() == '\r'),
    ensures
        join_s(lines_s(x + seq!['\n']), seq!['\n']) == x,
    decreases x.len(),
{
    let e = Seq::<char>::empty();
    assert(lines_s(e) =~= Seq::<Seq<char>>::empty());
    if !has_char(x, '\n') {
        lemma_lines_cons(x, e);
        assert(x + seq!['\n'] + e =~= x + seq!['\n']);
        assert(strip_cr(x) == x);
        assert(lines_s(x + seq!['\n']) =~= seq![x]);
    } else {
        lemma_first_lf(x);
        let k = idx_of(x, '\n', 0);
        let a = x.take(k);
        let y = x.skip(k + 1);
        assert(no_crlf(y)) by {
            assert forall|i: int| 0 <= i < y.len() - 1 implies !(#[trigger] y[i] == '\r' && y[i
                + 1] == '\n') by {
                assert(y[i] == x[k + 1 + i] && y[i + 1] == x[k + 1 + i + 1]);
            }
        }
        if y.len() > 0 {
            assert(y.last() == x.last());
        }
        lemma_join_lines(y);
        lemma_lines_cons(a, y + seq!['\n']);
        assert(x + seq!['\n'] =~= a + seq!['\n'] + (y + seq!['\n']));
        if a.len() > 0 && a.last() == '\r' {
            assert(x[k - 1] == '\r' && x[k] == '\n');
        }
        assert(strip_cr(a) == a);
        lemma_lines_nonempty(y);
        let ls = lines_s(x + seq!['\n']);
        assert(ls =~= seq![a] + lines_s(y + seq!['\n']));
        lemma_join_front(ls, seq!['\n']);
        assert(ls.drop_first() =~= lines_s(y + seq!['\n']));
    }
}

/// The lines of a non-empty text that ends in neither a line feed nor a carriage
/// return do not change when a line feed is added.
proof fn lemma_lines_final_lf(x: Seq<char>)
    requires
        x.len() > 0,
        x.last() != '\n',
        x.last() != '\r',
    ensures
        lines_s(x + seq!['\n']) == lines_s(x),
    decreases x.len(),
{
    let e = Seq::<char>::empty();
    assert(lines_s(e) =~= Seq::<Seq<char>>::empty());
    if !has_char(x, '\n') {
        lemma_lines_cons(x, e);
        assert(x + seq!['\n'] + e =~= x + seq!['\n']);
        lemma_idx_of(x, '\n', 0);
        assert(idx_of(x, '\n', 0) == x.len()) by {
            if idx_of(x, '\n', 0) < x.len() {
                assert(x[idx_of(x, '\n', 0)] == '\n');
            }
        }
        assert(x.subrange(0, x.len() as int) =~= x);
        assert(lines_s(x) =~= seq![x]);
    } else {
        lemma_first_lf(x);
        let k = idx_of(x, '\n', 0);
        let a = x.take(k);
        let y = x.skip(k + 1);
        assert(y.len() > 0) by {
            if y.len() == 0 {
                assert(x.last() == x[k]);
            }
        }
        assert(y.last() == x.last());
        lemma_lines_final_lf(y);
        lemma_lines_cons(a, y + seq!['\n']);
        assert(x + seq!['\n'] =~= a + seq!['\n'] + (y + seq!['\n']));
        lemma_lines_cons(a, y);
    }
}

/// Whitespace added at the end does not change `trim_end`.
proof fn lemma_ws_back_ext(s: Seq<char>, w: Seq<char>, j: int)
    requires
        0 <= j <= s.len(),
    ensures
        ws_back(s + w, j) == ws_back(s, j),
    decreases j,
{
    if 0 < j {
        assert((s + w)[j - 1] == s[j - 1]);
        if is_ws(s[j - 1]) {
            lemma_ws_back_ext(s, w, j - 1);
        }
    }
}

proof fn lemma_ws_back_blank(s: Seq<char>, w: Seq<char>, j: int)
    requires
        s.len() <= j <= s.len() + w.len(),
        forall|k: int| 0 <= k < w.len() ==> is_ws(#[trigger] w[k]),
    ensures
        ws_back(s + w, j) == ws_back(s + w, s.len() as int),
    decreases j,
{
    if j > s.len() {
        assert((s + w)[j - 1] == w[j - 1 - s.len()]);
        lemma_ws_back_blank(s, w, j - 1);
    }
}

pub proof fn lemma_trim_end_blank_suffix(s: Seq<char>, w: Seq<char>)
    requires
        forall|k: int| 0 <= k < w.len() ==> is_ws(#[trigger] w[k]),
    ensures
        trim_end_s(s + w) == trim_end_s(s),
{
    lemma_ws_back_blank(s, w, (s.len() + w.len()) as int);
    lemma_ws_back_ext(s, w, s.len() as int);
    lemma_ws_back(s, s.len() as int);
    assert((s + w).take(ws_back(s, s.len() as int)) =~= s.take(ws_back(s, s.len() as int)));
}

pub proof fn lemma_trim_end_idem(s: Seq<char>)
    ensures
        trim_end_s(trim_end_s(s)) == trim_end_s(s),
        trim_end_s(s).len() > 0 ==> !is_ws(trim_end_s(s).last()),
{
    lemma_ws_back(s, s.len() as int);
    let j = ws_back(s, s.len() as int);
    let t = s.take(j);
    if j > 0 {
        assert(t[j - 1] == s[j - 1]);
    }
    assert(ws_back(t, j) == j);
    assert(t.take(j) =~= t);
}

/// The last line among the first `n` that is the heading is the one at `i`, when
/// none after it is.
pub proof fn lemma_last_heading_at(ls: Seq<Seq<char>>, n: int, i: int)
    requires
        0 <= i < n <= ls.len(),
        trim_s(ls[i]) == MINUTES_HEADING@,
        forall|k: int| i < k < n ==> trim_s(#[trigger] ls[k]) != MINUTES_HEADING@,
    ensures
        last_heading(ls, n) == Some(i),
    decreases n,
{
    if n - 1 > i {
        lemma_last_heading_at(ls, n - 1, i);
    }
}

/// The heading line is its own trim and holds no line feed.
pub proof fn lemma_heading_line()
    ensures
        trim_s(MINUTES_HEADING@) == MINUTES_HEADING@,
        !has_char(MINUTES_HEADING@, '\n'),
        strip_cr(MINUTES_HEADING@) == MINUTES_HEADING@,
        MINUTES_HEADING@.len() > 0,
        !is_ws(MINUTES_HEADING@.last()),
{
    reveal_strlit("## 会议纪要（AI 整理）");
    let h = MINUTES_HEADING@;
    assert(ws_skip(h, 0) == 0);
    let t = trim_start_s(h);
    assert(t =~= h);
    assert(ws_back(t, t.len() as int) == t.len());
    assert(trim_end_s(t) =~= t);
    if has_char(h, '\n') {
        let j = choose|j: int| 0 <= j < h.len() && h[j] == '\n';
        assert(h[j] != '\n');
    }
}

/// The lines of a written note: those of the body, a blank line, the heading,
/// a blank line, then those of the minutes.
proof fn lemma_upsert_lines(bb: Seq<char>, t: Seq<char>)
    ensures
        lines_s(bb + "\n\n"@ + MINUTES_HEADING@ + "\n\n"@ + t + "\n"@) == lines_s(bb + seq!['\n'])
            + seq![Seq::<char>::empty(), MINUTES_HEADING@, Seq::<char>::empty()] + lines_s(
            t + seq!['\n'],
        ),
{
    reveal_strlit("\n\n");
    reveal_strlit("\n");
    lemma_heading_line();
    let h = MINUTES_HEADING@;
    let e = Seq::<char>::empty();
    let nl = seq!['\n'];
    let r2 = e + nl + (t + nl);
    let r1 = h + nl + r2;
    let r = e + nl + r1;
    assert(bb + "\n\n"@ + h + "\n\n"@ + t + "\n"@ =~= bb + nl + r);
    lemma_lines_append(bb, r);
    lemma_lines_cons(e, r1);
    lemma_lines_cons(h, r2);
    lemma_lines_cons(e, t + nl);
    assert(strip_cr(e) =~= e);
    assert(seq![e] + (seq![h] + (seq![e] + lines_s(t + nl))) =~= seq![e, h, e] + lines_s(t + nl));
}

/// The body lines with a blank line after them join and trim back to the body.
proof fn lemma_body_back(bb: Seq<char>)
    requires
        no_crlf(bb),
        bb.len() > 0 ==> !is_ws(bb.last()),
    ensures
        trim_end_s(join_s(lines_s(bb + seq!['\n']).push(Seq::<char>::empty()), "\n"@)) == bb,
{
    reveal_strlit("\n");
    let nl = seq!['\n'];
    let e = Seq::<char>::empty();
    assert("\n"@ =~= nl);
    assert(is_ws('\r') && is_ws('\n'));
    lemma_join_lines(bb);
    lemma_lines_nonempty(bb);
    let p = lines_s(bb + nl);
    let before = p.push(e);
    assert(before.drop_last() =~= p);
    assert(before.last() == e);
    assert(join_s(before, nl) == join_s(p, nl) + nl + e);
    assert(join_s(before, nl) =~= bb + nl);
    lemma_trim_end_blank_suffix(bb, nl);
    lemma_trim_end_idem(bb);
    lemma_ws_back(bb, bb.len() as int);
    assert(trim_end_s(bb) =~= bb);
}

/// The heading, a blank line and the minutes lines join back to the section.
proof fn lemma_minutes_back(t: Seq<char>)
    requires
        no_crlf(t),
        t.len() > 0 ==> !is_ws(t.last()),
    ensures
        join_s(seq![MINUTES_HEADING@, Seq::<char>::empty()] + lines_s(t + seq!['\n']), "\n"@)
            == MINUTES_HEADING@ + "\n\n"@ + t,
{
    reveal_strlit("\n\n");
    reveal_strlit("\n");
    let nl = seq!['\n'];
    let e = Seq::<char>::empty();
    let h = MINUTES_HEADING@;
    assert("\n"@ =~= nl);
    assert(is_ws('\r'));
    lemma_join_lines(t);
    lemma_lines_nonempty(t);
    let q = lines_s(t + nl);
    let after = seq![h, e] + q;
    lemma_join_front(after, nl);
    assert(after.drop_first() =~= seq![e] + q);
    lemma_join_front(seq![e] + q, nl);
    assert((seq![e] + q).drop_first() =~= q);
    assert(join_s(after, nl) =~= h + "\n\n"@ + t);
}

/// Writing the minutes section and splitting the note again gives back the body
/// unchanged and the section just written; writing the same minutes a second
/// time changes nothing. This holds when the minutes hold no line that is the
/// heading itself, and neither the body nor the minutes hold a carriage return
/// before a line feed.
#[verifier::spinoff_prover]
pub proof fn lemma_upsert_then_split(b: Seq<char>, m: Seq<char>)
    requires
        no_crlf(split_minutes_s(b).0),
        no_crlf(trim_s(m)),
        forall|k: int|
            0 <= k < lines_s(trim_s(m)).len() ==> trim_s(#[trigger] lines_s(trim_s(m))[k])
                != MINUTES_HEADING@,
    ensures
        split_minutes_s(upsert_minutes_s(b, m)) == (
            split_minutes_s(b).0,
            Some(trim_end_s(MINUTES_HEADING@ + "\n\n"@ + trim_s(m))),
        ),
        upsert_minutes_s(upsert_minutes_s(b, m), m) == upsert_minutes_s(b, m),
{
    lemma_heading_line();
    let h = MINUTES_HEADING@;
    let e = Seq::<char>::empty();
    let nl = seq!['\n'];
    let bb = split_minutes_s(b).0;
    let t = trim_s(m);
    // the body part and the minutes text are already trimmed at the end
    let lb = lines_s(b);
    match last_heading(lb, lb.len() as int) {
        None => lemma_trim_end_idem(b),
        Some(i) => lemma_trim_end_idem(join_s(lb.take(i), "\n"@)),
    }
    lemma_trim_end_idem(trim_start_s(m));
    assert(trim_end_s(bb) == bb);
    let u = upsert_minutes_s(b, m);
    lemma_upsert_lines(bb, t);
    let p = lines_s(bb + nl);
    let q = lines_s(t + nl);
    let ls = lines_s(u);
    assert(ls == p + seq![e, h, e] + q);
    assert(trim_s(e) =~= e);
    // the heading written is the last one
    if t.len() > 0 {
        assert(is_ws('\r') && is_ws('\n'));
        lemma_lines_final_lf(t);
    } else {
        lemma_lines_cons(e, e);
        assert(t + nl =~= e + nl + e);
        assert(lines_s(e) =~= Seq::<Seq<char>>::empty());
        assert(q =~= seq![e]);
    }
    let i: int = p.len() as int + 1;
    assert forall|k: int| i < k < ls.len() implies trim_s(#[trigger] ls[k]) != h by {
        if k > i + 1 {
            assert(ls[k] == q[k - i - 2]);
        }
    }
    lemma_last_heading_at(ls, ls.len() as int, i);
    // the body and the minutes come back
    assert(ls.take(i) =~= p.push(e));
    lemma_body_back(bb);
    assert(ls.skip(i) =~= seq![h, e] + q);
    lemma_minutes_back(t);
}

/// The last line of a text that does not end with a line feed ends with the
/// text's last character.
proof fn lemma_last_line_char(s: Seq<char>, i: int)
    requires
        0 <= i < s.len(),
        s.last() != '\n',
    ensures
        lines_from(s, i).len() > 0,
        lines_from(s, i).last().len() > 0,
        lines_from(s, i).last().last() == s.last(),
    decreases s.len() - i,
{
    lemma_idx_of(s, '\n', i);
    let k = idx_of(s, '\n', i);
    if k < s.len() {
        if k + 1 < s.len() {
            lemma_last_line_char(s, k + 1);
            assert(lines_from(s, i).last() == lines_from(s, k + 1).last());
        } else {
            assert(s.last() == s[k]);
        }
    } else {
        let only = s.subrange(i, s.len() as int);
        assert(lines_from(s, i) =~= seq![only]);
        assert(only.last() == s.last());
    }
}

/// Splitting the written note gives back a body with the same lines as before.
proof fn lemma_head_lines_back(bb: Seq<char>)
    requires
        no_trailing_cr(lines_s(bb + seq!['\n'])),
        bb.len() > 0 ==> !is_ws(bb.last()),
    ensures
        lines_s(trim_end_s(join_s(lines_s(bb + seq!['\n']).push(Seq::<char>::empty()), "\n"@)))
            == lines_s(bb),
{
    reveal_strlit("\n");
    let nl = seq!['\n'];
    let e = Seq::<char>::empty();
    assert("\n"@ =~= nl);
    assert(is_ws('\r') && is_ws('\n'));
    lemma_lines_nonempty(bb);
    let p = lines_s(bb + nl);
    let before = p.push(e);
    assert(before.drop_last() =~= p);
    assert(join_s(before, nl) == join_s(p, nl) + nl + e);
    assert(join_s(p, nl) + nl + e =~= join_s(p, nl) + nl);
    lemma_trim_end_blank_suffix(join_s(p, nl), nl);
    if bb.len() == 0 {
        lemma_lines_cons(e, e);
        assert(bb + nl =~= e + nl + e);
        assert(lines_s(e) =~= Seq::<Seq<char>>::empty());
        assert(p =~= seq![e]);
        assert(join_s(p, nl) == e);
        assert(trim_end_s(e) =~= e);
    } else {
        lemma_lines_final_lf(bb);
        lemma_lines_no_lf(bb + nl, 0);
        lemma_ws_back(bb, bb.len() as int);
        // the last line ends with the body's last character, which is no blank
        lemma_last_line_char(bb, 0);
        assert(p == lines_s(bb));
        lemma_join_last(p, nl);
        let j = join_s(p, nl);
        assert(j.last() == bb.last());
        lemma_trim_end_idem(j);
        assert(ws_back(j, j.len() as int) == j.len());
        assert(trim_end_s(j) =~= j);
        lemma_lines_of_join(p, false);
        assert(j + Seq::<char>::empty() =~= j);
    }
}

/// The body before the minutes of a note, LF or CRLF, with no carriage return
/// right before a CRLF line ending, splits into lines that end in no carriage
/// return.
proof fn lemma_head_clean(b: Seq<char>)
    requires
        no_cr_before_crlf(b),
    ensures
        no_trailing_cr(lines_s(split_minutes_s(b).0)),
{
    let lb = lines_s(b);
    let h = split_minutes_s(b).0;
    let whole = match last_heading(lb, lb.len() as int) {
        None => b,
        Some(i) => join_s(lb.take(i), "\n"@),
    };
    assert(h == trim_end_s(whole));
    lemma_ws_back(whole, whole.len() as int);
    match last_heading(lb, lb.len() as int) {
        None => {},
        Some(i) => {
            lemma_last_heading(lb, lb.len() as int);
            lemma_lines_no_lf(b, 0);
            lemma_lines_no_trailing_cr(b, 0);
            let p = lb.take(i);
            assert forall|x: int| 0 <= x < p.len() implies !has_char(#[trigger] p[x], '\n') && !(
            p[x].len() > 0 && p[x].last() == '\r') by {
                assert(p[x] == lb[x]);
            }
            assert(no_line_feed(p));
            assert(no_trailing_cr(p));
            lemma_join_no_cr_before_crlf(p);
            reveal_strlit("\n");
            assert("\n"@ =~= seq!['\n']);
        },
    }
    assert(no_cr_before_crlf(h)) by {
        assert forall|t: int| 0 <= t < h.len() - 2 implies !(#[trigger] h[t] == '\r' && h[t + 1]
            == '\r' && h[t + 2] == '\n') by {
            assert(h[t] == whole[t] && h[t + 1] == whole[t + 1] && h[t + 2] == whole[t + 2]);
        }
    }
    lemma_trim_end_idem(whole);
    assert(is_ws('\r'));
    lemma_lines_no_trailing_cr(h, 0);
}

/// Writing the minutes section leaves the hand-written text of the note as it
/// was, for any note, LF or CRLF, with no carriage return right before a CRLF
/// line ending (`"\r\r\n"`), when the minutes hold no line that is the heading
/// itself.
pub proof fn lemma_upsert_keeps_handwritten(b: Seq<char>, m: Seq<char>)
    requires
        no_cr_before_crlf(b),
        forall|k: int|
            0 <= k < lines_s(trim_s(m)).len() ==> trim_s(#[trigger] lines_s(trim_s(m))[k])
                != MINUTES_HEADING@,
    ensures
        handwritten_s(upsert_minutes_s(b, m)) == handwritten_s(b),
{
    lemma_head_clean(b);
    lemma_heading_line();
    let h = MINUTES_HEADING@;
    let e = Seq::<char>::empty();
    let nl = seq!['\n'];
    let bb = split_minutes_s(b).0;
    let t = trim_s(m);
    let lb = lines_s(b);
    match last_heading(lb, lb.len() as int) {
        None => lemma_trim_end_idem(b),
        Some(i) => lemma_trim_end_idem(join_s(lb.take(i), "\n"@)),
    }
    lemma_trim_end_idem(trim_start_s(m));
    assert(trim_end_s(bb) == bb);
    assert(is_ws('\r') && is_ws('\n'));
    // the lines of the body with a final line feed are the body's lines
    if bb.len() > 0 {
        lemma_lines_final_lf(bb);
    } else {
        lemma_lines_cons(e, e);
        assert(bb + nl =~= e + nl + e);
        assert(lines_s(e) =~= Seq::<Seq<char>>::empty());
        assert(lines_s(bb + nl) =~= seq![e]);
    }
    let u = upsert_minutes_s(b, m);
    lemma_upsert_lines(bb, t);
    let p = lines_s(bb + nl);
    let q = lines_s(t + nl);
    let ls = lines_s(u);
    assert(ls == p + seq![e, h, e] + q);
    assert(trim_s(e) =~= e);
    if t.len() > 0 {
        lemma_lines_final_lf(t);
    } else {
        lemma_lines_cons(e, e);
        assert(t + nl =~= e + nl + e);
        assert(lines_s(e) =~= Seq::<Seq<char>>::empty());
        assert(q =~= seq![e]);
    }
    let i: int = p.len() as int + 1;
    assert forall|k: int| i < k < ls.len() implies trim_s(#[trigger] ls[k]) != h by {
        if k > i + 1 {
            assert(ls[k] == q[k - i - 2]);
        }
    }
    lemma_last_heading_at(ls, ls.len() as int, i);
    assert(ls.take(i) =~= p.push(e));
    lemma_head_lines_back(bb);
}

} // verus!
