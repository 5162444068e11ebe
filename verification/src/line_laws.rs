//! Splitting text into lines and joining lines back: when one undoes the other.
use vstd::prelude::*;
use crate::text::{has_char, idx_of, join_s, lemma_idx_of, lines_from, lines_s, strip_cr};

verus! {

/// No line ends with a carriage return.
pub open spec fn no_trailing_cr(o: Seq<Seq<char>>) -> bool {
    forall|i: int| 0 <= i < o.len() ==> !((#[trigger] o[i]).len() > 0 && o[i].last() == '\r')
}

/// No line holds a line feed.
pub open spec fn no_line_feed(o: Seq<Seq<char>>) -> bool {
    forall|i: int| 0 <= i < o.len() ==> !has_char(#[trigger] o[i], '\n')
}

proof fn lemma_idx_of_shift(a: Seq<char>, b: Seq<char>, c: char, i: int)
    requires
        0 <= i <= b.len(),
    ensures
        idx_of(a + b, c, a.len() + i) == a.len() + idx_of(b, c, i),
    decreases b.len() - i,
{
    if i < b.len() && b[i] != c {
        assert((a + b)[a.len() + i] == b[i]);
        lemma_idx_of_shift(a, b, c, i + 1);
    } else if i < b.len() {
        assert((a + b)[a.len() + i] == b[i]);
    }
}

proof fn lemma_lines_shift(a: Seq<char>, b: Seq<char>, i: int)
    requires
        0 <= i <= b.len(),
    ensures
        lines_from(a + b, a.len() + i) == lines_from(b, i),
    decreases b.len() - i,
{
    let s = a + b;
    if i < b.len() {
        lemma_idx_of_shift(a, b, '\n', i);
        lemma_idx_of(b, '\n', i);
        let k = idx_of(b, '\n', i);
        if k < b.len() {
            lemma_lines_shift(a, b, k + 1);
            assert(s.subrange(a.len() + i, a.len() + k) =~= b.subrange(i, k));
        } else {
            assert(s.subrange(a.len() + i, s.len() as int) =~= b.subrange(i, b.len() as int));
        }
    }
}

proof fn lemma_no_lf_idx(a: Seq<char>, rest: Seq<char>)
    requires
        !has_char(a, '\n'),
    ensures
        idx_of(a + rest, '\n', 0) >= a.len(),
        rest.len() > 0 && rest[0] == '\n' ==> idx_of(a + rest, '\n', 0) == a.len(),
{
    let s = a + rest;
    lemma_idx_of(s, '\n', 0);
    let k = idx_of(s, '\n', 0);
    if k < a.len() {
        assert(s[k] == a[k]);
        assert(has_char(a, '\n'));
    }
    if rest.len() > 0 && rest[0] == '\n' {
        assert(s[a.len() as int] == '\n');
    }
}

/// A line without a line feed, a line feed, and the rest: the line comes
/// first, then the lines of the rest.
pub proof fn lemma_lines_cons(a: Seq<char>, rest: Seq<char>)
    requires
        !has_char(a, '\n'),
    ensures
        lines_s(a + seq!['\n'] + rest) == seq![strip_cr(a)] + lines_s(rest),
{
    let s = a + seq!['\n'] + rest;
    let r2 = seq!['\n'] + rest;
    assert(s =~= a + r2);
    lemma_no_lf_idx(a, r2);
    assert(s.subrange(0, a.len() as int) =~= a);
    assert(a + seq!['\n'] + rest =~= (a + seq!['\n']) + rest);
    lemma_lines_shift(a + seq!['\n'], rest, 0);
    assert(lines_s(s) == seq![strip_cr(s.subrange(0, a.len() as int))] + lines_from(s, (a.len() + 1) as int));
}

/// `join` read from the front.
pub proof fn lemma_join_front(parts: Seq<Seq<char>>, sep: Seq<char>)
    requires
        parts.len() >= 2,
    ensures
        join_s(parts, sep) == parts[0] + sep + join_s(parts.drop_first(), sep),
    decreases parts.len(),
{
    if parts.len() == 2 {
        assert(parts.drop_last() =~= seq![parts[0]]);
        assert(parts.drop_first() =~= seq![parts[1]]);
        assert(join_s(seq![parts[0]], sep) == parts[0]);
        assert(join_s(seq![parts[1]], sep) == parts[1]);
        assert(join_s(parts, sep) == join_s(parts.drop_last(), sep) + sep + parts.last());
        assert(parts.last() == parts[1]);
    } else {
        lemma_join_front(parts.drop_last(), sep);
        assert(parts.drop_last().drop_first() =~= parts.drop_first().drop_last());
        assert(parts.drop_last()[0] == parts[0]);
        assert(parts.drop_first().last() == parts.last());
        assert(join_s(parts, sep) =~= parts[0] + sep + join_s(parts.drop_first(), sep));
    }
}

/// Lines joined by line feeds (and a final line feed or not) split back into
/// the same lines, when no line holds a line feed or ends with a carriage
/// return, and a last line without a final line feed is not empty.
pub proof fn lemma_lines_of_join(o: Seq<Seq<char>>, nl: bool)
    requires
        no_line_feed(o),
        no_trailing_cr(o),
        nl ==> o.len() > 0,
        !nl ==> o.len() == 0 || o.last().len() > 0,
    ensures
        lines_s(join_s(o, seq!['\n']) + (if nl { seq!['\n'] } else { Seq::<char>::empty() })) == o,
    decreases o.len(),
{
    let suffix = if nl { seq!['\n'] } else { Seq::<char>::empty() };
    if o.len() == 0 {
        assert(join_s(o, seq!['\n']) + suffix =~= Seq::<char>::empty());
    } else if o.len() == 1 {
        assert(join_s(o, seq!['\n']) == o[0]);
        assert(o[0] == o.last());
        if nl {
            lemma_lines_cons(o[0], Seq::<char>::empty());
            assert(o[0] + suffix =~= o[0] + seq!['\n'] + Seq::<char>::empty());
            assert(lines_s(Seq::<char>::empty()) =~= Seq::<Seq<char>>::empty());
            assert(strip_cr(o[0]) == o[0]);
            assert(seq![o[0]] + Seq::<Seq<char>>::empty() =~= o);
        } else {
            let s = o[0] + suffix;
            assert(s =~= o[0]);
            lemma_idx_of(s, '\n', 0);
            let k = idx_of(s, '\n', 0);
            if k < s.len() {
                assert(has_char(o[0], '\n'));
            }
            assert(s.subrange(0, s.len() as int) =~= s);
            assert(lines_s(s) =~= o);
        }
    } else {
        lemma_join_front(o, seq!['\n']);
        let rest = o.drop_first();
        assert(no_line_feed(rest)) by {
            assert forall|i: int| 0 <= i < rest.len() implies !has_char(#[trigger] rest[i], '\n') by {
                assert(rest[i] == o[i + 1]);
            }
        }
        assert(no_trailing_cr(rest)) by {
            assert forall|i: int| 0 <= i < rest.len() implies !((#[trigger] rest[i]).len() > 0
                && rest[i].last() == '\r') by {
                assert(rest[i] == o[i + 1]);
            }
        }
        assert(rest.last() == o.last());
        lemma_lines_of_join(rest, nl);
        let tail = join_s(rest, seq!['\n']) + suffix;
        assert(join_s(o, seq!['\n']) + suffix =~= o[0] + seq!['\n'] + tail);
        assert(!has_char(o[0], '\n'));
        lemma_lines_cons(o[0], tail);
        assert(strip_cr(o[0]) == o[0]);
        assert(seq![o[0]] + rest =~= o);
    }
}

/// The lines a text split into: every line but a last one without a final
/// line feed loses a carriage return at its end.
pub open spec fn strip_inner(o: Seq<Seq<char>>, nl: bool) -> Seq<Seq<char>> {
    Seq::new(o.len(), |x: int| if x < o.len() - 1 || nl { strip_cr(o[x]) } else { o[x] })
}

/// Lines joined by line feeds (and a final line feed or not) split back into
/// the same lines, each but an unterminated last one without a carriage return
/// at its end, when no line holds a line feed and a last line without a final
/// line feed is not empty.
pub proof fn lemma_lines_of_join_strip(o: Seq<Seq<char>>, nl: bool)
    requires
        no_line_feed(o),
        nl ==> o.len() > 0,
        !nl ==> o.len() == 0 || o.last().len() > 0,
    ensures
        lines_s(join_s(o, seq!['\n']) + (if nl { seq!['\n'] } else { Seq::<char>::empty() }))
            == strip_inner(o, nl),
    decreases o.len(),
{
    let suffix = if nl { seq!['\n'] } else { Seq::<char>::empty() };
    let w = strip_inner(o, nl);
    if o.len() == 0 {
        assert(join_s(o, seq!['\n']) + suffix =~= Seq::<char>::empty());
        assert(w =~= Seq::<Seq<char>>::empty());
    } else if o.len() == 1 {
        assert(join_s(o, seq!['\n']) == o[0]);
        assert(o[0] == o.last());
        if nl {
            lemma_lines_cons(o[0], Seq::<char>::empty());
            assert(o[0] + suffix =~= o[0] + seq!['\n'] + Seq::<char>::empty());
            assert(lines_s(Seq::<char>::empty()) =~= Seq::<Seq<char>>::empty());
            assert(w =~= seq![strip_cr(o[0])]);
            assert(seq![strip_cr(o[0])] + Seq::<Seq<char>>::empty() =~= w);
        } else {
            let s = o[0] + suffix;
            assert(s =~= o[0]);
            lemma_idx_of(s, '\n', 0);
            let k = idx_of(s, '\n', 0);
            if k < s.len() {
                assert(has_char(o[0], '\n'));
            }
            assert(s.subrange(0, s.len() as int) =~= s);
            assert(w =~= seq![o[0]]);
            assert(lines_s(s) =~= w);
        }
    } else {
        lemma_join_front(o, seq!['\n']);
        let rest = o.drop_first();
        assert(no_line_feed(rest)) by {
            assert forall|i: int| 0 <= i < rest.len() implies !has_char(#[trigger] rest[i], '\n') by {
                assert(rest[i] == o[i + 1]);
            }
        }
        assert(rest.last() == o.last());
        lemma_lines_of_join_strip(rest, nl);
        let tail = join_s(rest, seq!['\n']) + suffix;
        assert(join_s(o, seq!['\n']) + suffix =~= o[0] + seq!['\n'] + tail);
        assert(!has_char(o[0], '\n'));
        lemma_lines_cons(o[0], tail);
        let wr = strip_inner(rest, nl);
        assert forall|x: int| 0 <= x < w.len() implies #[trigger] w[x] == (seq![strip_cr(o[0])] + wr)[x] by {
            if x > 0 {
                assert(rest[x - 1] == o[x]);
                assert((seq![strip_cr(o[0])] + wr)[x] == wr[x - 1]);
            }
        }
        assert(seq![strip_cr(o[0])] + wr =~= w);
    }
}

/// The lines of a text hold no line feed.
pub proof fn lemma_lines_no_lf(s: Seq<char>, i: int)
    requires
        0 <= i <= s.len(),
    ensures
        no_line_feed(lines_from(s, i)),
    decreases s.len() - i,
{
    if i < s.len() {
        lemma_idx_of(s, '\n', i);
        let k = idx_of(s, '\n', i);
        if k < s.len() {
            lemma_lines_no_lf(s, k + 1);
            let first = strip_cr(s.subrange(i, k));
            assert(!has_char(first, '\n')) by {
                if has_char(first, '\n') {
                    let t = choose|t: int| 0 <= t < first.len() && first[t] == '\n';
                    assert(s[i + t] == '\n');
                }
            }
            let l = lines_from(s, i);
            assert forall|x: int| 0 <= x < l.len() implies !has_char(#[trigger] l[x], '\n') by {
                if x > 0 {
                    assert(l[x] == lines_from(s, k + 1)[x - 1]);
                }
            }
        } else {
            let only = s.subrange(i, s.len() as int);
            assert(!has_char(only, '\n')) by {
                if has_char(only, '\n') {
                    let t = choose|t: int| 0 <= t < only.len() && only[t] == '\n';
                    assert(s[i + t] == '\n');
                }
            }
            assert(lines_from(s, i) =~= seq![only]);
        }
    }
}

/// No carriage return stands right before a CRLF line ending (`"\r\r\n"`).
pub open spec fn no_cr_before_crlf(s: Seq<char>) -> bool {
    forall|i: int| 0 <= i < s.len() - 2 ==> !(#[trigger] s[i] == '\r' && s[i + 1] == '\r' && s[i + 2] == '\n')
}

/// The lines of a text, LF or CRLF, end with no carriage return, unless the text
/// has a carriage return right before a CRLF ending; only the last line can keep
/// one, when the text itself ends with a carriage return.
pub proof fn lemma_lines_no_trailing_cr(s: Seq<char>, i: int)
    requires
        0 <= i <= s.len(),
        no_cr_before_crlf(s),
    ensures
        forall|x: int|
            0 <= x < lines_from(s, i).len() - 1 ==> !((#[trigger] lines_from(s, i)[x]).len() > 0
                && lines_from(s, i)[x].last() == '\r'),
        !(s.len() > 0 && s.last() == '\r') ==> no_trailing_cr(lines_from(s, i)),
    decreases s.len() - i,
{
    if i < s.len() {
        lemma_idx_of(s, '\n', i);
        let k = idx_of(s, '\n', i);
        if k < s.len() {
            lemma_lines_no_trailing_cr(s, k + 1);
            let piece = s.subrange(i, k);
            let first = strip_cr(piece);
            assert(!(first.len() > 0 && first.last() == '\r')) by {
                if piece.len() > 0 && piece.last() == '\r' {
                    if first.len() > 0 && first.last() == '\r' {
                        assert(piece.last() == s[k - 1]);
                        assert(first.last() == s[k - 2]);
                        assert(s[k] == '\n');
                        assert(s[k - 2] == '\r' && s[k - 1] == '\r' && s[k] == '\n');
                    }
                } else {
                    assert(first == piece);
                    if piece.len() > 0 {
                        assert(piece.last() == s[k - 1]);
                    }
                }
            }
            let l = lines_from(s, i);
            let r = lines_from(s, k + 1);
            assert(l == seq![first] + r);
            assert forall|x: int| 0 <= x < l.len() - 1 implies !((#[trigger] l[x]).len() > 0
                && l[x].last() == '\r') by {
                if x > 0 {
                    assert(l[x] == r[x - 1]);
                }
            }
            if !(s.len() > 0 && s.last() == '\r') {
                assert forall|x: int| 0 <= x < l.len() implies !((#[trigger] l[x]).len() > 0
                    && l[x].last() == '\r') by {
                    if x > 0 {
                        assert(l[x] == r[x - 1]);
                    }
                }
            }
        } else {
            let only = s.subrange(i, s.len() as int);
            assert(lines_from(s, i) =~= seq![only]);
            if only.len() > 0 {
                assert(only.last() == s.last());
            }
        }
    }
}

/// Joining lines that hold no line feed and end in no carriage return gives a
/// text with no carriage return right before a CRLF ending, and not ending with one.
pub proof fn lemma_join_no_cr_before_crlf(p: Seq<Seq<char>>)
    requires
        no_line_feed(p),
        no_trailing_cr(p),
    ensures
        no_cr_before_crlf(join_s(p, seq!['\n'])),
        !(join_s(p, seq!['\n']).len() > 0 && join_s(p, seq!['\n']).last() == '\r'),
    decreases p.len(),
{
    let nl = seq!['\n'];
    if p.len() == 1 {
        assert(join_s(p, nl) == p[0]);
        assert(!has_char(p[0], '\n'));
        assert(!(p[0].len() > 0 && p[0].last() == '\r'));
        assert forall|t: int| 0 <= t < p[0].len() - 2 implies !(#[trigger] p[0][t] == '\r' && p[0][t + 1]
            == '\r' && p[0][t + 2] == '\n') by {
            if p[0][t + 2] == '\n' {
                assert(has_char(p[0], '\n'));
            }
        }
    } else if p.len() > 1 {
        let d = p.drop_last();
        assert forall|x: int| 0 <= x < d.len() implies !has_char(#[trigger] d[x], '\n') && !(
        d[x].len() > 0 && d[x].last() == '\r') by {
            assert(d[x] == p[x]);
        }
        lemma_join_no_cr_before_crlf(d);
        let a = join_s(d, nl);
        let l = p.last();
        assert(!has_char(l, '\n') && !(l.len() > 0 && l.last() == '\r'));
        let j = join_s(p, nl);
        assert(j == a + nl + l);
        assert forall|t: int| 0 <= t < j.len() - 2 implies !(#[trigger] j[t] == '\r' && j[t + 1] == '\r'
            && j[t + 2] == '\n') by {
            if j[t] == '\r' && j[t + 1] == '\r' && j[t + 2] == '\n' {
                if t + 2 < a.len() {
                    assert(a[t] == j[t] && a[t + 1] == j[t + 1] && a[t + 2] == j[t + 2]);
                } else if t + 2 == a.len() {
                    assert(a[a.len() - 1] == j[t + 1]);
                    assert(a.last() == '\r');
                } else if t + 2 == a.len() + 1 {
                    assert(j[t + 1] == nl[0]);
                } else {
                    assert(j[t + 2] == l[t + 2 - a.len() - 1]);
                    assert(has_char(l, '\n'));
                }
            }
        }
        if l.len() > 0 {
            assert(j.last() == l.last());
        } else {
            assert(j.last() == '\n');
        }
    }
}

/// A text that does not end with a line feed has a non-empty last line.
pub proof fn lemma_last_line(s: Seq<char>, i: int)
    requires
        0 <= i < s.len(),
        s.last() != '\n',
    ensures
        lines_from(s, i).len() > 0,
        lines_from(s, i).last().len() > 0,
    decreases s.len() - i,
{
    lemma_idx_of(s, '\n', i);
    let k = idx_of(s, '\n', i);
    if k < s.len() {
        if k + 1 < s.len() {
            lemma_last_line(s, k + 1);
            let l = lines_from(s, i);
            assert(l.last() == lines_from(s, k + 1).last());
        } else {
            assert(s[k] == '\n');
            assert(s.last() == s[k]);
        }
    } else {
        assert(lines_from(s, i) =~= seq![s.subrange(i, s.len() as int)]);
    }
}

/// `join` ends with the last part.
pub proof fn lemma_join_last(parts: Seq<Seq<char>>, sep: Seq<char>)
    requires
        parts.len() > 0,
        parts.last().len() > 0,
    ensures
        join_s(parts, sep).len() > 0,
        join_s(parts, sep).last() == parts.last().last(),
{
    if parts.len() == 1 {
        assert(join_s(parts, sep) == parts[0]);
    } else {
        let j = join_s(parts, sep);
        assert(j == join_s(parts.drop_last(), sep) + sep + parts.last());
    }
}

} // verus!
