//! What the skeleton of a new meeting note is: its lines, none of them a
//! reference, the title line first, the notice, and a minutes section that
//! holds only the hint, so that it does not count as written minutes; the
//! minutes heading stands in it once.
use vstd::prelude::*;
use crate::line_laws::{lemma_join_front, lemma_lines_cons, lemma_lines_of_join, no_line_feed, no_trailing_cr};
use crate::minutes_law::{lemma_heading_line, lemma_last_heading_at};
use crate::meeting_note::{
    hand_from, handwritten_s, meaningful_line, minutes_ready_s, non_heading_upto, ref_of, skeleton_s,
    split_minutes_s, MINUTES_HEADING,
    MINUTES_HINT, SKELETON_NOTICE, SKELETON_NOTICE_MARK,
};
use crate::text::{
    contains_s, has_char, is_ws, join_s, lemma_ws_back, lemma_ws_skip, lines_s, occurs_at,
    starts_with_s, strip_cr, trim_end_s, trim_s, trim_start_s, ws_back, ws_skip,
};

verus! {

/// The first character of a line that starts with no whitespace is the first
/// character of its trim.
proof fn lemma_trim_first(l: Seq<char>)
    requires
        l.len() > 0,
        !is_ws(l[0]),
    ensures
        trim_s(l).len() > 0,
        trim_s(l)[0] == l[0],
{
    assert(ws_skip(l, 0) == 0);
    let t = trim_start_s(l);
    assert(t =~= l);
    lemma_ws_back(t, t.len() as int);
    if ws_back(t, t.len() as int) == 0 {
        assert(is_ws(t[0]));
    }
}

/// A line starting with a character that is neither whitespace nor `/` is no reference.
proof fn lemma_not_ref(l: Seq<char>)
    requires
        l.len() > 0,
        !is_ws(l[0]),
        l[0] != '/',
    ensures
        ref_of(l) is None,
{
    reveal_strlit("/v");
    reveal_strlit("/video");
    lemma_trim_first(l);
    let t = trim_s(l);
    if starts_with_s(t, "/v"@) {
        assert(t.take(2)[0] == t[0]);
    }
    if starts_with_s(t, "/video"@) {
        assert(t.take(6)[0] == t[0]);
    }
}

/// Trimming keeps a text free of line feeds.
proof fn lemma_trim_no_lf(x: Seq<char>)
    requires
        !has_char(x, '\n'),
    ensures
        !has_char(trim_s(x), '\n'),
        trim_s(x).len() > 0 ==> !is_ws(trim_s(x).last()) && !is_ws(trim_s(x)[0]),
{
    lemma_ws_skip(x, 0);
    let a = trim_start_s(x);
    lemma_ws_back(a, a.len() as int);
    let t = trim_s(x);
    if has_char(t, '\n') {
        let i = choose|i: int| 0 <= i < t.len() && t[i] == '\n';
        assert(t[i] == a[i]);
        assert(a[i] == x[ws_skip(x, 0) + i]);
    }
    if t.len() > 0 {
        assert(t[0] == a[0]);
        assert(a[0] == x[ws_skip(x, 0)]);
        assert(t.last() == a[ws_back(a, a.len() as int) - 1]);
    }
}

/// The fixed texts of a skeleton.
proof fn lemma_skeleton_texts()
    ensures
        !has_char(SKELETON_NOTICE@, '\n'),
        SKELETON_NOTICE@.len() > 0 && SKELETON_NOTICE@.last() == '。',
        !has_char(MINUTES_HEADING@, '\n'),
        MINUTES_HEADING@.len() > 0 && MINUTES_HEADING@[0] == '#' && MINUTES_HEADING@.last() == '）',
        !has_char(MINUTES_HINT@, '\n'),
        MINUTES_HINT@.len() > 0 && MINUTES_HINT@[0] == '_' && MINUTES_HINT@.last() == '_',
        occurs_at(SKELETON_NOTICE@, SKELETON_NOTICE_MARK@, 1),
{
    reveal_strlit(" 会议记录：随手写下要点；用 `/v 音频文件名` 引用录音（录音面板会自动插入）。");
    reveal_strlit("## 会议纪要（AI 整理）");
    reveal_strlit("_（点「一键处理」后由对话模型整理生成，整段会被覆盖）_");
    reveal_strlit("会议记录：随手写下要点");
    let n = SKELETON_NOTICE@;
    let h = MINUTES_HEADING@;
    let k = MINUTES_HINT@;
    if has_char(n, '\n') {
        let i = choose|i: int| 0 <= i < n.len() && n[i] == '\n';
        assert(n[i] != '\n');
    }
    if has_char(h, '\n') {
        let i = choose|i: int| 0 <= i < h.len() && h[i] == '\n';
        assert(h[i] != '\n');
    }
    if has_char(k, '\n') {
        let i = choose|i: int| 0 <= i < k.len() && k[i] == '\n';
        assert(k[i] != '\n');
    }
    assert(n.subrange(1, 1 + SKELETON_NOTICE_MARK@.len() as int) =~= SKELETON_NOTICE_MARK@);
}

/// The lines of a skeleton: the title, a blank line, the date with the notice,
/// two blank lines, the minutes heading, a blank line and the hint.
pub open spec fn skeleton_lines(title: Seq<char>, date: Seq<char>) -> Seq<Seq<char>> {
    let e = Seq::<char>::empty();
    seq![
        "# "@ + trim_s(title),
        e,
        "> "@ + trim_s(date) + SKELETON_NOTICE@,
        e,
        e,
        MINUTES_HEADING@,
        e,
        MINUTES_HINT@,
    ]
}

proof fn lemma_no_lf_concat(a: Seq<char>, b: Seq<char>)
    requires
        !has_char(a, '\n'),
        !has_char(b, '\n'),
    ensures
        !has_char(a + b, '\n'),
{
    if has_char(a + b, '\n') {
        let i = choose|i: int| 0 <= i < (a + b).len() && (a + b)[i] == '\n';
        if i < a.len() {
            assert(a[i] == '\n');
        } else {
            assert(b[i - a.len()] == '\n');
        }
    }
}

/// A skeleton splits into its lines.
pub proof fn lemma_skeleton_lines(title: Seq<char>, date: Seq<char>)
    requires
        !has_char(title, '\n'),
        !has_char(date, '\n'),
    ensures
        lines_s(skeleton_s(title, date)) == skeleton_lines(title, date),
{
    reveal_strlit("# ");
    reveal_strlit("> ");
    reveal_strlit("\n\n> ");
    reveal_strlit("\n\n\n");
    reveal_strlit("\n\n");
    reveal_strlit("\n");
    lemma_skeleton_texts();
    lemma_trim_no_lf(title);
    lemma_trim_no_lf(date);
    let e = Seq::<char>::empty();
    let nl = seq!['\n'];
    let l0 = "# "@ + trim_s(title);
    let l2 = "> "@ + trim_s(date) + SKELETON_NOTICE@;
    let h = MINUTES_HEADING@;
    let k = MINUTES_HINT@;
    assert(!has_char("# "@, '\n')) by {
        if has_char("# "@, '\n') {
            let i = choose|i: int| 0 <= i < 2 && "# "@[i] == '\n';
        }
    }
    assert(!has_char("> "@, '\n')) by {
        if has_char("> "@, '\n') {
            let i = choose|i: int| 0 <= i < 2 && "> "@[i] == '\n';
        }
    }
    lemma_no_lf_concat("# "@, trim_s(title));
    lemma_no_lf_concat("> "@, trim_s(date));
    lemma_no_lf_concat("> "@ + trim_s(date), SKELETON_NOTICE@);
    assert(!has_char(e, '\n'));
    let r7 = k + nl + e;
    let r6 = e + nl + r7;
    let r5 = h + nl + r6;
    let r4 = e + nl + r5;
    let r3 = e + nl + r4;
    let r2 = l2 + nl + r3;
    let r1 = e + nl + r2;
    let s = skeleton_s(title, date);
    assert(s =~= l0 + nl + r1);
    lemma_lines_cons(l0, r1);
    lemma_lines_cons(e, r2);
    lemma_lines_cons(l2, r3);
    lemma_lines_cons(e, r4);
    lemma_lines_cons(e, r5);
    lemma_lines_cons(h, r6);
    lemma_lines_cons(e, r7);
    lemma_lines_cons(k, e);
    assert(lines_s(e) =~= Seq::<Seq<char>>::empty());
    assert(strip_cr(e) =~= e);
    assert(l0.last() != '\r') by {
        if trim_s(title).len() > 0 {
            assert(l0.last() == trim_s(title).last());
            assert(is_ws('\r'));
        } else {
            assert(l0.last() == ' ');
        }
    }
    assert(strip_cr(l0) == l0);
    assert(l2.last() == '。');
    assert(strip_cr(l2) == l2);
    assert(strip_cr(h) == h);
    assert(strip_cr(k) == k);
    assert(lines_s(s) =~= skeleton_lines(title, date));
}

/// A skeleton starts with its title line, carries the notice, and none of its
/// lines is a reference.
pub proof fn lemma_skeleton_shape(title: Seq<char>, date: Seq<char>)
    requires
        !has_char(title, '\n'),
        !has_char(date, '\n'),
    ensures
        starts_with_s(skeleton_s(title, date), "# "@ + trim_s(title) + "\n"@),
        contains_s(skeleton_s(title, date), SKELETON_NOTICE_MARK@),
        forall|i: int|
            0 <= i < lines_s(skeleton_s(title, date)).len() ==> ref_of(
                #[trigger] lines_s(skeleton_s(title, date))[i],
            ) is None,
{
    reveal_strlit("# ");
    reveal_strlit("> ");
    reveal_strlit("\n\n> ");
    reveal_strlit("\n");
    lemma_skeleton_texts();
    lemma_skeleton_lines(title, date);
    let s = skeleton_s(title, date);
    let p = "# "@ + trim_s(title) + "\n"@;
    assert(s.take(p.len() as int) =~= p);
    // the notice
    let pre = "# "@ + trim_s(title) + "\n\n> "@ + trim_s(date);
    let q: int = pre.len() as int + 1;
    assert(s.subrange(q, q + SKELETON_NOTICE_MARK@.len() as int) =~= SKELETON_NOTICE_MARK@) by {
        assert forall|j: int| 0 <= j < SKELETON_NOTICE_MARK@.len() implies s[q + j] == SKELETON_NOTICE_MARK@[j] by {
            assert(s[q + j] == SKELETON_NOTICE@[1 + j]);
            assert(SKELETON_NOTICE@.subrange(1, 1 + SKELETON_NOTICE_MARK@.len() as int)[j] == SKELETON_NOTICE@[1 + j]);
        }
    }
    assert(occurs_at(s, SKELETON_NOTICE_MARK@, q));
    // no reference lines
    let ls = skeleton_lines(title, date);
    assert forall|i: int| 0 <= i < ls.len() implies ref_of(#[trigger] ls[i]) is None by {
        let l = ls[i];
        if l.len() == 0 {
            assert(trim_s(l).len() == 0) by {
                assert(ws_skip(l, 0) == 0);
                assert(trim_start_s(l) =~= l);
            }
        } else {
            assert(l[0] == '#' || l[0] == '>' || l[0] == '_');
            assert(!is_ws(l[0]));
            lemma_not_ref(l);
        }
    }
}

/// A text that starts and ends with no whitespace is its own trim.
proof fn lemma_trim_self(x: Seq<char>)
    requires
        x.len() > 0,
        !is_ws(x[0]),
        !is_ws(x.last()),
    ensures
        trim_s(x) == x,
        trim_end_s(x) == x,
{
    assert(ws_skip(x, 0) == 0);
    assert(trim_start_s(x) =~= x);
    assert(ws_back(x, x.len() as int) == x.len());
    assert(x.take(x.len() as int) =~= x);
}

/// The minutes section of a skeleton holds only the hint, so it does
/// not count as written minutes.
pub proof fn lemma_skeleton_minutes(title: Seq<char>, date: Seq<char>)
    requires
        !has_char(title, '\n'),
        !has_char(date, '\n'),
    ensures
        split_minutes_s(skeleton_s(title, date)).1 == Some(MINUTES_HEADING@ + "\n\n"@ + MINUTES_HINT@),
        !minutes_ready_s(split_minutes_s(skeleton_s(title, date)).1),
{
    reveal_strlit("\n");
    reveal_strlit("\n\n");
    lemma_skeleton_texts();
    lemma_heading_line();
    lemma_skeleton_lines(title, date);
    let e = Seq::<char>::empty();
    let nl = "\n"@;
    let h = MINUTES_HEADING@;
    let k = MINUTES_HINT@;
    let ls = skeleton_lines(title, date);
    assert(trim_s(e) =~= e) by {
        assert(ws_skip(e, 0) == 0);
        assert(trim_start_s(e) =~= e);
    }
    assert(!is_ws('_') && !is_ws('#') && !is_ws('）'));
    lemma_trim_self(k);
    assert(trim_s(k) != h) by {
        assert(k[0] != h[0]);
    }
    assert forall|j: int| 5 < j < 8 implies trim_s(#[trigger] ls[j]) != h by {
        if j == 6 {
            assert(ls[j] == e);
        } else {
            assert(ls[j] == k);
        }
    }
    lemma_last_heading_at(ls, 8, 5);
    let sec = ls.skip(5);
    assert(sec =~= seq![h, e, k]);
    lemma_join_front(sec, nl);
    lemma_join_front(sec.drop_first(), nl);
    assert(sec.drop_first().drop_first() =~= seq![k]);
    let m = h + "\n\n"@ + k;
    assert(join_s(sec, nl) =~= m);
    assert(m.last() == '_');
    assert(m[0] == '#');
    lemma_trim_self(m);
    // the section read back: heading, blank line, hint
    assert(no_line_feed(sec)) by {
        assert forall|i: int| 0 <= i < sec.len() implies !has_char(#[trigger] sec[i], '\n') by {
            if i == 1 {
                assert(sec[i] == e);
            }
        }
    }
    assert(no_trailing_cr(sec)) by {
        assert forall|i: int| 0 <= i < sec.len() implies !((#[trigger] sec[i]).len() > 0 && sec[i].last() == '\r') by {
            if i == 0 {
                assert(sec[i].last() == '）');
            } else if i == 2 {
                assert(sec[i].last() == '_');
            }
        }
    }
    lemma_lines_of_join(sec, false);
    assert("\n"@ =~= seq!['\n']);
    assert(join_s(sec, seq!['\n']) + Seq::<char>::empty() =~= m);
    assert(lines_s(m) == sec);
    let kept = non_heading_upto(sec, 3);
    assert(sec[0] == h && sec[1] == e && sec[2] == k);
    assert(trim_s(sec[0]) == h);
    assert(non_heading_upto(sec, 0) =~= Seq::<Seq<char>>::empty());
    assert(non_heading_upto(sec, 1) =~= Seq::<Seq<char>>::empty());
    assert(trim_s(sec[1]) != h);
    assert(non_heading_upto(sec, 2) =~= seq![e]);
    assert(trim_s(sec[2]) != h);
    assert(kept =~= seq![e, k]);
    lemma_join_front(kept, nl);
    let body = nl + k;
    assert(join_s(kept, nl) =~= body);
    assert(is_ws('\n'));
    assert(ws_skip(body, 0) == 1) by {
        assert(body[0] == '\n');
        assert(is_ws(body[0]));
        assert(body[1] == k[0]);
        assert(!is_ws(body[1]));
        assert(ws_skip(body, 1) == 1);
    }
    assert(trim_start_s(body) =~= k);
    assert(trim_s(body) == k);
    assert(crate::text::occurs_at(k, k, 0)) by {
        assert(k.subrange(0, k.len() as int) =~= k);
    }
}

/// The hand-written text of a skeleton has no line with content: the title
/// line is a heading and the notice line is left out.
pub proof fn lemma_skeleton_not_written(title: Seq<char>, date: Seq<char>)
    requires
        !has_char(title, '\n'),
        !has_char(date, '\n'),
    ensures
        forall|i: int|
            0 <= i < lines_s(handwritten_s(skeleton_s(title, date))).len() ==> !meaningful_line(
                #[trigger] lines_s(handwritten_s(skeleton_s(title, date)))[i],
            ),
{
    reveal_strlit("\n");
    reveal_strlit("#");
    reveal_strlit("# ");
    reveal_strlit("> ");
    lemma_skeleton_texts();
    lemma_heading_line();
    lemma_skeleton_lines(title, date);
    lemma_trim_no_lf(title);
    lemma_trim_no_lf(date);
    let e = Seq::<char>::empty();
    let nl = "\n"@;
    assert(nl =~= seq!['\n']);
    let h = MINUTES_HEADING@;
    let k = MINUTES_HINT@;
    let ls = skeleton_lines(title, date);
    let l0 = ls[0];
    let l2 = ls[2];
    assert(!is_ws('_') && !is_ws('#') && !is_ws('。') && !is_ws('>') && is_ws('\n') && is_ws('\r'));
    // the minutes heading is the last heading
    assert(trim_s(e) =~= e) by {
        assert(ws_skip(e, 0) == 0);
        assert(trim_start_s(e) =~= e);
    }
    lemma_trim_self(k);
    assert(trim_s(k) != h) by {
        assert(k[0] != h[0]);
    }
    assert forall|j: int| 5 < j < 8 implies trim_s(#[trigger] ls[j]) != h by {
        if j == 6 {
            assert(ls[j] == e);
        } else {
            assert(ls[j] == k);
        }
    }
    lemma_last_heading_at(ls, 8, 5);
    // the part before it: title, blank line, notice line
    let top = ls.take(5);
    assert(top =~= seq![l0, e, l2, e, e]);
    let three = seq![l0, e, l2];
    let head_text = join_s(three, nl);
    lemma_join_front(three, nl);
    lemma_join_front(three.drop_first(), nl);
    assert(three.drop_first().drop_first() =~= seq![l2]);
    assert(head_text =~= l0 + nl + e + nl + l2);
    assert(top.drop_last().drop_last() =~= three);
    assert(join_s(top, nl) =~= head_text + nl + e + nl + e) by {
        assert(join_s(top.drop_last(), nl) == join_s(three, nl) + nl + e);
    }
    assert(head_text + nl + e + nl + e =~= head_text + seq!['\n', '\n']);
    crate::minutes_law::lemma_trim_end_blank_suffix(head_text, seq!['\n', '\n']);
    assert(l0[0] == '#');
    assert(head_text[0] == '#');
    assert(l2.last() == '。');
    assert(head_text.last() == '。');
    lemma_trim_self(head_text);
    let head = split_minutes_s(skeleton_s(title, date)).0;
    assert(head == head_text);
    // its lines
    assert(l0.last() != '\r') by {
        if trim_s(title).len() > 0 {
            assert(l0.last() == trim_s(title).last());
        } else {
            assert(l0.last() == ' ');
        }
    }
    assert(!has_char(l0, '\n') && !has_char(l2, '\n')) by {
        if has_char(l0, '\n') {
            let i = choose|i: int| 0 <= i < l0.len() && l0[i] == '\n';
            if i >= 2 {
                assert(l0[i] == trim_s(title)[i - 2]);
            }
        }
        if has_char(l2, '\n') {
            let i = choose|i: int| 0 <= i < l2.len() && l2[i] == '\n';
            let dl = ("> "@ + trim_s(date)).len();
            if 2 <= i < dl {
                assert(l2[i] == trim_s(date)[i - 2]);
            } else if i >= dl {
                assert(l2[i] == SKELETON_NOTICE@[i - dl]);
            }
        }
    }
    assert(no_line_feed(three)) by {
        assert forall|i: int| 0 <= i < three.len() implies !has_char(#[trigger] three[i], '\n') by {
            if i == 1 {
                assert(three[i] == e);
            }
        }
    }
    assert(no_trailing_cr(three)) by {
        assert forall|i: int| 0 <= i < three.len() implies !((#[trigger] three[i]).len() > 0
            && three[i].last() == '\r') by {}
    }
    lemma_lines_of_join(three, false);
    assert(join_s(three, seq!['\n']) + Seq::<char>::empty() =~= head_text);
    assert(lines_s(head) == three);
    // the notice line is left out
    assert(ref_of(l0) is None) by {
        lemma_not_ref(l0);
    }
    assert(ref_of(e) is None) by {
        assert(!starts_with_s(trim_s(e), "/v"@) && !starts_with_s(trim_s(e), "/video"@)) by {
            reveal_strlit("/v");
            reveal_strlit("/video");
        }
    }
    assert(ref_of(l2) is None) by {
        lemma_not_ref(l2);
    }
    let dl = ("> "@ + trim_s(date)).len() as int;
    assert(occurs_at(l2, SKELETON_NOTICE_MARK@, dl + 1)) by {
        assert forall|j: int| 0 <= j < SKELETON_NOTICE_MARK@.len() implies l2.subrange(
            dl + 1,
            dl + 1 + SKELETON_NOTICE_MARK@.len() as int,
        )[j] == SKELETON_NOTICE_MARK@[j] by {
            assert(l2[dl + 1 + j] == SKELETON_NOTICE@[1 + j]);
            assert(SKELETON_NOTICE@.subrange(1, 1 + SKELETON_NOTICE_MARK@.len() as int)[j]
                == SKELETON_NOTICE@[1 + j]);
        }
        assert(l2.subrange(dl + 1, dl + 1 + SKELETON_NOTICE_MARK@.len() as int)
            =~= SKELETON_NOTICE_MARK@);
    }
    assert(contains_s(l2, SKELETON_NOTICE_MARK@));
    assert(!contains_s(e, SKELETON_NOTICE_MARK@)) by {
        reveal_strlit("会议记录：随手写下要点");
        if contains_s(e, SKELETON_NOTICE_MARK@) {
            let q = choose|q: int| occurs_at(e, SKELETON_NOTICE_MARK@, q);
        }
    }
    let hand = hand_from(three, 0);
    assert(hand_from(three, 3) =~= Seq::<Seq<char>>::empty());
    assert(hand_from(three, 2) =~= Seq::<Seq<char>>::empty());
    assert(hand_from(three, 1) =~= seq![e]);
    let hw = handwritten_s(skeleton_s(title, date));
    assert(hw == trim_s(join_s(hand, nl)));
    lemma_trim_first(l0);
    let r = trim_s(l0);
    if contains_s(l0, SKELETON_NOTICE_MARK@) {
        assert(hand =~= seq![e]);
        assert(join_s(hand, nl) == e);
        assert(hw =~= e);
        assert(lines_s(hw) =~= Seq::<Seq<char>>::empty());
    } else {
        assert(hand =~= seq![l0, e]);
        lemma_join_front(hand, nl);
        assert(join_s(hand, nl) =~= l0 + nl);
        // trimming the title line with its line feed trims the title line
        assert(ws_skip(l0 + nl, 0) == 0);
        assert(trim_start_s(l0 + nl) =~= l0 + nl);
        assert(ws_skip(l0, 0) == 0);
        assert(trim_start_s(l0) =~= l0);
        crate::minutes_law::lemma_trim_end_blank_suffix(l0, nl);
        assert(hw == r);
        lemma_trim_no_lf(l0);
        lemma_trim_self(r);
        assert(r[0] == '#');
        assert(starts_with_s(r, "#"@)) by {
            assert(r.take(1) =~= "#"@);
        }
        lemma_lines_of_join(seq![r], false);
        assert(join_s(seq![r], seq!['\n']) + Seq::<char>::empty() =~= r);
        assert(lines_s(hw) == seq![r]);
        assert(!meaningful_line(r));
    }
}

/// The skeleton holds the minutes heading as a line once: its sixth line is
/// the heading and no other line trims to it, whatever the title and date.
pub proof fn lemma_skeleton_heading_once(title: Seq<char>, date: Seq<char>)
    requires
        !has_char(title, '\n'),
        !has_char(date, '\n'),
    ensures
        forall|i: int|
            0 <= i < lines_s(skeleton_s(title, date)).len() ==> (trim_s(
                #[trigger] lines_s(skeleton_s(title, date))[i],
            ) == MINUTES_HEADING@ <==> i == 5),
{
    reveal_strlit("# ");
    reveal_strlit("> ");
    reveal_strlit("## 会议纪要（AI 整理）");
    lemma_skeleton_texts();
    lemma_heading_line();
    lemma_skeleton_lines(title, date);
    let ls = lines_s(skeleton_s(title, date));
    let h = MINUTES_HEADING@;
    assert(h.len() > 2 && h[0] == '#' && h[1] == '#');
    assert forall|i: int| 0 <= i < ls.len() implies (trim_s(#[trigger] ls[i]) == h <==> i == 5) by {
        let l = ls[i];
        if i == 0 {
            let t = trim_s(l);
            assert(l[0] == '#' && l[1] == ' ');
            assert(ws_skip(l, 0) == 0);
            assert(trim_start_s(l) =~= l);
            lemma_ws_back(l, l.len() as int);
            if t == h {
                assert(t[1] == l[1]);
            }
        } else if i == 2 {
            assert(l[0] == '>');
            lemma_trim_first(l);
        } else if i == 7 {
            lemma_trim_first(l);
        } else if i != 5 {
            assert(l.len() == 0);
            assert(trim_s(l).len() == 0);
        }
    }
}

/// An occurrence of `p` in `s` at `i`: the characters of `s` from `i` on are those of `p`.
pub proof fn lemma_occurs_chars(s: Seq<char>, p: Seq<char>, i: int)
    requires
        occurs_at(s, p, i),
    ensures
        forall|j: int| 0 <= j < p.len() ==> #[trigger] s[i + j] == p[j],
{
    assert forall|j: int| 0 <= j < p.len() implies #[trigger] s[i + j] == p[j] by {
        assert(s.subrange(i, i + p.len())[j] == s[i + j]);
    }
}

/// Characters that agree with `p` from `i` on make an occurrence.
pub proof fn lemma_chars_occur(s: Seq<char>, p: Seq<char>, i: int)
    requires
        0 <= i,
        i + p.len() <= s.len(),
        forall|j: int| 0 <= j < p.len() ==> #[trigger] s[i + j] == p[j],
    ensures
        occurs_at(s, p, i),
{
    assert forall|j: int| 0 <= j < p.len() implies s.subrange(i, i + p.len())[j] == p[j] by {
        assert(s[i + j] == p[j]);
    }
    assert(s.subrange(i, i + p.len()) =~= p);
}

/// An occurrence in the trimmed text is one in the text.
pub proof fn lemma_occurs_in_trim(x: Seq<char>, p: Seq<char>, q: int)
    requires
        occurs_at(trim_s(x), p, q),
    ensures
        contains_s(x, p),
{
    lemma_ws_skip(x, 0);
    let a = trim_start_s(x);
    let k = ws_skip(x, 0);
    lemma_ws_back(a, a.len() as int);
    let t = trim_s(x);
    lemma_occurs_chars(t, p, q);
    assert forall|j: int| 0 <= j < p.len() implies #[trigger] x[k + q + j] == p[j] by {
        assert(t[q + j] == p[j]);
        assert(t[q + j] == a[q + j]);
        assert(a[q + j] == x[k + q + j]);
    }
    lemma_chars_occur(x, p, k + q);
}

/// The minutes heading appears in a skeleton once, as its own line, when
/// neither the title nor the date holds it.
pub proof fn lemma_skeleton_heading_count(title: Seq<char>, date: Seq<char>)
    requires
        !has_char(title, '\n'),
        !has_char(date, '\n'),
        !contains_s(title, MINUTES_HEADING@),
        !contains_s(date, MINUTES_HEADING@),
    ensures
        occurs_at(
            skeleton_s(title, date),
            MINUTES_HEADING@,
            ("# "@ + trim_s(title) + "\n\n> "@ + trim_s(date) + SKELETON_NOTICE@ + "\n\n\n"@).len() as int,
        ),
        forall|i: int|
            #[trigger] occurs_at(skeleton_s(title, date), MINUTES_HEADING@, i) ==> i == ("# "@ + trim_s(title)
                + "\n\n> "@ + trim_s(date) + SKELETON_NOTICE@ + "\n\n\n"@).len(),
{
    reveal_strlit("# ");
    reveal_strlit("\n\n> ");
    reveal_strlit("\n\n\n");
    reveal_strlit("\n\n");
    reveal_strlit("\n");
    reveal_strlit(" 会议记录：随手写下要点；用 `/v 音频文件名` 引用录音（录音面板会自动插入）。");
    reveal_strlit("## 会议纪要（AI 整理）");
    reveal_strlit("_（点「一键处理」后由对话模型整理生成，整段会被覆盖）_");
    let t = trim_s(title);
    let d = trim_s(date);
    let n = SKELETON_NOTICE@;
    let h = MINUTES_HEADING@;
    let k = MINUTES_HINT@;
    let s = skeleton_s(title, date);
    let x = "# "@ + t;
    let lx = x.len() as int;
    let ld = d.len() as int;
    let ln = n.len() as int;
    let e1 = lx + 4 + ld + ln;
    let pos = e1 + 3;
    let lh = h.len() as int;
    assert(lh == 14);
    assert(s == x + "\n\n> "@ + d + n + "\n\n\n"@ + h + "\n\n"@ + k + "\n"@);
    assert(s.len() == pos + 14 + 2 + k.len() + 1);
    assert(pos == ("# "@ + t + "\n\n> "@ + d + n + "\n\n\n"@).len());
    // where each piece stands
    assert forall|j: int| 0 <= j < lx implies #[trigger] s[j] == x[j] by {}
    assert(s[lx] == '\n' && s[lx + 1] == '\n' && s[lx + 2] == '>' && s[lx + 3] == ' ');
    assert forall|j: int| 0 <= j < ld implies #[trigger] s[lx + 4 + j] == d[j] by {}
    assert forall|j: int| 0 <= j < ln implies #[trigger] s[lx + 4 + ld + j] == n[j] by {}
    assert(s[e1] == '\n' && s[e1 + 1] == '\n' && s[e1 + 2] == '\n');
    assert forall|j: int| 0 <= j < lh implies #[trigger] s[pos + j] == h[j] by {}
    assert(s[pos + 14] == '\n' && s[pos + 15] == '\n');
    assert forall|j: int| 0 <= j < k.len() implies #[trigger] s[pos + 16 + j] == k[j] by {}
    assert(s[s.len() - 1] == '\n');
    assert forall|j: int| 0 <= j < ln implies #[trigger] n[j] != '#' by {}
    assert forall|j: int| 0 <= j < k.len() implies #[trigger] k[j] != '#' by {}
    assert forall|j: int| 0 <= j < lh implies #[trigger] h[j] != '\n' by {}
    lemma_chars_occur(s, h, pos);
    assert forall|i: int| #[trigger] occurs_at(s, h, i) implies i == pos by {
        lemma_occurs_chars(s, h, i);
        assert(s[i] == h[0] && h[0] == '#');
        if i < lx {
            if i + 14 > lx {
                assert(s[i + (lx - i)] == h[lx - i]);
            } else if i == 0 {
                assert(s[1] == h[1]);
                assert(x[1] == ' ');
            } else if i == 1 {
                assert(x[1] == ' ');
            } else {
                assert forall|j: int| 0 <= j < lh implies #[trigger] t[i - 2 + j] == h[j] by {
                    assert(s[i + j] == h[j]);
                    assert(s[i + j] == x[i + j]);
                }
                lemma_chars_occur(t, h, i - 2);
                lemma_occurs_in_trim(title, h, i - 2);
            }
        } else if i < lx + 4 {
            assert(s[i] != '#');
        } else if i < e1 {
            if i + 14 > e1 {
                assert(s[i + (e1 - i)] == h[e1 - i]);
            } else if i + 14 <= lx + 4 + ld {
                assert forall|j: int| 0 <= j < lh implies #[trigger] d[i - lx - 4 + j] == h[j] by {
                    assert(s[i + j] == h[j]);
                    assert(s[lx + 4 + (i - lx - 4 + j)] == d[i - lx - 4 + j]);
                }
                lemma_chars_occur(d, h, i - lx - 4);
                lemma_occurs_in_trim(date, h, i - lx - 4);
            } else if i >= lx + 4 + ld {
                assert(s[lx + 4 + ld + (i - lx - 4 - ld)] == n[i - lx - 4 - ld]);
            } else {
                let c = lx + 4 + ld - i;
                assert(s[i + c] == h[c]);
                assert(s[lx + 4 + ld + 0] == n[0]);
                assert(s[i + c + 1] == h[c + 1]);
                assert(s[lx + 4 + ld + 1] == n[1]);
                assert(s[i + c + 2] == h[c + 2]);
                assert(s[lx + 4 + ld + 2] == n[2]);
                if c + 3 < 14 {
                    assert(s[i + c + 3] == h[c + 3]);
                    assert(s[lx + 4 + ld + 3] == n[3]);
                }
            }
        } else if i < pos {
            assert(s[i] == '\n');
        } else if i > pos {
            if i < pos + 16 {
                assert(s[i + (pos + 14 - i)] == h[pos + 14 - i]);
            } else if i < pos + 16 + k.len() {
                assert(s[pos + 16 + (i - pos - 16)] == k[i - pos - 16]);
            } else {
                assert(i == s.len() - 1);
            }
        }
    }
}

} // verus!
