//! What every rendering of minutes looks like: the title line first, one final
//! line feed, the decisions section marked empty when there are none, the table
//! header when there are action items, and the two optional sections when they
//! have items and, unless a field of the minutes holds their heading, only then.
use vstd::prelude::*;
use crate::line_laws::lemma_join_front;
use crate::text::blank;
use crate::minutes::{
    action_row, actions_s, bullets_s, decisions_s, escape_bars, head_s, none_mark, numbered_s,
    optional_s, or_dash, overview_s, render_lines_s, render_markdown_s, topic_block, topics_s,
    topics_upto, ActionItem, Minutes, Topic,
};
use crate::skeleton_law::{lemma_chars_occur, lemma_occurs_chars, lemma_occurs_in_trim};
use crate::minutes_law::lemma_trim_end_idem;
use crate::text::{
    contains_s, dec_s, has_char, is_digit, is_ws, join_s, lemma_ws_back, occurs_at, starts_with_s,
    str_views, trim_end_s, trim_s, ws_back,
};

verus! {

/// Lines joined by line feeds: the join of a sequence made of two non-empty parts.
proof fn lemma_join_append(a: Seq<Seq<char>>, b: Seq<Seq<char>>)
    requires
        a.len() > 0,
        b.len() > 0,
    ensures
        join_s(a + b, "\n"@) == join_s(a, "\n"@) + "\n"@ + join_s(b, "\n"@),
    decreases b.len(),
{
    if b.len() == 1 {
        assert((a + b).drop_last() =~= a);
        assert(join_s(b, "\n"@) == b[0]);
    } else {
        lemma_join_append(a, b.drop_last());
        assert((a + b).drop_last() =~= a + b.drop_last());
        assert((a + b).last() == b.last());
    }
}

/// Trimming the end keeps everything up to a character that is not whitespace.
proof fn lemma_trim_end_keeps(x: Seq<char>, r: int)
    requires
        0 <= r < x.len(),
        !is_ws(x[r]),
    ensures
        trim_end_s(x).len() > r,
        trim_end_s(x).len() <= x.len(),
        trim_end_s(x) == x.take(trim_end_s(x).len() as int),
        forall|i: int| 0 <= i < trim_end_s(x).len() ==> #[trigger] trim_end_s(x)[i] == x[i],
{
    lemma_ws_back(x, x.len() as int);
}

/// A line of the rendering that is followed, two lines on, by a line starting
/// with a character that is not whitespace, survives the trimming.
proof fn lemma_kept(x: Seq<char>, p: Seq<char>, q: int, r: int)
    requires
        occurs_at(x, p, q),
        q + p.len() <= r < x.len(),
        !is_ws(x[r]),
    ensures
        contains_s(trim_end_s(x), p),
{
    lemma_trim_end_keeps(x, r);
    let t = trim_end_s(x);
    assert forall|k: int| 0 <= k < p.len() implies #[trigger] t.subrange(q, q + p.len())[k] == p[k] by {
        assert(x.take(t.len() as int)[q + k] == x[q + k]);
        assert(t[q + k] == x[q + k]);
        assert(x.subrange(q, q + p.len())[k] == x[q + k]);
    }
    assert(t.subrange(q, q + p.len()) =~= p);
    assert(occurs_at(t, p, q));
}

/// The trimmed text kept with a final line feed: what `render_markdown_s` gives.
proof fn lemma_out_prefix(x: Seq<char>, pat: Seq<char>, q: int, r: int)
    requires
        occurs_at(x, pat, q),
        q + pat.len() <= r < x.len(),
        !is_ws(x[r]),
    ensures
        contains_s(trim_end_s(x).push('\n'), pat),
{
    lemma_trim_end_keeps(x, r);
    let te = trim_end_s(x);
    let out = te.push('\n');
    assert forall|k: int| 0 <= k < pat.len() implies #[trigger] out.subrange(q, q + pat.len())[k] == pat[k] by {
        assert(out[q + k] == te[q + k]);
        assert(x.take(te.len() as int)[q + k] == x[q + k]);
        assert(te[q + k] == x[q + k]);
        assert(x.subrange(q, q + pat.len())[k] == x[q + k]);
    }
    assert(out.subrange(q, q + pat.len()) =~= pat);
    assert(occurs_at(out, pat, q));
}

/// The rendering starts with the title line and ends with exactly one line feed.
pub proof fn lemma_render_ends(m: Minutes)
    ensures
        starts_with_s(render_markdown_s(m), "# "@ + trim_s(m.title@) + "\n"@),
        render_markdown_s(m).last() == '\n',
        render_markdown_s(m).len() >= 2 && render_markdown_s(m)[render_markdown_s(m).len() - 2] != '\n',
{
    reveal_strlit("\n");
    reveal_strlit("## 一、会议摘要");
    let nl = "\n"@;
    let h = head_s(m);
    let q1 = overview_s(m) + topics_s(m) + decisions_s(m) + actions_s(m) + optional_s(
        "## 五、风险与遗留问题"@,
        str_views(m.risks@),
    ) + optional_s("## 六、下一步计划"@, str_views(m.next_steps@));
    let l = render_lines_s(m);
    let x = join_s(l, nl);
    let out = render_markdown_s(m);
    assert(l =~= h + q1);
    assert(h.len() >= 2);
    lemma_join_append(h, q1);
    lemma_join_front(h, nl);
    lemma_join_front(q1, nl);
    let p = "# "@ + trim_s(m.title@) + nl;
    let jh = join_s(h, nl);
    assert(x == jh + nl + join_s(q1, nl));
    assert(q1[0] == "## 一、会议摘要"@);
    let r0: int = jh.len() as int + 1;
    assert(x[r0] == '#');
    lemma_trim_end_keeps(x, r0);
    let te = trim_end_s(x);
    assert(out == te.push('\n'));
    assert(x.take(p.len() as int) =~= p);
    assert forall|k: int| 0 <= k < p.len() implies #[trigger] out.take(p.len() as int)[k] == p[k] by {
        assert(out[k] == te[k]);
        assert(x.take(te.len() as int)[k] == x[k]);
        assert(te[k] == x[k]);
        assert(x.take(p.len() as int)[k] == x[k]);
    }
    assert(out.take(p.len() as int) =~= p);
    lemma_trim_end_idem(x);
    assert(out[out.len() - 2] == te.last());
}

/// With no decisions, the decisions section says `（无）`.
pub proof fn lemma_render_no_decisions(m: Minutes)
    requires
        m.decisions@.len() == 0,
    ensures
        contains_s(render_markdown_s(m), "## 三、决议事项\n\n（无）"@),
{
    reveal_strlit("\n");
    reveal_strlit("## 三、决议事项");
    reveal_strlit("## 四、待办事项");
    reveal_strlit("## 三、决议事项\n\n（无）");
    reveal_strlit("（无）");
    let nl = "\n"@;
    let a = actions_s(m);
    let r5 = optional_s("## 五、风险与遗留问题"@, str_views(m.risks@));
    let r6 = optional_s("## 六、下一步计划"@, str_views(m.next_steps@));
    let l = render_lines_s(m);
    let x = join_s(l, nl);
    let before_d = head_s(m) + overview_s(m) + topics_s(m);
    let e = Seq::<char>::empty();
    let d3 = seq!["## 三、决议事项"@, e, "（无）"@];
    let a1 = a + r5 + r6;
    let tail = seq![e] + a1;
    assert(l =~= before_d + (d3 + tail));
    lemma_join_append(before_d, d3 + tail);
    lemma_join_append(d3, tail);
    lemma_join_front(d3, nl);
    lemma_join_front(d3.drop_first(), nl);
    assert(d3.drop_first().drop_first() =~= seq!["（无）"@]);
    let pat = "## 三、决议事项\n\n（无）"@;
    assert(join_s(d3, nl) =~= pat);
    lemma_join_front(tail, nl);
    assert(tail.drop_first() =~= a1);
    lemma_join_front(a1, nl);
    assert(a1[0] == "## 四、待办事项"@);
    let xd0 = join_s(before_d, nl);
    let q: int = xd0.len() as int + 1;
    assert(x =~= xd0 + nl + (pat + nl + (e + nl + join_s(a1, nl))));
    assert(x.subrange(q, q + pat.len()) =~= pat);
    let r: int = q + pat.len() + 2;
    assert(x[r] == '#');
    lemma_out_prefix(x, pat, q, r);
}

/// With action items, their table header is there.
pub proof fn lemma_render_action_table(m: Minutes)
    requires
        m.action_items@.len() > 0,
    ensures
        contains_s(render_markdown_s(m), "| 序号 | 待办事项 | 责任人 | 期限 |"@),
{
    reveal_strlit("\n");
    reveal_strlit("## 四、待办事项");
    reveal_strlit("| 序号 | 待办事项 | 责任人 | 期限 |");
    reveal_strlit("| --- | --- | --- | --- |");
    let nl = "\n"@;
    let a = actions_s(m);
    let r5 = optional_s("## 五、风险与遗留问题"@, str_views(m.risks@));
    let r6 = optional_s("## 六、下一步计划"@, str_views(m.next_steps@));
    let l = render_lines_s(m);
    let x = join_s(l, nl);
    let before_a = head_s(m) + overview_s(m) + topics_s(m) + decisions_s(m);
    let a2 = seq!["## 四、待办事项"@, Seq::<char>::empty()];
    let rows = a.skip(2);
    assert(a =~= a2 + rows);
    let rest_a = rows + r5 + r6;
    assert(l =~= (before_a + a2) + rest_a);
    lemma_join_append(before_a + a2, rest_a);
    let xa0 = join_s(before_a + a2, nl);
    lemma_join_front(rest_a, nl);
    let pat = "| 序号 | 待办事项 | 责任人 | 期限 |"@;
    assert(rest_a[0] == pat);
    lemma_join_front(rest_a.drop_first(), nl);
    assert(rest_a.drop_first()[0] == "| --- | --- | --- | --- |"@);
    let q: int = xa0.len() as int + 1;
    assert(x =~= xa0 + nl + (pat + nl + join_s(rest_a.drop_first(), nl)));
    assert(x.subrange(q, q + pat.len()) =~= pat);
    let r: int = q + pat.len() + 1;
    assert(x[r] == '|');
    lemma_out_prefix(x, pat, q, r);
}

/// An optional section with items: its heading is followed by a blank line and
/// a bullet, so it stays in the rendering.
proof fn lemma_optional_kept(before: Seq<Seq<char>>, rest: Seq<Seq<char>>, heading: Seq<char>)
    requires
        before.len() > 0,
        rest.len() >= 3,
        rest[0] == heading,
        rest[1] == Seq::<char>::empty(),
        rest[2].len() > 0 && rest[2][0] == '-',
    ensures
        contains_s(trim_end_s(join_s(before + rest, "\n"@)).push('\n'), heading),
{
    reveal_strlit("\n");
    let nl = "\n"@;
    let e = Seq::<char>::empty();
    lemma_join_append(before, rest);
    lemma_join_front(rest, nl);
    lemma_join_front(rest.drop_first(), nl);
    let r2 = rest.drop_first().drop_first();
    if r2.len() >= 2 {
        lemma_join_front(r2, nl);
    } else {
        assert(join_s(r2, nl) == r2[0]);
    }
    assert(r2[0] == rest[2]);
    let x = join_s(before + rest, nl);
    let xb = join_s(before, nl);
    let q: int = xb.len() as int + 1;
    assert(x =~= xb + nl + (heading + nl + (e + nl + join_s(r2, nl))));
    assert(x.subrange(q, q + heading.len()) =~= heading);
    let r: int = q + heading.len() + 2;
    assert(x[r] == '-');
    lemma_out_prefix(x, heading, q, r);
}

/// Each optional section is there when it has items.
pub proof fn lemma_render_optional(m: Minutes)
    ensures
        m.risks@.len() > 0 ==> contains_s(render_markdown_s(m), "## 五、风险与遗留问题"@),
        m.next_steps@.len() > 0 ==> contains_s(render_markdown_s(m), "## 六、下一步计划"@),
{
    let r5 = optional_s("## 五、风险与遗留问题"@, str_views(m.risks@));
    let r6 = optional_s("## 六、下一步计划"@, str_views(m.next_steps@));
    let l = render_lines_s(m);
    let b5 = head_s(m) + overview_s(m) + topics_s(m) + decisions_s(m) + actions_s(m);
    reveal_strlit("- ");
    if m.risks@.len() > 0 {
        assert(l =~= b5 + (r5 + r6));
        let rr = r5 + r6;
        assert(rr[0] == r5[0] && rr[1] == r5[1] && rr[2] == r5[2]);
        assert(r5[2] == "- "@ + trim_s(str_views(m.risks@)[0]));
        assert(r5[2][0] == '-');
        lemma_optional_kept(b5, rr, "## 五、风险与遗留问题"@);
    }
    if m.next_steps@.len() > 0 {
        assert(l =~= (b5 + r5) + r6);
        assert(r6[2] == "- "@ + trim_s(str_views(m.next_steps@)[0]));
        assert(r6[2][0] == '-');
        lemma_optional_kept(b5 + r5, r6, "## 六、下一步计划"@);
    }
}

/// The rendering of any minutes starts with the title line and ends with one
/// line feed; with no decisions the decisions section says `（无）`; with action
/// items their table header is there; each optional section is there when it
/// has items.
pub proof fn lemma_render_shape(m: Minutes)
    ensures
        starts_with_s(render_markdown_s(m), "# "@ + trim_s(m.title@) + "\n"@),
        render_markdown_s(m).last() == '\n',
        render_markdown_s(m).len() >= 2 && render_markdown_s(m)[render_markdown_s(m).len() - 2] != '\n',
        m.decisions@.len() == 0 ==> contains_s(render_markdown_s(m), "## 三、决议事项\n\n（无）"@),
        m.action_items@.len() > 0 ==> contains_s(render_markdown_s(m), "| 序号 | 待办事项 | 责任人 | 期限 |"@),
        m.risks@.len() > 0 ==> contains_s(render_markdown_s(m), "## 五、风险与遗留问题"@),
        m.next_steps@.len() > 0 ==> contains_s(render_markdown_s(m), "## 六、下一步计划"@),
{
    lemma_render_ends(m);
    if m.decisions@.len() == 0 {
        lemma_render_no_decisions(m);
    }
    if m.action_items@.len() > 0 {
        lemma_render_action_table(m);
    }
    lemma_render_optional(m);
}

// ---------------------------------------------------------------- sections present only with items

/// No line of `ls` is `h`.
pub open spec fn free_of(ls: Seq<Seq<char>>, h: Seq<char>) -> bool {
    forall|i: int| 0 <= i < ls.len() ==> #[trigger] ls[i] != h
}

proof fn lemma_free_concat(a: Seq<Seq<char>>, b: Seq<Seq<char>>, h: Seq<char>)
    requires
        free_of(a, h),
        free_of(b, h),
    ensures
        free_of(a + b, h),
{
    assert forall|i: int| 0 <= i < (a + b).len() implies #[trigger] (a + b)[i] != h by {
        if i < a.len() {
            assert((a + b)[i] == a[i]);
        } else {
            assert((a + b)[i] == b[i - a.len()]);
        }
    }
}

/// The first characters of an optional section's heading.
pub open spec fn heading_like(h: Seq<char>) -> bool {
    h.len() > 3 && h[0] == '#' && h[1] == '#' && h[2] == ' '
}

proof fn lemma_dec_first(n: nat)
    ensures
        dec_s(n).len() > 0,
        dec_s(n)[0] != '#',
    decreases n,
{
    if n >= 10 {
        lemma_dec_first(n / 10);
        assert(dec_s(n)[0] == dec_s(n / 10)[0]);
    }
}

proof fn lemma_bullets_free(items: Seq<Seq<char>>, h: Seq<char>)
    requires
        heading_like(h),
    ensures
        free_of(bullets_s(items), h),
{
    reveal_strlit("- ");
    assert forall|i: int| 0 <= i < bullets_s(items).len() implies #[trigger] bullets_s(items)[i] != h by {
        assert(bullets_s(items)[i][0] == '-');
    }
}

proof fn lemma_topics_free(ts: Seq<Topic>, n: int, h: Seq<char>)
    requires
        heading_like(h),
    ensures
        free_of(topics_upto(ts, n), h),
    decreases n,
{
    if 0 < n <= ts.len() {
        lemma_topics_free(ts, n - 1, h);
        let t = ts[n - 1];
        reveal_strlit("### ");
        let first = "### "@ + dec_s(n as nat) + ". "@ + trim_s(t.title@);
        assert(first[2] == '#');
        let b = topic_block(n - 1, t);
        lemma_bullets_free(str_views(t.points@), h);
        let e = Seq::<char>::empty();
        assert(seq![first, e] + bullets_s(str_views(t.points@)) + seq![e] =~= b);
        lemma_free_concat(seq![first, e], bullets_s(str_views(t.points@)), h);
        lemma_free_concat(seq![first, e] + bullets_s(str_views(t.points@)), seq![e], h);
        lemma_free_concat(topics_upto(ts, n - 1), topic_block(n - 1, t), h);
    }
}

/// Lines from the title to the action items are none of the two optional
/// headings, but for an overview that is one of them.
proof fn lemma_fixed_free(m: Minutes, h: Seq<char>)
    requires
        h == "## 五、风险与遗留问题"@ || h == "## 六、下一步计划"@,
        trim_s(m.overview@) != h,
    ensures
        heading_like(h),
        free_of(head_s(m) + overview_s(m) + topics_s(m) + decisions_s(m) + actions_s(m), h),
{
    reveal_strlit("## 五、风险与遗留问题");
    reveal_strlit("## 六、下一步计划");
    reveal_strlit("# ");
    reveal_strlit("**日期**：");
    reveal_strlit("**参会人**：");
    reveal_strlit("## 一、会议摘要");
    reveal_strlit("（无）");
    reveal_strlit("## 二、议题与讨论");
    reveal_strlit("## 三、决议事项");
    reveal_strlit("## 四、待办事项");
    reveal_strlit("| 序号 | 待办事项 | 责任人 | 期限 |");
    reveal_strlit("| --- | --- | --- | --- |");
    reveal_strlit("| ");
    reveal_strlit(". ");
    let e = Seq::<char>::empty();
    assert(heading_like(h));
    // the title and the meta lines
    let hd = head_s(m);
    assert forall|i: int| 0 <= i < hd.len() implies #[trigger] hd[i] != h by {
        let l = hd[i];
        if l.len() > 1 && l[0] == '#' {
            assert(l[1] == ' ');
        }
    }
    let ov = overview_s(m);
    assert forall|i: int| 0 <= i < ov.len() implies #[trigger] ov[i] != h by {
        if i == 0 {
            assert(ov[0][3] != h[3]);
        }
    }
    let tp = topics_s(m);
    lemma_topics_free(m.topics@, m.topics@.len() as int, h);
    let t0 = seq!["## 二、议题与讨论"@, e];
    assert(t0[0][3] != h[3]);
    if m.topics@.len() == 0 {
        lemma_free_concat(t0, seq![none_mark(), e], h);
    } else {
        lemma_free_concat(t0, topics_upto(m.topics@, m.topics@.len() as int), h);
    }
    let dc = decisions_s(m);
    assert forall|i: int| 0 <= i < dc.len() implies #[trigger] dc[i] != h by {
        if i == 0 {
            assert(dc[0][3] != h[3]);
        } else if 2 <= i < dc.len() - 1 && m.decisions@.len() > 0 {
            let k = i - 2;
            lemma_dec_first((k + 1) as nat);
            assert(dc[i] == numbered_s(str_views(m.decisions@))[k]);
            assert(dc[i][0] == dec_s((k + 1) as nat)[0]);
        }
    }
    let ac = actions_s(m);
    assert forall|i: int| 0 <= i < ac.len() implies #[trigger] ac[i] != h by {
        if i == 0 {
            assert(ac[0][3] != h[3]);
        } else if 2 <= i < ac.len() - 1 && m.action_items@.len() > 0 {
            if i >= 4 {
                let k = i - 4;
                assert(ac[i] == action_row(k, m.action_items@[k]));
                assert(ac[i][0] == '|');
            } else {
                assert(ac[i][0] == '|');
            }
        }
    }
    lemma_free_concat(hd, ov, h);
    lemma_free_concat(hd + ov, tp, h);
    lemma_free_concat(hd + ov + tp, dc, h);
    lemma_free_concat(hd + ov + tp + dc, ac, h);
}

/// The risk section heading is a line of the rendering exactly when there are
/// risks, and the next-step heading exactly when there are next steps (but for
/// an overview that is the heading itself).
pub proof fn lemma_render_optional_absent(m: Minutes)
    ensures
        render_lines_s(m).contains("## 五、风险与遗留问题"@) <==> (m.risks@.len() > 0 || trim_s(m.overview@)
            == "## 五、风险与遗留问题"@),
        render_lines_s(m).contains("## 六、下一步计划"@) <==> (m.next_steps@.len() > 0 || trim_s(m.overview@)
            == "## 六、下一步计划"@),
{
    reveal_strlit("## 五、风险与遗留问题");
    reveal_strlit("## 六、下一步计划");
    let h5 = "## 五、风险与遗留问题"@;
    let h6 = "## 六、下一步计划"@;
    let e = Seq::<char>::empty();
    let pre = head_s(m) + overview_s(m) + topics_s(m) + decisions_s(m) + actions_s(m);
    let r5 = optional_s(h5, str_views(m.risks@));
    let r6 = optional_s(h6, str_views(m.next_steps@));
    let l = render_lines_s(m);
    assert(l == pre + r5 + r6);
    // where the overview line stands
    let hl: int = head_s(m).len() as int;
    assert(l[hl + 2] == trim_s(m.overview@) || trim_s(m.overview@).len() == 0) by {
        assert(pre[hl + 2] == overview_s(m)[2]);
    }
    assert(h5[3] != h6[3]);
    // the risk heading
    if m.risks@.len() > 0 {
        assert(l[pre.len() as int] == h5);
    } else if trim_s(m.overview@) == h5 {
        assert(l[hl + 2] == h5);
    } else {
        lemma_fixed_free(m, h5);
        lemma_bullets_free(str_views(m.next_steps@), h5);
        assert(free_of(r6, h5)) by {
            if m.next_steps@.len() > 0 {
                lemma_free_concat(seq![h6, e], bullets_s(str_views(m.next_steps@)), h5);
                lemma_free_concat(seq![h6, e] + bullets_s(str_views(m.next_steps@)), seq![e], h5);
            }
        }
        assert(r5 =~= Seq::<Seq<char>>::empty());
        lemma_free_concat(pre + r5, r6, h5);
        assert(!l.contains(h5));
    }
    // the next-step heading
    if m.next_steps@.len() > 0 {
        assert(l[(pre.len() + r5.len()) as int] == h6);
    } else if trim_s(m.overview@) == h6 {
        assert(l[hl + 2] == h6);
    } else {
        lemma_fixed_free(m, h6);
        lemma_bullets_free(str_views(m.risks@), h6);
        assert(free_of(r5, h6)) by {
            if m.risks@.len() > 0 {
                lemma_free_concat(seq![h5, e], bullets_s(str_views(m.risks@)), h6);
                lemma_free_concat(seq![h5, e] + bullets_s(str_views(m.risks@)), seq![e], h6);
            }
        }
        assert(r6 =~= Seq::<Seq<char>>::empty());
        lemma_free_concat(pre, r5, h6);
        lemma_free_concat(pre + r5, r6, h6);
        assert(!l.contains(h6));
    }
}

// ---------------------------------------------------------------- the optional headings in the text

/// No character of `s` is `#`.
pub open spec fn no_hash(s: Seq<char>) -> bool {
    forall|j: int| 0 <= j < s.len() ==> #[trigger] s[j] != '#'
}

/// What the two optional headings have in common: `## ` and a character that
/// is no digit first, neither a line feed nor a `|` in them, no space last.
pub open spec fn heading_text(h: Seq<char>) -> bool {
    &&& h.len() >= 4
    &&& h[0] == '#' && h[1] == '#' && h[2] == ' ' && !is_digit(h[3])
    &&& !has_char(h, '\n')
    &&& !has_char(h, '|')
    &&& h.last() != ' '
}

/// No field of the minutes, as it is written into the rendering, holds `h`:
/// the title, the date, the participants joined by `、`, the overview, topic
/// titles and points, decisions, action tasks (bars escaped), owners and due
/// dates, risks and next steps.
pub open spec fn text_free(m: Minutes, h: Seq<char>) -> bool {
    &&& !contains_s(m.title@, h)
    &&& (m.meeting_date matches Some(d) ==> !contains_s(d@, h))
    &&& !contains_s(join_s(str_views(m.participants@), "、"@), h)
    &&& !contains_s(m.overview@, h)
    &&& forall|i: int|
        0 <= i < m.topics@.len() ==> !contains_s((#[trigger] m.topics@[i]).title@, h) && forall|j: int|
            0 <= j < str_views(m.topics@[i].points@).len() ==> !contains_s(
                #[trigger] str_views(m.topics@[i].points@)[j],
                h,
            )
    &&& forall|i: int| 0 <= i < m.decisions@.len() ==> !contains_s(#[trigger] str_views(m.decisions@)[i], h)
    &&& forall|i: int|
        0 <= i < m.action_items@.len() ==> !contains_s(escape_bars((#[trigger] m.action_items@[i]).task@), h)
            && !contains_s(or_dash(m.action_items@[i].owner), h) && !contains_s(
            or_dash(m.action_items@[i].due),
            h,
        )
    &&& forall|i: int| 0 <= i < m.risks@.len() ==> !contains_s(#[trigger] str_views(m.risks@)[i], h)
    &&& forall|i: int| 0 <= i < m.next_steps@.len() ==> !contains_s(#[trigger] str_views(m.next_steps@)[i], h)
}

/// No line of `ls` holds `h`.
pub open spec fn clean_of(ls: Seq<Seq<char>>, h: Seq<char>) -> bool {
    forall|i: int| 0 <= i < ls.len() ==> !contains_s(#[trigger] ls[i], h)
}

proof fn lemma_clean_concat(a: Seq<Seq<char>>, b: Seq<Seq<char>>, h: Seq<char>)
    requires
        clean_of(a, h),
        clean_of(b, h),
    ensures
        clean_of(a + b, h),
{
    assert forall|i: int| 0 <= i < (a + b).len() implies !contains_s(#[trigger] (a + b)[i], h) by {
        if i < a.len() {
            assert((a + b)[i] == a[i]);
        } else {
            assert((a + b)[i] == b[i - a.len()]);
        }
    }
}

proof fn lemma_no_hash_free(s: Seq<char>, h: Seq<char>)
    requires
        no_hash(s),
        h.len() > 0,
        h[0] == '#',
    ensures
        !contains_s(s, h),
{
    if contains_s(s, h) {
        let i = choose|i: int| #[trigger] occurs_at(s, h, i);
        lemma_occurs_chars(s, h, i);
        assert(s[i + 0] == h[0]);
    }
}

/// Past a head with no `#`, the heading can only stand in what follows.
proof fn lemma_after_plain(pre: Seq<char>, f: Seq<char>, h: Seq<char>)
    requires
        no_hash(pre),
        h.len() > 0,
        h[0] == '#',
        contains_s(pre + f, h),
    ensures
        contains_s(f, h),
{
    let s = pre + f;
    let i = choose|i: int| #[trigger] occurs_at(s, h, i);
    lemma_occurs_chars(s, h, i);
    assert(s[i + 0] == h[0]);
    if i < pre.len() {
        assert(s[i] == pre[i]);
    } else {
        assert forall|j: int| 0 <= j < h.len() implies #[trigger] f[i - pre.len() + j] == h[j] by {
            assert(s[i + j] == h[j]);
        }
        lemma_chars_occur(f, h, i - pre.len());
    }
}

proof fn lemma_dec_plain(n: nat)
    ensures
        no_hash(dec_s(n)),
        dec_s(n).len() > 0 && is_digit(dec_s(n)[0]),
{
    crate::audio_clip::lemma_dec_digits(n);
    assert forall|j: int| 0 <= j < dec_s(n).len() implies #[trigger] dec_s(n)[j] != '#' by {
        assert(is_digit(dec_s(n)[j]));
    }
}

/// A field between a head with no `#` and ` |`: the heading lies in the field
/// or after it.
proof fn lemma_cell(pre: Seq<char>, f: Seq<char>, post: Seq<char>, h: Seq<char>, i: int)
    requires
        no_hash(pre),
        heading_text(h),
        post.len() >= 2 && post[0] == ' ' && post[1] == '|',
        occurs_at(pre + f + post, h, i),
    ensures
        contains_s(f, h) || (i >= pre.len() + f.len() && occurs_at(post, h, i - pre.len() - f.len())),
{
    let s = pre + f + post;
    let b: int = pre.len() as int + f.len();
    lemma_occurs_chars(s, h, i);
    assert(s[i + 0] == h[0]);
    if i < pre.len() {
        assert(s[i] == pre[i]);
    } else if i < b {
        if i + h.len() <= b {
            assert forall|j: int| 0 <= j < h.len() implies #[trigger] f[i - pre.len() + j] == h[j] by {
                assert(s[i + j] == h[j]);
            }
            lemma_chars_occur(f, h, i - pre.len());
        } else if i + h.len() == b + 1 {
            assert(s[i + (h.len() - 1)] == h[h.len() - 1]);
            assert(s[b] == post[0]);
        } else {
            assert(s[i + (b + 1 - i)] == h[b + 1 - i]);
            assert(s[b + 1] == post[1]);
            assert(has_char(h, '|'));
        }
    } else {
        assert forall|j: int| 0 <= j < h.len() implies #[trigger] post[i - b + j] == h[j] by {
            assert(s[i + j] == h[j]);
        }
        lemma_chars_occur(post, h, i - b);
    }
}

/// A table row holds the heading only in its task, owner or due date.
proof fn lemma_row(k: int, a: ActionItem, h: Seq<char>)
    requires
        heading_text(h),
        k >= 0,
        contains_s(action_row(k, a), h),
    ensures
        contains_s(trim_s(escape_bars(a.task@)), h) || contains_s(trim_s(or_dash(a.owner)), h) || contains_s(
            trim_s(or_dash(a.due)),
            h,
        ),
{
    reveal_strlit("| ");
    reveal_strlit(" | ");
    reveal_strlit(" |");
    lemma_dec_plain((k + 1) as nat);
    let t = trim_s(escape_bars(a.task@));
    let o = trim_s(or_dash(a.owner));
    let d = trim_s(or_dash(a.due));
    let bar = " | "@;
    let pre1 = "| "@ + dec_s((k + 1) as nat) + bar;
    assert(no_hash(pre1)) by {
        assert forall|j: int| 0 <= j < pre1.len() implies #[trigger] pre1[j] != '#' by {
            if 2 <= j < 2 + dec_s((k + 1) as nat).len() {
                assert(pre1[j] == dec_s((k + 1) as nat)[j - 2]);
            }
        }
    }
    assert(no_hash(bar));
    let post3 = " |"@;
    let post2 = bar + d + post3;
    let post1 = bar + o + post2;
    let row = action_row(k, a);
    assert(row =~= pre1 + t + post1);
    assert(post1 =~= bar + o + (bar + d + post3));
    if !contains_s(t, h) && !contains_s(o, h) && !contains_s(d, h) {
        let i = choose|i: int| #[trigger] occurs_at(row, h, i);
        lemma_cell(pre1, t, post1, h, i);
        let i2 = i - pre1.len() - t.len();
        lemma_cell(bar, o, post2, h, i2);
        let i3 = i2 - bar.len() - o.len();
        lemma_cell(bar, d, post3, h, i3);
        let i4 = i3 - bar.len() - d.len();
        lemma_occurs_chars(post3, h, i4);
        assert(post3[i4 + 0] == h[0]);
    }
}

/// The heading found in lines joined by line feeds is found in one of them.
proof fn lemma_join_occurs(ls: Seq<Seq<char>>, h: Seq<char>)
    requires
        h.len() > 0,
        !has_char(h, '\n'),
        contains_s(join_s(ls, seq!['\n']), h),
    ensures
        exists|i: int| 0 <= i < ls.len() && contains_s(#[trigger] ls[i], h),
    decreases ls.len(),
{
    let j = join_s(ls, seq!['\n']);
    let i = choose|i: int| #[trigger] occurs_at(j, h, i);
    lemma_occurs_chars(j, h, i);
    if ls.len() == 0 {
        assert(j.len() == 0);
    } else if ls.len() == 1 {
        assert(j == ls[0]);
        assert(occurs_at(ls[0], h, i));
        assert(contains_s(ls[0], h));
    } else {
        let d = ls.drop_last();
        let a = join_s(d, seq!['\n']);
        let l = ls.last();
        assert(j == a + seq!['\n'] + l);
        if i + h.len() <= a.len() {
            assert forall|t: int| 0 <= t < h.len() implies #[trigger] a[i + t] == h[t] by {
                assert(j[i + t] == h[t]);
            }
            lemma_chars_occur(a, h, i);
            lemma_join_occurs(d, h);
            let x = choose|x: int| 0 <= x < d.len() && contains_s(#[trigger] d[x], h);
            assert(ls[x] == d[x]);
        } else if i <= a.len() {
            assert(j[i + (a.len() - i)] == h[a.len() - i]);
            assert(j[a.len() as int] == '\n');
        } else {
            assert forall|t: int| 0 <= t < h.len() implies #[trigger] l[i - a.len() - 1 + t] == h[t] by {
                assert(j[i + t] == h[t]);
            }
            lemma_chars_occur(l, h, i - a.len() - 1);
            assert(ls[ls.len() - 1] == l);
        }
    }
}

/// A field written trimmed holds the heading only when the field does.
proof fn lemma_trim_free(x: Seq<char>, h: Seq<char>)
    requires
        !contains_s(x, h),
    ensures
        !contains_s(trim_s(x), h),
{
    if contains_s(trim_s(x), h) {
        let q = choose|q: int| #[trigger] occurs_at(trim_s(x), h, q);
        lemma_occurs_in_trim(x, h, q);
    }
}

proof fn lemma_bullets_clean(items: Seq<Seq<char>>, h: Seq<char>)
    requires
        heading_text(h),
        forall|i: int| 0 <= i < items.len() ==> !contains_s(#[trigger] items[i], h),
    ensures
        clean_of(bullets_s(items), h),
{
    reveal_strlit("- ");
    assert(no_hash("- "@));
    assert forall|i: int| 0 <= i < bullets_s(items).len() implies !contains_s(#[trigger] bullets_s(items)[i], h) by {
        lemma_trim_free(items[i], h);
        if contains_s(bullets_s(items)[i], h) {
            lemma_after_plain("- "@, trim_s(items[i]), h);
        }
    }
}

/// A fixed line shorter than the heading, or as long but with another fourth
/// character, does not hold it.
proof fn lemma_short_free(s: Seq<char>, h: Seq<char>)
    requires
        s.len() < h.len() || (s.len() == h.len() && h.len() > 3 && s[3] != h[3]),
    ensures
        !contains_s(s, h),
{
    if contains_s(s, h) {
        let i = choose|i: int| #[trigger] occurs_at(s, h, i);
        lemma_occurs_chars(s, h, i);
        assert(i == 0);
        assert(s[0int + 3] == h[3]);
    }
}

proof fn lemma_topics_clean(ts: Seq<Topic>, n: int, h: Seq<char>)
    requires
        heading_text(h),
        n <= ts.len(),
        forall|i: int|
            0 <= i < ts.len() ==> !contains_s((#[trigger] ts[i]).title@, h) && forall|j: int|
                0 <= j < str_views(ts[i].points@).len() ==> !contains_s(#[trigger] str_views(ts[i].points@)[j], h),
    ensures
        clean_of(topics_upto(ts, n), h),
    decreases n,
{
    if 0 < n {
        lemma_topics_clean(ts, n - 1, h);
        let t = ts[n - 1];
        reveal_strlit("### ");
        reveal_strlit(". ");
        reveal_strlit(" ");
        let dn = dec_s(n as nat);
        lemma_dec_plain(n as nat);
        let tt = trim_s(t.title@);
        let first = "### "@ + dn + ". "@ + tt;
        lemma_trim_free(t.title@, h);
        assert(!contains_s(first, h)) by {
            if contains_s(first, h) {
                let i = choose|i: int| #[trigger] occurs_at(first, h, i);
                lemma_occurs_chars(first, h, i);
                assert(first[i + 0] == h[0]);
                if i == 0 {
                    assert(first[0int + 2] == h[2]);
                } else if i == 1 {
                    assert(first[1int + 3] == h[3]);
                    assert(first[4] == dn[0]);
                } else if i == 2 || i == 3 {
                    assert(first[3] == ' ');
                    assert(first[2int + 1] == h[1]);
                } else {
                    let rest = " "@ + dn + ". "@;
                    assert(no_hash(rest)) by {
                        assert forall|j: int| 0 <= j < rest.len() implies #[trigger] rest[j] != '#' by {
                            if 1 <= j < 1 + dn.len() {
                                assert(rest[j] == dn[j - 1]);
                            }
                        }
                    }
                    reveal_strlit("###");
                    assert(first =~= "###"@ + (rest + tt));
                    assert forall|j: int| 0 <= j < h.len() implies #[trigger] (rest + tt)[i - 3 + j] == h[j] by {
                        assert(first[i + j] == h[j]);
                    }
                    lemma_chars_occur(rest + tt, h, i - 3);
                    lemma_after_plain(rest, tt, h);
                }
            }
        }
        let e = Seq::<char>::empty();
        lemma_bullets_clean(str_views(t.points@), h);
        assert(clean_of(seq![first, e], h)) by {
            lemma_short_free(e, h);
        }
        assert(clean_of(seq![e], h)) by {
            lemma_short_free(e, h);
        }
        lemma_clean_concat(seq![first, e], bullets_s(str_views(t.points@)), h);
        lemma_clean_concat(seq![first, e] + bullets_s(str_views(t.points@)), seq![e], h);
        assert(seq![first, e] + bullets_s(str_views(t.points@)) + seq![e] =~= topic_block(n - 1, t));
        lemma_clean_concat(topics_upto(ts, n - 1), topic_block(n - 1, t), h);
    }
}

proof fn lemma_title_line(tt: Seq<char>, h: Seq<char>)
    requires
        heading_text(h),
        contains_s("# "@ + tt, h),
    ensures
        contains_s(tt, h),
{
    reveal_strlit("# ");
    let s = "# "@ + tt;
    let i = choose|i: int| #[trigger] occurs_at(s, h, i);
    lemma_occurs_chars(s, h, i);
    if i == 0 {
        assert(s[0int + 1] == h[1]);
    } else if i == 1 {
        assert(s[1int + 0] == h[0]);
    } else {
        assert forall|j: int| 0 <= j < h.len() implies #[trigger] tt[i - 2 + j] == h[j] by {
            assert(s[i + j] == h[j]);
        }
        lemma_chars_occur(tt, h, i - 2);
    }
}

proof fn lemma_head_clean(m: Minutes, h: Seq<char>)
    requires
        heading_text(h),
        text_free(m, h),
    ensures
        clean_of(head_s(m), h),
{
    reveal_strlit("**日期**：");
    reveal_strlit("**参会人**：");
    let e = Seq::<char>::empty();
    let hd = head_s(m);
    lemma_trim_free(m.title@, h);
    assert forall|i: int| 0 <= i < hd.len() implies !contains_s(#[trigger] hd[i], h) by {
        if i == 0 {
            if contains_s(hd[0], h) {
                lemma_title_line(trim_s(m.title@), h);
            }
        } else if hd[i].len() > 0 {
            let l = hd[i];
            match m.meeting_date {
                Some(d) => {
                    if trim_s(d@).len() > 0 && i == 2 {
                        lemma_trim_free(d@, h);
                        assert(no_hash("**日期**："@));
                        if contains_s(l, h) {
                            lemma_after_plain("**日期**："@, trim_s(d@), h);
                        }
                    } else {
                        assert(no_hash("**参会人**："@));
                        if contains_s(l, h) {
                            lemma_after_plain("**参会人**："@, join_s(str_views(m.participants@), "、"@), h);
                        }
                    }
                },
                None => {
                    assert(no_hash("**参会人**："@));
                    if contains_s(l, h) {
                        lemma_after_plain("**参会人**："@, join_s(str_views(m.participants@), "、"@), h);
                    }
                },
            }
        }
    }
}

proof fn lemma_body_clean(m: Minutes, h: Seq<char>)
    requires
        heading_text(h),
        h == "## 五、风险与遗留问题"@ || h == "## 六、下一步计划"@,
        text_free(m, h),
    ensures
        clean_of(overview_s(m) + topics_s(m) + decisions_s(m) + actions_s(m), h),
{
    reveal_strlit("## 五、风险与遗留问题");
    reveal_strlit("## 六、下一步计划");
    reveal_strlit("## 一、会议摘要");
    reveal_strlit("## 二、议题与讨论");
    reveal_strlit("## 三、决议事项");
    reveal_strlit("## 四、待办事项");
    reveal_strlit("（无）");
    reveal_strlit("| 序号 | 待办事项 | 责任人 | 期限 |");
    reveal_strlit("| --- | --- | --- | --- |");
    reveal_strlit(". ");
    let e = Seq::<char>::empty();
    let ov = overview_s(m);
    lemma_trim_free(m.overview@, h);
    assert forall|i: int| 0 <= i < ov.len() implies !contains_s(#[trigger] ov[i], h) by {}
    let tp = topics_s(m);
    lemma_topics_clean(m.topics@, m.topics@.len() as int, h);
    let t0 = seq!["## 二、议题与讨论"@, e];
    lemma_short_free("## 二、议题与讨论"@, h);
    lemma_short_free(e, h);
    assert(clean_of(t0, h));
    if m.topics@.len() == 0 {
        assert(clean_of(seq![none_mark(), e], h));
        lemma_clean_concat(t0, seq![none_mark(), e], h);
    } else {
        lemma_clean_concat(t0, topics_upto(m.topics@, m.topics@.len() as int), h);
    }
    let dc = decisions_s(m);
    assert forall|i: int| 0 <= i < dc.len() implies !contains_s(#[trigger] dc[i], h) by {
        if 2 <= i < dc.len() - 1 && m.decisions@.len() > 0 {
            let k = i - 2;
            let item = str_views(m.decisions@)[k];
            lemma_trim_free(item, h);
            lemma_dec_plain((k + 1) as nat);
            let pre = dec_s((k + 1) as nat) + ". "@;
            assert(no_hash(pre)) by {
                assert forall|j: int| 0 <= j < pre.len() implies #[trigger] pre[j] != '#' by {
                    if j < dec_s((k + 1) as nat).len() {
                        assert(pre[j] == dec_s((k + 1) as nat)[j]);
                    }
                }
            }
            assert(dc[i] == numbered_s(str_views(m.decisions@))[k]);
            if contains_s(dc[i], h) {
                lemma_after_plain(pre, trim_s(item), h);
            }
        }
    }
    let ac = actions_s(m);
    assert forall|i: int| 0 <= i < ac.len() implies !contains_s(#[trigger] ac[i], h) by {
        if 2 <= i < ac.len() - 1 && m.action_items@.len() > 0 {
            if i >= 4 {
                let k = i - 4;
                let a = m.action_items@[k];
                assert(ac[i] == action_row(k, a));
                lemma_trim_free(escape_bars(a.task@), h);
                lemma_trim_free(or_dash(a.owner), h);
                lemma_trim_free(or_dash(a.due), h);
                if contains_s(ac[i], h) {
                    lemma_row(k, a, h);
                }
            } else {
                let l = ac[i];
                assert(no_hash(l));
                lemma_no_hash_free(l, h);
            }
        }
    }
    lemma_clean_concat(ov, tp, h);
    lemma_clean_concat(ov + tp, dc, h);
    lemma_clean_concat(ov + tp + dc, ac, h);
}

/// Where the heading is not among the lines of a rendering, it is not in its text.
proof fn lemma_text_of_clean(m: Minutes, h: Seq<char>)
    requires
        heading_text(h),
        clean_of(render_lines_s(m), h),
    ensures
        !contains_s(render_markdown_s(m), h),
{
    reveal_strlit("\n");
    let l = render_lines_s(m);
    let j = join_s(l, "\n"@);
    assert("\n"@ =~= seq!['\n']);
    lemma_ws_back(j, j.len() as int);
    let w = ws_back(j, j.len() as int);
    let t = trim_end_s(j);
    let r = render_markdown_s(m);
    assert(r == t.push('\n'));
    if contains_s(r, h) {
        let i = choose|i: int| #[trigger] occurs_at(r, h, i);
        lemma_occurs_chars(r, h, i);
        if i + h.len() <= t.len() {
            assert forall|k: int| 0 <= k < h.len() implies #[trigger] j[i + k] == h[k] by {
                assert(r[i + k] == h[k]);
                assert(r[i + k] == t[i + k]);
            }
            lemma_chars_occur(j, h, i);
            lemma_join_occurs(l, h);
        } else {
            assert(r[i + (t.len() - i)] == h[t.len() - i]);
            assert(r[t.len() as int] == '\n');
        }
    }
}

/// The risk section heading stands in the rendered minutes when there are
/// risks, and, when no field of the minutes holds it, only then; the same for
/// the next-step heading and the next steps.
pub proof fn lemma_render_optional_text(m: Minutes)
    ensures
        m.risks@.len() > 0 ==> contains_s(render_markdown_s(m), "## 五、风险与遗留问题"@),
        text_free(m, "## 五、风险与遗留问题"@) && contains_s(render_markdown_s(m), "## 五、风险与遗留问题"@)
            ==> m.risks@.len() > 0,
        m.next_steps@.len() > 0 ==> contains_s(render_markdown_s(m), "## 六、下一步计划"@),
        text_free(m, "## 六、下一步计划"@) && contains_s(render_markdown_s(m), "## 六、下一步计划"@)
            ==> m.next_steps@.len() > 0,
{
    reveal_strlit("## 五、风险与遗留问题");
    reveal_strlit("## 六、下一步计划");
    lemma_render_optional(m);
    let h5 = "## 五、风险与遗留问题"@;
    let h6 = "## 六、下一步计划"@;
    let e = Seq::<char>::empty();
    assert(heading_text(h5)) by {
        if has_char(h5, '\n') || has_char(h5, '|') {
            let j = choose|j: int| 0 <= j < h5.len() && (h5[j] == '\n' || h5[j] == '|');
        }
    }
    assert(heading_text(h6)) by {
        if has_char(h6, '\n') || has_char(h6, '|') {
            let j = choose|j: int| 0 <= j < h6.len() && (h6[j] == '\n' || h6[j] == '|');
        }
    }
    assert(!contains_s(h5, h6)) by {
        if contains_s(h5, h6) {
            let i = choose|i: int| #[trigger] occurs_at(h5, h6, i);
            lemma_occurs_chars(h5, h6, i);
            assert(h5[i + 0] == h6[0]);
            assert(h5[i + 1] == h6[1]);
            assert(h5[i + 3] == h6[3]);
        }
    }
    let pre = head_s(m) + overview_s(m) + topics_s(m) + decisions_s(m) + actions_s(m);
    let r5 = optional_s(h5, str_views(m.risks@));
    let r6 = optional_s(h6, str_views(m.next_steps@));
    assert(render_lines_s(m) == pre + r5 + r6);
    if m.risks@.len() == 0 && text_free(m, h5) {
        lemma_head_clean(m, h5);
        lemma_body_clean(m, h5);
        assert(pre =~= head_s(m) + (overview_s(m) + topics_s(m) + decisions_s(m) + actions_s(m)));
        lemma_clean_concat(head_s(m), overview_s(m) + topics_s(m) + decisions_s(m) + actions_s(m), h5);
        assert(r5 =~= Seq::<Seq<char>>::empty());
        assert(clean_of(r6, h5)) by {
            if m.next_steps@.len() > 0 {
                lemma_bullets_clean(str_views(m.next_steps@), h5);
                lemma_short_free(h6, h5);
                assert(clean_of(seq![h6, e], h5));
                assert(clean_of(seq![e], h5));
                lemma_clean_concat(seq![h6, e], bullets_s(str_views(m.next_steps@)), h5);
                lemma_clean_concat(seq![h6, e] + bullets_s(str_views(m.next_steps@)), seq![e], h5);
            }
        }
        lemma_clean_concat(pre, r5, h5);
        lemma_clean_concat(pre + r5, r6, h5);
        lemma_text_of_clean(m, h5);
    }
    if m.next_steps@.len() == 0 && text_free(m, h6) {
        lemma_head_clean(m, h6);
        lemma_body_clean(m, h6);
        lemma_clean_concat(head_s(m), overview_s(m) + topics_s(m) + decisions_s(m) + actions_s(m), h6);
        assert(pre =~= head_s(m) + (overview_s(m) + topics_s(m) + decisions_s(m) + actions_s(m)));
        assert(r6 =~= Seq::<Seq<char>>::empty());
        assert(clean_of(r5, h6)) by {
            if m.risks@.len() > 0 {
                lemma_bullets_clean(str_views(m.risks@), h6);
                assert(clean_of(seq![h5, e], h6));
                assert(clean_of(seq![e], h6));
                lemma_clean_concat(seq![h5, e], bullets_s(str_views(m.risks@)), h6);
                lemma_clean_concat(seq![h5, e] + bullets_s(str_views(m.risks@)), seq![e], h6);
            }
        }
        lemma_clean_concat(pre, r5, h6);
        lemma_clean_concat(pre + r5, r6, h6);
        lemma_text_of_clean(m, h6);
    }
}

/// With a meeting date that is not blank, the rendered minutes hold the date
/// line `**日期**：` and the trimmed date, as a line of its own.
#[verifier::rlimit(80)]
pub proof fn lemma_render_date_line(m: Minutes)
    ensures
        (match m.meeting_date {
            Some(d) => trim_s(d@).len() > 0 ==> contains_s(
                render_markdown_s(m),
                "\n"@ + "**日期**："@ + trim_s(d@) + "\n"@,
            ),
            None => true,
        }),
        (match m.meeting_date {
            Some(d) => trim_s(d@).len() > 0 ==> starts_with_s(
                render_markdown_s(m),
                "# "@ + trim_s(m.title@) + "\n"@ + "\n"@ + "**日期**："@ + trim_s(d@) + "\n"@,
            ),
            None => true,
        }),
{
    match m.meeting_date {
        Some(d) => {
            if trim_s(d@).len() > 0 {
                reveal_strlit("\n");
                reveal_strlit("## 一、会议摘要");
                let nl = seq!['\n'];
                assert("\n"@ =~= nl);
                let dl = "**日期**："@ + trim_s(d@);
                let l = render_lines_s(m);
                let hd = head_s(m);
                assert(hd[2] == dl);
                assert(l[0] == hd[0] && l[1] == hd[1] && l[2] == dl);
                let l1 = l.drop_first();
                let l2 = l1.drop_first();
                let l3 = l2.drop_first();
                assert(l.len() >= hd.len() + 4);
                lemma_join_front(l, nl);
                lemma_join_front(l1, nl);
                lemma_join_front(l2, nl);
                let j = join_s(l, nl);
                let j3 = join_s(l3, nl);
                assert(j == l[0] + nl + (l1[0] + nl + (l2[0] + nl + j3)));
                assert(l1[0] == l[1] && l2[0] == l[2]);
                let q: int = l[0].len() as int + 1;
                let target = nl + dl + nl;
                assert(l[1].len() == 0);
                assert forall|k: int| 0 <= k < target.len() implies #[trigger] j[q + k] == target[k] by {
                    if k == 0 {
                        assert(j[q] == nl[0]);
                    } else if k <= dl.len() {
                        assert(j[q + k] == dl[k - 1]);
                    } else {
                        assert(j[q + k] == nl[0]);
                    }
                }
                // a non-blank line follows, so trimming the end keeps the date line
                let x: int = hd.len() - 3;
                assert(l3[x] == l[hd.len() as int]);
                assert(l[hd.len() as int] == "## 一、会议摘要"@);
                assert(!blank(l3[x])) by {
                    assert(!is_ws(l3[x][0]));
                }
                crate::chunk_law::lemma_join_not_blank(l3, nl, x);
                let p = choose|p: int| 0 <= p < j3.len() && !is_ws(#[trigger] j3[p]);
                let base: int = q + target.len();
                assert(j.len() == base + j3.len());
                assert(j[base + p] == j3[p]);
                lemma_ws_back(j, j.len() as int);
                let w = ws_back(j, j.len() as int);
                assert(base + p < w);
                let r = render_markdown_s(m);
                assert forall|k: int| 0 <= k < target.len() implies #[trigger] r[q + k] == target[k] by {
                    assert(r[q + k] == j[q + k]);
                }
                lemma_chars_occur(r, target, q);
                assert(target =~= "\n"@ + "**日期**："@ + trim_s(d@) + "\n"@);
                // the title line comes first, so the text opens with it and the date line
                let opening = l[0] + nl + target;
                assert(l[0] == "# "@ + trim_s(m.title@));
                assert(j =~= opening + j3);
                assert forall|k: int| 0 <= k < opening.len() implies #[trigger] r[k] == opening[k] by {
                    assert(j[k] == opening[k]);
                    assert(r[k] == j[k]);
                }
                assert(r.take(opening.len() as int) =~= opening);
                assert(opening =~= "# "@ + trim_s(m.title@) + "\n"@ + "\n"@ + "**日期**："@ + trim_s(d@) + "\n"@);
            }
        },
        None => {},
    }
}

/// A line of the rendering holds a text that ends in no whitespace: the
/// rendered minutes hold it.
proof fn lemma_in_render(m: Minutes, idx: int, x: Seq<char>)
    requires
        0 <= idx < render_lines_s(m).len(),
        contains_s(render_lines_s(m)[idx], x),
        x.len() > 0,
        !is_ws(x.last()),
    ensures
        contains_s(render_markdown_s(m), x),
{
    reveal_strlit("\n");
    let l = render_lines_s(m);
    let nl = seq!['\n'];
    assert("\n"@ =~= nl);
    let j = join_s(l, nl);
    crate::meeting_note::lemma_join_holds_part(l, nl, idx);
    crate::meeting_note::lemma_contains_trans(j, l[idx], x);
    let i = choose|i: int| #[trigger] occurs_at(j, x, i);
    lemma_occurs_chars(j, x, i);
    lemma_ws_back(j, j.len() as int);
    let w = ws_back(j, j.len() as int);
    assert(j[i + (x.len() - 1)] == x[x.len() - 1]);
    assert(i + x.len() - 1 < w);
    let r = render_markdown_s(m);
    assert forall|k: int| 0 <= k < x.len() implies #[trigger] r[i + k] == x[k] by {
        assert(r[i + k] == j[i + k]);
        assert(j[i + k] == x[k]);
    }
    lemma_chars_occur(r, x, i);
}

/// A text holds itself.
proof fn lemma_holds_self(x: Seq<char>)
    ensures
        contains_s(x, x),
{
    assert(x.subrange(0, x.len() as int) =~= x);
    assert(occurs_at(x, x, 0));
}

/// A trimmed text that is not empty ends in no whitespace.
proof fn lemma_trim_last(x: Seq<char>)
    ensures
        trim_s(x).len() > 0 ==> !is_ws(trim_s(x).last()),
{
    crate::text::lemma_ws_skip(x, 0);
    let a = crate::text::trim_start_s(x);
    lemma_ws_back(a, a.len() as int);
    if trim_s(x).len() > 0 {
        assert(trim_s(x).last() == a[ws_back(a, a.len() as int) - 1]);
    }
}

/// The lines of a rendering around one of its parts.
proof fn lemma_render_split(m: Minutes)
    ensures
        render_lines_s(m) == head_s(m) + overview_s(m) + topics_s(m) + decisions_s(m) + actions_s(m)
            + optional_s("## 五、风险与遗留问题"@, str_views(m.risks@)) + optional_s(
            "## 六、下一步计划"@,
            str_views(m.next_steps@),
        ),
{
}

/// The overview, when not blank, is in the rendered minutes.
pub proof fn lemma_render_overview(m: Minutes)
    ensures
        trim_s(m.overview@).len() > 0 ==> contains_s(render_markdown_s(m), trim_s(m.overview@)),
{
    lemma_render_split(m);
    lemma_trim_last(m.overview@);
    if trim_s(m.overview@).len() > 0 {
        let l = render_lines_s(m);
        let a0: int = head_s(m).len() as int;
        let rest = topics_s(m) + decisions_s(m) + actions_s(m) + optional_s(
            "## 五、风险与遗留问题"@,
            str_views(m.risks@),
        ) + optional_s("## 六、下一步计划"@, str_views(m.next_steps@));
        assert(l =~= head_s(m) + overview_s(m) + rest);
        assert(l[a0 + 2] == overview_s(m)[2]);
        lemma_holds_self(trim_s(m.overview@));
        lemma_in_render(m, a0 + 2, trim_s(m.overview@));
    }
}

/// The participants line is in the rendered minutes.
#[verifier::rlimit(40)]
pub proof fn lemma_render_participants(m: Minutes)
    ensures
        m.participants@.len() > 0 && join_s(str_views(m.participants@), "、"@).len() > 0 && !is_ws(
            join_s(str_views(m.participants@), "、"@).last(),
        ) ==> contains_s(render_markdown_s(m), "**参会人**："@ + join_s(str_views(m.participants@), "、"@)),
{
    reveal_strlit("**参会人**：");
    lemma_render_split(m);
    let pj = join_s(str_views(m.participants@), "、"@);
    if m.participants@.len() > 0 && pj.len() > 0 && !is_ws(pj.last()) {
        let hd = head_s(m);
        let l = render_lines_s(m);
        let pl = "**参会人**："@ + pj;
        let x: int = hd.len() - 2;
        assert(hd[x] == pl);
        assert(l[x] == hd[x]);
        lemma_holds_self(pl);
        assert(pl.last() == pj.last());
        lemma_in_render(m, x, pl);
    }
}

/// Every decision that is not blank is in the rendered minutes with its number.
#[verifier::rlimit(40)]
pub proof fn lemma_render_decisions(m: Minutes)
    ensures
        forall|k: int|
            0 <= k < m.decisions@.len() && trim_s(#[trigger] str_views(m.decisions@)[k]).len() > 0
                ==> contains_s(render_markdown_s(m), dec_s((k + 1) as nat) + ". "@ + trim_s(str_views(m.decisions@)[k])),
{
    reveal_strlit(". ");
    lemma_render_split(m);
    let l = render_lines_s(m);
    let pre = head_s(m) + overview_s(m) + topics_s(m);
    let dc = decisions_s(m);
    let post = actions_s(m) + optional_s("## 五、风险与遗留问题"@, str_views(m.risks@)) + optional_s(
        "## 六、下一步计划"@,
        str_views(m.next_steps@),
    );
    assert(l =~= pre + dc + post);
    assert forall|k: int|
        0 <= k < m.decisions@.len() && trim_s(#[trigger] str_views(m.decisions@)[k]).len() > 0
            implies contains_s(render_markdown_s(m), dec_s((k + 1) as nat) + ". "@ + trim_s(str_views(m.decisions@)[k])) by {
        let it = trim_s(str_views(m.decisions@)[k]);
        let line = dec_s((k + 1) as nat) + ". "@ + it;
        assert(dc[2 + k] == numbered_s(str_views(m.decisions@))[k]);
        assert(l[pre.len() + 2 + k] == dc[2 + k]);
        lemma_trim_last(str_views(m.decisions@)[k]);
        lemma_holds_self(line);
        assert(line.last() == it.last());
        lemma_in_render(m, pre.len() + 2 + k, line);
    }
}

/// Every action item is in the rendered minutes as its table row.
pub proof fn lemma_render_actions(m: Minutes)
    ensures
        forall|k: int|
            0 <= k < m.action_items@.len() ==> contains_s(
                render_markdown_s(m),
                "| "@ + dec_s((k + 1) as nat) + " | "@ + trim_s(escape_bars((#[trigger] m.action_items@[k]).task@))
                    + " | "@ + trim_s(or_dash(m.action_items@[k].owner)) + " | "@ + trim_s(
                    or_dash(m.action_items@[k].due),
                ) + " |"@,
            ),
{
    reveal_strlit(" |");
    lemma_render_split(m);
    let l = render_lines_s(m);
    let pre = head_s(m) + overview_s(m) + topics_s(m) + decisions_s(m);
    let ac = actions_s(m);
    let post = optional_s("## 五、风险与遗留问题"@, str_views(m.risks@)) + optional_s(
        "## 六、下一步计划"@,
        str_views(m.next_steps@),
    );
    assert(l =~= pre + ac + post);
    assert forall|k: int| 0 <= k < m.action_items@.len() implies contains_s(
        render_markdown_s(m),
        "| "@ + dec_s((k + 1) as nat) + " | "@ + trim_s(escape_bars((#[trigger] m.action_items@[k]).task@))
            + " | "@ + trim_s(or_dash(m.action_items@[k].owner)) + " | "@ + trim_s(
            or_dash(m.action_items@[k].due),
        ) + " |"@,
    ) by {
        let row = action_row(k, m.action_items@[k]);
        assert(ac[4 + k] == row);
        assert(l[pre.len() + 4 + k] == ac[4 + k]);
        lemma_holds_self(row);
        assert(row.last() == '|');
        lemma_in_render(m, pre.len() + 4 + k, row);
    }
}

/// Every risk and every next step that is not blank is in the rendered
/// minutes as a bullet.
#[verifier::rlimit(40)]
pub proof fn lemma_render_bullets(m: Minutes)
    ensures
        forall|k: int|
            0 <= k < m.risks@.len() && trim_s(#[trigger] str_views(m.risks@)[k]).len() > 0 ==> contains_s(
                render_markdown_s(m),
                "- "@ + trim_s(str_views(m.risks@)[k]),
            ),
        forall|k: int|
            0 <= k < m.next_steps@.len() && trim_s(#[trigger] str_views(m.next_steps@)[k]).len() > 0
                ==> contains_s(render_markdown_s(m), "- "@ + trim_s(str_views(m.next_steps@)[k])),
{
    reveal_strlit("- ");
    lemma_render_split(m);
    let l = render_lines_s(m);
    let pre = head_s(m) + overview_s(m) + topics_s(m) + decisions_s(m) + actions_s(m);
    let r5 = optional_s("## 五、风险与遗留问题"@, str_views(m.risks@));
    let r6 = optional_s("## 六、下一步计划"@, str_views(m.next_steps@));
    assert(l =~= pre + r5 + r6);
    assert forall|k: int|
        0 <= k < m.risks@.len() && trim_s(#[trigger] str_views(m.risks@)[k]).len() > 0 implies contains_s(
        render_markdown_s(m),
        "- "@ + trim_s(str_views(m.risks@)[k]),
    ) by {
        let it = trim_s(str_views(m.risks@)[k]);
        let line = "- "@ + it;
        assert(r5[2 + k] == bullets_s(str_views(m.risks@))[k]);
        assert(l[pre.len() + 2 + k] == r5[2 + k]);
        lemma_trim_last(str_views(m.risks@)[k]);
        lemma_holds_self(line);
        assert(line.last() == it.last());
        lemma_in_render(m, pre.len() + 2 + k, line);
    }
    assert forall|k: int|
        0 <= k < m.next_steps@.len() && trim_s(#[trigger] str_views(m.next_steps@)[k]).len() > 0
            implies contains_s(render_markdown_s(m), "- "@ + trim_s(str_views(m.next_steps@)[k])) by {
        let it = trim_s(str_views(m.next_steps@)[k]);
        let line = "- "@ + it;
        assert(r6[2 + k] == bullets_s(str_views(m.next_steps@))[k]);
        assert(l[pre.len() + r5.len() + 2 + k] == r6[2 + k]);
        lemma_trim_last(str_views(m.next_steps@)[k]);
        lemma_holds_self(line);
        assert(line.last() == it.last());
        lemma_in_render(m, pre.len() + r5.len() + 2 + k, line);
    }
}
/// Topic `k` among the first `n` topics has its heading line among their lines,
/// and each of its points its bullet.
proof fn lemma_topics_lines(ts: Seq<Topic>, n: int, k: int)
    requires
        0 <= k < n <= ts.len(),
    ensures
        exists|x: int|
            0 <= x < topics_upto(ts, n).len() && #[trigger] topics_upto(ts, n)[x] == "### "@ + dec_s(
                (k + 1) as nat,
            ) + ". "@ + trim_s(ts[k].title@),
        forall|j: int|
            0 <= j < ts[k].points@.len() ==> exists|x: int|
                0 <= x < topics_upto(ts, n).len() && #[trigger] topics_upto(ts, n)[x] == "- "@ + trim_s(
                    #[trigger] str_views(ts[k].points@)[j],
                ),
    decreases n,
{
    let prev = topics_upto(ts, n - 1);
    let b = topic_block(n - 1, ts[n - 1]);
    assert(topics_upto(ts, n) == prev + b);
    if k < n - 1 {
        lemma_topics_lines(ts, n - 1, k);
        let x = choose|x: int|
            0 <= x < prev.len() && #[trigger] prev[x] == "### "@ + dec_s((k + 1) as nat) + ". "@ + trim_s(
                ts[k].title@,
            );
        assert((prev + b)[x] == prev[x]);
        assert forall|j: int| 0 <= j < ts[k].points@.len() implies exists|x: int|
            0 <= x < topics_upto(ts, n).len() && #[trigger] topics_upto(ts, n)[x] == "- "@ + trim_s(
                #[trigger] str_views(ts[k].points@)[j],
            ) by {
            let y = choose|y: int|
                0 <= y < prev.len() && #[trigger] prev[y] == "- "@ + trim_s(str_views(ts[k].points@)[j]);
            assert((prev + b)[y] == prev[y]);
        }
    } else {
        assert((prev + b)[prev.len() as int] == b[0]);
        assert forall|j: int| 0 <= j < ts[k].points@.len() implies exists|x: int|
            0 <= x < topics_upto(ts, n).len() && #[trigger] topics_upto(ts, n)[x] == "- "@ + trim_s(
                #[trigger] str_views(ts[k].points@)[j],
            ) by {
            assert(b[2 + j] == bullets_s(str_views(ts[k].points@))[j]);
            assert((prev + b)[prev.len() + 2 + j] == b[2 + j]);
        }
    }
}

/// The rendered minutes put the topic lines right after the overview: their
/// section heading, a blank line, then the lines of every topic in order.
#[verifier::rlimit(40)]
proof fn lemma_topics_at(m: Minutes, k: int, line: Seq<char>)
    requires
        0 <= k < m.topics@.len(),
        exists|x: int|
            0 <= x < topics_upto(m.topics@, m.topics@.len() as int).len()
                && #[trigger] topics_upto(m.topics@, m.topics@.len() as int)[x] == line,
        line.len() > 0,
        !is_ws(line.last()),
    ensures
        contains_s(render_markdown_s(m), line),
{
    lemma_render_split(m);
    let l = render_lines_s(m);
    let ts = m.topics@;
    let pre = head_s(m) + overview_s(m);
    let tp = topics_s(m);
    let post = decisions_s(m) + actions_s(m) + optional_s("## 五、风险与遗留问题"@, str_views(m.risks@))
        + optional_s("## 六、下一步计划"@, str_views(m.next_steps@));
    assert(l =~= pre + tp + post);
    let e = Seq::<char>::empty();
    let tu = topics_upto(ts, ts.len() as int);
    assert(tp == seq!["## 二、议题与讨论"@, e] + tu);
    let x = choose|x: int| 0 <= x < tu.len() && #[trigger] tu[x] == line;
    assert(l[pre.len() + 2 + x] == tu[x]);
    lemma_holds_self(line);
    lemma_in_render(m, pre.len() + 2 + x, line);
}

/// Every topic whose title is not blank is in the rendered minutes under its
/// number with its trimmed title.
pub proof fn lemma_render_topic_titles(m: Minutes)
    ensures
        forall|k: int|
            0 <= k < m.topics@.len() && trim_s((#[trigger] m.topics@[k]).title@).len() > 0 ==> contains_s(
                render_markdown_s(m),
                "### "@ + dec_s((k + 1) as nat) + ". "@ + trim_s(m.topics@[k].title@),
            ),
{
    reveal_strlit("### ");
    let ts = m.topics@;
    assert forall|k: int|
        0 <= k < ts.len() && trim_s((#[trigger] ts[k]).title@).len() > 0 implies contains_s(
        render_markdown_s(m),
        "### "@ + dec_s((k + 1) as nat) + ". "@ + trim_s(ts[k].title@),
    ) by {
        lemma_topics_lines(ts, ts.len() as int, k);
        let line = "### "@ + dec_s((k + 1) as nat) + ". "@ + trim_s(ts[k].title@);
        lemma_trim_last(ts[k].title@);
        assert(line.last() == trim_s(ts[k].title@).last());
        lemma_topics_at(m, k, line);
    }
}

/// Every point of a topic that is not blank is in the rendered minutes as a
/// bullet with its trimmed text.
pub proof fn lemma_render_topic_points(m: Minutes)
    ensures
        forall|k: int, j: int|
            0 <= k < m.topics@.len() && 0 <= j < m.topics@[k].points@.len() && trim_s(
                #[trigger] str_views(m.topics@[k].points@)[j],
            ).len() > 0 ==> contains_s(render_markdown_s(m), "- "@ + trim_s(str_views(m.topics@[k].points@)[j])),
{
    reveal_strlit("- ");
    let ts = m.topics@;
    assert forall|k: int, j: int|
        0 <= k < ts.len() && 0 <= j < ts[k].points@.len() && trim_s(
            #[trigger] str_views(ts[k].points@)[j],
        ).len() > 0 implies contains_s(render_markdown_s(m), "- "@ + trim_s(str_views(ts[k].points@)[j])) by {
        lemma_topics_lines(ts, ts.len() as int, k);
        let line = "- "@ + trim_s(str_views(ts[k].points@)[j]);
        lemma_trim_last(str_views(ts[k].points@)[j]);
        assert(line.last() == trim_s(str_views(ts[k].points@)[j]).last());
        lemma_topics_at(m, k, line);
    }
}

} // verus!
