//! The rate limiter over a run of requests: however the requests are spread
//! over time, no window holds more grants than the limit, and the first
//! requests up to the limit are granted at once.
use vstd::prelude::*;
use crate::rate_limit::{in_time_order, lemma_unexpired_is_window, unexpired, within};

verus! {

/// One request at `now`: the grants still in the window, plus this one when
/// there is room; and whether it was granted.
pub open spec fn limiter_step_s(max: usize, window: u64, stamps: Seq<u64>, now: u64) -> (
    Seq<u64>,
    bool,
) {
    let kept = unexpired(stamps, now, window);
    if kept.len() < max {
        (kept.push(now), true)
    } else {
        (kept, false)
    }
}

/// A run of requests at the given times, from a fresh limiter: the grants it
/// remembers at the end and the times of all grants.
pub open spec fn limiter_run_s(max: usize, window: u64, times: Seq<u64>) -> (Seq<u64>, Seq<u64>)
    decreases times.len(),
{
    if times.len() == 0 {
        (seq![], seq![])
    } else {
        let p = limiter_run_s(max, window, times.drop_last());
        let s = limiter_step_s(max, window, p.0, times.last());
        (s.0, if s.1 { p.1.push(times.last()) } else { p.1 })
    }
}

/// The times never go back.
pub open spec fn nondecreasing(times: Seq<u64>) -> bool {
    forall|i: int, j: int| 0 <= i < j < times.len() ==> times[i] <= times[j]
}

/// The grants in the window of `window` milliseconds that ends at `t`.
pub open spec fn grants_in_window(grants: Seq<u64>, window: u64, t: u64) -> Seq<u64> {
    grants.filter(|g: u64| g <= t && within(t, window, g))
}

proof fn lemma_filter_weaker(s: Seq<u64>, p: spec_fn(u64) -> bool, q: spec_fn(u64) -> bool)
    requires
        forall|i: int| 0 <= i < s.len() ==> #[trigger] p(s[i]) ==> q(s[i]),
    ensures
        s.filter(p).len() <= s.filter(q).len(),
    decreases s.len(),
{
    if s.len() > 0 {
        let init = s.drop_last();
        assert forall|i: int| 0 <= i < init.len() implies #[trigger] p(init[i]) ==> q(init[i]) by {
            assert(init[i] == s[i]);
        }
        lemma_filter_weaker(init, p, q);
        init.lemma_filter_push(s.last(), p);
        init.lemma_filter_push(s.last(), q);
        assert(init.push(s.last()) =~= s);
    } else {
        reveal(Seq::filter);
        assert(s.filter(p) =~= Seq::<u64>::empty());
    }
}

proof fn lemma_filter_len(s: Seq<u64>, p: spec_fn(u64) -> bool)
    ensures
        s.filter(p).len() <= s.len(),
    decreases s.len(),
{
    if s.len() > 0 {
        let init = s.drop_last();
        lemma_filter_len(init, p);
        init.lemma_filter_push(s.last(), p);
        assert(init.push(s.last()) =~= s);
    } else {
        reveal(Seq::filter);
        assert(s.filter(p) =~= Seq::<u64>::empty());
    }
}

proof fn lemma_filter_twice(s: Seq<u64>, p: spec_fn(u64) -> bool, q: spec_fn(u64) -> bool)
    requires
        forall|i: int| 0 <= i < s.len() ==> #[trigger] p(s[i]) ==> q(s[i]),
    ensures
        s.filter(q).filter(p) == s.filter(p),
    decreases s.len(),
{
    if s.len() > 0 {
        let init = s.drop_last();
        assert forall|i: int| 0 <= i < init.len() implies #[trigger] p(init[i]) ==> q(init[i]) by {
            assert(init[i] == s[i]);
        }
        lemma_filter_twice(init, p, q);
        init.lemma_filter_push(s.last(), p);
        init.lemma_filter_push(s.last(), q);
        init.filter(q).lemma_filter_push(s.last(), p);
        assert(init.push(s.last()) =~= s);
        assert(p(s[s.len() - 1]) ==> q(s[s.len() - 1]));
    } else {
        reveal(Seq::filter);
        assert(s.filter(q) =~= Seq::<u64>::empty());
        assert(s.filter(p) =~= Seq::<u64>::empty());
        assert(Seq::<u64>::empty().filter(p) =~= Seq::<u64>::empty());
    }
}

proof fn lemma_filter_same(s: Seq<u64>, p: spec_fn(u64) -> bool, q: spec_fn(u64) -> bool)
    requires
        forall|i: int| 0 <= i < s.len() ==> #[trigger] p(s[i]) == q(s[i]),
    ensures
        s.filter(p) == s.filter(q),
{
    lemma_filter_twice(s, p, q);
    lemma_filter_twice(s, q, p);
    lemma_filter_twice2(s, p, q);
}

proof fn lemma_filter_twice2(s: Seq<u64>, p: spec_fn(u64) -> bool, q: spec_fn(u64) -> bool)
    requires
        forall|i: int| 0 <= i < s.len() ==> #[trigger] p(s[i]) == q(s[i]),
    ensures
        s.filter(p) == s.filter(q),
    decreases s.len(),
{
    if s.len() > 0 {
        let init = s.drop_last();
        assert forall|i: int| 0 <= i < init.len() implies #[trigger] p(init[i]) == q(init[i]) by {
            assert(init[i] == s[i]);
        }
        lemma_filter_twice2(init, p, q);
        init.lemma_filter_push(s.last(), p);
        init.lemma_filter_push(s.last(), q);
        assert(init.push(s.last()) =~= s);
        assert(p(s[s.len() - 1]) == q(s[s.len() - 1]));
    } else {
        reveal(Seq::filter);
        assert(s.filter(q) =~= Seq::<u64>::empty());
        assert(s.filter(p) =~= Seq::<u64>::empty());
    }
}

proof fn lemma_filter_all_le(s: Seq<u64>, p: spec_fn(u64) -> bool, t: u64)
    requires
        forall|i: int| 0 <= i < s.len() ==> s[i] <= t,
    ensures
        forall|i: int| 0 <= i < s.filter(p).len() ==> s.filter(p)[i] <= t,
    decreases s.len(),
{
    if s.len() > 0 {
        let init = s.drop_last();
        lemma_filter_all_le(init, p, t);
        init.lemma_filter_push(s.last(), p);
        assert(init.push(s.last()) =~= s);
    } else {
        reveal(Seq::filter);
        assert(s.filter(p) =~= Seq::<u64>::empty());
    }
}

proof fn lemma_filter_sorted(s: Seq<u64>, p: spec_fn(u64) -> bool)
    requires
        nondecreasing(s),
    ensures
        nondecreasing(s.filter(p)),
    decreases s.len(),
{
    if s.len() > 0 {
        let init = s.drop_last();
        lemma_filter_sorted(init, p);
        init.lemma_filter_push(s.last(), p);
        assert(init.push(s.last()) =~= s);
        lemma_filter_all_le(init, p, s.last());
    } else {
        reveal(Seq::filter);
        assert(s.filter(p) =~= Seq::<u64>::empty());
    }
}

/// What holds after a run: the grants come in time order and none is later
/// than the last request; the limiter remembers exactly the grants inside the
/// window of the last request; no window holds more grants than the limit; and
/// as long as there were no more requests than the limit, all were granted.
proof fn lemma_run(max: usize, window: u64, times: Seq<u64>)
    requires
        max >= 1,
        window > 0,
        nondecreasing(times),
    ensures
        nondecreasing(limiter_run_s(max, window, times).1),
        times.len() > 0 ==> forall|i: int|
            0 <= i < limiter_run_s(max, window, times).1.len() ==> limiter_run_s(max, window, times).1[i]
                <= times.last(),
        times.len() > 0 ==> limiter_run_s(max, window, times).0 == limiter_run_s(max, window, times).1.filter(
            |g: u64| within(times.last(), window, g),
        ),
        times.len() == 0 ==> limiter_run_s(max, window, times).0.len() == 0 && limiter_run_s(max, window, times).1.len() == 0,
        limiter_run_s(max, window, times).1.len() <= times.len(),
        forall|t: u64| #[trigger] grants_in_window(limiter_run_s(max, window, times).1, window, t).len() <= max,
        times.len() <= max ==> limiter_run_s(max, window, times).1 == times,
    decreases times.len(),
{
    if times.len() > 0 {
        let init = times.drop_last();
        let now = times.last();
        assert(nondecreasing(init));
        lemma_run(max, window, init);
        let p0 = limiter_run_s(max, window, init);
        let st0 = p0.0;
        let gr0 = p0.1;
        let keep_now = |g: u64| within(now, window, g);
        let inw = |g: u64| g <= now && within(now, window, g);
        if init.len() > 0 {
            assert(init.last() <= now) by {
                assert(init.last() == times[init.len() - 1]);
            }
        }
        assert forall|i: int| 0 <= i < gr0.len() implies gr0[i] <= now by {
            if init.len() > 0 {
                assert(gr0[i] <= init.last());
            }
        }
        // the remembered grants are in time order and not later than now, and
        // they are the grants so far inside the window of now
        assert(in_time_order(st0, now) && unexpired(st0, now, window) == gr0.filter(keep_now)) by {
            if init.len() > 0 {
                let keep_prev = |g: u64| within(init.last(), window, g);
                lemma_filter_sorted(gr0, keep_prev);
                lemma_filter_all_le(gr0, keep_prev, now);
                lemma_unexpired_is_window(st0, now, window);
                assert forall|i: int| 0 <= i < gr0.len() implies #[trigger] keep_now(gr0[i]) ==> keep_prev(
                    gr0[i],
                ) by {
                    assert(gr0[i] <= init.last());
                }
                lemma_filter_twice(gr0, keep_now, keep_prev);
            } else {
                assert(st0.len() == 0 && gr0.len() == 0);
                assert(st0 =~= Seq::<u64>::empty());
                assert(gr0 =~= Seq::<u64>::empty());
                reveal(Seq::filter);
                assert(gr0.filter(keep_now) =~= Seq::<u64>::empty());
            }
        }
        lemma_unexpired_is_window(st0, now, window);
        let kept = unexpired(st0, now, window);
        assert(kept == grants_in_window(gr0, window, now)) by {
            lemma_filter_twice2(gr0, keep_now, inw);
        }
        lemma_filter_len(gr0, keep_now);
        let (st, gr) = limiter_run_s(max, window, times);
        if kept.len() < max {
            assert(gr == gr0.push(now));
            assert(st == kept.push(now));
            assert forall|i: int, j: int| 0 <= i < j < gr.len() implies gr[i] <= gr[j] by {
                if j == gr.len() - 1 {
                    assert(gr[i] == gr0[i]);
                } else {
                    assert(gr[i] == gr0[i] && gr[j] == gr0[j]);
                }
            }
            assert forall|i: int| 0 <= i < gr.len() implies gr[i] <= times.last() by {
                if i < gr0.len() {
                    assert(gr[i] == gr0[i]);
                }
            }
            gr0.lemma_filter_push(now, keep_now);
            assert forall|t: u64| #[trigger] grants_in_window(gr, window, t).len() <= max by {
                let w = |g: u64| g <= t && within(t, window, g);
                gr0.lemma_filter_push(now, w);
                assert(grants_in_window(gr, window, t) == gr.filter(w));
                assert(grants_in_window(gr0, window, t) == gr0.filter(w));
                if w(now) {
                    // every grant in the window of t is in the window of now
                    assert forall|i: int| 0 <= i < gr0.len() implies #[trigger] w(gr0[i]) ==> inw(gr0[i]) by {
                        assert(gr0[i] <= now);
                    }
                    lemma_filter_weaker(gr0, w, inw);
                }
            }
            if times.len() <= max {
                assert(init.push(now) =~= times);
            }
        } else {
            assert(gr == gr0);
            assert(st == kept);
            assert(kept == gr0.filter(keep_now));
        }
    } else {
        assert forall|t: u64| #[trigger] grants_in_window(Seq::<u64>::empty(), window, t).len() <= max by {
            reveal(Seq::filter);
            assert(grants_in_window(Seq::<u64>::empty(), window, t) =~= Seq::<u64>::empty());
        }
        assert(times =~= Seq::<u64>::empty());
    }
}

/// However the requests of a run are spread over time (never going back), no
/// window of `window` milliseconds holds more grants than the limit, and when
/// there are no more requests than the limit, every one is granted at once.
pub proof fn lemma_limiter_run(max: usize, window: u64, times: Seq<u64>)
    requires
        max >= 1,
        nondecreasing(times),
    ensures
        forall|t: u64| #[trigger] grants_in_window(limiter_run_s(max, window, times).1, window, t).len()
            <= max,
        times.len() <= max ==> limiter_run_s(max, window, times).1 == times,
{
    if window > 0 {
        lemma_run(max, window, times);
    } else {
        lemma_run_zero(max, times);
        let gr = limiter_run_s(max, window, times).1;
        assert forall|t: u64| #[trigger] grants_in_window(gr, window, t).len() <= max by {
            lemma_filter_none(gr, |g: u64| g <= t && within(t, window, g));
        }
    }
}

proof fn lemma_filter_none(s: Seq<u64>, p: spec_fn(u64) -> bool)
    requires
        forall|i: int| 0 <= i < s.len() ==> !#[trigger] p(s[i]),
    ensures
        s.filter(p).len() == 0,
    decreases s.len(),
{
    if s.len() > 0 {
        let init = s.drop_last();
        assert forall|i: int| 0 <= i < init.len() implies !#[trigger] p(init[i]) by {
            assert(init[i] == s[i]);
        }
        lemma_filter_none(init, p);
        init.lemma_filter_push(s.last(), p);
        assert(init.push(s.last()) =~= s);
        assert(!p(s[s.len() - 1]));
    } else {
        reveal(Seq::filter);
        assert(s.filter(p) =~= Seq::<u64>::empty());
    }
}

proof fn lemma_unexpired_zero(s: Seq<u64>, now: u64)
    ensures
        unexpired(s, now, 0).len() == 0,
    decreases s.len(),
{
    if s.len() > 0 {
        lemma_unexpired_zero(s.drop_first(), now);
    }
}

/// With a window of no length every request is granted.
proof fn lemma_run_zero(max: usize, times: Seq<u64>)
    requires
        max >= 1,
    ensures
        limiter_run_s(max, 0, times).1 == times,
    decreases times.len(),
{
    if times.len() > 0 {
        lemma_run_zero(max, times.drop_last());
        lemma_unexpired_zero(limiter_run_s(max, 0, times.drop_last()).0, times.last());
        assert(times.drop_last().push(times.last()) =~= times);
    }
}

} // verus!
