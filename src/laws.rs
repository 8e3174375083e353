//! Properties of the window that hold over whole sequences of arrivals.
use vstd::prelude::*;

use crate::statistics::{
    gaps, interval_between, keep_last, lemma_scaled_variance_nonneg, scaled_variance_of,
    square_total, total, window_after, Statistics,
};

verus! {

proof fn lemma_keep_last_push(s: Seq<u64>, x: u64, k: nat)
    ensures
        keep_last(keep_last(s, k).push(x), k) == keep_last(s.push(x), k),
{
    if s.len() > k {
        assert(keep_last(s, k).push(x) =~= s.push(x).subrange(s.len() - k, s.len() + 1int));
        assert(keep_last(keep_last(s, k).push(x), k) =~= keep_last(s.push(x), k));
    }
}

proof fn lemma_gaps_extend(a: Seq<i64>)
    requires
        a.len() >= 2,
    ensures
        gaps(a) == gaps(a.drop_last()).push(interval_between(a[a.len() - 2], a.last())),
{
    assert(gaps(a) =~= gaps(a.drop_last()).push(interval_between(a[a.len() - 2], a.last())));
}

/// Inserting the arrivals `a` in turn leaves the `window_length` most recent
/// intervals between consecutive arrivals, in chronological order.
pub proof fn lemma_window_after_is_recent_gaps(window_length: nat, a: Seq<i64>)
    ensures
        window_after(window_length, a) == keep_last(gaps(a), window_length),
    decreases a.len(),
{
    if a.len() <= 1 {
        assert(gaps(a) =~= Seq::<u64>::empty());
    } else {
        let before = a.drop_last();
        lemma_window_after_is_recent_gaps(window_length, before);
        lemma_gaps_extend(a);
        let x = interval_between(before.last(), a.last());
        lemma_keep_last_push(gaps(before), x, window_length);
    }
}

/// After exactly one arrival the window is empty, its sum and variance are
/// zero, and the last arrival is the one inserted.
pub proof fn bootstrap_leaves_window_empty(s: &Statistics)
    requires
        s.wf(),
        s.history().len() == 1,
    ensures
        s.window() == Seq::<u64>::empty(),
        total(s.window()) == 0,
        scaled_variance_of(s.window()) == 0,
        s.last_arrival() == s.history()[0],
{
    s.lemma_wf_window();
}

/// After more arrivals than the window holds, the window holds exactly
/// `capacity` intervals: the most recent ones, in chronological order.
pub proof fn window_keeps_most_recent_intervals(s: &Statistics)
    requires
        s.wf(),
        s.history().len() > s.capacity(),
    ensures
        s.window().len() == s.capacity(),
        s.window() == gaps(s.history()).subrange(
            s.history().len() - 1 - s.capacity(),
            s.history().len() - 1,
        ),
{
    s.lemma_wf_window();
    lemma_window_after_is_recent_gaps(s.capacity(), s.history());
    let g = gaps(s.history());
    assert(keep_last(g, s.capacity()) =~= g.subrange(g.len() - s.capacity(), g.len() as int));
}

/// In every well-formed state the window holds between zero and `capacity`
/// intervals, and its variance is not negative.
pub proof fn window_is_in_domain(s: &Statistics)
    requires
        s.wf(),
    ensures
        0 <= s.window().len() <= s.capacity(),
        scaled_variance_of(s.window()) >= 0,
{
    s.lemma_wf_window();
    lemma_scaled_variance_nonneg(s.window());
}

/// A window whose intervals all equal `v` has mean `v` and zero variance.
pub proof fn constant_window_has_zero_variance(w: Seq<u64>, v: u64)
    requires
        forall|i: int| 0 <= i < w.len() ==> w[i] == v,
    ensures
        total(w) == w.len() * v,
        square_total(w) == w.len() * v * v,
        scaled_variance_of(w) == 0,
    decreases w.len(),
{
    if w.len() > 0 {
        let t = w.drop_last();
        constant_window_has_zero_variance(t, v);
        let n = t.len() as int;
        assert(w.len() * v == n * v + v) by (nonlinear_arith)
            requires
                w.len() == n + 1,
        ;
        assert(w.len() * v * v == n * v * v + v * v) by (nonlinear_arith)
            requires
                w.len() == n + 1,
        ;
    }
    let n = w.len() as int;
    assert(n * (n * v * v) - (n * v) * (n * v) == 0) by (nonlinear_arith);
}

} // verus!
