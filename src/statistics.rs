//! The sliding window of inter-arrival intervals kept for one monitored peer.
use vstd::prelude::*;

use crate::clock::now_micros;

verus! {

/// The modulus of `u64` arithmetic.
pub open spec fn u64_modulus() -> int {
    0x1_0000_0000_0000_0000
}

/// A span of `d` microseconds in whole milliseconds, truncated toward zero.
pub open spec fn whole_millis(d: int) -> int {
    if d >= 0 {
        d / 1000
    } else {
        -((-d) / 1000)
    }
}

/// The interval recorded between two arrivals given in microseconds: the raw
/// difference `to - from` in whole milliseconds, truncated toward zero, taken
/// as an unsigned 64-bit value (a negative difference, from out-of-order
/// arrivals, wraps around).
pub open spec fn interval_between(from: i64, to: i64) -> u64 {
    (whole_millis(to - from) % u64_modulus()) as u64
}

/// The last `k` elements of `s`, in order (all of `s` when it is shorter).
pub open spec fn keep_last(s: Seq<u64>, k: nat) -> Seq<u64> {
    if s.len() <= k {
        s
    } else {
        s.subrange(s.len() - k, s.len() as int)
    }
}

/// The intervals between consecutive arrivals, oldest first.
pub open spec fn gaps(arrivals: Seq<i64>) -> Seq<u64> {
    if arrivals.len() == 0 {
        Seq::empty()
    } else {
        Seq::new(
            (arrivals.len() - 1) as nat,
            |i: int| interval_between(arrivals[i], arrivals[i + 1]),
        )
    }
}

/// The window after `arrivals` were inserted in turn into a window of capacity
/// `window_length`: the first arrival records nothing, each later one appends
/// its interval and evicts the oldest interval once the capacity is exceeded.
pub open spec fn window_after(window_length: nat, arrivals: Seq<i64>) -> Seq<u64>
    decreases arrivals.len(),
{
    if arrivals.len() <= 1 {
        Seq::empty()
    } else {
        let before = arrivals.drop_last();
        keep_last(
            window_after(window_length, before).push(
                interval_between(before.last(), arrivals.last()),
            ),
            window_length,
        )
    }
}

/// The sum of the elements of `s`.
pub open spec fn total(s: Seq<u64>) -> int
    decreases s.len(),
{
    if s.len() == 0 {
        0
    } else {
        total(s.drop_last()) + s.last()
    }
}

/// The sum of the squares of the elements of `s`.
pub open spec fn square_total(s: Seq<u64>) -> int
    decreases s.len(),
{
    if s.len() == 0 {
        0
    } else {
        square_total(s.drop_last()) + s.last() * s.last()
    }
}

/// The population variance of `s` times `len(s)` squared:
/// `len * sum(x*x) - sum(x)^2`, which is `len^2 * sum((x - mean)^2) / len`.
pub open spec fn scaled_variance_of(s: Seq<u64>) -> int {
    s.len() * square_total(s) - total(s) * total(s)
}

proof fn lemma_square_deviation_nonneg(s: Seq<u64>, y: int)
    ensures
        square_total(s) - 2 * y * total(s) + s.len() * y * y >= 0,
    decreases s.len(),
{
    if s.len() > 0 {
        let t = s.drop_last();
        let x = s.last() as int;
        lemma_square_deviation_nonneg(t, y);
        let q = square_total(t);
        let sm = total(t);
        let n = t.len() as int;
        assert((q + x * x) - 2 * y * (sm + x) + (n + 1) * y * y == (q - 2 * y * sm + n * y * y)
            + (x - y) * (x - y)) by (nonlinear_arith);
        assert((x - y) * (x - y) >= 0) by (nonlinear_arith);
    }
}

/// The sum of squares bounds the square of the sum: `sum(x)^2 <= len * sum(x*x)`.
pub proof fn lemma_scaled_variance_nonneg(s: Seq<u64>)
    ensures
        scaled_variance_of(s) >= 0,
    decreases s.len(),
{
    if s.len() > 0 {
        let t = s.drop_last();
        let x = s.last() as int;
        lemma_scaled_variance_nonneg(t);
        lemma_square_deviation_nonneg(t, x);
        let q = square_total(t);
        let sm = total(t);
        let n = t.len() as int;
        assert((n + 1) * (q + x * x) - (sm + x) * (sm + x) == (n * q - sm * sm) + (q - 2 * x * sm
            + n * x * x)) by (nonlinear_arith);
    }
}

proof fn lemma_square_total_prefix(s: Seq<u64>, i: int)
    requires
        0 <= i <= s.len(),
    ensures
        0 <= square_total(s.take(i)) <= square_total(s),
    decreases s.len(),
{
    if i < s.len() {
        assert(s.drop_last().take(i) =~= s.take(i));
        lemma_square_total_prefix(s.drop_last(), i);
        assert(s.last() * s.last() >= 0) by (nonlinear_arith);
    } else {
        assert(s.take(i) =~= s);
        lemma_square_total_prefix_nonneg(s);
    }
}

proof fn lemma_square_total_prefix_nonneg(s: Seq<u64>)
    ensures
        square_total(s) >= 0,
    decreases s.len(),
{
    if s.len() > 0 {
        lemma_square_total_prefix_nonneg(s.drop_last());
        assert(s.last() * s.last() >= 0) by (nonlinear_arith);
    }
}

/// A bounded window of the most recent inter-arrival intervals, oldest first,
/// with the time of the most recent arrival.
#[derive(Clone)]
pub struct Statistics {
    arrival_intervals: Vec<u64>,
    last_arrived_at: i64,
    window_length: u32,
    n: u64,
    arrivals: Ghost<Seq<i64>>,
}

impl Statistics {
    /// The intervals now in the window, oldest first.
    pub closed spec fn window(&self) -> Seq<u64> {
        self.arrival_intervals@
    }

    /// The time of the most recent arrival, or of construction before any.
    pub closed spec fn last_arrival(&self) -> i64 {
        self.last_arrived_at
    }

    /// The largest number of intervals the window keeps.
    pub closed spec fn capacity(&self) -> nat {
        self.window_length as nat
    }

    /// Every arrival inserted since construction, in order.
    pub closed spec fn history(&self) -> Seq<i64> {
        self.arrivals@
    }

    pub closed spec fn wf(&self) -> bool {
        &&& self.arrival_intervals@.len() <= self.window_length
        &&& self.n == (if self.arrivals@.len() == 0 {
            0
        } else {
            self.arrival_intervals@.len() + 1
        })
        &&& self.arrivals@.len() > 0 ==> self.last_arrived_at == self.arrivals@.last()
        &&& self.arrival_intervals@ == window_after(
            self.window_length as nat,
            self.arrivals@,
        )
    }

    /// What a well-formed state says of the window: it is what the arrivals so
    /// far leave, it fits the capacity, and the last arrival is the latest one.
    pub proof fn lemma_wf_window(&self)
        requires
            self.wf(),
        ensures
            self.window() == window_after(self.capacity(), self.history()),
            self.window().len() <= self.capacity(),
            self.history().len() > 0 ==> self.last_arrival() == self.history().last(),
    {
    }

    /// An empty window of capacity `window_length`, whose reference time is
    /// `created_at` until the first arrival.
    pub fn with_start_time(window_length: u32, created_at: i64) -> (r: Self)
        ensures
            r.wf(),
            r.window() == Seq::<u64>::empty(),
            r.history() == Seq::<i64>::empty(),
            r.capacity() == window_length,
            r.last_arrival() == created_at,
    {
        Statistics {
            arrival_intervals: Vec::new(),
            last_arrived_at: created_at,
            window_length,
            n: 0,
            arrivals: Ghost(Seq::empty()),
        }
    }

    /// An empty window of capacity `window_length`, whose reference time is the
    /// current wall-clock time until the first arrival.
    pub fn new(window_length: u32) -> (r: Self)
        ensures
            r.wf(),
            r.window() == Seq::<u64>::empty(),
            r.history() == Seq::<i64>::empty(),
            r.capacity() == window_length,
    {
        Self::with_start_time(window_length, now_micros())
    }

    /// Records an arrival at `arrived_at`. The first arrival only sets the
    /// reference time; each later one appends the interval since the previous
    /// arrival, evicting the oldest interval when the window is full.
    pub fn insert(&mut self, arrived_at: i64)
        requires
            old(self).wf(),
        ensures
            final(self).wf(),
            final(self).capacity() == old(self).capacity(),
            final(self).last_arrival() == arrived_at,
            final(self).history() == old(self).history().push(arrived_at),
            old(self).history().len() == 0 ==> final(self).window() == old(self).window(),
            old(self).history().len() > 0 ==> final(self).window() == keep_last(
                old(self).window().push(interval_between(old(self).last_arrival(), arrived_at)),
                old(self).capacity(),
            ),
    {
        let ghost before = self.arrival_intervals@;
        let ghost history = self.arrivals@;
        proof {
            assert(history.push(arrived_at).drop_last() =~= history);
        }
        if self.n == 0 {
            self.last_arrived_at = arrived_at;
            self.n = 1;
            self.arrivals = Ghost(history.push(arrived_at));
            return;
        }
        if self.n - 1 == self.window_length as u64 {
            if self.arrival_intervals.len() > 0 {
                self.arrival_intervals.remove(0);
            }
            self.n = self.n - 1;
        }
        if self.n != 0 {
            let interval = Self::interval(self.last_arrived_at, arrived_at);
            self.arrival_intervals.push(interval);
        }
        self.last_arrived_at = arrived_at;
        self.n = self.n + 1;
        self.arrivals = Ghost(history.push(arrived_at));
        proof {
            let d = interval_between(history.last(), arrived_at);
            assert(self.arrival_intervals@ =~= keep_last(before.push(d), self.window_length as nat));
        }
    }

    /// The time of the most recent arrival, or of construction before any.
    pub fn last_arrived_at(&self) -> (r: i64)
        ensures
            r == self.last_arrival(),
    {
        self.last_arrived_at
    }

    /// The silence at time `t`: whole milliseconds since the last arrival,
    /// truncated toward zero, negative when `t` precedes it.
    pub fn elapsed_since_last(&self, t: i64) -> (r: i128)
        ensures
            r == whole_millis(t - self.last_arrival()),
    {
        Self::millis_between(self.last_arrived_at, t)
    }

    /// The largest number of intervals the window keeps.
    pub fn window_length(&self) -> (r: u32)
        ensures
            r == self.capacity(),
    {
        self.window_length
    }

    /// The intervals now in the window, oldest first.
    pub fn intervals(&self) -> (r: &Vec<u64>)
        ensures
            r@ == self.window(),
    {
        &self.arrival_intervals
    }

    /// The sum of the intervals in the window; the mean is this sum divided by
    /// the window's length (zero for an empty window).
    pub fn interval_sum(&self) -> (r: u128)
        requires
            self.wf(),
        ensures
            r == total(self.window()),
    {
        let v = &self.arrival_intervals;
        let mut acc: u128 = 0;
        let mut i: usize = 0;
        while i < v.len()
            invariant
                i <= v@.len(),
                v@.len() <= u32::MAX,
                acc == total(v@.take(i as int)),
                acc <= i * 0xffff_ffff_ffff_ffffint,
            decreases v@.len() - i,
        {
            assert(v@.take(i + 1).drop_last() =~= v@.take(i as int));
            assert(acc + v@[i as int] <= (i + 1) * 0xffff_ffff_ffff_ffffint) by (nonlinear_arith)
                requires
                    acc <= i * 0xffff_ffff_ffff_ffffint,
                    v@[i as int] <= 0xffff_ffff_ffff_ffffint,
            ;
            assert((i + 1) * 0xffff_ffff_ffff_ffffint <= 0x1_0000_0000 * 0xffff_ffff_ffff_ffffint)
                by (nonlinear_arith)
                requires
                    i + 1 <= 0x1_0000_0000int,
            ;
            acc = acc + v[i] as u128;
            i = i + 1;
        }
        assert(v@.take(i as int) =~= v@);
        acc
    }

    /// The population variance of the window times the square of its length,
    /// `len * sum(x*x) - sum(x)^2`, when `len * sum(x*x)` fits in `u128`.
    /// Dividing by `len^2` gives the variance (zero for an empty window).
    pub fn scaled_variance(&self) -> (r: Option<u128>)
        requires
            self.wf(),
        ensures
            r.is_some() <==> self.window().len() * square_total(self.window()) <= u128::MAX,
            r.is_some() ==> r.unwrap() == scaled_variance_of(self.window()),
    {
        let sum = self.interval_sum();
        let v = &self.arrival_intervals;
        let ghost w = v@;
        let n = v.len() as u128;
        let mut squares: u128 = 0;
        let mut i: usize = 0;
        while i < v.len()
            invariant
                w == v@,
                w == self.window(),
                n == w.len(),
                i <= w.len(),
                squares == square_total(w.take(i as int)),
            decreases w.len() - i,
        {
            assert(w.take(i + 1).drop_last() =~= w.take(i as int));
            let x = v[i] as u128;
            assert(x * x <= 0xffff_ffff_ffff_ffffint * 0xffff_ffff_ffff_ffffint) by (nonlinear_arith)
                requires
                    x <= 0xffff_ffff_ffff_ffffint,
            ;
            let sq = x * x;
            proof {
                lemma_square_total_prefix(w, i + 1);
                assert(square_total(w.take(i + 1)) == squares + sq);
            }
            match squares.checked_add(sq) {
                Some(t) => {
                    squares = t;
                },
                None => {
                    proof {
                        assert(squares + sq > u128::MAX);
                        assert(square_total(w) > u128::MAX);
                        assert(w.len() * square_total(w) > u128::MAX) by (nonlinear_arith)
                            requires
                                w.len() >= 1,
                                square_total(w) > u128::MAX,
                        ;
                    }
                    return None;
                },
            }
            i = i + 1;
        }
        assert(w.take(i as int) =~= w);
        match n.checked_mul(squares) {
            Some(scaled) => {
                proof {
                    lemma_scaled_variance_nonneg(w);
                    assert(0 <= sum * sum <= scaled) by (nonlinear_arith)
                        requires
                            scaled_variance_of(w) >= 0,
                            scaled == n * squares,
                            squares == square_total(w),
                            n == w.len(),
                            sum == total(w),
                    ;
                }
                Some(scaled - sum * sum)
            },
            None => None,
        }
    }

    /// The difference `to - from` of two times in microseconds, in whole
    /// milliseconds truncated toward zero.
    fn millis_between(from: i64, to: i64) -> (r: i128)
        ensures
            r == whole_millis(to - from),
            -0x1_0000_0000_0000_0000 < r < 0x1_0000_0000_0000_0000,
    {
        let d: i128 = to as i128 - from as i128;
        if d >= 0 {
            d / 1000
        } else {
            -((-d) / 1000)
        }
    }

    /// The raw difference `to - from` in whole milliseconds, wrapped into `u64`.
    fn interval(from: i64, to: i64) -> (r: u64)
        ensures
            r == interval_between(from, to),
    {
        let d: i128 = Self::millis_between(from, to);
        if d >= 0 {
            d as u64
        } else {
            (d + 0x1_0000_0000_0000_0000i128) as u64
        }
    }
}

} // verus!
