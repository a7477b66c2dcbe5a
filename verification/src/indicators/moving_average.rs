//! The simple moving average over a trailing window.

use vstd::prelude::*;
use vstd::arithmetic::div_mod::{
    lemma_fundamental_div_mod,
    lemma_fundamental_div_mod_converse,
    lemma_mod_bound,
    lemma_mod_self_0,
    lemma_small_mod,
};
use crate::errors::ErrorKind;
use crate::text::{label, make_label};
use crate::traits::Close;

verus! {

/// The sum of the elements of `s`.
pub open spec fn total(s: Seq<i64>) -> int
    decreases s.len(),
{
    if s.len() == 0 {
        0
    } else {
        total(s.drop_last()) + s.last()
    }
}

/// The mean of `count` samples that add up to the sum of `s`, rounded down;
/// 0 when there is no sample.
pub open spec fn mean(s: Seq<i64>, count: nat) -> int {
    if count == 0 {
        0
    } else {
        total(s) / (count as int)
    }
}

/// A window of `n` slots that hold 0.
pub open spec fn zeros(n: nat) -> Seq<i64> {
    Seq::new(n, |i: int| 0i64)
}

/// The sum of a concatenation is the sum of the two parts' sums.
pub proof fn lemma_total_concat(a: Seq<i64>, b: Seq<i64>)
    ensures
        total(a + b) == total(a) + total(b),
    decreases b.len(),
{
    if b.len() == 0 {
        assert(a + b =~= a);
    } else {
        assert((a + b).drop_last() =~= a + b.drop_last());
        lemma_total_concat(a, b.drop_last());
    }
}

/// Replacing one element changes the sum by the difference of the two.
pub proof fn lemma_total_update(s: Seq<i64>, i: int, x: i64)
    requires
        0 <= i < s.len(),
    ensures
        total(s.update(i, x)) == total(s) - s[i] + x,
    decreases s.len(),
{
    if i == s.len() - 1 {
        assert(s.update(i, x).drop_last() =~= s.drop_last());
    } else {
        assert(s.update(i, x).drop_last() =~= s.drop_last().update(i, x));
        lemma_total_update(s.drop_last(), i, x);
    }
}

/// A sequence of zeros adds up to 0.
pub proof fn lemma_total_zero(s: Seq<i64>)
    requires
        forall|i: int| 0 <= i < s.len() ==> s[i] == 0,
    ensures
        total(s) == 0,
    decreases s.len(),
{
    if s.len() > 0 {
        lemma_total_zero(s.drop_last());
    }
}

/// The sum of `k` samples lies between `k` times the least and `k` times the
/// greatest `i64`.
pub proof fn lemma_total_bounds(s: Seq<i64>)
    ensures
        s.len() * i64::MIN <= total(s) <= s.len() * i64::MAX,
    decreases s.len(),
{
    if s.len() > 0 {
        lemma_total_bounds(s.drop_last());
        let k = s.len() as int;
        assert((k - 1) * i64::MIN + i64::MIN == k * i64::MIN) by (nonlinear_arith);
        assert((k - 1) * i64::MAX + i64::MAX == k * i64::MAX) by (nonlinear_arith);
    }
}

/// What a moving average stands for.
pub struct Averaging {
    /// The last `n` samples, oldest first; slots that no sample has reached
    /// yet hold 0.
    pub window: Seq<i64>,
    /// How many slots of the window hold a sample: at most `n`.
    pub count: nat,
    /// The last `n` outputs, oldest first.
    pub cached: Seq<i64>,
}

impl Averaging {
    /// The window and the history have the same, positive, length, and the
    /// slots in front of the `count` newest hold 0.
    pub open spec fn wf(self) -> bool {
        &&& self.window.len() >= 1
        &&& self.cached.len() == self.window.len()
        &&& self.count <= self.window.len()
        &&& forall|i: int| 0 <= i < self.window.len() - self.count ==> self.window[i] == 0
    }

    /// The window size `n`.
    pub open spec fn period(self) -> nat {
        self.window.len()
    }

    /// The state of a newly constructed indicator.
    pub open spec fn fresh(n: nat) -> Averaging {
        Averaging { window: zeros(n), count: 0, cached: zeros(n) }
    }

    /// The current aggregate: the mean of the samples in the window, rounded
    /// down.
    pub open spec fn output(self) -> i64 {
        mean(self.window, self.count) as i64
    }

    /// The state after one more sample.
    pub open spec fn next(self, x: i64) -> Averaging {
        let window = self.window.drop_first().push(x);
        let count = if self.count < self.window.len() {
            self.count + 1
        } else {
            self.count
        };
        Averaging {
            window,
            count,
            cached: self.cached.drop_first().push(mean(window, count) as i64),
        }
    }

    /// The state after the newest sample is revised to `x`. In a window
    /// without a sample, `x` becomes the first.
    pub open spec fn update(self, x: i64) -> Averaging {
        let window = self.window.drop_last().push(x);
        let count = if self.count == 0 {
            1
        } else {
            self.count
        };
        Averaging {
            window,
            count,
            cached: self.cached.drop_last().push(mean(window, count) as i64),
        }
    }

    /// The state after a reset: no sample is left; the history stays.
    pub open spec fn reset(self) -> Averaging {
        Averaging { window: zeros(self.window.len()), count: 0, cached: self.cached }
    }

    /// The state after the samples `xs` have arrived one by one, first to last.
    pub open spec fn feed(self, xs: Seq<i64>) -> Averaging
        decreases xs.len(),
    {
        if xs.len() == 0 {
            self
        } else {
            self.feed(xs.drop_last()).next(xs.last())
        }
    }

    /// The sum of the window is the sum of its `count` newest slots, and the
    /// mean fits in an `i64`.
    pub proof fn lemma_mean_fits(self)
        requires
            self.wf(),
        ensures
            total(self.window) == total(
                self.window.subrange(self.window.len() - self.count, self.window.len() as int),
            ),
            self.count * i64::MIN <= total(self.window) <= self.count * i64::MAX,
            i64::MIN <= mean(self.window, self.count) <= i64::MAX,
    {
        let n = self.window.len() as int;
        let k = self.count as int;
        let front = self.window.subrange(0, n - k);
        let back = self.window.subrange(n - k, n);
        assert(self.window =~= front + back);
        lemma_total_concat(front, back);
        lemma_total_zero(front);
        lemma_total_bounds(back);
        let t = total(self.window);
        if k > 0 {
            assert(i64::MIN <= t / k <= i64::MAX) by (nonlinear_arith)
                requires
                    k > 0,
                    k * i64::MIN <= t <= k * i64::MAX,
            ;
        }
    }
}

/// Feeding samples slides the window along the sequence made of the initial
/// window followed by the samples, counts them up to the window size, and
/// keeps the state well formed.
pub proof fn lemma_feed_window(a: Averaging, xs: Seq<i64>)
    requires
        a.wf(),
    ensures
        a.feed(xs).wf(),
        a.feed(xs).period() == a.period(),
        a.feed(xs).count == if a.count + xs.len() <= a.period() {
            a.count + xs.len()
        } else {
            a.period()
        },
        a.feed(xs).window == (a.window + xs).subrange(
            xs.len() as int,
            (xs.len() + a.period()) as int,
        ),
    decreases xs.len(),
{
    if xs.len() == 0 {
        assert(a.window =~= (a.window + xs).subrange(0, a.period() as int));
    } else {
        let front = xs.drop_last();
        lemma_feed_window(a, front);
        assert(a.feed(xs).window =~= (a.window + xs).subrange(
            xs.len() as int,
            (xs.len() + a.period()) as int,
        ));
    }
}

/// Moving average: once at least `n` samples have been processed, the window
/// holds exactly the last `n` of them, and the output is their sum divided by
/// `n`, rounded down.
pub proof fn lemma_full_window(a: Averaging, xs: Seq<i64>)
    requires
        a.wf(),
        xs.len() >= a.period(),
    ensures
        a.feed(xs).window == xs.subrange(xs.len() - a.period(), xs.len() as int),
        a.feed(xs).output() == total(xs.subrange(xs.len() - a.period(), xs.len() as int)) / (
        a.period() as int),
{
    lemma_feed_window(a, xs);
    assert(a.feed(xs).window =~= xs.subrange(xs.len() - a.period(), xs.len() as int));
    a.feed(xs).lemma_mean_fits();
}

/// Warm-up: while a newly constructed indicator has seen fewer samples than
/// its window holds, but at least one, its output is the mean of all the
/// samples seen so far.
pub proof fn lemma_warm_up(n: nat, xs: Seq<i64>)
    requires
        1 <= xs.len() <= n,
    ensures
        Averaging::fresh(n).feed(xs).output() == total(xs) / (xs.len() as int),
{
    let a = Averaging::fresh(n);
    lemma_feed_window(a, xs);
    let fed = a.feed(xs);
    fed.lemma_mean_fits();
    assert(fed.window.subrange(n - xs.len(), n as int) =~= xs);
}

/// Output history: after `next` and after `update` the state is well formed,
/// the history still has `n` entries, and its newest entry is the value just
/// emitted. A reset keeps the length as well.
pub proof fn lemma_history(a: Averaging, x: i64)
    requires
        a.wf(),
    ensures
        a.next(x).wf(),
        a.next(x).period() == a.period(),
        a.next(x).cached.last() == a.next(x).output(),
        a.update(x).wf(),
        a.update(x).period() == a.period(),
        a.update(x).cached.last() == a.update(x).output(),
        a.reset().wf(),
        a.reset().period() == a.period(),
{
}

/// Reset clears the samples: the first `next` after a reset returns its own
/// sample, as the first `next` of a newly constructed indicator does.
pub proof fn lemma_reset_then_next(a: Averaging, x: i64)
    requires
        a.wf(),
    ensures
        a.reset().next(x).output() == x,
        a.reset().next(x).window == Averaging::fresh(a.period()).next(x).window,
        a.reset().next(x).count == 1,
{
    let r = a.reset();
    lemma_history(r, x);
    let s = r.next(x);
    s.lemma_mean_fits();
    assert(s.window.subrange(s.window.len() - 1, s.window.len() as int) =~= seq![x]);
    assert(seq![x].drop_last() =~= Seq::<i64>::empty());
    reveal_with_fuel(total, 2);
    assert(total(seq![x]) == x);
}

/// Update in place: `update(x)` after `next(y)` leaves the state that
/// `next(x)` alone would have left, as if `y` had never been pushed.
pub proof fn lemma_update_after_next(a: Averaging, y: i64, x: i64)
    requires
        a.wf(),
    ensures
        a.next(y).update(x) == a.next(x),
{
    let p = a.next(y).update(x);
    let q = a.next(x);
    assert(p.window =~= q.window);
    assert(p.cached =~= q.cached);
}

/// Divides `a` by the positive `b` and rounds down.
fn floor_div(a: i128, b: i128) -> (q: i128)
    requires
        0 < b <= 0xffff_ffff,
        -0x1_0000_0000_0000_0000_0000_0000 <= a <= 0x1_0000_0000_0000_0000_0000_0000,
    ensures
        q == a as int / b as int,
{
    if a >= 0 {
        a / b
    } else {
        let m = -a + (b - 1);
        let c = m / b;
        proof {
            let r = m as int % b as int;
            lemma_fundamental_div_mod(m as int, b as int);
            lemma_mod_bound(m as int, b as int);
            assert((-(c as int)) * b == -(b * c)) by (nonlinear_arith);
            lemma_fundamental_div_mod_converse(a as int, b as int, -(c as int), b - 1 - r);
        }
        -c
    }
}

/// Returns the mean of the samples in a given time frame, rounded down.
///
/// The window holds the last `n` samples in a circular buffer, together with
/// their running sum, so that a push costs constant time.
#[derive(Debug, Clone)]
pub struct MovingAverage {
    n: usize,
    index: usize,
    count: usize,
    sum: i128,
    vec: Vec<i64>,
    cached: Vec<i64>,
}

impl View for MovingAverage {
    type V = Averaging;

    /// The window is the circular buffer read from the slot after the write
    /// position round to the write position itself.
    closed spec fn view(&self) -> Averaging {
        Averaging {
            window: self.vec@.subrange(self.index + 1, self.vec@.len() as int) + self.vec@.subrange(
                0,
                self.index + 1,
            ),
            count: self.count as nat,
            cached: self.cached@,
        }
    }
}

impl MovingAverage {
    /// The representation invariant: both buffers have length `n >= 1`, the
    /// write position is in range, the running sum is the sum of the buffer,
    /// and the slots that no sample has reached hold 0.
    pub closed spec fn wf(&self) -> bool {
        &&& 1 <= self.n <= u32::MAX
        &&& self.vec@.len() == self.n
        &&& self.cached@.len() == self.n
        &&& self.index < self.n
        &&& self.sum == total(self.vec@)
        &&& self@.wf()
    }

    /// A well-formed indicator stands for a well-formed model.
    pub proof fn lemma_view(&self)
        requires
            self.wf(),
        ensures
            self@.wf(),
    {
    }

    /// The running sum is the sum of the window, and small enough to be
    /// divided.
    proof fn lemma_sum(&self)
        requires
            1 <= self.n <= u32::MAX,
            self.vec@.len() == self.n,
            self.index < self.n,
            self.sum == total(self.vec@),
        ensures
            self.sum == total(self@.window),
            -0x1_0000_0000_0000_0000_0000_0000 <= self.sum <= 0x1_0000_0000_0000_0000_0000_0000,
    {
        let head = self.vec@.subrange(0, self.index + 1);
        let tail = self.vec@.subrange(self.index + 1, self.vec@.len() as int);
        assert(self.vec@ =~= head + tail);
        lemma_total_concat(head, tail);
        lemma_total_concat(tail, head);
        lemma_total_bounds(self.vec@);
        let n = self.n as int;
        assert(n * i64::MAX <= 0xffff_ffff * 0x7fff_ffff_ffff_ffff) by (nonlinear_arith)
            requires
                0 <= n <= 0xffff_ffff,
        ;
        assert(n * i64::MIN >= 0xffff_ffff * -0x8000_0000_0000_0000) by (nonlinear_arith)
            requires
                0 <= n <= 0xffff_ffff,
        ;
    }

    /// Creates an indicator over a window of `n` samples.
    ///
    /// Fails with `InvalidParameter` exactly when `n` is 0.
    pub fn new(n: u32) -> (r: Result<Self, ErrorKind>)
        ensures
            n == 0 <==> r == Err::<Self, ErrorKind>(ErrorKind::InvalidParameter),
            n != 0 <==> r is Ok,
            r matches Ok(a) ==> a.wf() && a@ == Averaging::fresh(n as nat),
    {
        let n = n as usize;

        if n == 0 {
            return Err(ErrorKind::InvalidParameter);
        }
        let indicator = Self {
            n: n,
            index: 0,
            count: 0,
            sum: 0,
            vec: vec![0; n],
            cached: vec![0; n],
        };
        proof {
            assert(indicator@.window =~= zeros(n as nat));
            assert(indicator@.cached =~= zeros(n as nat));
            lemma_total_zero(indicator.vec@);
        }
        Ok(indicator)
    }

    /// Pushes `input` into the window, dropping the oldest sample, and
    /// returns the mean of the samples in the window.
    pub fn next(&mut self, input: i64) -> (out: i64)
        requires
            old(self).wf(),
        ensures
            final(self).wf(),
            final(self)@ == old(self)@.next(input),
            out == final(self)@.output(),
            out == final(self)@.cached.last(),
    {
        proof {
            if self.index + 1 < self.n {
                lemma_small_mod((self.index + 1) as nat, self.n as nat);
            } else {
                lemma_mod_self_0(self.n as int);
            }
            self.lemma_sum();
            lemma_history(self@, input);
        }
        self.index = (self.index + 1) % self.n;
        let old_val = self.vec[self.index];
        proof {
            lemma_total_update(self.vec@, self.index as int, input);
        }
        self.vec[self.index] = input;

        if self.count < self.n {
            self.count += 1;
        }
        self.sum = self.sum - old_val as i128 + input as i128;
        proof {
            assert(self@.window =~= old(self)@.window.drop_first().push(input));
            self.lemma_sum();
            self@.lemma_mean_fits();
        }
        let out = floor_div(self.sum, self.count as i128) as i64;
        self.cached.push(out);
        self.cached.remove(0);
        proof {
            assert(self@.cached =~= old(self)@.cached.drop_first().push(out));
        }
        out
    }

    /// Pushes the closing price of `input` into the window, as `next` does.
    pub fn next_bar<T: Close>(&mut self, input: &T) -> (out: i64)
        requires
            old(self).wf(),
        ensures
            final(self).wf(),
            final(self)@ == old(self)@.next(input.close_spec()),
            out == final(self)@.output(),
            out == final(self)@.cached.last(),
    {
        self.next(input.close())
    }

    /// Replaces the newest sample of the window by `input`, without
    /// advancing the window, and returns the recomputed mean. In a window
    /// without a sample, `input` becomes the first.
    pub fn update(&mut self, input: i64) -> (out: i64)
        requires
            old(self).wf(),
        ensures
            final(self).wf(),
            final(self)@ == old(self)@.update(input),
            out == final(self)@.output(),
            out == final(self)@.cached.last(),
    {
        proof {
            self.lemma_sum();
            lemma_history(self@, input);
            lemma_total_update(self.vec@, self.index as int, input);
        }
        let old_val = self.vec[self.index];
        self.vec[self.index] = input;

        if self.count == 0 {
            self.count = 1;
        }
        self.sum = self.sum - old_val as i128 + input as i128;
        proof {
            assert(self@.window =~= old(self)@.window.drop_last().push(input));
            self.lemma_sum();
            self@.lemma_mean_fits();
        }
        let out = floor_div(self.sum, self.count as i128) as i64;
        self.cached.remove(self.n - 1);
        self.cached.push(out);
        proof {
            assert(self@.cached =~= old(self)@.cached.drop_last().push(out));
        }
        out
    }

    /// The last `n` outputs, oldest first. Entries that precede the first
    /// `n` samples are only meaningful once the window has filled.
    pub fn cached(&self) -> (history: &Vec<i64>)
        ensures
            history@ == self@.cached,
    {
        &self.cached
    }

    /// The window size `n`.
    pub fn period(&self) -> (n: usize)
        requires
            self.wf(),
        ensures
            n == self@.period(),
    {
        self.n
    }

    /// The name of the indicator with its window size: `SMA(n)`.
    pub fn to_string(&self) -> (s: String)
        requires
            self.wf(),
        ensures
            s@ == label("SMA"@, self@.period()),
    {
        make_label("SMA", self.n)
    }

    /// Forgets every sample. The history of outputs stays as it is.
    pub fn reset(&mut self)
        requires
            old(self).wf(),
        ensures
            final(self).wf(),
            final(self)@ == old(self)@.reset(),
    {
        self.index = 0;
        self.count = 0;
        self.sum = 0;
        let mut i: usize = 0;
        while i < self.n
            invariant
                i <= self.n,
                self.n == old(self).n,
                self.vec@.len() == self.n,
                self.cached == old(self).cached,
                self.index == 0,
                self.count == 0,
                self.sum == 0,
                forall|j: int| 0 <= j < i ==> self.vec@[j] == 0,
            decreases self.n - i,
        {
            self.vec[i] = 0;
            i += 1;
        }
        proof {
            assert(self@.window =~= zeros(self.n as nat));
            lemma_total_zero(self.vec@);
        }
    }
}

impl Default for MovingAverage {
    /// An indicator over the conventional window of 14 samples.
    fn default() -> (a: Self)
        ensures
            a.wf(),
            a@ == Averaging::fresh(14),
    {
        Self::new(14).unwrap()
    }
}

} // verus!
