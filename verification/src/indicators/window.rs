//! The mathematical model shared by the rolling-extreme indicators: a window of
//! the most recent samples, the history of emitted outputs, and the laws that
//! the streaming operations obey.

use vstd::prelude::*;

verus! {

/// Which end of the order an indicator tracks.
#[derive(Debug, Clone, Copy, PartialEq, Eq, Structural)]
pub enum Side {
    /// The largest sample of the window.
    Highest,
    /// The smallest sample of the window.
    Lowest,
}

/// The largest element of `s`; `i64::MIN` when `s` is empty.
pub open spec fn seq_max(s: Seq<i64>) -> i64
    decreases s.len(),
{
    if s.len() == 0 {
        i64::MIN
    } else if s.last() > seq_max(s.drop_last()) {
        s.last()
    } else {
        seq_max(s.drop_last())
    }
}

/// The smallest element of `s`; `i64::MAX` when `s` is empty.
pub open spec fn seq_min(s: Seq<i64>) -> i64
    decreases s.len(),
{
    if s.len() == 0 {
        i64::MAX
    } else if s.last() < seq_min(s.drop_last()) {
        s.last()
    } else {
        seq_min(s.drop_last())
    }
}

/// The value that fills a window before any sample arrives: the one value
/// that no sample can fall short of on the tracked side.
pub open spec fn sentinel(side: Side) -> i64 {
    match side {
        Side::Highest => i64::MIN,
        Side::Lowest => i64::MAX,
    }
}

/// The extreme of `s` on the given side.
pub open spec fn extreme(side: Side, s: Seq<i64>) -> i64 {
    match side {
        Side::Highest => seq_max(s),
        Side::Lowest => seq_min(s),
    }
}

/// A window of `n` slots, every one holding the sentinel of `side`.
pub open spec fn blank(side: Side, n: nat) -> Seq<i64> {
    Seq::new(n, |i: int| sentinel(side))
}

/// `seq_max(s)` bounds every element of `s` from above and, when `s` is not
/// empty, is one of its elements.
pub proof fn lemma_seq_max(s: Seq<i64>)
    ensures
        forall|i: int| 0 <= i < s.len() ==> s[i] <= seq_max(s),
        s.len() > 0 ==> exists|i: int| 0 <= i < s.len() && s[i] == seq_max(s),
    decreases s.len(),
{
    if s.len() > 0 {
        let front = s.drop_last();
        lemma_seq_max(front);
        assert forall|i: int| 0 <= i < s.len() implies s[i] <= seq_max(s) by {
            if i < front.len() {
                assert(front[i] == s[i]);
            }
        }
        if s.last() > seq_max(front) || front.len() == 0 {
            assert(s[s.len() - 1] == seq_max(s));
        } else {
            let j = choose|j: int| 0 <= j < front.len() && front[j] == seq_max(front);
            assert(s[j] == seq_max(s));
        }
    }
}

/// `seq_min(s)` bounds every element of `s` from below and, when `s` is not
/// empty, is one of its elements.
pub proof fn lemma_seq_min(s: Seq<i64>)
    ensures
        forall|i: int| 0 <= i < s.len() ==> s[i] >= seq_min(s),
        s.len() > 0 ==> exists|i: int| 0 <= i < s.len() && s[i] == seq_min(s),
    decreases s.len(),
{
    if s.len() > 0 {
        let front = s.drop_last();
        lemma_seq_min(front);
        assert forall|i: int| 0 <= i < s.len() implies s[i] >= seq_min(s) by {
            if i < front.len() {
                assert(front[i] == s[i]);
            }
        }
        if s.last() < seq_min(front) || front.len() == 0 {
            assert(s[s.len() - 1] == seq_min(s));
        } else {
            let j = choose|j: int| 0 <= j < front.len() && front[j] == seq_min(front);
            assert(s[j] == seq_min(s));
        }
    }
}

/// An element that no other element of `s` exceeds is `seq_max(s)`.
pub proof fn lemma_seq_max_at(s: Seq<i64>, m: int)
    requires
        0 <= m < s.len(),
        forall|i: int| 0 <= i < s.len() ==> #[trigger] s[i] <= s[m],
    ensures
        seq_max(s) == s[m],
{
    lemma_seq_max(s);
}

/// An element that no other element of `s` falls below is `seq_min(s)`.
pub proof fn lemma_seq_min_at(s: Seq<i64>, m: int)
    requires
        0 <= m < s.len(),
        forall|i: int| 0 <= i < s.len() ==> #[trigger] s[i] >= s[m],
    ensures
        seq_min(s) == s[m],
{
    lemma_seq_min(s);
}

/// What a rolling-extreme indicator stands for.
pub struct Rolling {
    /// The side that the indicator tracks.
    pub side: Side,
    /// The last `n` samples, oldest first; slots that no sample has reached
    /// yet hold the sentinel.
    pub window: Seq<i64>,
    /// The last `n` outputs, oldest first.
    pub cached: Seq<i64>,
}

impl Rolling {
    /// The window and the output history have the same, positive, length.
    pub open spec fn wf(self) -> bool {
        self.window.len() >= 1 && self.cached.len() == self.window.len()
    }

    /// The window size `n`.
    pub open spec fn period(self) -> nat {
        self.window.len()
    }

    /// The state of a newly constructed indicator.
    pub open spec fn fresh(side: Side, n: nat) -> Rolling {
        Rolling { side, window: blank(side, n), cached: blank(side, n) }
    }

    /// The current aggregate: the extreme of the window.
    pub open spec fn output(self) -> i64 {
        extreme(self.side, self.window)
    }

    /// The state after one more sample: the oldest sample leaves, `x` enters,
    /// and the new aggregate is appended to the history in place of its
    /// oldest entry.
    pub open spec fn next(self, x: i64) -> Rolling {
        let window = self.window.drop_first().push(x);
        Rolling {
            side: self.side,
            window,
            cached: self.cached.drop_first().push(extreme(self.side, window)),
        }
    }

    /// The state after the newest sample is revised to `x`: neither the window
    /// nor the history advances; their newest entries are replaced.
    pub open spec fn update(self, x: i64) -> Rolling {
        let window = self.window.drop_last().push(x);
        Rolling {
            side: self.side,
            window,
            cached: self.cached.drop_last().push(extreme(self.side, window)),
        }
    }

    /// The state after a reset: the window is blank again; the history of
    /// outputs stays.
    pub open spec fn reset(self) -> Rolling {
        Rolling { side: self.side, window: blank(self.side, self.window.len()), cached: self.cached }
    }

    /// The state after the samples `xs` have arrived one by one, first to last.
    pub open spec fn feed(self, xs: Seq<i64>) -> Rolling
        decreases xs.len(),
    {
        if xs.len() == 0 {
            self
        } else {
            self.feed(xs.drop_last()).next(xs.last())
        }
    }
}

/// The largest element of a concatenation is the larger of the two parts'
/// largest elements.
pub proof fn lemma_seq_max_concat(a: Seq<i64>, b: Seq<i64>)
    ensures
        seq_max(a + b) == if seq_max(a) >= seq_max(b) {
            seq_max(a)
        } else {
            seq_max(b)
        },
    decreases b.len(),
{
    if b.len() == 0 {
        assert(a + b =~= a);
    } else {
        assert((a + b).drop_last() =~= a + b.drop_last());
        lemma_seq_max_concat(a, b.drop_last());
    }
}

/// The smallest element of a concatenation is the smaller of the two parts'
/// smallest elements.
pub proof fn lemma_seq_min_concat(a: Seq<i64>, b: Seq<i64>)
    ensures
        seq_min(a + b) == if seq_min(a) <= seq_min(b) {
            seq_min(a)
        } else {
            seq_min(b)
        },
    decreases b.len(),
{
    if b.len() == 0 {
        assert(a + b =~= a);
    } else {
        assert((a + b).drop_last() =~= a + b.drop_last());
        lemma_seq_min_concat(a, b.drop_last());
    }
}

/// A blank window has the sentinel as its extreme.
pub proof fn lemma_extreme_blank(side: Side, n: nat)
    ensures
        extreme(side, blank(side, n)) == sentinel(side),
    decreases n,
{
    if n > 0 {
        assert(blank(side, n).drop_last() =~= blank(side, (n - 1) as nat));
        lemma_extreme_blank(side, (n - 1) as nat);
    }
}

/// Sentinels in front of at least one sample do not change the extreme.
pub proof fn lemma_extreme_ignores_blank(side: Side, n: nat, s: Seq<i64>)
    ensures
        extreme(side, blank(side, n) + s) == extreme(side, s),
{
    lemma_extreme_blank(side, n);
    match side {
        Side::Highest => {
            lemma_seq_max_concat(blank(side, n), s);
        },
        Side::Lowest => {
            lemma_seq_min_concat(blank(side, n), s);
        },
    }
}

/// Feeding samples slides the window along the sequence made of the initial
/// window followed by the samples, and keeps the state well formed.
pub proof fn lemma_feed_window(r: Rolling, xs: Seq<i64>)
    requires
        r.wf(),
    ensures
        r.feed(xs).wf(),
        r.feed(xs).side == r.side,
        r.feed(xs).period() == r.period(),
        r.feed(xs).window == (r.window + xs).subrange(
            xs.len() as int,
            (xs.len() + r.period()) as int,
        ),
    decreases xs.len(),
{
    if xs.len() == 0 {
        assert(r.window =~= (r.window + xs).subrange(0, r.period() as int));
    } else {
        let front = xs.drop_last();
        lemma_feed_window(r, front);
        assert(r.feed(xs).window =~= (r.window + xs).subrange(
            xs.len() as int,
            (xs.len() + r.period()) as int,
        ));
    }
}

/// Rolling extreme: once at least `n` samples have been processed, the window
/// holds exactly the last `n` of them, whatever it held before, and the
/// output is the maximum of those samples for the highest side and their
/// minimum for the lowest side.
pub proof fn lemma_full_window(r: Rolling, xs: Seq<i64>)
    requires
        r.wf(),
        xs.len() >= r.period(),
    ensures
        r.feed(xs).window == xs.subrange(xs.len() - r.period(), xs.len() as int),
        r.side == Side::Highest ==> r.feed(xs).output() == seq_max(
            xs.subrange(xs.len() - r.period(), xs.len() as int),
        ),
        r.side == Side::Lowest ==> r.feed(xs).output() == seq_min(
            xs.subrange(xs.len() - r.period(), xs.len() as int),
        ),
{
    lemma_feed_window(r, xs);
    assert(r.feed(xs).window =~= xs.subrange(xs.len() - r.period(), xs.len() as int));
}

/// Warm-up: while a newly constructed indicator has seen fewer samples than
/// its window holds, but at least one, its output is the extreme of all the
/// samples seen so far.
pub proof fn lemma_warm_up(side: Side, n: nat, xs: Seq<i64>)
    requires
        1 <= xs.len() <= n,
    ensures
        Rolling::fresh(side, n).feed(xs).output() == extreme(side, xs),
{
    let r = Rolling::fresh(side, n);
    lemma_feed_window(r, xs);
    let k = (n - xs.len()) as nat;
    assert(r.feed(xs).window =~= blank(side, k) + xs);
    lemma_extreme_ignores_blank(side, k, xs);
}

/// Output history: after `next` and after `update` the history still has `n`
/// entries, and its newest entry is the value just emitted. A reset keeps the
/// length as well.
pub proof fn lemma_history(r: Rolling, x: i64)
    requires
        r.wf(),
    ensures
        r.next(x).wf(),
        r.next(x).period() == r.period(),
        r.next(x).cached.last() == r.next(x).output(),
        r.update(x).wf(),
        r.update(x).period() == r.period(),
        r.update(x).cached.last() == r.update(x).output(),
        r.reset().wf(),
        r.reset().period() == r.period(),
{
}

/// Reset clears the samples: the first `next` after a reset returns its own
/// sample, and leaves the same window as the first `next` of a newly
/// constructed indicator.
pub proof fn lemma_reset_then_next(r: Rolling, x: i64)
    requires
        r.wf(),
    ensures
        r.reset().next(x).output() == x,
        r.reset().next(x).window == Rolling::fresh(r.side, r.period()).next(x).window,
{
    let n = r.period();
    let w = r.reset().next(x).window;
    assert(w =~= blank(r.side, (n - 1) as nat) + seq![x]);
    lemma_extreme_ignores_blank(r.side, (n - 1) as nat, seq![x]);
    assert(seq![x].drop_last() =~= Seq::<i64>::empty());
    reveal_with_fuel(seq_max, 2);
    reveal_with_fuel(seq_min, 2);
}

/// Update in place: `update(x)` after `next(y)` leaves the state that
/// `next(x)` alone would have left, as if `y` had never been pushed.
pub proof fn lemma_update_after_next(r: Rolling, y: i64, x: i64)
    requires
        r.wf(),
    ensures
        r.next(y).update(x) == r.next(x),
{
    let a = r.next(y).update(x);
    let b = r.next(x);
    assert(a.window =~= b.window);
    assert(a.cached =~= b.cached);
}

} // verus!
