//! The highest value over a trailing window.

use vstd::prelude::*;
use vstd::arithmetic::div_mod::{lemma_mod_self_0, lemma_small_mod};
use crate::errors::ErrorKind;
use crate::indicators::window::{blank, lemma_seq_max_at, seq_max, Rolling, Side};
use crate::text::{label, make_label};
use crate::traits::High;

verus! {

/// Returns the highest value in a given time frame.
///
/// The window holds the last `n` samples in a circular buffer. The index of a
/// largest sample is tracked: a sample that is at least as large as the
/// tracked one takes its place in constant time, and the buffer is scanned
/// only when the tracked sample itself is overwritten by a smaller one.
#[derive(Debug, Clone)]
pub struct HHV {
    n: usize,
    vec: Vec<i64>,
    max_index: usize,
    cur_index: usize,
    cached: Vec<i64>,
}

impl View for HHV {
    type V = Rolling;

    /// The window is the circular buffer read from the slot after the write
    /// position round to the write position itself.
    closed spec fn view(&self) -> Rolling {
        Rolling {
            side: Side::Highest,
            window: self.vec@.subrange(self.cur_index + 1, self.vec@.len() as int)
                + self.vec@.subrange(0, self.cur_index + 1),
            cached: self.cached@,
        }
    }
}

impl HHV {
    /// The representation invariant: both buffers have length `n >= 1`, the
    /// two indices are in range, and the tracked index holds a largest sample.
    pub closed spec fn wf(&self) -> bool {
        &&& self.n >= 1
        &&& self.vec@.len() == self.n
        &&& self.cached@.len() == self.n
        &&& self.max_index < self.n
        &&& self.cur_index < self.n
        &&& forall|i: int| 0 <= i < self.n ==> #[trigger] self.vec@[i] <= self.vec@[self.max_index as int]
    }

    /// A well-formed indicator stands for a well-formed model of the highest
    /// side.
    pub proof fn lemma_view(&self)
        requires
            self.wf(),
        ensures
            self@.wf(),
            self@.side == Side::Highest,
            self@.output() == seq_max(self@.window),
    {
    }

    /// The tracked sample is the largest of the window.
    proof fn lemma_output(&self)
        requires
            self.wf(),
        ensures
            seq_max(self@.window) == self.vec@[self.max_index as int],
    {
        let w = self@.window;
        let tail = self.n - self.cur_index - 1;
        let m: int = if self.max_index > self.cur_index {
            self.max_index - self.cur_index - 1
        } else {
            self.max_index + tail
        };
        assert(w[m] == self.vec@[self.max_index as int]);
        assert forall|i: int| 0 <= i < w.len() implies w[i] <= w[m] by {
            if i < tail {
                assert(w[i] == self.vec@[self.cur_index + 1 + i]);
            } else {
                assert(w[i] == self.vec@[i - tail]);
            }
        }
        lemma_seq_max_at(w, m);
    }

    /// Creates an indicator over a window of `n` samples.
    ///
    /// Fails with `InvalidParameter` exactly when `n` is 0.
    pub fn new(n: u32) -> (r: Result<Self, ErrorKind>)
        ensures
            n == 0 <==> r == Err::<Self, ErrorKind>(ErrorKind::InvalidParameter),
            n != 0 <==> r is Ok,
            r matches Ok(h) ==> h.wf() && h@ == Rolling::fresh(Side::Highest, n as nat),
    {
        let n = n as usize;

        if n == 0 {
            return Err(ErrorKind::InvalidParameter);
        }
        let indicator = Self {
            n: n,
            vec: vec![i64::MIN; n],
            max_index: 0,
            cur_index: 0,
            cached: vec![i64::MIN; n],
        };
        proof {
            assert(indicator@.window =~= blank(Side::Highest, n as nat));
            assert(indicator@.cached =~= blank(Side::Highest, n as nat));
        }
        Ok(indicator)
    }

    /// The least index that holds a largest sample of the buffer.
    fn find_max_index(&self) -> (index: usize)
        requires
            self.vec@.len() == self.n,
            self.n >= 1,
        ensures
            index < self.n,
            forall|i: int| 0 <= i < self.n ==> #[trigger] self.vec@[i] <= self.vec@[index as int],
            forall|i: int| 0 <= i < index ==> #[trigger] self.vec@[i] < self.vec@[index as int],
    {
        let mut max: i64 = i64::MIN;
        let mut index: usize = 0;

        let mut i: usize = 0;
        while i < self.vec.len()
            invariant
                self.vec@.len() == self.n,
                self.n >= 1,
                i <= self.n,
                index < self.n,
                i == 0 ==> max == i64::MIN && index == 0,
                i > 0 ==> index < i && max == self.vec@[index as int],
                forall|j: int| 0 <= j < i ==> self.vec@[j] <= max,
                forall|j: int| 0 <= j < index ==> self.vec@[j] < max,
            decreases self.n - i,
        {
            let val = self.vec[i];
            if val > max {
                max = val;
                index = i;
            }
            i += 1;
        }

        index
    }

    /// Pushes `input` into the window, dropping the oldest sample, and
    /// returns the highest value of the window.
    pub fn next(&mut self, input: i64) -> (out: i64)
        requires
            old(self).wf(),
        ensures
            final(self).wf(),
            final(self)@ == old(self)@.next(input),
            out == seq_max(final(self)@.window),
            out == final(self)@.cached.last(),
    {
        proof {
            if self.cur_index + 1 < self.n {
                lemma_small_mod((self.cur_index + 1) as nat, self.n as nat);
            } else {
                lemma_mod_self_0(self.n as int);
            }
        }
        let held = self.vec[self.max_index];
        self.cur_index = (self.cur_index + 1) % self.n;
        self.vec[self.cur_index] = input;

        if input >= held {
            self.max_index = self.cur_index;
        } else if self.max_index == self.cur_index {
            self.max_index = self.find_max_index();
        }
        self.cached.push(self.vec[self.max_index]);
        self.cached.remove(0);
        proof {
            self.lemma_output();
            assert(self@.window =~= old(self)@.window.drop_first().push(input));
            assert(self@.cached =~= old(self)@.cached.drop_first().push(
                self.vec@[self.max_index as int],
            ));
        }
        self.vec[self.max_index]
    }

    /// Pushes the highest price of `input` into the window, as `next` does.
    pub fn next_bar<T: High>(&mut self, input: &T) -> (out: i64)
        requires
            old(self).wf(),
        ensures
            final(self).wf(),
            final(self)@ == old(self)@.next(input.high_spec()),
            out == seq_max(final(self)@.window),
            out == final(self)@.cached.last(),
    {
        self.next(input.high())
    }

    /// Replaces the newest sample of the window by `input`, without
    /// advancing the window, and returns the recomputed highest value.
    pub fn update(&mut self, input: i64) -> (out: i64)
        requires
            old(self).wf(),
        ensures
            final(self).wf(),
            final(self)@ == old(self)@.update(input),
            out == seq_max(final(self)@.window),
            out == final(self)@.cached.last(),
    {
        let held = self.vec[self.max_index];
        self.vec[self.cur_index] = input;

        if input >= held {
            self.max_index = self.cur_index;
        } else if self.max_index == self.cur_index {
            self.max_index = self.find_max_index();
        }
        self.cached.remove(self.n - 1);
        self.cached.push(self.vec[self.max_index]);
        proof {
            self.lemma_output();
            assert(self@.window =~= old(self)@.window.drop_last().push(input));
            assert(self@.cached =~= old(self)@.cached.drop_last().push(
                self.vec@[self.max_index as int],
            ));
        }
        self.vec[self.max_index]
    }

    /// The last `n` outputs, oldest first. Entries that precede the first
    /// `n` samples are only meaningful once the window has filled.
    pub fn cached(&self) -> (history: &Vec<i64>)
        ensures
            history@ == self@.cached,
    {
        &self.cached
    }

    /// The window size `n`.
    pub fn period(&self) -> (n: usize)
        requires
            self.wf(),
        ensures
            n == self@.period(),
    {
        self.n
    }

    /// The name of the indicator with its window size: `MAX(n)`.
    pub fn to_string(&self) -> (s: String)
        requires
            self.wf(),
        ensures
            s@ == label("MAX"@, self@.period()),
    {
        make_label("MAX", self.n)
    }

    /// Blanks the window. The history of outputs stays as it is.
    pub fn reset(&mut self)
        requires
            old(self).wf(),
        ensures
            final(self).wf(),
            final(self)@ == old(self)@.reset(),
    {
        let mut i: usize = 0;
        while i < self.n
            invariant
                i <= self.n,
                self.n == old(self).n,
                self.vec@.len() == self.n,
                self.cached == old(self).cached,
                self.max_index == old(self).max_index,
                self.cur_index == old(self).cur_index,
                self.max_index < self.n,
                self.cur_index < self.n,
                self.cached@.len() == self.n,
                forall|j: int| 0 <= j < i ==> self.vec@[j] == i64::MIN,
            decreases self.n - i,
        {
            self.vec[i] = i64::MIN;
            i += 1;
        }
        proof {
            assert(self@.window =~= blank(Side::Highest, self.n as nat));
        }
    }
}

impl Default for HHV {
    /// An indicator over the conventional window of 14 samples.
    fn default() -> (h: Self)
        ensures
            h.wf(),
            h@ == Rolling::fresh(Side::Highest, 14),
    {
        Self::new(14).unwrap()
    }
}

} // verus!
