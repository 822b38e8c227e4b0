//! Step-count statistics over a sliding window.
//!
//! Counts events into per-interval buckets, keeping at most `window`
//! buckets and a running total, so a caller can report the mean number
//! of solver steps spent per interval.

use vstd::prelude::*;

use crate::num::{fx, tdiv, Fx, FX_ONE};
use std::collections::VecDeque;

verus! {

/// The sum of a sequence of counters.
pub open spec fn seq_sum(s: Seq<usize>) -> int
    decreases s.len(),
{
    if s.len() == 0 {
        0
    } else {
        seq_sum(s.drop_last()) + s.last()
    }
}

/// Drops buckets from the front until at most `w` remain.
pub open spec fn trim_front(s: Seq<usize>, w: int) -> Seq<usize>
    decreases s.len(),
{
    if s.len() == 0 || s.len() <= w {
        s
    } else {
        trim_front(s.skip(1), w)
    }
}

proof fn lemma_seq_sum_nonneg(s: Seq<usize>)
    ensures
        seq_sum(s) >= 0,
    decreases s.len(),
{
    if s.len() > 0 {
        lemma_seq_sum_nonneg(s.drop_last());
    }
}

proof fn lemma_seq_sum_front(s: Seq<usize>)
    requires
        s.len() > 0,
    ensures
        seq_sum(s) == s[0] + seq_sum(s.skip(1)),
    decreases s.len(),
{
    if s.len() == 1 {
        assert(s.skip(1) =~= Seq::<usize>::empty());
        assert(s.drop_last() =~= Seq::<usize>::empty());
        assert(seq_sum(s) == seq_sum(s.drop_last()) + s.last());
        assert(s.last() == s[0]);
    } else {
        lemma_seq_sum_front(s.drop_last());
        assert(s.drop_last()[0] == s[0]);
        assert(s.skip(1).drop_last() =~= s.drop_last().skip(1));
        assert(s.skip(1).last() == s.last());
        assert(seq_sum(s) == seq_sum(s.drop_last()) + s.last());
        assert(s.skip(1).len() > 0);
        assert(seq_sum(s.skip(1)) == seq_sum(s.skip(1).drop_last()) + s.skip(1).last());
        assert(seq_sum(s.drop_last()) == s[0] + seq_sum(s.drop_last().skip(1)));
    }
}

/// A bucketed event counter: at most `window` buckets are kept, and
/// `total` is always the sum of the kept buckets.
pub struct SlidingWindowCounter {
    window: usize,
    counters: VecDeque<usize>,
    total: usize,
}

impl SlidingWindowCounter {
    pub closed spec fn window_spec(self) -> int {
        self.window as int
    }

    pub closed spec fn counts(self) -> Seq<usize> {
        self.counters@
    }

    pub closed spec fn total_spec(self) -> int {
        self.total as int
    }

    pub open spec fn wf(self) -> bool {
        self.total_spec() == seq_sum(self.counts())
    }

    /// Returns a counter keeping at most `window` buckets.
    pub fn new(window: usize) -> (r: SlidingWindowCounter)
        ensures
            r.wf(),
            r.window_spec() == window,
            r.counts() == Seq::<usize>::empty(),
            r.total_spec() == 0,
    {
        SlidingWindowCounter { window, counters: VecDeque::new(), total: 0 }
    }

    /// Adds `count` events to the current (last) bucket, opening a
    /// first bucket if none exists yet.
    pub fn add(&mut self, count: usize)
        requires
            old(self).wf(),
            old(self).total_spec() + count <= usize::MAX,
            old(self).counts().len() > 0 || old(self).window_spec() >= 1,
        ensures
            final(self).wf(),
            final(self).window_spec() == old(self).window_spec(),
            final(self).counts() == ({
                let base = if old(self).counts().len() == 0 {
                    trim_front(old(self).counts().push(0), old(self).window_spec())
                } else {
                    old(self).counts()
                };
                base.update(base.len() - 1, (base.last() + count) as usize)
            }),
            final(self).total_spec() == old(self).total_spec() + count,
    {
        if self.counters.len() == 0 {
            self.next();
            proof {
                assert(old(self).counts().push(0).len() == 1);
                assert(self.counts() == trim_front(
                    old(self).counts().push(0),
                    self.window_spec(),
                ));
                assert(self.counts().len() == 1);
            }
        }
        let ghost base = self.counters@;
        let last = match self.counters.pop_back() {
            Some(v) => v,
            None => {
                proof {
                    assert(false);
                }
                0
            },
        };
        proof {
            lemma_seq_sum_nonneg(base.drop_last());
            assert(seq_sum(base) == seq_sum(base.drop_last()) + base.last());
            assert(last <= self.total);
        }
        self.counters.push_back(last + count);
        self.total = self.total + count;
        proof {
            assert(self.counters@ =~= base.update(base.len() - 1, (base.last() + count) as usize));
            assert(self.counters@.drop_last() =~= base.drop_last());
            assert(seq_sum(self.counters@) == seq_sum(base.drop_last()) + base.last() + count);
        }
    }

    /// Opens a new bucket and drops the oldest buckets until at most
    /// `window` remain.
    pub fn next(&mut self)
        requires
            old(self).wf(),
        ensures
            final(self).wf(),
            final(self).window_spec() == old(self).window_spec(),
            final(self).counts() == trim_front(
                old(self).counts().push(0),
                old(self).window_spec(),
            ),
            final(self).total_spec() == seq_sum(final(self).counts()),
    {
        self.counters.push_back(0);
        proof {
            assert(self.counters@.drop_last() =~= old(self).counts());
            assert(seq_sum(self.counters@) == seq_sum(old(self).counts()) + 0);
        }
        let ghost pushed = self.counters@;
        while self.counters.len() > self.window
            invariant
                self.window == old(self).window,
                self.total as int == seq_sum(self.counters@),
                trim_front(pushed, self.window as int) == trim_front(
                    self.counters@,
                    self.window as int,
                ),
            decreases self.counters@.len(),
        {
            let ghost cur = self.counters@;
            let front = match self.counters.pop_front() {
                Some(v) => v,
                None => {
                    proof {
                        assert(false);
                    }
                    0
                },
            };
            proof {
                lemma_seq_sum_front(cur);
                assert(self.counters@ =~= cur.skip(1));
                lemma_seq_sum_nonneg(cur.skip(1));
            }
            self.total = self.total - front;
        }
    }

    /// The mean number of events per kept bucket, as a fixed-point
    /// scalar.
    pub fn mean(&self) -> (r: Fx)
        requires
            self.wf(),
            self.counts().len() > 0,
        ensures
            r == fx(tdiv(self.total_spec() * (FX_ONE as int), self.counts().len() as int)),
    {
        let len = self.counters.len();
        let num: u128 = (self.total as u128) * (FX_ONE as u128);
        proof {
            assert((self.total as u128) as int * ((FX_ONE as u128) as int)
                < 0x200000000000000000000int) by (nonlinear_arith)
                requires
                    0 <= ((self.total as u128) as int) < 0x10000000000000000,
                    ((FX_ONE as u128) as int) == 0x10000,
            ;
        }
        let q: u128 = num / (len as u128);
        let raw: i64 = if q > i64::MAX as u128 {
            i64::MAX
        } else {
            q as i64
        };
        proof {
            lemma_seq_sum_nonneg(self.counts());
        }
        Fx { raw }
    }
}

} // verus!
