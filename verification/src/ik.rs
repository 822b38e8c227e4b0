//! Inverse kinematics over a bone tree.
//!
//! The three solvers ([`fabrik`], [`frik`], [`rotor`]) share one
//! interface ([`IkSolver`]), one goal store and one traversal primitive:
//! a merge queue kept sorted by bone index, whose dequeue pops the
//! highest-index group of entries and averages the payloads, so a bone
//! with several pending contributions is processed exactly once per
//! upward sweep.

pub mod fabrik;
pub mod frik;
pub mod rotor;

use vstd::prelude::*;

use crate::geom::{iso_identity_s, v3_add_s, v3_dist_s, v3_div_n_s, Iso3, Quat, Vec3};
use crate::num::{fx_add_s, Fx};
use crate::skelly::{fk_at, parents_wf, up_chain, Posture, Skelly};

verus! {

/// The outcome of one solver step.
#[derive(Clone, Copy, Debug, PartialEq, Eq, Structural, Hash)]
pub enum StepResult {
    /// The aggregate positional error over all goals is below the
    /// solver's epsilon.
    Solved,
    /// The error is still at or above epsilon.
    Unsolved,
    /// Reserved for constraint-infeasibility detection; no solver
    /// currently returns it.
    Infeasible,
}

/// A desired world-space position and/or orientation for one bone.
#[derive(Clone, Copy, Debug)]
pub struct IkGoal {
    pub bone: usize,
    pub position: Option<Vec3>,
    pub orientation: Option<Quat>,
}

pub open spec fn max2(a: int, b: int) -> int {
    if a >= b {
        a
    } else {
        b
    }
}

/// The index of the first goal for `bone`, or `-1` when there is none.
pub open spec fn find_goal(goals: Seq<IkGoal>, bone: usize) -> int
    decreases goals.len(),
{
    if goals.len() == 0 {
        -1
    } else if goals[0].bone == bone {
        0
    } else {
        let r = find_goal(goals.skip(1), bone);
        if r == -1 {
            -1
        } else {
            r + 1
        }
    }
}

/// A goal whose present fields are overwritten and absent fields kept.
pub open spec fn merged_goal(g: IkGoal, position: Option<Vec3>, orientation: Option<Quat>) -> IkGoal {
    IkGoal {
        bone: g.bone,
        position: if position is Some {
            position
        } else {
            g.position
        },
        orientation: if orientation is Some {
            orientation
        } else {
            g.orientation
        },
    }
}

/// Setting a goal overwrites the first goal for the same bone in place,
/// or appends a new one.
pub open spec fn upsert_goal_s(
    goals: Seq<IkGoal>,
    bone: usize,
    position: Option<Vec3>,
    orientation: Option<Quat>,
) -> Seq<IkGoal> {
    let j = find_goal(goals, bone);
    if j >= 0 {
        goals.update(j, merged_goal(goals[j], position, orientation))
    } else {
        goals.push(IkGoal { bone, position, orientation })
    }
}

proof fn lemma_find_goal_nonneg(goals: Seq<IkGoal>, bone: usize)
    ensures
        find_goal(goals, bone) == -1 || find_goal(goals, bone) >= 0,
    decreases goals.len(),
{
    if goals.len() > 0 && goals[0].bone != bone {
        lemma_find_goal_nonneg(goals.skip(1), bone);
    }
}

proof fn lemma_find_goal_skip(goals: Seq<IkGoal>, bone: usize, j: int)
    requires
        0 <= j <= goals.len(),
        forall|k: int| 0 <= k < j ==> (#[trigger] goals[k]).bone != bone,
    ensures
        find_goal(goals, bone) == if find_goal(goals.skip(j), bone) == -1 {
            -1
        } else {
            find_goal(goals.skip(j), bone) + j
        },
    decreases j,
{
    if j == 0 {
        assert(goals.skip(0) =~= goals);
    } else {
        assert(goals[0].bone != bone);
        assert(goals.len() > 0);
        assert forall|k: int| 0 <= k < j - 1 implies (#[trigger] goals.skip(1)[k]).bone
            != bone by {
            assert(goals.skip(1)[k] == goals[k + 1]);
        }
        lemma_find_goal_skip(goals.skip(1), bone, j - 1);
        assert(goals.skip(1).skip(j - 1) =~= goals.skip(j));
        lemma_find_goal_nonneg(goals.skip(j), bone);
        lemma_find_goal_nonneg(goals.skip(1), bone);
    }
}

/// The per-solver goal store: the goal list together with the smallest
/// tree length for which every stored goal is a valid bone index.
#[derive(Clone)]
pub(crate) struct GoalSet {
    items: Vec<IkGoal>,
    min_len: usize,
}

impl GoalSet {
    pub closed spec fn goals(self) -> Seq<IkGoal> {
        self.items@
    }

    pub closed spec fn min_len_spec(self) -> int {
        self.min_len as int
    }

    pub open spec fn wf(self) -> bool {
        forall|k: int|
            0 <= k < self.goals().len() ==> (#[trigger] self.goals()[k]).bone < self.min_len_spec()
    }

    pub fn new() -> (r: GoalSet)
        ensures
            r.goals() == Seq::<IkGoal>::empty(),
            r.min_len_spec() == 0,
            r.wf(),
    {
        GoalSet { items: Vec::new(), min_len: 0 }
    }

    pub fn min_len(&self) -> (r: usize)
        ensures
            r == self.min_len_spec(),
    {
        self.min_len
    }

    pub fn count(&self) -> (r: usize)
        ensures
            r == self.goals().len(),
    {
        self.items.len()
    }

    pub fn get(&self, k: usize) -> (r: IkGoal)
        requires
            k < self.goals().len(),
        ensures
            r == self.goals()[k as int],
    {
        self.items[k]
    }

    /// Overwrites the first goal for `bone` (keeping fields that are not
    /// given), or appends a new goal; raises `min_len` to cover `bone`.
    pub fn upsert(&mut self, bone: usize, position: Option<Vec3>, orientation: Option<Quat>)
        requires
            bone < usize::MAX,
        ensures
            final(self).goals() == upsert_goal_s(old(self).goals(), bone, position, orientation),
            final(self).min_len_spec() == max2(old(self).min_len_spec(), bone as int + 1),
            old(self).wf() ==> final(self).wf(),
    {
        let ghost goals0 = self.items@;
        let n = self.items.len();
        let mut j: usize = 0;
        let mut found = false;
        while j < n && !found
            invariant
                n == goals0.len(),
                self.items@ == goals0,
                j <= n,
                !found ==> forall|k: int| 0 <= k < j ==> (#[trigger] goals0[k]).bone != bone,
                found ==> j < n && goals0[j as int].bone == bone && forall|k: int|
                    0 <= k < j ==> (#[trigger] goals0[k]).bone != bone,
            decreases n - j + if found {
                0int
            } else {
                1int
            },
        {
            if self.items[j].bone == bone {
                found = true;
            } else {
                j += 1;
            }
        }
        if found {
            proof {
                lemma_find_goal_skip(goals0, bone, j as int);
                assert(goals0.skip(j as int)[0] == goals0[j as int]);
                assert(find_goal(goals0, bone) == j as int);
            }
            let g = self.items[j];
            let merged = IkGoal {
                bone: g.bone,
                position: match position {
                    Some(p) => Some(p),
                    None => g.position,
                },
                orientation: match orientation {
                    Some(o) => Some(o),
                    None => g.orientation,
                },
            };
            self.items[j] = merged;
            proof {
                assert(merged == merged_goal(goals0[j as int], position, orientation));
            }
        } else {
            proof {
                lemma_find_goal_skip(goals0, bone, n as int);
                assert(goals0.skip(n as int) =~= Seq::<IkGoal>::empty());
                assert(find_goal(goals0, bone) == -1);
            }
            self.items.push(IkGoal { bone, position, orientation });
        }
        if bone + 1 > self.min_len {
            self.min_len = bone + 1;
        }
    }
}

/// Whether bone `b` lies on the correction path of some position goal:
/// a goal bone itself, or an ancestor of one. The solvers promise to
/// leave every joint off these paths untouched (FRIK additionally
/// adjusts the direct children of path bones).
pub open spec fn on_goal_chain(
    parents: Seq<Option<usize>>,
    goals: Seq<IkGoal>,
    b: usize,
) -> bool {
    exists|k: int|
        0 <= k < goals.len() && (#[trigger] goals[k]).position is Some && (goals[k].bone == b
            || up_chain(parents, goals[k].bone as int).contains(b))
}

/// Whether bone `b` is on a goal chain or a direct child of a bone
/// that is.
pub open spec fn near_goal_chain(
    parents: Seq<Option<usize>>,
    goals: Seq<IkGoal>,
    b: usize,
) -> bool {
    on_goal_chain(parents, goals, b) || (0 <= b < parents.len() && match parents[b as int] {
        Some(p) => on_goal_chain(parents, goals, p),
        None => false,
    })
}

proof fn lemma_up_chain_parent(parents: Seq<Option<usize>>, x: int, b: usize, p: usize)
    requires
        parents_wf(parents),
        0 <= x < parents.len(),
        up_chain(parents, x).contains(b),
        b < parents.len(),
        parents[b as int] == Some(p),
    ensures
        up_chain(parents, x).contains(p),
    decreases x,
{
    assert(crate::skelly::parent_ok(parents, x));
    let chain = up_chain(parents, x);
    match parents[x] {
        Some(px) => {
            assert(chain == seq![px] + up_chain(parents, px as int));
            assert(chain[0] == px);
            if b == px {
                assert(crate::skelly::parent_ok(parents, px as int));
                let sub = up_chain(parents, px as int);
                assert(sub == seq![p] + up_chain(parents, p as int));
                assert(sub[0] == p);
                assert(chain[1] == p);
                assert(chain.contains(p));
            } else {
                let i = choose|i: int| 0 <= i < chain.len() && chain[i] == b;
                assert(i >= 1);
                assert(up_chain(parents, px as int)[i - 1] == b);
                assert(up_chain(parents, px as int).contains(b));
                lemma_up_chain_parent(parents, px as int, b, p);
                let j = choose|j: int|
                    0 <= j < up_chain(parents, px as int).len() && up_chain(parents, px as int)[j]
                        == p;
                assert(chain[j + 1] == p);
                assert(chain.contains(p));
            }
        },
        None => {
            assert(chain.len() == 0);
        },
    }
}

/// Goal chains are closed under taking parents: the parent of a bone
/// on some goal's correction path is on that path too.
pub proof fn lemma_goal_chain_closed(
    parents: Seq<Option<usize>>,
    goals: Seq<IkGoal>,
    b: usize,
    p: usize,
)
    requires
        parents_wf(parents),
        b < parents.len(),
        parents[b as int] == Some(p),
        on_goal_chain(parents, goals, b),
    ensures
        on_goal_chain(parents, goals, p),
{
    let k = choose|k: int|
        0 <= k < goals.len() && (#[trigger] goals[k]).position is Some && (goals[k].bone == b
            || up_chain(parents, goals[k].bone as int).contains(b));
    if goals[k].bone == b {
        assert(crate::skelly::parent_ok(parents, b as int));
        let chain = up_chain(parents, b as int);
        assert(chain == seq![p] + up_chain(parents, p as int));
        assert(chain[0] == p);
        assert(chain.contains(p));
        assert(goals[k].position is Some && up_chain(parents, goals[k].bone as int).contains(p));
    } else {
        lemma_up_chain_parent(parents, goals[k].bone as int, b, p);
        assert(goals[k].position is Some && up_chain(parents, goals[k].bone as int).contains(p));
    }
}

/// Queue elements drawn from a queue of on-chain entries, plus one new
/// on-chain entry, are all on-chain.
pub(crate) proof fn lemma_enqueued_on_chain(
    qpre: Seq<PairItem>,
    qpost: Seq<PairItem>,
    item: PairItem,
    parents: Seq<Option<usize>>,
    goals: Seq<IkGoal>,
)
    requires
        forall|k: int|
            0 <= k < qpre.len() ==> on_goal_chain(parents, goals, (#[trigger] qpre[k]).bone),
        on_goal_chain(parents, goals, item.bone),
        forall|k: int| 0 <= k < qpost.len() ==> qpost[k] == item || qpre.contains(
            #[trigger] qpost[k],
        ),
    ensures
        forall|k: int|
            0 <= k < qpost.len() ==> on_goal_chain(parents, goals, (#[trigger] qpost[k]).bone),
{
    assert forall|k: int| 0 <= k < qpost.len() implies on_goal_chain(
        parents,
        goals,
        (#[trigger] qpost[k]).bone,
    ) by {
        if qpost[k] != item {
            let j = choose|j: int| 0 <= j < qpre.len() && qpre[j] == qpost[k];
            assert(on_goal_chain(parents, goals, qpre[j].bone));
        }
    }
}

/// Queue elements drawn from a queue of on-chain entries are on-chain.
pub(crate) proof fn lemma_remaining_on_chain(
    qpre: Seq<PairItem>,
    qpost: Seq<PairItem>,
    parents: Seq<Option<usize>>,
    goals: Seq<IkGoal>,
)
    requires
        forall|k: int|
            0 <= k < qpre.len() ==> on_goal_chain(parents, goals, (#[trigger] qpre[k]).bone),
        forall|k: int| 0 <= k < qpost.len() ==> qpre.contains(#[trigger] qpost[k]),
    ensures
        forall|k: int|
            0 <= k < qpost.len() ==> on_goal_chain(parents, goals, (#[trigger] qpost[k]).bone),
{
    assert forall|k: int| 0 <= k < qpost.len() implies on_goal_chain(
        parents,
        goals,
        (#[trigger] qpost[k]).bone,
    ) by {
        let j = choose|j: int| 0 <= j < qpre.len() && qpre[j] == qpost[k];
        assert(on_goal_chain(parents, goals, qpre[j].bone));
    }
}

/// The positional error of one goal: the distance from the goal point
/// to its bone's global position (zero for orientation-only goals).
pub open spec fn goal_pos_error_s(
    parents: Seq<Option<usize>>,
    locals: Seq<Iso3>,
    g: IkGoal,
) -> Fx {
    match g.position {
        Some(p) => v3_dist_s(p, fk_at(parents, locals, iso_identity_s(), g.bone as int).translation),
        None => Fx { raw: 0 },
    }
}

/// The aggregate positional error over a goal list, accumulated in
/// order with saturating addition.
pub open spec fn total_error_s(
    parents: Seq<Option<usize>>,
    locals: Seq<Iso3>,
    goals: Seq<IkGoal>,
) -> Fx
    decreases goals.len(),
{
    if goals.len() == 0 {
        Fx { raw: 0 }
    } else {
        fx_add_s(
            total_error_s(parents, locals, goals.drop_last()),
            goal_pos_error_s(parents, locals, goals.last()),
        )
    }
}

/// One pending contribution of an upward sweep: a pair of points (or a
/// translation in the first slot) targeted at `bone`.
#[derive(Clone, Copy, Debug)]
pub struct PairItem {
    pub bone: usize,
    pub a: Vec3,
    pub b: Vec3,
}

/// Sorted by bone index, so all entries for one bone are adjacent and
/// the highest-index group sits at the tail.
pub open spec fn queue_sorted(q: Seq<PairItem>) -> bool {
    forall|x: int, y: int| 0 <= x < y < q.len() ==> (#[trigger] q[x]).bone <= (#[trigger] q[y]).bone
}

/// Every queued bone index is below `n`.
pub open spec fn queue_below(q: Seq<PairItem>, n: int) -> bool {
    forall|k: int| 0 <= k < q.len() ==> (#[trigger] q[k]).bone < n
}

/// A strict upper bound on all queued bone indices; the termination
/// measure of the upward sweeps.
pub open spec fn queue_bound(q: Seq<PairItem>) -> int {
    if q.len() == 0 {
        0
    } else {
        q.last().bone + 1
    }
}

/// The length of the maximal tail group of entries sharing one bone.
pub open spec fn run_len(q: Seq<PairItem>) -> int
    decreases q.len(),
{
    if q.len() == 0 {
        0
    } else if q.len() == 1 {
        1
    } else if q[q.len() - 2].bone == q.last().bone {
        1 + run_len(q.drop_last())
    } else {
        1
    }
}

/// The saturating sum of the `a` payloads of the last `g` entries,
/// accumulated from the tail forward (the dequeue order).
pub open spec fn suffix_sum_a(q: Seq<PairItem>, g: int) -> Vec3
    decreases g,
{
    if g <= 0 {
        Vec3 { x: Fx { raw: 0 }, y: Fx { raw: 0 }, z: Fx { raw: 0 } }
    } else if g == 1 {
        q[q.len() - 1].a
    } else {
        v3_add_s(suffix_sum_a(q, g - 1), q[q.len() - g].a)
    }
}

/// The saturating sum of the `b` payloads of the last `g` entries.
pub open spec fn suffix_sum_b(q: Seq<PairItem>, g: int) -> Vec3
    decreases g,
{
    if g <= 0 {
        Vec3 { x: Fx { raw: 0 }, y: Fx { raw: 0 }, z: Fx { raw: 0 } }
    } else if g == 1 {
        q[q.len() - 1].b
    } else {
        v3_add_s(suffix_sum_b(q, g - 1), q[q.len() - g].b)
    }
}

proof fn lemma_run_len_props(q: Seq<PairItem>)
    requires
        q.len() > 0,
    ensures
        1 <= run_len(q) <= q.len(),
        forall|k: int|
            q.len() - run_len(q) <= k < q.len() ==> (#[trigger] q[k]).bone == q.last().bone,
        run_len(q) < q.len() ==> q[q.len() - run_len(q) - 1].bone != q.last().bone,
    decreases q.len(),
{
    if q.len() == 1 {
    } else if q[q.len() - 2].bone == q.last().bone {
        let qd = q.drop_last();
        lemma_run_len_props(qd);
        assert(qd.last() == q[q.len() - 2]);
        assert(run_len(q) == 1 + run_len(qd));
        assert forall|k: int|
            q.len() - run_len(q) <= k < q.len() implies (#[trigger] q[k]).bone
            == q.last().bone by {
            if k < q.len() - 1 {
                assert(q[k] == qd[k]);
            }
        }
        if run_len(q) < q.len() {
            assert(q[q.len() - run_len(q) - 1] == qd[qd.len() - run_len(qd) - 1]);
        }
    } else {
    }
}

proof fn lemma_run_len_is(q: Seq<PairItem>, c: int)
    requires
        1 <= c <= q.len(),
        forall|k: int| q.len() - c <= k < q.len() ==> (#[trigger] q[k]).bone == q.last().bone,
        c < q.len() ==> q[q.len() - c - 1].bone != q.last().bone,
    ensures
        run_len(q) == c,
    decreases c,
{
    if c == 1 {
        if q.len() >= 2 {
            assert(q[q.len() - 2].bone != q.last().bone);
        }
    } else {
        assert(q[q.len() - 2].bone == q.last().bone);
        let qd = q.drop_last();
        assert(qd.last() == q[q.len() - 2]);
        assert(forall|k: int|
            qd.len() - (c - 1) <= k < qd.len() ==> (#[trigger] qd[k]).bone == qd.last().bone);
        lemma_run_len_is(qd, c - 1);
    }
}

/// Inserts a contribution keeping the queue sorted (binary-search
/// insertion after any existing entries for the same bone).
pub(crate) fn enque(queue: &mut Vec<PairItem>, bone: usize, a: Vec3, b: Vec3)
    requires
        queue_sorted(old(queue)@),
    ensures
        queue_sorted(final(queue)@),
        final(queue)@.len() == old(queue)@.len() + 1,
        exists|i: int|
            {
                &&& 0 <= i <= old(queue)@.len()
                &&& (forall|k: int| 0 <= k < i ==> (#[trigger] old(queue)@[k]).bone <= bone)
                &&& (forall|k: int|
                    i <= k < old(queue)@.len() ==> (#[trigger] old(queue)@[k]).bone > bone)
                &&& final(queue)@ == old(queue)@.insert(i, PairItem { bone, a, b })
            },
        queue_bound(final(queue)@) == max2(queue_bound(old(queue)@), bone as int + 1),
        forall|n: int|
            queue_below(old(queue)@, n) && (bone as int) < n ==> queue_below(final(queue)@, n),
        forall|k: int|
            0 <= k < final(queue)@.len() ==> final(queue)@[k] == (PairItem { bone, a, b }) || old(
                queue,
            )@.contains(#[trigger] final(queue)@[k]),
{
    let ghost q0 = queue@;
    let mut lo: usize = 0;
    let mut hi: usize = queue.len();
    while lo < hi
        invariant
            queue@ == q0,
            queue_sorted(q0),
            lo <= hi <= q0.len(),
            forall|k: int| 0 <= k < lo ==> (#[trigger] q0[k]).bone <= bone,
            forall|k: int| hi <= k < q0.len() ==> (#[trigger] q0[k]).bone > bone,
        decreases hi - lo,
    {
        let mid = lo + (hi - lo) / 2;
        if queue[mid].bone <= bone {
            lo = mid + 1;
        } else {
            hi = mid;
        }
    }
    queue.insert(lo, PairItem { bone, a, b });
    proof {
        let q1 = queue@;
        let item = PairItem { bone, a, b };
        q0.insert_ensures(lo as int, item);
        assert forall|x: int, y: int| 0 <= x < y < q1.len() implies (#[trigger] q1[x]).bone <= (
        #[trigger] q1[y]).bone by {
            let xo = if x < lo { x } else { x - 1 };
            let yo = if y < lo { y } else { y - 1 };
            if x == lo as int {
                assert(q1[x].bone == bone);
            }
            if y == lo as int {
                assert(q1[y].bone == bone);
            }
        }
        if q0.len() > 0 && (lo as int) < q0.len() {
            assert(q1.last() == q0.last());
        }
        if lo as int == q0.len() {
            assert(q1.last() == item);
            if q0.len() > 0 {
                assert(q0.last().bone <= bone);
            }
        }
        assert forall|n: int| queue_below(q0, n) && (bone as int) < n implies queue_below(
            q1,
            n,
        ) by {
            assert forall|k: int| 0 <= k < q1.len() implies (#[trigger] q1[k]).bone < n by {
                if k < lo {
                    assert(q1[k] == q0[k]);
                } else if k == lo as int {
                } else {
                    assert(q1[k] == q0[k - 1]);
                }
            }
        }
        assert forall|k: int| 0 <= k < q1.len() implies q1[k] == item || q0.contains(
            #[trigger] q1[k],
        ) by {
            if k < lo {
                assert(q1[k] == q0[k]);
                assert(q0.contains(q1[k]));
            } else if k > lo as int {
                assert(q1[k] == q0[k - 1]);
                assert(q0.contains(q1[k]));
            }
        }
    }
}

/// Pops the whole highest-index group and returns its bone with the
/// arithmetic mean of the group's payloads; `None` on an empty queue.
pub(crate) fn deque(queue: &mut Vec<PairItem>) -> (r: Option<(usize, Vec3, Vec3)>)
    requires
        queue_sorted(old(queue)@),
    ensures
        queue_sorted(final(queue)@),
        old(queue)@.len() == 0 ==> r is None && final(queue)@ == old(queue)@,
        old(queue)@.len() > 0 ==> {
            let q0 = old(queue)@;
            let g = run_len(q0);
            &&& r == Some(
                (
                    q0.last().bone,
                    v3_div_n_s(suffix_sum_a(q0, g), g),
                    v3_div_n_s(suffix_sum_b(q0, g), g),
                ),
            )
            &&& final(queue)@ == q0.take(q0.len() - g)
            &&& queue_bound(final(queue)@) < queue_bound(q0)
        },
        forall|n: int| queue_below(old(queue)@, n) ==> queue_below(final(queue)@, n),
        forall|k: int|
            0 <= k < final(queue)@.len() ==> old(queue)@.contains(#[trigger] final(queue)@[k]),
{
    let ghost q0 = queue@;
    let n0 = queue.len();
    let first = match queue.pop() {
        Some(it) => it,
        None => {
            return None;
        },
    };
    let bone = first.bone;
    let mut count: usize = 1;
    let mut sa = first.a;
    let mut sb = first.b;
    proof {
        assert(first == q0.last());
        assert(queue@ =~= q0.take(q0.len() - 1));
    }
    loop
        invariant
            queue_sorted(q0),
            q0.len() == n0,
            n0 >= 1,
            bone == q0.last().bone,
            1 <= count <= n0,
            queue@ == q0.take(n0 - count),
            sa == suffix_sum_a(q0, count as int),
            sb == suffix_sum_b(q0, count as int),
            forall|k: int| n0 - count <= k < q0.len() ==> (#[trigger] q0[k]).bone == bone,
        ensures
            1 <= count <= n0,
            queue@ == q0.take(n0 - count),
            sa == suffix_sum_a(q0, count as int),
            sb == suffix_sum_b(q0, count as int),
            run_len(q0) == count,
        decreases queue@.len(),
    {
        let len = queue.len();
        if len == 0 {
            proof {
                lemma_run_len_is(q0, count as int);
            }
            break;
        }
        if queue[len - 1].bone != bone {
            proof {
                assert(q0.take(n0 - count)[len - 1] == q0[n0 - count - 1]);
                lemma_run_len_is(q0, count as int);
            }
            break;
        }
        let it = match queue.pop() {
            Some(it) => it,
            None => {
                proof {
                    assert(false);
                }
                return None;
            },
        };
        proof {
            assert(count < n0);
            assert(it == q0.take(n0 - count)[len - 1]);
            assert(it == q0[n0 - (count + 1)]);
            assert(queue@ =~= q0.take(n0 - (count + 1)));
        }
        count = count + 1;
        sa = sa.add(it.a);
        sb = sb.add(it.b);
    }
    proof {
        let q1 = queue@;
        let g = run_len(q0);
        assert(q1 == q0.take(q0.len() - g));
        assert forall|x: int, y: int| 0 <= x < y < q1.len() implies (#[trigger] q1[x]).bone <= (
        #[trigger] q1[y]).bone by {
            assert(q1[x] == q0[x]);
            assert(q1[y] == q0[y]);
        }
        if q1.len() > 0 {
            lemma_run_len_props(q0);
            assert(q1.last() == q0[q0.len() - g - 1]);
            assert(q0[q0.len() - g - 1].bone != bone);
            assert(q0[q0.len() - g - 1].bone <= bone);
            assert(queue_bound(q1) < queue_bound(q0));
        }
        assert forall|n: int| queue_below(q0, n) implies queue_below(q1, n) by {
            assert forall|k: int| 0 <= k < q1.len() implies (#[trigger] q1[k]).bone < n by {
                assert(q1[k] == q0[k]);
            }
        }
        assert forall|k: int| 0 <= k < q1.len() implies q0.contains(#[trigger] q1[k]) by {
            assert(q1[k] == q0[k]);
        }
    }
    Some((bone, sa.div_count(count), sb.div_count(count)))
}

/// Resets a solver's global-transform scratch buffer to `n` identity
/// slots, ready for a forward-kinematics sweep.
pub(crate) fn reset_buffer(buf: &mut Vec<Iso3>, n: usize)
    ensures
        final(buf)@.len() == n,
{
    buf.clear();
    let mut i: usize = 0;
    while i < n
        invariant
            i <= n,
            buf@.len() == i,
        decreases n - i,
    {
        buf.push(Iso3::identity());
        i += 1;
    }
}

/// The merge law for branching joints: when every queued contribution
/// targets the same bone, one dequeue consumes the whole queue, so the
/// bone is processed exactly once, with the payload averaged over all
/// contributions (see [`deque`]).
pub proof fn lemma_same_bone_group_merges(q: Seq<PairItem>)
    requires
        q.len() > 0,
        forall|k: int| 0 <= k < q.len() ==> (#[trigger] q[k]).bone == q.last().bone,
    ensures
        run_len(q) == q.len(),
{
    lemma_run_len_is(q, q.len() as int);
}

/// The two-contribution case of the merge law, written out: dequeuing
/// a queue holding exactly two entries for one bone yields that bone
/// once, with each payload the saturating sum of the two payloads
/// divided by two (see [`deque`] and [`lemma_same_bone_group_merges`]).
pub proof fn lemma_two_contributions_average(i1: PairItem, i2: PairItem)
    requires
        i1.bone == i2.bone,
    ensures
        run_len(seq![i1, i2]) == 2,
        suffix_sum_a(seq![i1, i2], 2) == v3_add_s(i2.a, i1.a),
        suffix_sum_b(seq![i1, i2], 2) == v3_add_s(i2.b, i1.b),
{
    let q = seq![i1, i2];
    assert(q.drop_last() =~= seq![i1]);
    assert(q[0] == i1 && q.last() == i2);
    assert(run_len(seq![i1]) == 1);
    assert(run_len(q) == 1 + run_len(q.drop_last()));
    assert(suffix_sum_a(q, 1) == i2.a);
    assert(suffix_sum_a(q, 2) == v3_add_s(suffix_sum_a(q, 1), q[0].a));
    assert(suffix_sum_b(q, 1) == i2.b);
    assert(suffix_sum_b(q, 2) == v3_add_s(suffix_sum_b(q, 1), q[0].b));
}

/// The common capability contract of the three solvers.
pub trait IkSolver<D>: Sized {
    /// The solver's internal invariant.
    spec fn solver_wf(&self) -> bool;

    /// The configured error tolerance.
    spec fn epsilon_spec(&self) -> Fx;

    /// The stored goals.
    spec fn goals_spec(&self) -> Seq<IkGoal>;

    /// The smallest tree length for which the stored goals are valid.
    spec fn min_len_spec(&self) -> int;

    /// Returns a new solver with maximum tolerable error `error`.
    fn new(error: Fx) -> (r: Self)
        ensures
            r.solver_wf(),
            r.epsilon_spec() == error,
            r.goals_spec() == Seq::<IkGoal>::empty(),
            r.min_len_spec() == 0,
    ;

    /// Sets or overwrites the position goal for `bone`.
    fn set_position_goal(&mut self, bone: usize, position: Vec3)
        requires
            old(self).solver_wf(),
            bone < usize::MAX,
        ensures
            final(self).solver_wf(),
            final(self).epsilon_spec() == old(self).epsilon_spec(),
            final(self).goals_spec() == upsert_goal_s(
                old(self).goals_spec(),
                bone,
                Some(position),
                None,
            ),
            final(self).min_len_spec() == max2(old(self).min_len_spec(), bone as int + 1),
    ;

    /// Sets or overwrites the orientation goal for `bone` (accepted by
    /// the interface; the position-based solvers do not act on it).
    fn set_orientation_goal(&mut self, bone: usize, orientation: Quat)
        requires
            old(self).solver_wf(),
            bone < usize::MAX,
        ensures
            final(self).solver_wf(),
            final(self).epsilon_spec() == old(self).epsilon_spec(),
            final(self).goals_spec() == upsert_goal_s(
                old(self).goals_spec(),
                bone,
                None,
                Some(orientation),
            ),
            final(self).min_len_spec() == max2(old(self).min_len_spec(), bone as int + 1),
    ;

    /// Performs one bounded step toward the goals, mutating `posture`
    /// in place. Only orientations are adjusted — every joint keeps its
    /// position relative to its parent — and only along the goal
    /// chains: a joint neither on the path from a goal bone to its
    /// root nor a direct child of such a path bone is left untouched.
    /// `Infeasible` is never returned.
    fn solve_step(&mut self, skelly: &Skelly<D>, posture: &mut Posture) -> (r: StepResult)
        requires
            old(self).solver_wf(),
            skelly.wf(),
            old(posture).spec_len() == skelly.spec_len(),
            old(self).min_len_spec() <= skelly.spec_len() as int,
        ensures
            final(self).solver_wf(),
            final(self).epsilon_spec() == old(self).epsilon_spec(),
            final(self).goals_spec() == old(self).goals_spec(),
            final(self).min_len_spec() == old(self).min_len_spec(),
            final(posture).spec_len() == old(posture).spec_len(),
            r != StepResult::Infeasible,
            forall|i: int|
                0 <= i < old(posture).spec_len() ==> (#[trigger] final(posture).joints_seq()[i]).translation
                    == old(posture).joints_seq()[i].translation,
            forall|i: int|
                0 <= i < old(posture).spec_len() && !near_goal_chain(
                    skelly.parents(),
                    old(self).goals_spec(),
                    i as usize,
                ) ==> #[trigger] final(posture).joints_seq()[i] == old(posture).joints_seq()[i],
    ;
}

} // verus!
