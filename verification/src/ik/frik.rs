//! The FRIK solver: a single forward-reaching sweep of rotations.
//!
//! Each step computes globals and sums the positional error; when it is
//! already below epsilon the step returns `Solved` without touching the
//! posture. Otherwise, for each goal whose own error is above epsilon,
//! the pair (current effector position, target position) is queued at
//! the goal's parent, and the upward walk rotates each dequeued bone by
//! the shortest arc from local effector to local target, prepending the
//! inverse rotation to the bone's children so their world orientations
//! are preserved, then queues the residual target at the parent.

use vstd::prelude::*;

use crate::geom::{Iso3, Quat, Vec3};
use crate::ik::{
    deque, enque, lemma_enqueued_on_chain, lemma_goal_chain_closed, lemma_remaining_on_chain,
    max2, near_goal_chain, on_goal_chain, queue_below, queue_bound, queue_sorted, reset_buffer,
    total_error_s, upsert_goal_s, GoalSet, IkGoal, IkSolver, PairItem, StepResult,
};
use crate::num::Fx;
use crate::skelly::{
    children_upto, fk_at, lemma_children_upto_bounds, lemma_children_upto_parent, parent_ok,
    up_chain, Posture, Skelly,
};

verus! {

/// The rotation applied at a dequeued bone: the shortest arc carrying
/// the local effector onto the local target, or no rotation at all
/// where that arc is undefined.
pub open spec fn sweep_rotation_s(eff_local: Vec3, tgt_local: Vec3) -> Quat {
    match crate::geom::rotation_between_s(eff_local, tgt_local) {
        Some(q) => q,
        None => crate::geom::quat_identity_s(),
    }
}

fn sweep_rotation(eff_local: Vec3, tgt_local: Vec3) -> (r: Quat)
    ensures
        r == sweep_rotation_s(eff_local, tgt_local),
{
    match Quat::rotation_between(eff_local, tgt_local) {
        Some(q) => q,
        None => Quat::identity(),
    }
}

/// A forward-reaching rotation solver over position goals.
#[derive(Clone)]
pub struct FrikSolver {
    epsilon: Fx,
    goals: GoalSet,
    // Scratch buffers, cleared and reused every step.
    forward_queue: Vec<PairItem>,
    globals: Vec<Iso3>,
}

impl FrikSolver {
    pub closed spec fn epsilon_s(self) -> Fx {
        self.epsilon
    }

    pub closed spec fn goals_s(self) -> Seq<IkGoal> {
        self.goals.goals()
    }

    pub closed spec fn min_len_s(self) -> int {
        self.goals.min_len_spec()
    }

    pub closed spec fn wf(self) -> bool {
        self.goals.wf() && queue_sorted(self.forward_queue@)
    }

    /// Returns a new solver with maximum tolerable error `epsilon`.
    pub fn new(epsilon: Fx) -> (r: Self)
        ensures
            r.wf(),
            r.epsilon_s() == epsilon,
            r.goals_s() == Seq::<IkGoal>::empty(),
            r.min_len_s() == 0,
    {
        FrikSolver { epsilon, goals: GoalSet::new(), forward_queue: Vec::new(), globals: Vec::new() }
    }

    /// Sets or overwrites the position goal for `bone`.
    pub fn set_position_goal(&mut self, bone: usize, position: Vec3)
        requires
            old(self).wf(),
            bone < usize::MAX,
        ensures
            final(self).wf(),
            final(self).epsilon_s() == old(self).epsilon_s(),
            final(self).goals_s() == upsert_goal_s(old(self).goals_s(), bone, Some(position), None),
            final(self).min_len_s() == max2(old(self).min_len_s(), bone as int + 1),
    {
        self.goals.upsert(bone, Some(position), None);
    }

    /// Sets or overwrites the orientation goal for `bone` (stored, but
    /// not acted on by this position-based solver).
    pub fn set_orientation_goal(&mut self, bone: usize, orientation: Quat)
        requires
            old(self).wf(),
            bone < usize::MAX,
        ensures
            final(self).wf(),
            final(self).epsilon_s() == old(self).epsilon_s(),
            final(self).goals_s() == upsert_goal_s(
                old(self).goals_s(),
                bone,
                None,
                Some(orientation),
            ),
            final(self).min_len_s() == max2(old(self).min_len_s(), bone as int + 1),
    {
        self.goals.upsert(bone, None, Some(orientation));
    }

    /// Performs one step. Returns `Solved`, leaving the posture
    /// untouched, exactly when the aggregate positional error of the
    /// incoming posture is below epsilon; otherwise applies one
    /// rotation per visited ancestor (never moving any joint's position
    /// relative to its parent) and returns `Unsolved`.
    pub fn solve_step<D>(&mut self, skelly: &Skelly<D>, posture: &mut Posture) -> (r: StepResult)
        requires
            old(self).wf(),
            skelly.wf(),
            old(posture).spec_len() == skelly.spec_len(),
            old(self).min_len_s() <= skelly.spec_len() as int,
        ensures
            final(self).wf(),
            final(self).epsilon_s() == old(self).epsilon_s(),
            final(self).goals_s() == old(self).goals_s(),
            final(self).min_len_s() == old(self).min_len_s(),
            final(posture).spec_len() == old(posture).spec_len(),
            r != StepResult::Infeasible,
            (r == StepResult::Solved) <==> total_error_s(
                skelly.parents(),
                old(posture).joints_seq(),
                old(self).goals_s(),
            ).raw < old(self).epsilon_s().raw,
            r == StepResult::Solved ==> *final(posture) == *old(posture),
            forall|i: int|
                0 <= i < old(posture).spec_len() ==> (#[trigger] final(posture).joints_seq()[i]).translation
                    == old(posture).joints_seq()[i].translation,
            forall|i: int|
                0 <= i < old(posture).spec_len() && !near_goal_chain(
                    skelly.parents(),
                    old(self).goals_s(),
                    i as usize,
                ) ==> #[trigger] final(posture).joints_seq()[i] == old(posture).joints_seq()[i],
    {
        let n = skelly.len();
        self.forward_queue.clear();
        reset_buffer(&mut self.globals, n);
        let world = Iso3::identity();
        posture.write_globals(skelly, &world, &mut self.globals);

        let gcount = self.goals.count();
        let mut total_error = Fx::zero();
        let mut gi: usize = 0;
        while gi < gcount
            invariant
                self.epsilon == old(self).epsilon,
                self.goals == old(self).goals,
                self.forward_queue@.len() == 0,
                *posture == *old(posture),
                self.wf(),
                n == skelly.spec_len(),
                posture.spec_len() == n,
                self.min_len_s() <= n,
                gcount == self.goals_s().len(),
                gi <= gcount,
                self.globals@.len() == n,
                forall|i: int|
                    0 <= i < n ==> self.globals@[i] == fk_at(
                        skelly.parents(),
                        posture.joints_seq(),
                        crate::geom::iso_identity_s(),
                        i,
                    ),
                total_error == total_error_s(
                    skelly.parents(),
                    posture.joints_seq(),
                    self.goals_s().take(gi as int),
                ),
            decreases gcount - gi,
        {
            let g = self.goals.get(gi);
            let err = match g.position {
                Some(p) => {
                    proof {
                        assert(self.goals.wf());
                        assert(self.goals_s()[gi as int].bone < self.min_len_s());
                    }
                    let eff = self.globals[g.bone].translation;
                    p.dist(eff)
                },
                None => Fx::zero(),
            };
            total_error = total_error.add(err);
            proof {
                let goals = self.goals_s();
                assert(goals.take(gi + 1).drop_last() =~= goals.take(gi as int));
                assert(goals.take(gi + 1).last() == goals[gi as int]);
            }
            gi += 1;
        }
        proof {
            assert(self.goals_s().take(gcount as int) =~= self.goals_s());
        }

        if total_error.lt(self.epsilon) {
            return StepResult::Solved;
        }

        // Queue (effector, target) at the parent of each goal whose own
        // error is above epsilon.
        let mut gi: usize = 0;
        while gi < gcount
            invariant
                self.epsilon == old(self).epsilon,
                self.goals == old(self).goals,
                *posture == *old(posture),
                self.wf(),
                n == skelly.spec_len(),
                skelly.wf(),
                posture.spec_len() == n,
                self.min_len_s() <= n,
                gcount == self.goals_s().len(),
                gi <= gcount,
                self.globals@.len() == n,
                queue_sorted(self.forward_queue@),
                queue_below(self.forward_queue@, n as int),
                forall|k: int|
                    0 <= k < self.forward_queue@.len() ==> on_goal_chain(
                        skelly.parents(),
                        self.goals_s(),
                        (#[trigger] self.forward_queue@[k]).bone,
                    ),
            decreases gcount - gi,
        {
            let g = self.goals.get(gi);
            match g.position {
                Some(p) => {
                    proof {
                        assert(self.goals.wf());
                        assert(self.goals_s()[gi as int].bone < self.min_len_s());
                        assert(parent_ok(skelly.parents(), g.bone as int));
                    }
                    let eff = self.globals[g.bone].translation;
                    let err = p.dist(eff);
                    if self.epsilon.lt(err) {
                        match skelly.get_parent(g.bone) {
                            Some(parent) => {
                                let ghost qmid = self.forward_queue@;
                                enque(&mut self.forward_queue, parent, eff, p);
                                proof {
                                    let parents = skelly.parents();
                                    let goals = self.goals_s();
                                    assert(up_chain(parents, g.bone as int) == seq![parent]
                                        + up_chain(parents, parent as int));
                                    assert(up_chain(parents, g.bone as int)[0] == parent);
                                    assert(up_chain(parents, g.bone as int).contains(parent));
                                    assert(goals[gi as int].position is Some && up_chain(
                                        parents,
                                        goals[gi as int].bone as int,
                                    ).contains(parent));
                                    assert(on_goal_chain(parents, goals, parent));
                                    lemma_enqueued_on_chain(
                                        qmid,
                                        self.forward_queue@,
                                        PairItem { bone: parent, a: eff, b: p },
                                        parents,
                                        goals,
                                    );
                                }
                            },
                            None => {},
                        }
                    }
                },
                None => {},
            }
            gi += 1;
        }

        // Walk toward the roots: rotate each dequeued bone, compensate
        // its children, and queue the residual at its parent.
        loop
            invariant
                self.epsilon == old(self).epsilon,
                self.goals == old(self).goals,
                self.wf(),
                n == skelly.spec_len(),
                skelly.wf(),
                posture.spec_len() == n,
                self.globals@.len() == n,
                queue_sorted(self.forward_queue@),
                queue_below(self.forward_queue@, n as int),
                forall|k: int|
                    0 <= k < self.forward_queue@.len() ==> on_goal_chain(
                        skelly.parents(),
                        old(self).goals_s(),
                        (#[trigger] self.forward_queue@[k]).bone,
                    ),
                forall|i: int|
                    0 <= i < n ==> (#[trigger] posture.joints_seq()[i]).translation == old(
                        posture,
                    ).joints_seq()[i].translation,
                forall|i: int|
                    0 <= i < n && !near_goal_chain(
                        skelly.parents(),
                        old(self).goals_s(),
                        i as usize,
                    ) ==> #[trigger] posture.joints_seq()[i] == old(posture).joints_seq()[i],
            ensures
                self.epsilon == old(self).epsilon,
                self.goals == old(self).goals,
                self.wf(),
                posture.spec_len() == n,
                forall|i: int|
                    0 <= i < n ==> (#[trigger] posture.joints_seq()[i]).translation == old(
                        posture,
                    ).joints_seq()[i].translation,
                forall|i: int|
                    0 <= i < n && !near_goal_chain(
                        skelly.parents(),
                        old(self).goals_s(),
                        i as usize,
                    ) ==> #[trigger] posture.joints_seq()[i] == old(posture).joints_seq()[i],
            decreases queue_bound(self.forward_queue@),
        {
            let ghost qpre = self.forward_queue@;
            let item = deque(&mut self.forward_queue);
            let (bone, effector, target) = match item {
                None => { break; },
                Some(t) => t,
            };
            proof {
                assert(qpre.len() > 0);
                assert(bone == qpre.last().bone);
                assert(qpre[qpre.len() - 1].bone < n);
                assert(queue_bound(self.forward_queue@) < queue_bound(qpre));
                assert(on_goal_chain(skelly.parents(), old(self).goals_s(), bone));
                lemma_remaining_on_chain(
                    qpre,
                    self.forward_queue@,
                    skelly.parents(),
                    old(self).goals_s(),
                );
            }
            let global = self.globals[bone];
            let eff_local = global.inv_transform(effector);
            let tgt_local = global.inv_transform(target);
            let q = sweep_rotation(eff_local, tgt_local);
            posture.append_rotation(bone, q);

            // Prepend the inverse rotation to every child so sibling
            // branches keep their world orientation.
            let qc = q.conj();
            let children = skelly.iter_children(bone);
            proof {
                lemma_children_upto_bounds(skelly.parents(), bone, n as int);
                lemma_children_upto_parent(skelly.parents(), bone, n as int);
            }
            let ccount = children.len();
            let mut ci: usize = 0;
            while ci < ccount
                invariant
                    children@ == children_upto(skelly.parents(), bone, n as int),
                    ccount == children@.len(),
                    forall|k: int|
                        0 <= k < children@.len() ==> (#[trigger] children@[k] as int) < n,
                    forall|k: int|
                        0 <= k < children@.len() ==> skelly.parents()[#[trigger] children@[k] as int]
                            == Some(bone),
                    n == skelly.spec_len(),
                    on_goal_chain(skelly.parents(), old(self).goals_s(), bone),
                    ci <= ccount,
                    posture.spec_len() == n,
                    forall|i: int|
                        0 <= i < n ==> (#[trigger] posture.joints_seq()[i]).translation == old(
                            posture,
                        ).joints_seq()[i].translation,
                    forall|i: int|
                        0 <= i < n && !near_goal_chain(
                            skelly.parents(),
                            old(self).goals_s(),
                            i as usize,
                        ) ==> #[trigger] posture.joints_seq()[i] == old(posture).joints_seq()[i],
                decreases ccount - ci,
            {
                let child = children[ci];
                proof {
                    assert(skelly.parents()[child as int] == Some(bone));
                    assert(near_goal_chain(skelly.parents(), old(self).goals_s(), child));
                }
                let rot = posture.get_orientation(child);
                posture.set_orientation(child, qc.mul(rot));
                ci += 1;
            }

            let new_eff_local = q.rotate(eff_local);
            let new_tgt_local = tgt_local.sub(new_eff_local);
            proof {
                assert(parent_ok(skelly.parents(), bone as int));
            }
            match skelly.get_parent(bone) {
                Some(parent) => {
                    let ghost qmid = self.forward_queue@;
                    let next_target = global.transform(new_tgt_local);
                    enque(&mut self.forward_queue, parent, global.translation, next_target);
                    proof {
                        assert(queue_bound(self.forward_queue@) == max2(
                            queue_bound(qmid),
                            parent as int + 1,
                        ));
                        assert(queue_bound(self.forward_queue@) < queue_bound(qpre));
                        lemma_goal_chain_closed(
                            skelly.parents(),
                            old(self).goals_s(),
                            bone,
                            parent,
                        );
                        lemma_enqueued_on_chain(
                            qmid,
                            self.forward_queue@,
                            PairItem { bone: parent, a: global.translation, b: next_target },
                            skelly.parents(),
                            old(self).goals_s(),
                        );
                    }
                },
                None => {},
            }
        }
        StepResult::Unsolved
    }
}

impl<D> IkSolver<D> for FrikSolver {
    open spec fn solver_wf(&self) -> bool {
        self.wf()
    }

    open spec fn epsilon_spec(&self) -> Fx {
        self.epsilon_s()
    }

    open spec fn goals_spec(&self) -> Seq<IkGoal> {
        self.goals_s()
    }

    open spec fn min_len_spec(&self) -> int {
        self.min_len_s()
    }

    fn new(error: Fx) -> Self {
        FrikSolver::new(error)
    }

    fn set_position_goal(&mut self, bone: usize, position: Vec3) {
        FrikSolver::set_position_goal(self, bone, position)
    }

    fn set_orientation_goal(&mut self, bone: usize, orientation: Quat) {
        FrikSolver::set_orientation_goal(self, bone, orientation)
    }

    fn solve_step(&mut self, skelly: &Skelly<D>, posture: &mut Posture) -> StepResult {
        FrikSolver::solve_step(self, skelly, posture)
    }
}

} // verus!
