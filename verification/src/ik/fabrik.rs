//! The FABRIK solver: two rotations per joint, driven by translations.
//!
//! Each step queues, at every goal bone, the translation that would
//! carry it exactly onto its target, then walks toward the roots: for a
//! request at bone B with parent P it finds the shortest-arc rotation
//! of P that carries B's current offset onto the requested one, applies
//! that rotation to P and its inverse to B, and queues the residual
//! translation at P. A symmetric root-to-leaf re-settling pass is a
//! possible extension of this design; this solver performs the upward
//! pass only. The step ends by recomputing globals from the updated
//! posture and summing the goal errors.

use vstd::prelude::*;

use crate::geom::{Iso3, Quat, Vec3};
use crate::ik::{
    deque, enque, lemma_enqueued_on_chain, lemma_goal_chain_closed, lemma_remaining_on_chain,
    max2, on_goal_chain, queue_below, queue_bound, queue_sorted, reset_buffer, total_error_s,
    upsert_goal_s, GoalSet, IkGoal, IkSolver, PairItem, StepResult,
};
use crate::num::Fx;
use crate::skelly::{fk_at, parent_ok, Posture, Skelly};

verus! {

/// The fallback applied when the shortest-arc rotation is undefined
/// (anti-parallel or vanishing offsets): a fixed quarter turn, chosen
/// non-identity so a degenerate joint perturbs the pose instead of
/// stalling.
pub open spec fn fallback_rotation_s() -> Quat {
    Quat { x: Fx { raw: 46341 }, y: Fx { raw: 0 }, z: Fx { raw: 0 }, w: Fx { raw: 46341 } }
}

fn fallback_rotation() -> (r: Quat)
    ensures
        r == fallback_rotation_s(),
{
    Quat { x: Fx { raw: 46341 }, y: Fx { raw: 0 }, z: Fx { raw: 0 }, w: Fx { raw: 46341 } }
}

/// The rotation applied for a translation request: the shortest arc
/// carrying the bone's current local offset onto the requested one,
/// or the fixed fallback where that arc is undefined.
pub open spec fn correction_rotation_s(old_local: Vec3, target_local: Vec3) -> Quat {
    match crate::geom::rotation_between_s(old_local, target_local) {
        Some(q) => q,
        None => fallback_rotation_s(),
    }
}

fn correction_rotation(old_local: Vec3, target_local: Vec3) -> (r: Quat)
    ensures
        r == correction_rotation_s(old_local, target_local),
{
    match Quat::rotation_between(old_local, target_local) {
        Some(q) => q,
        None => fallback_rotation(),
    }
}

/// A two-pass translational relaxation solver over position goals.
#[derive(Clone)]
pub struct FabrikSolver {
    epsilon: Fx,
    goals: GoalSet,
    // Scratch buffers, cleared and reused every step.
    forward_queue: Vec<PairItem>,
    globals: Vec<Iso3>,
}

impl FabrikSolver {
    pub closed spec fn epsilon_s(self) -> Fx {
        self.epsilon
    }

    pub closed spec fn goals_s(self) -> Seq<IkGoal> {
        self.goals.goals()
    }

    pub closed spec fn min_len_s(self) -> int {
        self.goals.min_len_spec()
    }

    pub closed spec fn wf(self) -> bool {
        self.goals.wf() && queue_sorted(self.forward_queue@)
    }

    /// Returns a new solver with maximum tolerable error `epsilon`.
    pub fn new(epsilon: Fx) -> (r: Self)
        ensures
            r.wf(),
            r.epsilon_s() == epsilon,
            r.goals_s() == Seq::<IkGoal>::empty(),
            r.min_len_s() == 0,
    {
        FabrikSolver {
            epsilon,
            goals: GoalSet::new(),
            forward_queue: Vec::new(),
            globals: Vec::new(),
        }
    }

    /// Sets or overwrites the position goal for `bone`.
    pub fn set_position_goal(&mut self, bone: usize, position: Vec3)
        requires
            old(self).wf(),
            bone < usize::MAX,
        ensures
            final(self).wf(),
            final(self).epsilon_s() == old(self).epsilon_s(),
            final(self).goals_s() == upsert_goal_s(old(self).goals_s(), bone, Some(position), None),
            final(self).min_len_s() == max2(old(self).min_len_s(), bone as int + 1),
    {
        self.goals.upsert(bone, Some(position), None);
    }

    /// Sets or overwrites the orientation goal for `bone` (stored, but
    /// not acted on by this position-based solver).
    pub fn set_orientation_goal(&mut self, bone: usize, orientation: Quat)
        requires
            old(self).wf(),
            bone < usize::MAX,
        ensures
            final(self).wf(),
            final(self).epsilon_s() == old(self).epsilon_s(),
            final(self).goals_s() == upsert_goal_s(
                old(self).goals_s(),
                bone,
                None,
                Some(orientation),
            ),
            final(self).min_len_s() == max2(old(self).min_len_s(), bone as int + 1),
    {
        self.goals.upsert(bone, None, Some(orientation));
    }

    /// Performs one step: drains the upward sweep, then recomputes
    /// globals from the updated posture. Returns `Solved` exactly when
    /// the aggregate positional error of the posture as left by this
    /// step is below epsilon. Only orientations are adjusted: every
    /// joint keeps its position relative to its parent.
    pub fn solve_step<D>(&mut self, skelly: &Skelly<D>, posture: &mut Posture) -> (r: StepResult)
        requires
            old(self).wf(),
            skelly.wf(),
            old(posture).spec_len() == skelly.spec_len(),
            old(self).min_len_s() <= skelly.spec_len() as int,
        ensures
            final(self).wf(),
            final(self).epsilon_s() == old(self).epsilon_s(),
            final(self).goals_s() == old(self).goals_s(),
            final(self).min_len_s() == old(self).min_len_s(),
            final(posture).spec_len() == old(posture).spec_len(),
            r != StepResult::Infeasible,
            (r == StepResult::Solved) <==> total_error_s(
                skelly.parents(),
                final(posture).joints_seq(),
                old(self).goals_s(),
            ).raw < old(self).epsilon_s().raw,
            forall|i: int|
                0 <= i < old(posture).spec_len() ==> (#[trigger] final(posture).joints_seq()[i]).translation
                    == old(posture).joints_seq()[i].translation,
            forall|i: int|
                0 <= i < old(posture).spec_len() && !on_goal_chain(
                    skelly.parents(),
                    old(self).goals_s(),
                    i as usize,
                ) ==> #[trigger] final(posture).joints_seq()[i] == old(posture).joints_seq()[i],
    {
        let n = skelly.len();
        self.forward_queue.clear();
        reset_buffer(&mut self.globals, n);
        let world = Iso3::identity();
        posture.write_globals(skelly, &world, &mut self.globals);

        // Queue, at each goal bone, the translation onto its target.
        let gcount = self.goals.count();
        let mut gi: usize = 0;
        while gi < gcount
            invariant
                self.epsilon == old(self).epsilon,
                self.goals == old(self).goals,
                *posture == *old(posture),
                self.wf(),
                n == skelly.spec_len(),
                skelly.wf(),
                posture.spec_len() == n,
                self.min_len_s() <= n,
                gcount == self.goals_s().len(),
                gi <= gcount,
                self.globals@.len() == n,
                queue_sorted(self.forward_queue@),
                queue_below(self.forward_queue@, n as int),
                forall|k: int|
                    0 <= k < self.forward_queue@.len() ==> on_goal_chain(
                        skelly.parents(),
                        self.goals_s(),
                        (#[trigger] self.forward_queue@[k]).bone,
                    ),
            decreases gcount - gi,
        {
            let g = self.goals.get(gi);
            match g.position {
                Some(p) => {
                    proof {
                        assert(self.goals.wf());
                        assert(self.goals_s()[gi as int].bone < self.min_len_s());
                    }
                    let eff = self.globals[g.bone].translation;
                    let ghost qmid = self.forward_queue@;
                    let delta = p.sub(eff);
                    let fill = Vec3::zero();
                    enque(&mut self.forward_queue, g.bone, delta, fill);
                    proof {
                        let goals = self.goals_s();
                        assert(goals[gi as int].position is Some && goals[gi as int].bone
                            == g.bone);
                        assert(on_goal_chain(skelly.parents(), goals, g.bone));
                        lemma_enqueued_on_chain(
                            qmid,
                            self.forward_queue@,
                            PairItem { bone: g.bone, a: delta, b: fill },
                            skelly.parents(),
                            goals,
                        );
                    }
                },
                None => {},
            }
            gi += 1;
        }

        // Walk toward the roots, converting each merged translation
        // request into a rotation of the parent.
        loop
            invariant
                self.epsilon == old(self).epsilon,
                self.goals == old(self).goals,
                self.wf(),
                n == skelly.spec_len(),
                skelly.wf(),
                posture.spec_len() == n,
                self.globals@.len() == n,
                queue_sorted(self.forward_queue@),
                queue_below(self.forward_queue@, n as int),
                forall|k: int|
                    0 <= k < self.forward_queue@.len() ==> on_goal_chain(
                        skelly.parents(),
                        old(self).goals_s(),
                        (#[trigger] self.forward_queue@[k]).bone,
                    ),
                forall|i: int|
                    0 <= i < n ==> (#[trigger] posture.joints_seq()[i]).translation == old(
                        posture,
                    ).joints_seq()[i].translation,
                forall|i: int|
                    0 <= i < n && !on_goal_chain(
                        skelly.parents(),
                        old(self).goals_s(),
                        i as usize,
                    ) ==> #[trigger] posture.joints_seq()[i] == old(posture).joints_seq()[i],
            ensures
                self.epsilon == old(self).epsilon,
                self.goals == old(self).goals,
                self.wf(),
                posture.spec_len() == n,
                forall|i: int|
                    0 <= i < n ==> (#[trigger] posture.joints_seq()[i]).translation == old(
                        posture,
                    ).joints_seq()[i].translation,
                forall|i: int|
                    0 <= i < n && !on_goal_chain(
                        skelly.parents(),
                        old(self).goals_s(),
                        i as usize,
                    ) ==> #[trigger] posture.joints_seq()[i] == old(posture).joints_seq()[i],
            decreases queue_bound(self.forward_queue@),
        {
            let ghost qpre = self.forward_queue@;
            let item = deque(&mut self.forward_queue);
            let (bone, delta, _rest) = match item {
                None => { break; },
                Some(t) => t,
            };
            proof {
                assert(qpre.len() > 0);
                assert(bone == qpre.last().bone);
                assert(qpre[qpre.len() - 1].bone < n);
                assert(queue_bound(self.forward_queue@) < queue_bound(qpre));
                assert(parent_ok(skelly.parents(), bone as int));
                assert(on_goal_chain(skelly.parents(), old(self).goals_s(), bone));
                lemma_remaining_on_chain(
                    qpre,
                    self.forward_queue@,
                    skelly.parents(),
                    old(self).goals_s(),
                );
            }
            match skelly.get_parent(bone) {
                Some(parent) => {
                    proof {
                        lemma_goal_chain_closed(
                            skelly.parents(),
                            old(self).goals_s(),
                            bone,
                            parent,
                        );
                    }
                    let old_position = self.globals[bone].translation;
                    let old_local = old_position.sub(self.globals[parent].translation);
                    let target_local = old_local.add(delta);
                    let q = correction_rotation(old_local, target_local);
                    let qc = q.conj();
                    posture.append_rotation(bone, qc);
                    posture.append_rotation(parent, q);
                    let gb = self.globals[bone];
                    self.globals[bone] = gb.rotated_by(qc);
                    let gp = self.globals[parent];
                    self.globals[parent] = gp.rotated_by(q);
                    let new_local = q.rotate(old_local);
                    let ghost qmid = self.forward_queue@;
                    let residual = target_local.sub(new_local);
                    let fill = Vec3::zero();
                    enque(&mut self.forward_queue, parent, residual, fill);
                    proof {
                        assert(queue_bound(self.forward_queue@) == max2(
                            queue_bound(qmid),
                            parent as int + 1,
                        ));
                        assert(queue_bound(self.forward_queue@) < queue_bound(qpre));
                        lemma_enqueued_on_chain(
                            qmid,
                            self.forward_queue@,
                            PairItem { bone: parent, a: residual, b: fill },
                            skelly.parents(),
                            old(self).goals_s(),
                        );
                    }
                },
                None => {
                    // A request at a root would start the downward
                    // re-settling pass; this solver leaves roots fixed.
                },
            }
        }

        // Measure the error of the posture this step leaves behind.
        reset_buffer(&mut self.globals, n);
        posture.write_globals(skelly, &world, &mut self.globals);
        let mut total_error = Fx::zero();
        let mut gi: usize = 0;
        while gi < gcount
            invariant
                self.epsilon == old(self).epsilon,
                self.goals == old(self).goals,
                self.wf(),
                n == skelly.spec_len(),
                posture.spec_len() == n,
                self.min_len_s() <= n,
                gcount == self.goals_s().len(),
                gi <= gcount,
                self.globals@.len() == n,
                forall|i: int|
                    0 <= i < n ==> self.globals@[i] == fk_at(
                        skelly.parents(),
                        posture.joints_seq(),
                        crate::geom::iso_identity_s(),
                        i,
                    ),
                forall|i: int|
                    0 <= i < n ==> (#[trigger] posture.joints_seq()[i]).translation == old(
                        posture,
                    ).joints_seq()[i].translation,
                forall|i: int|
                    0 <= i < n && !on_goal_chain(
                        skelly.parents(),
                        old(self).goals_s(),
                        i as usize,
                    ) ==> #[trigger] posture.joints_seq()[i] == old(posture).joints_seq()[i],
                total_error == total_error_s(
                    skelly.parents(),
                    posture.joints_seq(),
                    self.goals_s().take(gi as int),
                ),
            decreases gcount - gi,
        {
            let g = self.goals.get(gi);
            let err = match g.position {
                Some(p) => {
                    proof {
                        assert(self.goals.wf());
                        assert(self.goals_s()[gi as int].bone < self.min_len_s());
                    }
                    let eff = self.globals[g.bone].translation;
                    p.dist(eff)
                },
                None => Fx::zero(),
            };
            total_error = total_error.add(err);
            proof {
                let goals = self.goals_s();
                assert(goals.take(gi + 1).drop_last() =~= goals.take(gi as int));
                assert(goals.take(gi + 1).last() == goals[gi as int]);
            }
            gi += 1;
        }
        proof {
            assert(self.goals_s().take(gcount as int) =~= self.goals_s());
        }

        if total_error.lt(self.epsilon) {
            StepResult::Solved
        } else {
            StepResult::Unsolved
        }
    }
}

impl<D> IkSolver<D> for FabrikSolver {
    open spec fn solver_wf(&self) -> bool {
        self.wf()
    }

    open spec fn epsilon_spec(&self) -> Fx {
        self.epsilon_s()
    }

    open spec fn goals_spec(&self) -> Seq<IkGoal> {
        self.goals_s()
    }

    open spec fn min_len_spec(&self) -> int {
        self.min_len_s()
    }

    fn new(error: Fx) -> Self {
        FabrikSolver::new(error)
    }

    fn set_position_goal(&mut self, bone: usize, position: Vec3) {
        FabrikSolver::set_position_goal(self, bone, position)
    }

    fn set_orientation_goal(&mut self, bone: usize, orientation: Quat) {
        FabrikSolver::set_orientation_goal(self, bone, orientation)
    }

    fn solve_step(&mut self, skelly: &Skelly<D>, posture: &mut Posture) -> StepResult {
        FabrikSolver::solve_step(self, skelly, posture)
    }
}

} // verus!
