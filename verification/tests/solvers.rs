use skelly::geom::{Iso3, Quat, Vec3};
use skelly::ik::fabrik::FabrikSolver;
use skelly::ik::frik::FrikSolver;
use skelly::ik::rotor::RotorSolver;
use skelly::ik::{IkSolver, StepResult};
use skelly::num::Fx;
use skelly::{Posture, Skelly};

fn fxi(n: i64) -> Fx {
    Fx::from_int(n)
}

fn v(x: i64, y: i64, z: i64) -> Vec3 {
    Vec3::new(fxi(x), fxi(y), fxi(z))
}

fn as_f64(f: Fx) -> f64 {
    f.raw as f64 / 65536.0
}

/// Root at origin with two more bones, each one unit further along +z;
/// total reach 2.
fn chain3() -> (Skelly, usize) {
    let mut skelly = Skelly::new();
    let root = skelly.add_root(v(0, 0, 0));
    let b1 = skelly.attach(v(0, 0, 1), root);
    let b2 = skelly.attach(v(0, 0, 1), b1);
    (skelly, b2)
}

fn effector_position(skelly: &Skelly, posture: &Posture, bone: usize) -> Vec3 {
    let mut globals = vec![Iso3::identity(); skelly.len()];
    posture.write_globals(skelly, &Iso3::identity(), &mut globals);
    globals[bone].translation
}

fn solve_until<S: IkSolver<()>>(
    solver: &mut S,
    skelly: &Skelly,
    posture: &mut Posture,
    max_steps: usize,
) -> bool {
    for _ in 0..max_steps {
        if solver.solve_step(skelly, posture) == StepResult::Solved {
            return true;
        }
    }
    false
}

fn reachable_goal_converges<S: IkSolver<()>>(name: &str) {
    let (skelly, tip) = chain3();
    let mut posture = Posture::new(&skelly);
    let epsilon = Fx { raw: 1311 };  // ~0.02
    let mut solver = S::new(epsilon);
    let goal = v(1, 0, 1);  // |goal| = sqrt(2) < 2: within reach
    solver.set_position_goal(tip, goal);
    let solved = solve_until(&mut solver, &skelly, &mut posture, 400);
    assert!(solved, "{name}: goal still unsolved after 400 steps");
    let eff = effector_position(&skelly, &posture, tip);
    let err = as_f64(eff.dist(goal));
    assert!(err < 0.02, "{name}: end effector is {err} away from the goal");
}

#[test]
fn fabrik_reachable_goal_converges() {
    reachable_goal_converges::<FabrikSolver>("fabrik");
}

#[test]
fn frik_reachable_goal_converges() {
    reachable_goal_converges::<FrikSolver>("frik");
}

#[test]
fn rotor_reachable_goal_converges() {
    reachable_goal_converges::<RotorSolver>("rotor");
}

fn unreachable_goal_never_solves<S: IkSolver<()>>(name: &str, check_monotone: bool) {
    let (skelly, tip) = chain3();
    let mut posture = Posture::new(&skelly);
    let epsilon = Fx { raw: 1311 };
    let mut solver = S::new(epsilon);
    let goal = v(0, 0, 5);  // reach is 2
    solver.set_position_goal(tip, goal);
    let mut last_err = as_f64(effector_position(&skelly, &posture, tip).dist(goal));
    let first_err = last_err;
    for _ in 0..300 {
        let r = solver.solve_step(&skelly, &mut posture);
        assert!(r != StepResult::Solved, "{name}: an unreachable goal was reported solved");
        let err = as_f64(effector_position(&skelly, &posture, tip).dist(goal));
        if check_monotone {
            // Non-strict decrease, with a whisker of fixed-point noise.
            assert!(err <= last_err + 0.002, "{name}: error rose from {last_err} to {err}");
        }
        last_err = err;
    }
    assert!(last_err <= first_err, "{name}: error did not decrease overall");
}

#[test]
fn fabrik_unreachable_goal_stays_unsolved() {
    unreachable_goal_never_solves::<FabrikSolver>("fabrik", true);
}

#[test]
fn frik_unreachable_goal_stays_unsolved() {
    unreachable_goal_never_solves::<FrikSolver>("frik", true);
}

#[test]
fn rotor_unreachable_goal_stays_unsolved() {
    // Rotor's greedy local steps carry no monotonicity expectation.
    unreachable_goal_never_solves::<RotorSolver>("rotor", false);
}

/// A bone with two children, each carrying a goal: the parent must be
/// rotated by the averaged contribution, not by the last child's alone.
#[test]
fn rotor_merges_contributions_from_two_children() {
    let mut skelly = Skelly::new();
    let root = skelly.add_root(v(0, 0, 0));
    let c1 = skelly.attach(v(0, 0, 1), root);
    let c2 = skelly.attach(v(1, 0, 0), root);
    let mut posture = Posture::new(&skelly);
    let mut solver = RotorSolver::new(Fx { raw: 64 });
    let g1 = v(0, 1, 0);
    let g2 = v(0, 0, 1);
    solver.set_position_goal(c1, g1);
    solver.set_position_goal(c2, g2);
    solver.solve_step(&skelly, &mut posture);

    // Both contributions queue at the root and merge: the root's new
    // orientation is the shortest arc between the averaged effector and
    // the averaged target.
    let eff_mean = v(0, 0, 1).add(v(1, 0, 0)).div_count(2);
    let tgt_mean = g1.add(g2).div_count(2);
    let expected = Quat::rotation_between(eff_mean, tgt_mean).expect("not degenerate");
    assert_eq!(posture.get_orientation(root), expected);

    // And it is not simply the last-processed child's correction.
    let only_c2 = Quat::rotation_between(v(1, 0, 0), g2).expect("not degenerate");
    assert_ne!(posture.get_orientation(root), only_c2);
    let only_c1 = Quat::rotation_between(v(0, 0, 1), g1).expect("not degenerate");
    assert_ne!(posture.get_orientation(root), only_c1);
}

fn quarter_turn_scenario<S: IkSolver<()>>(name: &str, check_root_rotation: bool) {
    // Root at origin, one child at local offset (0, 0, 1); the goal
    // puts the child at (0, 1, 0): a quarter turn about an axis
    // perpendicular to the start/target plane.
    let mut skelly = Skelly::new();
    let root = skelly.add_root(v(0, 0, 0));
    let child = skelly.attach(v(0, 0, 1), root);
    let mut posture = Posture::new(&skelly);
    let epsilon = Fx { raw: 1311 };
    let mut solver = S::new(epsilon);
    let goal = v(0, 1, 0);
    solver.set_position_goal(child, goal);
    let solved = solve_until(&mut solver, &skelly, &mut posture, 200);
    assert!(solved, "{name}: the quarter-turn goal was not solved");
    let eff = effector_position(&skelly, &posture, child);
    assert!(as_f64(eff.dist(goal)) < 0.02, "{name}: effector missed the goal");
    if check_root_rotation {
        let q = posture.get_orientation(root);
        // ~90 degrees about the x axis: |w| ~ cos(45deg), |x| ~ sin(45deg).
        assert!((as_f64(q.w).abs() - 0.7071).abs() < 0.05, "{name}: w = {}", as_f64(q.w));
        assert!((as_f64(q.x).abs() - 0.7071).abs() < 0.05, "{name}: x = {}", as_f64(q.x));
        assert!(as_f64(q.y).abs() < 0.05, "{name}: y = {}", as_f64(q.y));
        assert!(as_f64(q.z).abs() < 0.05, "{name}: z = {}", as_f64(q.z));
    }
}

#[test]
fn fabrik_quarter_turn_lands_on_target() {
    quarter_turn_scenario::<FabrikSolver>("fabrik", true);
}

#[test]
fn frik_quarter_turn_lands_on_target() {
    quarter_turn_scenario::<FrikSolver>("frik", true);
}

#[test]
fn rotor_quarter_turn_lands_on_target() {
    quarter_turn_scenario::<RotorSolver>("rotor", true);
}

#[test]
fn fabrik_antiparallel_goal_uses_the_fallback_rotation() {
    // The goal sits exactly opposite the effector, so no shortest arc
    // exists; the fixed fallback rotation must break the degeneracy
    // instead of stalling, and the solver still converges.
    let mut skelly = Skelly::new();
    let root = skelly.add_root(v(0, 0, 0));
    let child = skelly.attach(v(0, 0, 1), root);
    let mut posture = Posture::new(&skelly);
    let mut solver = FabrikSolver::new(Fx { raw: 1311 });
    let goal = v(0, 0, -1);
    solver.set_position_goal(child, goal);
    solver.solve_step(&skelly, &mut posture);
    let moved = effector_position(&skelly, &posture, child);
    assert_ne!(moved, v(0, 0, 1), "the degenerate joint stalled");
    let solved = solve_until(&mut solver, &skelly, &mut posture, 400);
    assert!(solved);
    assert!(as_f64(effector_position(&skelly, &posture, child).dist(goal)) < 0.02);
}

#[test]
fn rotor_antiparallel_goal_skips_the_joint() {
    // Rotor skips a joint whose shortest-arc rotation is undefined: the
    // step reports Unsolved and leaves the posture as it was.
    let mut skelly = Skelly::new();
    let root = skelly.add_root(v(0, 0, 0));
    let child = skelly.attach(v(0, 0, 1), root);
    let mut posture = Posture::new(&skelly);
    let mut solver = RotorSolver::new(Fx { raw: 1311 });
    solver.set_position_goal(child, v(0, 0, -1));
    assert_eq!(solver.solve_step(&skelly, &mut posture), StepResult::Unsolved);
    assert_eq!(effector_position(&skelly, &posture, child), v(0, 0, 1));
}

#[test]
fn solved_step_leaves_posture_untouched() {
    // A goal that is already met: rotor and frik report Solved without
    // touching the posture.
    let (skelly, tip) = chain3();
    let mut posture = Posture::new(&skelly);
    let before = effector_position(&skelly, &posture, tip);
    let mut rotor = RotorSolver::new(Fx { raw: 1311 });
    rotor.set_position_goal(tip, v(0, 0, 2));
    assert_eq!(rotor.solve_step(&skelly, &mut posture), StepResult::Solved);
    assert_eq!(effector_position(&skelly, &posture, tip), before);
    let mut frik = FrikSolver::new(Fx { raw: 1311 });
    frik.set_position_goal(tip, v(0, 0, 2));
    assert_eq!(frik.solve_step(&skelly, &mut posture), StepResult::Solved);
    assert_eq!(effector_position(&skelly, &posture, tip), before);
}

fn off_chain_branch_untouched<S: IkSolver<()>>(name: &str, root_child_may_change: bool) {
    // Two branches under one root; the goal sits on branch `a`, so
    // branch `b` must keep its local transforms (for FRIK the root's
    // direct children may be compensated, but never their descendants).
    let mut skelly = Skelly::new();
    let root = skelly.add_root(v(0, 0, 0));
    let a1 = skelly.attach(v(0, 0, 1), root);
    let a2 = skelly.attach(v(0, 1, 0), a1);
    let b1 = skelly.attach(v(1, 0, 0), root);
    let b2 = skelly.attach(v(1, 0, 0), b1);
    let mut posture = Posture::new(&skelly);
    let before_b1 = posture.get_isometry(b1);
    let before_b2 = posture.get_isometry(b2);
    let mut solver = S::new(Fx { raw: 64 });
    solver.set_position_goal(a2, v(1, 1, 1));
    for _ in 0..50 {
        solver.solve_step(&skelly, &mut posture);
    }
    if !root_child_may_change {
        assert_eq!(posture.get_isometry(b1), before_b1, "{name}: b1 moved");
    }
    assert_eq!(posture.get_isometry(b2), before_b2, "{name}: b2 moved");
}

#[test]
fn fabrik_leaves_the_other_branch_alone() {
    off_chain_branch_untouched::<FabrikSolver>("fabrik", false);
}

#[test]
fn frik_leaves_the_other_branch_alone() {
    off_chain_branch_untouched::<FrikSolver>("frik", true);
}

#[test]
fn rotor_leaves_the_other_branch_alone() {
    off_chain_branch_untouched::<RotorSolver>("rotor", false);
}

#[test]
fn solvers_never_move_joint_positions() {
    let (skelly, tip) = chain3();
    let mut posture = Posture::new(&skelly);
    let mut solver = FabrikSolver::new(Fx { raw: 64 });
    solver.set_position_goal(tip, v(1, 1, 0));
    for _ in 0..10 {
        solver.solve_step(&skelly, &mut posture);
    }
    for bone in 0..skelly.len() {
        assert_eq!(posture.get_position(bone), skelly.get_position(bone));
    }
}

#[test]
fn orientation_goals_are_stored_but_not_acted_on() {
    let (skelly, tip) = chain3();
    let mut posture = Posture::new(&skelly);
    let before = Posture::new(&skelly);
    let mut solver = RotorSolver::new(Fx { raw: 1311 });
    let s = Fx { raw: 46341 };
    solver.set_orientation_goal(tip, Quat { x: s, y: fxi(0), z: fxi(0), w: s });
    assert_eq!(solver.solve_step(&skelly, &mut posture), StepResult::Solved);
    for bone in 0..skelly.len() {
        assert_eq!(posture.get_isometry(bone), before.get_isometry(bone));
    }
}

#[test]
fn resetting_a_goal_overwrites_in_place() {
    // Setting a goal twice for one bone keeps a single goal: after the
    // second target is set, the solver drives the effector there.
    let (skelly, tip) = chain3();
    let mut posture = Posture::new(&skelly);
    let mut solver = RotorSolver::new(Fx { raw: 1311 });
    solver.set_position_goal(tip, v(1, 0, 1));
    let _ = solve_until(&mut solver, &skelly, &mut posture, 100);
    solver.set_position_goal(tip, v(0, 1, 1));
    let solved = solve_until(&mut solver, &skelly, &mut posture, 400);
    assert!(solved);
    let eff = effector_position(&skelly, &posture, tip);
    assert!(as_f64(eff.dist(v(0, 1, 1))) < 0.02);
}
