//! Skeleton animation with verified fixed-point arithmetic.
//!
//! A skeleton is a rooted forest of rigid bones kept in a flat,
//! parent-before-child ordered array. Forward kinematics is a single
//! linear sweep; postures snapshot the local transforms independently of
//! the topology; and three iterative inverse-kinematics solvers mutate a
//! posture one bounded step at a time.
//!
//! All coordinates are fixed-point numbers ([`num::Fx`]) so that every
//! operation has an exact mathematical contract.

pub mod geom;
pub mod ik;
pub mod num;

mod skelly;
mod stats;

pub use skelly::{
    children_upto, compose_locals, fk_at, globals_written, lemma_children_upto_bounds,
    lemma_fk_is_path_composition, lemma_write_globals_idempotent, parent_ok, parents_wf, root_path,
    up_chain, Posture, Skelly,
};
pub use stats::{seq_sum, trim_front, SlidingWindowCounter};
