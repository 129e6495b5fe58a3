//! Scheduling and decision core of a box declutter pass.
//!
//! A set of axis-aligned boxes is relaxed by repeatedly nudging colliding
//! pairs apart. The coordinates themselves live with the caller; this crate
//! owns everything that is discrete about the procedure: which pair is
//! examined next, what a set of comparisons means for a pair, which boxes
//! count as moved, how passes are counted and when a run ends.

pub mod budget;
pub mod step;
pub mod shape;
pub mod pairwise_model;
pub mod pairwise;
pub mod indexed_model;
pub mod indexed;
pub mod agreement;
