//! Adaptive density control for training a set of Gaussian splats: the point
//! set's parallel columns, their pruning, cloning and splitting by row masks,
//! the screen-space gradient statistics, and the refinement schedule.
pub mod laws;
pub mod select;
pub mod splats;
pub mod trainer;
