//! Ember: the discrete logic of a dense-grid smoke solver, verified.
//!
//! The solver's state machine runs on the GPU; what lives here is the part
//! that decides: which faces of the domain are open, how many substeps a
//! frame takes, how the pressure solve is chosen and split, the shape of
//! the multigrid hierarchy, how a scene's document is wired, and how the
//! benchmark's result files are named, checked and labelled.

pub mod bench;
pub mod boundaries;
pub mod cfl;
pub mod pcg;
pub mod emitter;
pub mod report;
pub mod grid;
pub mod hierarchy;
pub mod schedule;
pub mod solver;
pub mod state;
pub mod substep;
pub mod text;
pub mod unions;
pub mod vcycle;
