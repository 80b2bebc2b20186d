//! Core of a chunked falling-sand simulation: a 2-D world of fixed-size
//! chunks of cells, a 3x3-chunk window with one coordinate space, per-material
//! update rules (powder, liquid), a four-phase checkerboard scheduler, and
//! dirty-region bookkeeping for a render collaborator.

pub mod atom;
pub mod consts;
pub mod coords;
pub mod rng;
pub mod chunk;
pub mod grid;
pub mod render;
pub mod window;
pub mod update;
pub mod sched;
pub mod laws;
