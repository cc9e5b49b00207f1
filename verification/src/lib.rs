//! Verified core of a strip-packing optimiser: the index arithmetic of the
//! overlap matrices and the map from placed items to their rows, the search
//! directions of coordinate descent, the bit-reversed edge order used during
//! collision collection, and the integer control logic of the separation,
//! guided local search and exploration loops.

pub mod overlap;
pub mod sample;
pub mod eval;
pub mod optimizer;
pub mod opt;
