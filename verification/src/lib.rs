//! Verified core of a magnetic-field sampler for circular current loops.
//!
//! The numeric leaf functions (elliptic-integral approximation and the
//! closed-form loop field) work on machine floating point, which stays
//! outside this crate; what is verified here is everything above them:
//! that a sampled grid has exactly the requested dimensions, that the
//! cell at row `i_z`, column `i_x` is the field evaluated at exactly
//! that grid point, that every cell is the full superposition of one
//! contribution per loop, accumulated in loop order from the zero field
//! — never a partial sum — and that the reduction behind the display's
//! normalization length visits every cell once, in row-major order.

pub mod laws;
pub mod reduce;
pub mod sampling;
