//! A fixed-point particle mesh simulation.
//!
//! Particles drift over a toroidal rectangle, spring back toward their rest
//! positions, react to a pointer, to expanding shockwaves and to a gravity
//! well, and are triangulated each frame into renderable vertex buffers.
//!
//! All lengths are integers in sub-pixel units (`fixed::UNIT` per pixel);
//! strengths and coefficients are integer ratios. This keeps every step exact
//! and deterministic, and lets each one be stated and proved.
//!
//! - `fixed`: truncating and floor division, integer square root.
//! - `rng`: the seeded xorshift32 stream.
//! - `effects`: shockwaves (bounded, oldest evicted first), the gravity well
//!   and the pointer.
//! - `point`: one particle's drift, wrap, spring step, rescale and height.
//! - `spatial_grid`: the bucket grid and its conservative radius query.
//! - `physics`: the pointer, gravity and shockwave kernels.
//! - `triangulation`: ghost points, corner anchors, Delaunay triangles and
//!   the vertex buffers.
//! - `simulation`: the orchestrator and the exact effect of each call.
//! - `determinism`: equal states stay equal under equal calls.
//!
//! Noise sampling is floating point and stays with the caller: heights are
//! computed here from samples handed in (`Simulation::apply_height_samples`).

pub mod fixed;
pub mod rng;
pub mod effects;
pub mod point;
pub mod spatial_grid;
pub mod physics;
pub mod triangulation;
pub mod simulation;
pub mod determinism;
pub use simulation::Simulation;
