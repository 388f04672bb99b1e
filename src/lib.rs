//! Discrete core of a Monte Carlo path tracer for scenes of spheres.
//!
//! Real-valued quantities (ray parameters, dot products, random draws) enter
//! this library as *ordering keys*: an `i64` chosen for each value so that
//! comparing two keys gives the same answer as comparing the two values,
//! and so that a value is positive exactly when its key is (for values that
//! are not NaN). The geometry and
//! shading arithmetic itself is done by the caller; every decision that is
//! taken on its results is made here and proved against its contract.
use vstd::prelude::*;

pub mod image;
pub mod integrator;
pub mod material;
pub mod scene;
pub mod sphere;
