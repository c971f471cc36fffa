//! Boolean collision test for convex hulls in three dimensions, each given
//! as a finite set of points on the integer lattice, by a GJK search over
//! their Minkowski difference.
//!
//! All arithmetic is exact. `vector` holds the vector algebra, `support` the
//! support mapping, `simplex` the state machine that reduces the simplex,
//! and `intersect` the driver `bgjk` with its variants. Every executable
//! function is verified against a model over unbounded integers, and no
//! computation can overflow.
//!
//! `convex` says what it means for two hulls to touch or to be apart,
//! `geometry` and `progress` hold the proof that the search never gives a
//! wrong verdict, and `laws` states what follows: the verdict does not
//! depend on the order of the hulls, nor on the order or repetition of their
//! points, nor on points inside a hull. `scaling` shows that the search
//! takes the same course whatever the unit of length.

pub mod convex;
pub mod geometry;
pub mod intersect;
pub mod laws;
pub mod progress;
pub mod scaling;
pub mod simplex;
pub mod support;
pub mod vector;

pub use intersect::{bgjk, bgjk_limited, in_range, Failure, MAX_ITERATIONS};
pub use simplex::{check_tetra, simplex, Search, Simplex, Step, DIFF_LIMIT, DIR_LIMIT, LIMIT};
pub use support::{farthest, support};
pub use vector::{cross, cross3, dcross3, Vec3, Vector};
