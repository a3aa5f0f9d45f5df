//! Lloyd's k-means clustering over integer observations, with every step
//! stated as a contract and proved.
//!
//! Observations are vectors of `i64` quantities in a unit of the caller's
//! choosing (a count, or a fixed-point fraction of one). Centroids live on the
//! same grid: a mean is rounded down to a whole unit, and a tolerance is a
//! whole number of units. Distances are compared by their squares, which are
//! exact; no intermediate value wraps, whatever the coordinates.
//!
//! - [`dataset`]: the observations, stored in an `ndarray` matrix.
//! - [`distance`]: squared and rounded Euclidean distance.
//! - [`centroids`]: the initial centroid set and the convergence test.
//! - [`assign`]: the assignment step.
//! - [`update`]: the centroid update.
//! - [`driver`]: the bounded fixed-point loop.
//! - [`wide`]: 256-bit sums and products.
//! - [`matrix`]: the operations of `ndarray` that the dataset rests on.

pub mod assign;
pub mod centroids;
pub mod dataset;
pub mod distance;
pub mod driver;
pub mod error;
pub mod matrix;
pub mod update;
pub mod wide;
