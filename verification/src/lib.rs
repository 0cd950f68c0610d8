//! Fitting the linear form `a*x + b*y` to the Euclidean norm `sqrt(x^2 + y^2)`
//! over a square grid of sample points.
//!
//! All numbers are fixed-point: an integer counts millionths of a unit (see
//! [`fixed::SCALE`]), and a percentage counts millionths of a percent.
//! Quotients round toward zero and the square root rounds down, so every
//! result is determined exactly, and the contracts say which it is.
//!
//! - [`fixed`] holds the arithmetic, [`sampling`] the evenly spaced samples,
//!   and [`stats`] the running statistics of the error.
//! - [`objective`] evaluates a pair of coefficients over the grid;
//!   [`total_error`] and [`extrema`] prove what the result of an evaluation
//!   is, said without a loop.
//! - [`brute_force`] searches a grid of candidate coefficients, and
//!   [`descent`] searches by random moves within a shrinking radius; both
//!   keep the best candidate by the rule in [`search`].

pub mod fixed;
pub mod sampling;
pub mod stats;
pub mod objective;
pub mod total_error;
pub mod extrema;
pub mod search;
pub mod brute_force;
pub mod descent;
