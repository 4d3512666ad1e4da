//! A micro-benchmark harness for one pure function, the solution, on one
//! fixed input.
//!
//! A run prepares the input ([`input`]), warms the solution up for a fixed
//! time while checking that it always renders the same answer, samples it in
//! a fixed number of equal batches ([`harness`], [`sampling`], [`driver`]),
//! and reports the answer with the median, average, minimum and maximum of
//! the samples ([`stats`], [`report`]). What holds of every run is stated in
//! [`trace`].

pub mod driver;
pub mod harness;
pub mod input;
pub mod report;
pub mod sampling;
pub mod stats;
pub mod trace;
