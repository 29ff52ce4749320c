//! Ballistic deposition on a one-dimensional substrate.
//!
//! Particles fall on random columns of a substrate and stick one unit above
//! the tallest column among the landing column and its nearest neighbours.
//! The library holds the pseudorandom stream that selects the columns, the
//! sticking rule with periodic or bounded edges, the logarithmic schedule on
//! which the surface is sampled, a single realization of the process, and the
//! ensemble of realizations that are run side by side and reduced together.
//!
//! All of it works on integers and is exact: a draw is a numerator over a
//! fixed modulus, the elapsed time a particle count over the substrate
//! length, the mean height a sum over the length, the variance of the heights
//! a fraction of integers. A caller that wants decimal fractions divides, and
//! takes the square root for the interface width, as its last step.
//!
//! - [`ini_parser`]: the parameters of a sweep, read from a configuration.
//! - [`sim`]: one ensemble, from its parameters to its reduced series.
//! - [`sim::random`]: the pseudorandom stream.
//! - [`sim::surface`]: the surface and the sticking rule.
//! - [`sim::schedule`]: the sampling schedule.
//! - [`sim::stats`]: mean and variance of a height array.
//! - [`sim::csv_writer`]: the name of the file that holds an ensemble.

pub mod ini_parser;
pub mod sim;
