//! SplitMix64 as a splittable, value-oriented generator.
//!
//! A [`Seed`] is a pair of 64-bit words. Every operation takes a seed by
//! reference and returns the generated value together with the successor
//! seed; nothing is mutated in place. [`Seed::split`] forks a seed into two
//! streams, and [`Seed::fill_buffer`] streams typed values into a byte buffer
//! behind a nine-byte header.
//!
//! The generator is not cryptographically secure.

pub mod buffer;
pub mod decimal;
pub mod double;
pub mod encode;
pub mod error;
pub mod format;
pub mod mix;
pub mod seed;

pub use error::{Error, ErrorKind};
pub use format::DataFormat;
pub use mix::{mix_gamma, splitmix64_mix, GOLDEN_GAMMA, MIX_MULTIPLIER_1, MIX_MULTIPLIER_2};
pub use seed::{BatchBoolResult, Seed, SeedAndBool, SeedAndValue, SeedPair};
