//! A linear congruential pseudo-random number generator.
//!
//! Not suitable for any cryptographic purpose, and not designed to be.
//!
//! The generator advances by the recurrence
//! `state' = (multiplier * state + increment) mod modulus`, and derives
//! ranged sampling, element selection and byte filling from that step.

pub mod lcg;

pub use lcg::LCG;
