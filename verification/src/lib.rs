//! Matrix-product-state circuit emulation: the verified integer core.
//!
//! The state of an `n`-qubit system is a chain of rank-3 site tensors whose
//! complex entries live in the unverified numeric layer. What this library
//! verifies is everything about that chain that is discrete: the deterministic
//! context-keyed random number source, the row-major storage layout of a site
//! tensor, the bond-dimension bookkeeping of the chain (adjacency, boundary
//! bonds, the truncation cap), the brickwork gate schedule, and the
//! bond-dimension lists the sweep drivers take on the command line.

pub mod chain;
pub mod parse;
pub mod rng;
pub mod schedule;
