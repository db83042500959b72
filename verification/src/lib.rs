//! Random generation of arbitrary-precision integers.
//!
//! The crate provides uniformly distributed unsigned and signed big
//! integers: fixed-bit-size generation, bounded sampling by rejection,
//! ranged sampling, and reusable uniform-distribution objects, all driven
//! by a caller-supplied entropy source.
pub mod bigint;
pub mod bigrand;
pub mod biguint;
pub mod entropy;
pub mod rng;
pub mod uniform;
pub mod words;
