//! A zero-knowledge preimage-chain demonstration library.
//!
//! The statement proved is knowledge of a scalar `x` such that applying a
//! fixed windowed Pedersen hash five times to `x` yields a public scalar `y`.
//! This crate holds the verified core: the scalar representation, the
//! canonical little-endian bit decomposition that both the reference hasher
//! and the in-circuit gadget consume, the reference hash chain, and a small
//! wrapping counter.

pub mod bits;
pub mod counter;
pub mod hash;
pub mod scalar;
