//! Homomorphic signature-based witness encryption (HSWE) research library.
//!
//! The pairing-based construction works over BLS12-381 through the
//! `arkworks` crates; the lattice module holds a small, fully deterministic
//! LWE-style prototype of the same algebra.

pub mod lattice;
pub mod error;
pub mod encoding;
pub mod tag;
pub mod params;
pub mod group;
pub mod ciphertext;
pub mod keys;
pub mod lookup;
pub mod encryption;
pub mod decryption;
pub mod aggregation;
pub mod privacy;
pub mod correctness;
pub mod interpolation;
pub mod sharing;
