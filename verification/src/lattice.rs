//! Binary LWE-HSWE research prototype: modular arithmetic, the toy scheme and
//! its typed interface.

pub mod math;
pub mod prototype;
pub mod api;
pub mod homomorphism;
