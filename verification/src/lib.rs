//! A small, dependency-light interface to IEEE-754 binary floating-point
//! values, verified at the level of their bit patterns.
//!
//! The crate models a floating-point number by the bits it is stored in:
//! [`Binary32`] and [`Binary64`] wrap the 32-bit and 64-bit interchange
//! encodings, and the [`Float`] trait gives both the same catalogue of
//! bit-exact operations — classification, sign inspection, truncation toward
//! zero, integer decomposition, and the distinguished constant patterns.  The
//! `model` module states in integer arithmetic what each bit pattern denotes,
//! every operation carries a contract over that model, and the model module's
//! public lemmas prove the laws that tie the operations together.
//!
//! Transcendental operations (`exp`, `ln`, `powf`, `cbrt`, `hypot`, ...) are
//! pass-throughs to host arithmetic on the primitive types; they belong to
//! the unverified embedding that converts primitives to and from these bit
//! patterns, not here.

pub mod binary32;
pub mod binary64;
pub mod float;
pub mod model;

pub use binary32::Binary32;
pub use binary64::Binary64;
pub use float::Float;
pub use model::Classification;
