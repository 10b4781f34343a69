//! Dialect-aware SQL statement preparation.
//!
//! The crate tokenizes SQL text so that placeholder markers are recognized
//! only outside quoted literals, encodes typed values as dialect-correct
//! SQL literal text, and substitutes bound values for placeholders either
//! by inlining literals or by collecting them for a parameterized API.

pub mod chars;
pub mod value;
pub mod token;
pub mod dialect;
pub mod writer;
pub mod inject;
