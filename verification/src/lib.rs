//! A polynomial commitment scheme of the KZG kind over BN254.
//!
//! A vector of field elements is interpolated over a domain of roots of
//! unity, the polynomial is committed to as one point of the first pairing
//! group, and single values are opened with a proof that a pairing equation
//! tests. Field, curve and polynomial arithmetic come from the arkworks
//! crates; what they compute is stated in the contracts of the small
//! functions that call them, and everything around is verified.

pub mod commit;
pub mod curve;
pub mod data;
pub mod error;
pub mod field;
pub mod laws;
pub mod poly;
