//! Arithmetic on integers modulo `p`: a field element type with addition,
//! subtraction, multiplication, division, exponentiation and totient-scaled
//! multiplication, and the extended Euclidean algorithm behind its inverses.
pub mod arith;
pub mod egcd;
pub mod laws;
pub mod zp;

pub use crate::egcd::egcds;
pub use crate::zp::{inverse, Zp};
