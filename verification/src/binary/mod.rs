//! Bit-exact binary floating-point values.
pub mod arithmetic;
pub mod double;
pub mod integers;
pub mod magnitude;
pub mod narrowing;
pub mod nearness;
pub mod nearness64;
pub mod remainder;
pub mod rounding;
pub mod single;
pub mod value;
