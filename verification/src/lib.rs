//! Loading of KZG trusted-setup parameters: parsing the line-oriented setup
//! text, decoding and validating the compressed curve points, sizing the
//! evaluation domain and putting the primary points in bit-reversed order.

pub mod error;
pub mod domain;
pub mod bitrev;
pub mod parse;
pub mod point;
pub mod lagrange;
pub mod bundle;
