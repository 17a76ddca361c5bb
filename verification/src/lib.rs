//! Exact modular arithmetic over Z/mZ, together with two small utilities:
//! an offset-indexed vector and signed-delta wrapping addition for unsigned
//! integers.

pub mod gf;
pub mod integer_indexed_vec;
pub mod wrapping_add_signed;
