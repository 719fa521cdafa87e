//! Multi-scalar multiplication with bases that are known when the circuit
//! is made: the multiples of each base are tabulated, and a round looks the
//! window of each scalar up.

pub mod assignments;
pub mod config;
pub mod correct;
pub mod table;
