//! The sliding-window method: the multiples of each point are written once
//! into a table, and a round looks the window of each scalar up.

pub mod assignments;
pub mod config;
pub mod correct;
pub mod instructions;
pub mod msm;
pub mod narrow;
pub mod rw;
pub mod wide;
