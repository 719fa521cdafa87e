//! The bucket method: buckets held in a read/write memory.

pub mod assignments;
pub mod config;
pub mod instructions;
pub mod correct;
pub mod layout;
pub mod msm;
pub mod narrow;
pub mod rw;
pub mod wide;
