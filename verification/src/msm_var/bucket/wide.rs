//! The bucket method on nine advice columns: a read and the write that
//! follows it share a row.

pub mod assignments;
pub mod config;
pub mod msm_var;
pub mod rw;
