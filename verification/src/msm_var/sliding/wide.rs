//! The sliding-window method on nine advice columns: an addition takes one
//! row.

pub mod assignments;
pub mod config;
