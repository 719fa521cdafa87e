//! Multi-scalar multiplication with witnessed bases.

pub mod bucket;
pub mod sliding;
