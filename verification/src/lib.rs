//! Witness generation and row layout for multi-scalar multiplication over
//! the Vesta curve, for a circuit of advice and fixed columns, selectors,
//! copy constraints and lookups.
//!
//! A multiplication is laid out in a [`region::RegionCtx`], which records
//! the assignments for a backend to carry out. Three methods lay it out:
//! fixed bases with a table of their multiples ([`msm_fix`]), witnessed
//! bases with buckets in a read/write memory ([`msm_var::bucket`]), and
//! witnessed bases with a table written once ([`msm_var::sliding`]). The
//! identities that the rows satisfy are stated in [`gate`] and tested on a
//! region by [`constraints`]; that the methods compute the sum of the
//! multiples is proved in the `correct` module of each.

pub mod algebra;
pub mod constraints;
pub mod curve;
pub mod error;
pub mod fe_map;
pub mod field;
pub mod gate;
pub mod lookup;
pub mod msm_fix;
pub mod msm_var;
pub mod region;
pub mod scalar;
pub mod sums;
pub mod windows;
