//! What can keep a gate from laying out a multiplication.

use vstd::prelude::*;

verus! {

/// The reasons for which a multiplication is not laid out.
#[derive(Clone, Copy, Debug, PartialEq, Eq, Structural)]
pub enum Error {
    /// A constant that the rows need is the neutral element of the group,
    /// which has no coordinates.
    ConstantAtInfinity,
}

} // verus!
