//! The marker trait that closes the set of finish policies.

use vstd::prelude::*;

verus! {

/// Implemented only by the finish policies of this crate; it cannot be
/// named from outside, so no other type can select a policy.
pub trait Sealed {}

} // verus!
