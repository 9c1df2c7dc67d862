use vstd::prelude::*;

verus! {

/// Participating medium a ray travels through; only the vacuum exists so far.
#[derive(Clone, Copy, Debug, PartialEq, Eq, Structural)]
pub struct Medium;

} // verus!
