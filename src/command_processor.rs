use vstd::prelude::*;

verus! {

/// Marks the closed set of commands that a device exchanges over its link.
pub trait CommandBundle {}

} // verus!
