use vstd::prelude::*;

verus! {

/// Marks an encoding scheme, and names the word that its mediums are made of.
pub trait Encoding {
    /// The fundamental word of the scheme: `u8` for byte mediums.
    type Word;
}

} // verus!
