use vstd::prelude::*;

verus! {

/// What a shot at a cell did.
#[derive(Debug, Clone, Copy, PartialEq, Eq, Structural)]
pub enum HitResult {
    /// No boat lies on the cell.
    Water,
    /// A boat was hit and still has an unhit segment.
    Hit,
    /// A boat was hit and every one of its segments is now hit.
    Sunk,
}

} // verus!
