use vstd::prelude::*;

verus! {

/// Which kind of grid line a ray crossed when it hit a wall: a vertical one
/// (the wall faces east or west) or a horizontal one (north or south).
#[derive(Clone, Copy, Debug, PartialEq, Eq, Structural)]
pub enum Side {
    EastWest,
    NorthSouth,
}

} // verus!
