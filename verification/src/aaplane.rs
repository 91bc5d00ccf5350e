//! The three coordinate axes and axis-aligned separating planes.

use vstd::prelude::*;

verus! {

/// One of the three coordinate axes.
#[derive(Debug, Clone, Copy, PartialEq, Eq, Structural)]
pub enum Axis {
    X,
    Y,
    Z,
}

/// All three axes, in the fixed order X, Y, Z.
pub fn get_axis() -> (r: [Axis; 3])
    ensures
        r@ == seq![Axis::X, Axis::Y, Axis::Z],
{
    let r = [Axis::X, Axis::Y, Axis::Z];
    proof {
        assert(r@ =~= seq![Axis::X, Axis::Y, Axis::Z]);
    }
    r
}

/// An axis-aligned plane `{ p : p[axis] == coord }`, used to partition
/// primitives into the two half-spaces on either side of it.
#[derive(Debug, Clone, Copy)]
pub struct AAPlane {
    pub coord: i64,
    pub axis: Axis,
}

} // verus!
