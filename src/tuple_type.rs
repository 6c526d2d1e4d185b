use vstd::prelude::*;

verus! {

/// What a homogeneous tuple stands for, read from its `w` component:
/// a vector (`w` near 0), a point (`w` near 1), or neither.
#[derive(Debug, Clone, Copy, PartialEq, Eq, Structural)]
pub enum TupleType {
    Point,
    Vector,
    Other,
}

impl TupleType {
    /// Classifies a tuple from the two tests on its `w` component. A `w`
    /// that passes both (possible only with a tolerance of 1/2 or more) is
    /// taken for a vector: the test against 0 comes first.
    pub fn classify(w_near_zero: bool, w_near_one: bool) -> (r: TupleType)
        ensures
            w_near_zero ==> r == TupleType::Vector,
            !w_near_zero && w_near_one ==> r == TupleType::Point,
            !w_near_zero && !w_near_one ==> r == TupleType::Other,
    {
        if w_near_zero {
            TupleType::Vector
        } else if w_near_one {
            TupleType::Point
        } else {
            TupleType::Other
        }
    }
}

} // verus!
