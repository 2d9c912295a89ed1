use vstd::prelude::*;

verus! {

/// Describes one of 9 anchor points on a bounding rectangle from which
/// a shape derives its functional center.
///
/// ```text
/// (TL)-(TM)-(TR)
///  |    |    |
/// (ML)-(MM)-(MR)
///  |    |    |
/// (BL)-(BM)-(BR)
/// ```
#[derive(Copy, Clone, Debug, PartialEq, Eq, Structural)]
pub enum AnchorPoint {
    TopLeft,
    TopCenter,
    TopRight,
    CenterLeft,
    Center,
    CenterRight,
    BottomLeft,
    BottomCenter,
    BottomRight,
}

} // verus!
