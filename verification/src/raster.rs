//! Line rasterisation, done by the `bresenham` crate.

use vstd::prelude::*;

verus! {

/// The largest coordinate, in absolute value, that a line's end may have.
pub const MAX_LINE_COORD: isize = 0x4000;

/// The cells that `bresenham::Bresenham::new((x1, y1), (x2, y2))` yields, in
/// the order in which it yields them.
pub uninterp spec fn bresenham_line(x1: isize, y1: isize, x2: isize, y2: isize) -> Seq<
    (isize, isize),
>;

/// `bresenham::Bresenham::new` and the iterator it returns, run to its end:
/// the cells of the line from `(x1, y1)` to `(x2, y2)`, collected in order.
/// As the crate documents, the line includes its start but not its end, so
/// a line between two different cells begins with the first of them. The
/// bound on the coordinates keeps the iterator's differences and error
/// term far from overflow.
#[verifier::external_body]
pub(crate) fn line_cells(x1: isize, y1: isize, x2: isize, y2: isize) -> (cells: Vec<(isize, isize)>)
    requires
        -MAX_LINE_COORD <= x1 <= MAX_LINE_COORD,
        -MAX_LINE_COORD <= y1 <= MAX_LINE_COORD,
        -MAX_LINE_COORD <= x2 <= MAX_LINE_COORD,
        -MAX_LINE_COORD <= y2 <= MAX_LINE_COORD,
    ensures
        cells@ == bresenham_line(x1, y1, x2, y2),
        (x1, y1) != (x2, y2) ==> cells@.len() > 0 && cells@[0] == (x1, y1),
{
    bresenham::Bresenham::new((x1, y1), (x2, y2)).collect()
}

} // verus!
