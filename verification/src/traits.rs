//! Small helpers on plain values: decimal digits and grid adjacency.

use vstd::prelude::*;

verus! {

/// The distance between two cells, counted in steps along the axes.
pub open spec fn manhattan(ax: int, ay: int, bx: int, by: int) -> int {
    (if ax >= bx { ax - bx } else { bx - ax }) + (if ay >= by { ay - by } else { by - ay })
}

/// The decimal digits of a number, at a fixed width.
pub trait Digits {
    /// The digits, most significant first.
    spec fn digits_spec(&self) -> Seq<u8>;

    fn digits(&self) -> (r: [u8; 3])
        ensures
            r@ == self.digits_spec(),
    ;
}

impl Digits for u8 {
    open spec fn digits_spec(&self) -> Seq<u8> {
        seq![*self / 100, (*self / 10) % 10, *self % 10]
    }

    fn digits(&self) -> (r: [u8; 3]) {
        let n: u8 = *self;
        let r: [u8; 3] = [n / 100, (n / 10) % 10, n % 10];
        assert(r@ =~= self.digits_spec());
        r
    }
}

/// Whether two cells touch along an edge.
pub trait NextTo {
    spec fn next_to_spec(&self, other: &Self) -> bool;

    fn is_next_to(&self, other: &Self) -> (r: bool)
        ensures
            r == self.next_to_spec(other),
    ;
}

impl NextTo for (u16, u16) {
    /// Two cells are next to each other when they are exactly one step
    /// apart: a cell is not next to itself, nor to its diagonal neighbours.
    open spec fn next_to_spec(&self, other: &Self) -> bool {
        manhattan(self.0 as int, self.1 as int, other.0 as int, other.1 as int) == 1
    }

    fn is_next_to(&self, other: &Self) -> (r: bool) {
        let (tx, ty) = *self;
        let (ox, oy) = *other;
        let dx: u16 = if tx >= ox { tx - ox } else { ox - tx };
        let dy: u16 = if ty >= oy { ty - oy } else { oy - ty };
        (dx == 1 && dy == 0) || (dy == 1 && dx == 0)
    }
}

} // verus!
