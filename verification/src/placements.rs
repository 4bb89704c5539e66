//! Placements: a piece together with the position of its bounding box.

use crate::pieces::{Offset, Piece};
use vstd::prelude::*;

verus! {

/// The field position of the bottom-left corner of a piece's bounding box.
#[derive(Clone, Copy, Debug, PartialEq, Eq, Structural, Hash)]
pub struct BlPosition {
    /// Column of the left edge.
    pub lx: i32,
    /// Row of the bottom edge.
    pub by: i32,
}

/// A piece at a position on the field.
#[derive(Clone, Copy, Debug, PartialEq, Eq, Structural, Hash)]
pub struct BlPlacement {
    pub piece: Piece,
    pub position: BlPosition,
}

/// The position whose left column is `lx` and whose bottom row is `by`.
pub fn bl(lx: i32, by: i32) -> (p: BlPosition)
    ensures
        p.lx == lx,
        p.by == by,
{
    BlPosition { lx, by }
}

impl Piece {
    /// The placement of this piece at `position`.
    pub fn with(self, position: BlPosition) -> (p: BlPlacement)
        ensures
            p.piece == self,
            p.position == position,
    {
        BlPlacement { piece: self, position }
    }
}

impl BlPlacement {
    /// The field cell covered by the `i`-th cell of the piece.
    pub open spec fn cell_spec(self, i: int) -> (int, int) {
        (
            self.position.lx + self.piece.cells_spec()[i].0,
            self.position.by + self.piece.cells_spec()[i].1,
        )
    }

    /// Whether the placement covers the field cell in column `x`, row `y`.
    pub open spec fn covers_spec(self, x: int, y: int) -> bool {
        self.cell_spec(0) == (x, y) || self.cell_spec(1) == (x, y) || self.cell_spec(2) == (x, y)
            || self.cell_spec(3) == (x, y)
    }

    /// The set of field cells the placement covers.
    pub open spec fn footprint(self) -> Set<(int, int)> {
        Set::new(|c: (int, int)| self.covers_spec(c.0, c.1))
    }

    /// The field cell covered by the `i`-th cell of the piece.
    pub fn cell(&self, i: usize) -> (c: (i64, i64))
        requires
            i < 4,
        ensures
            (c.0 as int, c.1 as int) == self.cell_spec(i as int),
    {
        let cells: [Offset; 4] = self.piece.cells();
        proof {
            crate::pieces::lemma_cells_in_box(self.piece);
        }
        let c: Offset = cells[i];
        (self.position.lx as i64 + c.dx as i64, self.position.by as i64 + c.dy as i64)
    }

    /// Whether the placement covers the field cell in column `x`, row `y`.
    pub fn covers(&self, x: i64, y: i64) -> (r: bool)
        ensures
            r == self.covers_spec(x as int, y as int),
    {
        let c0: (i64, i64) = self.cell(0);
        let c1: (i64, i64) = self.cell(1);
        let c2: (i64, i64) = self.cell(2);
        let c3: (i64, i64) = self.cell(3);
        (c0.0 == x && c0.1 == y) || (c1.0 == x && c1.1 == y) || (c2.0 == x && c2.1 == y) || (c3.0
            == x && c3.1 == y)
    }

    /// Whether every cell of this placement is covered by `other`.
    pub open spec fn within_spec(self, other: BlPlacement) -> bool {
        forall|i: int|
            0 <= i < 4 ==> other.covers_spec(
                (#[trigger] self.cell_spec(i)).0,
                self.cell_spec(i).1,
            )
    }

    fn within(&self, other: &BlPlacement) -> (r: bool)
        ensures
            r == self.within_spec(*other),
    {
        let c0: (i64, i64) = self.cell(0);
        let c1: (i64, i64) = self.cell(1);
        let c2: (i64, i64) = self.cell(2);
        let c3: (i64, i64) = self.cell(3);
        other.covers(c0.0, c0.1) && other.covers(c1.0, c1.1) && other.covers(c2.0, c2.1)
            && other.covers(c3.0, c3.1)
    }

    /// Whether the two placements cover exactly the same field cells.
    pub fn same_footprint(&self, other: &BlPlacement) -> (r: bool)
        ensures
            r == (self.footprint() == other.footprint()),
    {
        let r: bool = self.within(other) && other.within(self);
        proof {
            lemma_footprint_equal(*self, *other);
        }
        r
    }
}

/// Two placements have the same footprint exactly when each covers every
/// cell of the other.
pub proof fn lemma_footprint_equal(a: BlPlacement, b: BlPlacement)
    ensures
        (a.footprint() == b.footprint()) <==> (a.within_spec(b) && b.within_spec(a)),
{
    if a.within_spec(b) && b.within_spec(a) {
        assert forall|c: (int, int)| a.footprint().contains(c) == b.footprint().contains(c) by {
            if a.covers_spec(c.0, c.1) {
                let i = choose|i: int| 0 <= i < 4 && a.cell_spec(i) == c;
                assert(b.covers_spec(a.cell_spec(i).0, a.cell_spec(i).1));
            }
            if b.covers_spec(c.0, c.1) {
                let i = choose|i: int| 0 <= i < 4 && b.cell_spec(i) == c;
                assert(a.covers_spec(b.cell_spec(i).0, b.cell_spec(i).1));
            }
        }
        assert(a.footprint() =~= b.footprint());
    }
    if a.footprint() == b.footprint() {
        assert forall|i: int| 0 <= i < 4 implies b.covers_spec(
            (#[trigger] a.cell_spec(i)).0,
            a.cell_spec(i).1,
        ) by {
            let c = a.cell_spec(i);
            assert(a.covers_spec(c.0, c.1));
            assert(a.footprint().contains(c));
            assert(b.footprint().contains(c));
        }
        assert forall|i: int| 0 <= i < 4 implies a.covers_spec(
            (#[trigger] b.cell_spec(i)).0,
            b.cell_spec(i).1,
        ) by {
            let c = b.cell_spec(i);
            assert(b.covers_spec(c.0, c.1));
            assert(b.footprint().contains(c));
            assert(a.footprint().contains(c));
        }
    }
}

} // verus!
