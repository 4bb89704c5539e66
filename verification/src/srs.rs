//! The standard rotation system: rotation about the centre of the piece,
//! with five wall-kick candidates for each quarter turn.

use crate::pieces::{Offset, Orientation, Piece, Rotation, Shape};
use crate::rotation::RotationSystem;
use vstd::prelude::*;

verus! {

/// The standard rotation system. It has no half turn.
#[derive(Clone, Copy, Debug, Default, PartialEq, Eq, PartialOrd, Ord, Hash)]
pub struct SrsKickTable;

/// Kick candidates of the three-wide shapes, as displacements of the
/// rotation centre, for a quarter turn out of `from`.
pub open spec fn three_wide_kicks(from: Orientation, rotation: Rotation) -> Seq<(int, int)> {
    match (from, rotation) {
        (Orientation::North, Rotation::Cw) => seq![(0int, 0int), (-1int, 0int), (-1int, 1int), (0int, -2int), (-1int, -2int)],
        (Orientation::North, Rotation::Ccw) => seq![(0int, 0int), (1int, 0int), (1int, 1int), (0int, -2int), (1int, -2int)],
        (Orientation::East, Rotation::Cw) => seq![(0int, 0int), (1int, 0int), (1int, -1int), (0int, 2int), (1int, 2int)],
        (Orientation::East, Rotation::Ccw) => seq![(0int, 0int), (1int, 0int), (1int, -1int), (0int, 2int), (1int, 2int)],
        (Orientation::South, Rotation::Cw) => seq![(0int, 0int), (1int, 0int), (1int, 1int), (0int, -2int), (1int, -2int)],
        (Orientation::South, Rotation::Ccw) => seq![(0int, 0int), (-1int, 0int), (-1int, 1int), (0int, -2int), (-1int, -2int)],
        (Orientation::West, Rotation::Cw) => seq![(0int, 0int), (-1int, 0int), (-1int, -1int), (0int, 2int), (-1int, 2int)],
        (Orientation::West, Rotation::Ccw) => seq![(0int, 0int), (-1int, 0int), (-1int, -1int), (0int, 2int), (-1int, 2int)],
        (_, Rotation::Half) => seq![],
    }
}

/// Kick candidates of the I shape, as displacements of the rotation centre,
/// for a quarter turn out of `from`.
pub open spec fn bar_kicks(from: Orientation, rotation: Rotation) -> Seq<(int, int)> {
    match (from, rotation) {
        (Orientation::North, Rotation::Cw) => seq![(0int, 0int), (-2int, 0int), (1int, 0int), (-2int, -1int), (1int, 2int)],
        (Orientation::North, Rotation::Ccw) => seq![(0int, 0int), (-1int, 0int), (2int, 0int), (-1int, 2int), (2int, -1int)],
        (Orientation::East, Rotation::Cw) => seq![(0int, 0int), (-1int, 0int), (2int, 0int), (-1int, 2int), (2int, -1int)],
        (Orientation::East, Rotation::Ccw) => seq![(0int, 0int), (2int, 0int), (-1int, 0int), (2int, 1int), (-1int, -2int)],
        (Orientation::South, Rotation::Cw) => seq![(0int, 0int), (2int, 0int), (-1int, 0int), (2int, 1int), (-1int, -2int)],
        (Orientation::South, Rotation::Ccw) => seq![(0int, 0int), (1int, 0int), (-2int, 0int), (1int, -2int), (-2int, 1int)],
        (Orientation::West, Rotation::Cw) => seq![(0int, 0int), (1int, 0int), (-2int, 0int), (1int, -2int), (-2int, 1int)],
        (Orientation::West, Rotation::Ccw) => seq![(0int, 0int), (-2int, 0int), (1int, 0int), (-2int, -1int), (1int, 2int)],
        (_, Rotation::Half) => seq![],
    }
}

/// Kick candidates of `piece` for `rotation`, as displacements of the
/// rotation centre. The O shape turns in place.
pub open spec fn centre_kicks(piece: Piece, rotation: Rotation) -> Seq<(int, int)> {
    match piece.shape {
        Shape::O => match rotation {
            Rotation::Half => seq![],
            _ => seq![(0int, 0int)],
        },
        Shape::I => bar_kicks(piece.orientation, rotation),
        _ => three_wide_kicks(piece.orientation, rotation),
    }
}

/// Where the bottom-left corner of the bounding box of `piece` lies, seen
/// from its rotation centre.
pub open spec fn corner_spec(piece: Piece) -> (int, int) {
    match piece.shape {
        Shape::O => (0, 0),
        Shape::I => match piece.orientation {
            Orientation::North => (-1, 0),
            Orientation::East => (1, -2),
            Orientation::South => (-1, -1),
            Orientation::West => (0, -2),
        },
        _ => match piece.orientation {
            Orientation::North => (-1, 0),
            Orientation::East => (0, -1),
            Orientation::South => (-1, -1),
            Orientation::West => (-1, -1),
        },
    }
}

/// The `i`-th kick candidate of `piece` for `rotation`, as a displacement of
/// the bottom-left corner of the bounding box: the displacement of the
/// centre, plus the move of the corner about the centre.
pub open spec fn srs_kick(piece: Piece, rotation: Rotation, i: int) -> Offset {
    let k = centre_kicks(piece, rotation)[i];
    let from = corner_spec(piece);
    let to = corner_spec(piece.rotated_spec(rotation));
    Offset { dx: (k.0 + to.0 - from.0) as i32, dy: (k.1 + to.1 - from.1) as i32 }
}

/// The ordered kick candidates of `piece` for `rotation`.
pub open spec fn srs_kicks(piece: Piece, rotation: Rotation) -> Seq<Offset> {
    Seq::new(centre_kicks(piece, rotation).len(), |i: int| srs_kick(piece, rotation, i))
}

fn three_wide_table(from: Orientation, rotation: Rotation) -> (t: Vec<Offset>)
    ensures
        t@.len() == three_wide_kicks(from, rotation).len(),
        forall|i: int|
            0 <= i < t@.len() ==> (#[trigger] t@[i]).dx == three_wide_kicks(from, rotation)[i].0
                && t@[i].dy == three_wide_kicks(from, rotation)[i].1,
{
    match (from, rotation) {
        (Orientation::North, Rotation::Cw) => vec![Offset::new(0, 0), Offset::new(-1, 0), Offset::new(-1, 1), Offset::new(0, -2), Offset::new(-1, -2)],
        (Orientation::North, Rotation::Ccw) => vec![Offset::new(0, 0), Offset::new(1, 0), Offset::new(1, 1), Offset::new(0, -2), Offset::new(1, -2)],
        (Orientation::East, Rotation::Cw) => vec![Offset::new(0, 0), Offset::new(1, 0), Offset::new(1, -1), Offset::new(0, 2), Offset::new(1, 2)],
        (Orientation::East, Rotation::Ccw) => vec![Offset::new(0, 0), Offset::new(1, 0), Offset::new(1, -1), Offset::new(0, 2), Offset::new(1, 2)],
        (Orientation::South, Rotation::Cw) => vec![Offset::new(0, 0), Offset::new(1, 0), Offset::new(1, 1), Offset::new(0, -2), Offset::new(1, -2)],
        (Orientation::South, Rotation::Ccw) => vec![Offset::new(0, 0), Offset::new(-1, 0), Offset::new(-1, 1), Offset::new(0, -2), Offset::new(-1, -2)],
        (Orientation::West, Rotation::Cw) => vec![Offset::new(0, 0), Offset::new(-1, 0), Offset::new(-1, -1), Offset::new(0, 2), Offset::new(-1, 2)],
        (Orientation::West, Rotation::Ccw) => vec![Offset::new(0, 0), Offset::new(-1, 0), Offset::new(-1, -1), Offset::new(0, 2), Offset::new(-1, 2)],
        (_, Rotation::Half) => Vec::new(),
    }
}

fn bar_table(from: Orientation, rotation: Rotation) -> (t: Vec<Offset>)
    ensures
        t@.len() == bar_kicks(from, rotation).len(),
        forall|i: int|
            0 <= i < t@.len() ==> (#[trigger] t@[i]).dx == bar_kicks(from, rotation)[i].0
                && t@[i].dy == bar_kicks(from, rotation)[i].1,
{
    match (from, rotation) {
        (Orientation::North, Rotation::Cw) => vec![Offset::new(0, 0), Offset::new(-2, 0), Offset::new(1, 0), Offset::new(-2, -1), Offset::new(1, 2)],
        (Orientation::North, Rotation::Ccw) => vec![Offset::new(0, 0), Offset::new(-1, 0), Offset::new(2, 0), Offset::new(-1, 2), Offset::new(2, -1)],
        (Orientation::East, Rotation::Cw) => vec![Offset::new(0, 0), Offset::new(-1, 0), Offset::new(2, 0), Offset::new(-1, 2), Offset::new(2, -1)],
        (Orientation::East, Rotation::Ccw) => vec![Offset::new(0, 0), Offset::new(2, 0), Offset::new(-1, 0), Offset::new(2, 1), Offset::new(-1, -2)],
        (Orientation::South, Rotation::Cw) => vec![Offset::new(0, 0), Offset::new(2, 0), Offset::new(-1, 0), Offset::new(2, 1), Offset::new(-1, -2)],
        (Orientation::South, Rotation::Ccw) => vec![Offset::new(0, 0), Offset::new(1, 0), Offset::new(-2, 0), Offset::new(1, -2), Offset::new(-2, 1)],
        (Orientation::West, Rotation::Cw) => vec![Offset::new(0, 0), Offset::new(1, 0), Offset::new(-2, 0), Offset::new(1, -2), Offset::new(-2, 1)],
        (Orientation::West, Rotation::Ccw) => vec![Offset::new(0, 0), Offset::new(-2, 0), Offset::new(1, 0), Offset::new(-2, -1), Offset::new(1, 2)],
        (_, Rotation::Half) => Vec::new(),
    }
}

fn centre_table(piece: Piece, rotation: Rotation) -> (t: Vec<Offset>)
    ensures
        t@.len() == centre_kicks(piece, rotation).len(),
        forall|i: int|
            0 <= i < t@.len() ==> (#[trigger] t@[i]).dx == centre_kicks(piece, rotation)[i].0
                && t@[i].dy == centre_kicks(piece, rotation)[i].1,
{
    match piece.shape {
        Shape::O => match rotation {
            Rotation::Half => Vec::new(),
            _ => vec![Offset::new(0, 0)],
        },
        Shape::I => bar_table(piece.orientation, rotation),
        _ => three_wide_table(piece.orientation, rotation),
    }
}

fn corner(piece: Piece) -> (c: Offset)
    ensures
        (c.dx as int, c.dy as int) == corner_spec(piece),
{
    match piece.shape {
        Shape::O => Offset::new(0, 0),
        Shape::I => match piece.orientation {
            Orientation::North => Offset::new(-1, 0),
            Orientation::East => Offset::new(1, -2),
            Orientation::South => Offset::new(-1, -1),
            Orientation::West => Offset::new(0, -2),
        },
        _ => match piece.orientation {
            Orientation::North => Offset::new(-1, 0),
            Orientation::East => Offset::new(0, -1),
            Orientation::South => Offset::new(-1, -1),
            Orientation::West => Offset::new(-1, -1),
        },
    }
}

/// Every displacement of the centre is at most two cells in each direction.
proof fn lemma_centre_kicks_small(piece: Piece, rotation: Rotation, i: int)
    requires
        0 <= i < centre_kicks(piece, rotation).len(),
    ensures
        -2 <= centre_kicks(piece, rotation)[i].0 <= 2,
        -2 <= centre_kicks(piece, rotation)[i].1 <= 2,
{
}

impl RotationSystem for SrsKickTable {
    open spec fn kicks_spec(&self, piece: Piece, rotation: Rotation) -> Seq<Offset> {
        srs_kicks(piece, rotation)
    }

    fn kick_candidates(&self, piece: Piece, rotation: Rotation) -> (kicks: Vec<Offset>) {
        let table: Vec<Offset> = centre_table(piece, rotation);
        let from: Offset = corner(piece);
        let to: Offset = corner(piece.rotated(rotation));
        let mut kicks: Vec<Offset> = Vec::new();
        let mut i: usize = 0;
        while i < table.len()
            invariant
                i <= table@.len(),
                table@.len() == centre_kicks(piece, rotation).len(),
                forall|j: int|
                    0 <= j < table@.len() ==> (#[trigger] table@[j]).dx == centre_kicks(
                        piece,
                        rotation,
                    )[j].0 && table@[j].dy == centre_kicks(piece, rotation)[j].1,
                (from.dx as int, from.dy as int) == corner_spec(piece),
                (to.dx as int, to.dy as int) == corner_spec(piece.rotated_spec(rotation)),
                kicks@.len() == i,
                forall|j: int| 0 <= j < i ==> kicks@[j] == srs_kick(piece, rotation, j),
            decreases table@.len() - i,
        {
            let k: Offset = table[i];
            proof {
                lemma_centre_kicks_small(piece, rotation, i as int);
            }
            kicks.push(Offset::new(k.dx + to.dx - from.dx, k.dy + to.dy - from.dy));
            i = i + 1;
        }
        assert(kicks@ =~= srs_kicks(piece, rotation));
        kicks
    }
}

} // verus!
