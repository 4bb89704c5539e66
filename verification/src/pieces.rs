//! The piece catalog: shapes, orientations and the cells each piece covers.

use vstd::prelude::*;

verus! {

/// The seven four-cell shapes.
#[derive(Clone, Copy, Debug, PartialEq, Eq, Structural, Hash)]
pub enum Shape {
    T,
    I,
    O,
    L,
    J,
    S,
    Z,
}

/// The four rotation states of a piece, in clockwise order.
#[derive(Clone, Copy, Debug, PartialEq, Eq, Structural, Hash)]
pub enum Orientation {
    North,
    East,
    South,
    West,
}

/// A transition between orientations.
#[derive(Clone, Copy, Debug, PartialEq, Eq, Structural, Hash)]
pub enum Rotation {
    /// A quarter turn clockwise.
    Cw,
    /// A quarter turn counter-clockwise.
    Ccw,
    /// A half turn.
    Half,
}

/// A displacement on the field: `dx` columns to the right, `dy` rows upward.
#[derive(Clone, Copy, Debug, PartialEq, Eq, Structural, Hash)]
pub struct Offset {
    pub dx: i32,
    pub dy: i32,
}

/// A shape in one of its orientations.
#[derive(Clone, Copy, Debug, PartialEq, Eq, Structural, Hash)]
pub struct Piece {
    pub shape: Shape,
    pub orientation: Orientation,
}

/// Number of shapes.
pub const SHAPE_COUNT: usize = 7;

/// Number of orientations in the cycle of every shape.
pub const ORIENTATION_COUNT: usize = 4;

/// Number of cells a piece covers.
pub const CELL_COUNT: usize = 4;

impl Shape {
    /// The number of the shape among the shapes.
    pub open spec fn index_spec(self) -> int {
        match self {
            Shape::T => 0,
            Shape::I => 1,
            Shape::O => 2,
            Shape::L => 3,
            Shape::J => 4,
            Shape::S => 5,
            Shape::Z => 6,
        }
    }

    /// The number of the shape among the shapes.
    pub fn index(self) -> (i: usize)
        ensures
            i == self.index_spec(),
            i < SHAPE_COUNT,
    {
        match self {
            Shape::T => 0,
            Shape::I => 1,
            Shape::O => 2,
            Shape::L => 3,
            Shape::J => 4,
            Shape::S => 5,
            Shape::Z => 6,
        }
    }
}

impl Orientation {
    /// Position of the orientation in the clockwise cycle, starting at North.
    pub open spec fn index_spec(self) -> int {
        match self {
            Orientation::North => 0,
            Orientation::East => 1,
            Orientation::South => 2,
            Orientation::West => 3,
        }
    }

    /// The orientation at position `i` of the clockwise cycle, taken modulo four.
    pub open spec fn from_index_spec(i: int) -> Orientation {
        let k = i % 4;
        if k == 0 {
            Orientation::North
        } else if k == 1 {
            Orientation::East
        } else if k == 2 {
            Orientation::South
        } else {
            Orientation::West
        }
    }

    /// The orientation reached by `rotation`: the cycle advanced by its number
    /// of quarter turns, wrapping around.
    pub open spec fn rotated_spec(self, rotation: Rotation) -> Orientation {
        Orientation::from_index_spec(self.index_spec() + rotation.quarter_turns_spec())
    }

    /// Position of the orientation in the clockwise cycle, starting at North.
    pub fn index(self) -> (i: usize)
        ensures
            i == self.index_spec(),
            i < ORIENTATION_COUNT,
    {
        match self {
            Orientation::North => 0,
            Orientation::East => 1,
            Orientation::South => 2,
            Orientation::West => 3,
        }
    }

    /// The orientation reached by `rotation`.
    pub fn rotated(self, rotation: Rotation) -> (o: Orientation)
        ensures
            o == self.rotated_spec(rotation),
    {
        let k: usize = (self.index() + rotation.quarter_turns()) % 4;
        if k == 0 {
            Orientation::North
        } else if k == 1 {
            Orientation::East
        } else if k == 2 {
            Orientation::South
        } else {
            Orientation::West
        }
    }
}

impl Rotation {
    /// Number of clockwise quarter turns the rotation amounts to.
    pub open spec fn quarter_turns_spec(self) -> int {
        match self {
            Rotation::Cw => 1,
            Rotation::Half => 2,
            Rotation::Ccw => 3,
        }
    }

    /// Number of clockwise quarter turns the rotation amounts to.
    pub fn quarter_turns(self) -> (n: usize)
        ensures
            n == self.quarter_turns_spec(),
    {
        match self {
            Rotation::Cw => 1,
            Rotation::Half => 2,
            Rotation::Ccw => 3,
        }
    }

    /// The rotation that undoes this one.
    pub open spec fn inverse_spec(self) -> Rotation {
        match self {
            Rotation::Cw => Rotation::Ccw,
            Rotation::Half => Rotation::Half,
            Rotation::Ccw => Rotation::Cw,
        }
    }
}

/// Rotating and then rotating back restores the orientation.
pub proof fn lemma_rotation_inverse(o: Orientation, r: Rotation)
    ensures
        o.rotated_spec(r).rotated_spec(r.inverse_spec()) == o,
{
}

/// Four quarter turns clockwise restore the orientation: the cycle wraps.
pub proof fn lemma_rotation_cycle(o: Orientation)
    ensures
        o.rotated_spec(Rotation::Cw).rotated_spec(Rotation::Cw).rotated_spec(
            Rotation::Cw,
        ).rotated_spec(Rotation::Cw) == o,
        o.rotated_spec(Rotation::Cw).rotated_spec(Rotation::Cw) == o.rotated_spec(Rotation::Half),
{
}

fn cell(dx: i32, dy: i32) -> (c: Offset)
    ensures
        c.dx == dx,
        c.dy == dy,
{
    Offset { dx, dy }
}

impl Offset {
    pub fn new(dx: i32, dy: i32) -> (o: Offset)
        ensures
            o.dx == dx,
            o.dy == dy,
    {
        Offset { dx, dy }
    }
}

impl Piece {
    pub fn new(shape: Shape, orientation: Orientation) -> (p: Piece)
        ensures
            p.shape == shape,
            p.orientation == orientation,
    {
        Piece { shape, orientation }
    }

    /// The cells the piece covers, as (column, row) pairs counted from the
    /// bottom-left corner of its bounding box.
    pub open spec fn cells_spec(self) -> Seq<(int, int)> {
        match (self.shape, self.orientation) {
            (Shape::T, Orientation::North) => seq![(0int, 0int), (1int, 0int), (2int, 0int), (1int, 1int)],
            (Shape::T, Orientation::East) => seq![(0int, 0int), (0int, 1int), (1int, 1int), (0int, 2int)],
            (Shape::T, Orientation::South) => seq![(1int, 0int), (0int, 1int), (1int, 1int), (2int, 1int)],
            (Shape::T, Orientation::West) => seq![(1int, 0int), (0int, 1int), (1int, 1int), (1int, 2int)],
            (Shape::I, Orientation::North) => seq![(0int, 0int), (1int, 0int), (2int, 0int), (3int, 0int)],
            (Shape::I, Orientation::East) => seq![(0int, 0int), (0int, 1int), (0int, 2int), (0int, 3int)],
            (Shape::I, Orientation::South) => seq![(0int, 0int), (1int, 0int), (2int, 0int), (3int, 0int)],
            (Shape::I, Orientation::West) => seq![(0int, 0int), (0int, 1int), (0int, 2int), (0int, 3int)],
            (Shape::O, Orientation::North) => seq![(0int, 0int), (1int, 0int), (0int, 1int), (1int, 1int)],
            (Shape::O, Orientation::East) => seq![(0int, 0int), (1int, 0int), (0int, 1int), (1int, 1int)],
            (Shape::O, Orientation::South) => seq![(0int, 0int), (1int, 0int), (0int, 1int), (1int, 1int)],
            (Shape::O, Orientation::West) => seq![(0int, 0int), (1int, 0int), (0int, 1int), (1int, 1int)],
            (Shape::L, Orientation::North) => seq![(0int, 0int), (1int, 0int), (2int, 0int), (2int, 1int)],
            (Shape::L, Orientation::East) => seq![(0int, 0int), (1int, 0int), (0int, 1int), (0int, 2int)],
            (Shape::L, Orientation::South) => seq![(0int, 0int), (0int, 1int), (1int, 1int), (2int, 1int)],
            (Shape::L, Orientation::West) => seq![(1int, 0int), (1int, 1int), (0int, 2int), (1int, 2int)],
            (Shape::J, Orientation::North) => seq![(0int, 0int), (1int, 0int), (2int, 0int), (0int, 1int)],
            (Shape::J, Orientation::East) => seq![(0int, 0int), (0int, 1int), (0int, 2int), (1int, 2int)],
            (Shape::J, Orientation::South) => seq![(2int, 0int), (0int, 1int), (1int, 1int), (2int, 1int)],
            (Shape::J, Orientation::West) => seq![(0int, 0int), (1int, 0int), (1int, 1int), (1int, 2int)],
            (Shape::S, Orientation::North) => seq![(0int, 0int), (1int, 0int), (1int, 1int), (2int, 1int)],
            (Shape::S, Orientation::East) => seq![(1int, 0int), (0int, 1int), (1int, 1int), (0int, 2int)],
            (Shape::S, Orientation::South) => seq![(0int, 0int), (1int, 0int), (1int, 1int), (2int, 1int)],
            (Shape::S, Orientation::West) => seq![(1int, 0int), (0int, 1int), (1int, 1int), (0int, 2int)],
            (Shape::Z, Orientation::North) => seq![(1int, 0int), (2int, 0int), (0int, 1int), (1int, 1int)],
            (Shape::Z, Orientation::East) => seq![(0int, 0int), (0int, 1int), (1int, 1int), (1int, 2int)],
            (Shape::Z, Orientation::South) => seq![(1int, 0int), (2int, 0int), (0int, 1int), (1int, 1int)],
            (Shape::Z, Orientation::West) => seq![(0int, 0int), (0int, 1int), (1int, 1int), (1int, 2int)],
        }
    }

    /// The same piece turned by `rotation`.
    pub open spec fn rotated_spec(self, rotation: Rotation) -> Piece {
        Piece { shape: self.shape, orientation: self.orientation.rotated_spec(rotation) }
    }

    /// The cells the piece covers, counted from the bottom-left corner of its
    /// bounding box.
    pub fn cells(self) -> (cells: [Offset; 4])
        ensures
            forall|i: int|
                0 <= i < 4 ==> (#[trigger] cells[i]).dx == self.cells_spec()[i].0 && cells[i].dy
                    == self.cells_spec()[i].1,
    {
        match (self.shape, self.orientation) {
            (Shape::T, Orientation::North) => [cell(0, 0), cell(1, 0), cell(2, 0), cell(1, 1)],
            (Shape::T, Orientation::East) => [cell(0, 0), cell(0, 1), cell(1, 1), cell(0, 2)],
            (Shape::T, Orientation::South) => [cell(1, 0), cell(0, 1), cell(1, 1), cell(2, 1)],
            (Shape::T, Orientation::West) => [cell(1, 0), cell(0, 1), cell(1, 1), cell(1, 2)],
            (Shape::I, Orientation::North) => [cell(0, 0), cell(1, 0), cell(2, 0), cell(3, 0)],
            (Shape::I, Orientation::East) => [cell(0, 0), cell(0, 1), cell(0, 2), cell(0, 3)],
            (Shape::I, Orientation::South) => [cell(0, 0), cell(1, 0), cell(2, 0), cell(3, 0)],
            (Shape::I, Orientation::West) => [cell(0, 0), cell(0, 1), cell(0, 2), cell(0, 3)],
            (Shape::O, Orientation::North) => [cell(0, 0), cell(1, 0), cell(0, 1), cell(1, 1)],
            (Shape::O, Orientation::East) => [cell(0, 0), cell(1, 0), cell(0, 1), cell(1, 1)],
            (Shape::O, Orientation::South) => [cell(0, 0), cell(1, 0), cell(0, 1), cell(1, 1)],
            (Shape::O, Orientation::West) => [cell(0, 0), cell(1, 0), cell(0, 1), cell(1, 1)],
            (Shape::L, Orientation::North) => [cell(0, 0), cell(1, 0), cell(2, 0), cell(2, 1)],
            (Shape::L, Orientation::East) => [cell(0, 0), cell(1, 0), cell(0, 1), cell(0, 2)],
            (Shape::L, Orientation::South) => [cell(0, 0), cell(0, 1), cell(1, 1), cell(2, 1)],
            (Shape::L, Orientation::West) => [cell(1, 0), cell(1, 1), cell(0, 2), cell(1, 2)],
            (Shape::J, Orientation::North) => [cell(0, 0), cell(1, 0), cell(2, 0), cell(0, 1)],
            (Shape::J, Orientation::East) => [cell(0, 0), cell(0, 1), cell(0, 2), cell(1, 2)],
            (Shape::J, Orientation::South) => [cell(2, 0), cell(0, 1), cell(1, 1), cell(2, 1)],
            (Shape::J, Orientation::West) => [cell(0, 0), cell(1, 0), cell(1, 1), cell(1, 2)],
            (Shape::S, Orientation::North) => [cell(0, 0), cell(1, 0), cell(1, 1), cell(2, 1)],
            (Shape::S, Orientation::East) => [cell(1, 0), cell(0, 1), cell(1, 1), cell(0, 2)],
            (Shape::S, Orientation::South) => [cell(0, 0), cell(1, 0), cell(1, 1), cell(2, 1)],
            (Shape::S, Orientation::West) => [cell(1, 0), cell(0, 1), cell(1, 1), cell(0, 2)],
            (Shape::Z, Orientation::North) => [cell(1, 0), cell(2, 0), cell(0, 1), cell(1, 1)],
            (Shape::Z, Orientation::East) => [cell(0, 0), cell(0, 1), cell(1, 1), cell(1, 2)],
            (Shape::Z, Orientation::South) => [cell(1, 0), cell(2, 0), cell(0, 1), cell(1, 1)],
            (Shape::Z, Orientation::West) => [cell(0, 0), cell(0, 1), cell(1, 1), cell(1, 2)],
        }
    }

    /// The same piece turned by `rotation`.
    pub fn rotated(self, rotation: Rotation) -> (p: Piece)
        ensures
            p == self.rotated_spec(rotation),
    {
        Piece { shape: self.shape, orientation: self.orientation.rotated(rotation) }
    }
}

/// Every piece covers four cells inside a four-by-four box whose bottom row
/// and left column it touches.
pub proof fn lemma_cells_in_box(p: Piece)
    ensures
        p.cells_spec().len() == 4,
        forall|i: int|
            0 <= i < 4 ==> 0 <= (#[trigger] p.cells_spec()[i]).0 < 4 && 0 <= p.cells_spec()[i].1
                < 4,
        exists|i: int| 0 <= i < 4 && (#[trigger] p.cells_spec()[i]).0 == 0,
        exists|i: int| 0 <= i < 4 && (#[trigger] p.cells_spec()[i]).1 == 0,
{
    let c = p.cells_spec();
    assert(c[0].0 == 0 || c[1].0 == 0 || c[2].0 == 0);
    assert(c[0].1 == 0 || c[1].1 == 0);
}

} // verus!
