//! The playing field: ten columns of sixty-four rows, one bit per cell.

use crate::placements::BlPlacement;
use vstd::prelude::*;
use vstd::string::StringSliceAdditionalSpecFns;

verus! {

/// Number of columns of the field.
pub const BOARD_WIDTH: i32 = 10;

/// Number of rows of the field.
pub const BOARD_HEIGHT: i32 = 64;

/// Whether column `x`, row `y` names a cell of the field.
pub open spec fn in_bounds_spec(x: int, y: int) -> bool {
    0 <= x < BOARD_WIDTH && 0 <= y < BOARD_HEIGHT
}

/// Whether column `x`, row `y` names a cell of the field.
pub fn in_bounds(x: i64, y: i64) -> (r: bool)
    ensures
        r == in_bounds_spec(x as int, y as int),
{
    0 <= x && x < 10 && 0 <= y && y < 64
}

/// An occupancy grid. Row 0 is the floor; bit `y` of column `x` is set when
/// the cell in column `x`, row `y` holds a block.
#[derive(Clone, Copy, Debug, PartialEq, Eq, Hash)]
pub struct Board64 {
    cols: [u64; 10],
}

spec fn bit(col: u64, y: u64) -> bool {
    (col >> y) & 1 == 1
}

proof fn lemma_bit_zero(y: u64)
    requires
        y < 64,
    ensures
        !bit(0, y),
{
    assert((0u64 >> y) & 1 != 1) by (bit_vector)
        requires
            y < 64,
    ;
}

proof fn lemma_bit_set(col: u64, y: u64, z: u64)
    requires
        y < 64,
        z < 64,
    ensures
        bit(col | (1u64 << y), z) == (bit(col, z) || z == y),
{
    assert((((col | (1u64 << y)) >> z) & 1 == 1) == (((col >> z) & 1 == 1) || z == y))
        by (bit_vector)
        requires
            y < 64,
            z < 64,
    ;
}

impl Board64 {
    /// Whether the cell in column `x`, row `y` lies on the field and holds a
    /// block.
    pub closed spec fn occupied(self, x: int, y: int) -> bool {
        in_bounds_spec(x, y) && bit(self.cols[x], y as u64)
    }

    /// Whether the cell in column `x`, row `y` lies on the field and is empty.
    pub open spec fn vacant(self, x: int, y: int) -> bool {
        in_bounds_spec(x, y) && !self.occupied(x, y)
    }

    /// Whether some cell of the placement lies outside the field or on a
    /// block.
    pub open spec fn collides_spec(self, p: BlPlacement) -> bool {
        !(self.vacant(p.cell_spec(0).0, p.cell_spec(0).1) && self.vacant(
            p.cell_spec(1).0,
            p.cell_spec(1).1,
        ) && self.vacant(p.cell_spec(2).0, p.cell_spec(2).1) && self.vacant(
            p.cell_spec(3).0,
            p.cell_spec(3).1,
        ))
    }

    /// The field without any block.
    pub fn blank() -> (b: Board64)
        ensures
            forall|x: int, y: int| !b.occupied(x, y),
    {
        let b = Board64 { cols: [0, 0, 0, 0, 0, 0, 0, 0, 0, 0] };
        proof {
            assert forall|x: int, y: int| !b.occupied(x, y) by {
                if in_bounds_spec(x, y) {
                    lemma_bit_zero(y as u64);
                }
            }
        }
        b
    }

    /// Whether the cell in column `x`, row `y` lies on the field and holds a
    /// block.
    pub fn is_occupied_at(&self, x: i64, y: i64) -> (r: bool)
        ensures
            r == self.occupied(x as int, y as int),
    {
        if !in_bounds(x, y) {
            return false;
        }
        let col: u64 = self.cols[x as usize];
        (col >> (y as u64)) & 1 == 1
    }

    /// Whether the cell in column `x`, row `y` lies on the field and is empty.
    pub fn is_vacant_at(&self, x: i64, y: i64) -> (r: bool)
        ensures
            r == self.vacant(x as int, y as int),
    {
        in_bounds(x, y) && !self.is_occupied_at(x, y)
    }

    /// Puts a block into the cell in column `x`, row `y`.
    pub fn set_at(&mut self, x: i32, y: i32)
        requires
            in_bounds_spec(x as int, y as int),
        ensures
            forall|a: int, b: int|
                final(self).occupied(a, b) == (old(self).occupied(a, b) || (a == x && b == y)),
    {
        let col: u64 = self.cols[x as usize];
        let new_col: u64 = col | (1u64 << (y as u64));
        self.cols[x as usize] = new_col;
        proof {
            assert forall|a: int, b: int|
                self.occupied(a, b) == (old(self).occupied(a, b) || (a == x && b == y)) by {
                if in_bounds_spec(a, b) {
                    if a == x {
                        lemma_bit_set(col, y as u64, b as u64);
                    }
                }
            }
        }
    }

    /// Whether some cell of the placement lies outside the field or on a
    /// block.
    pub fn collides(&self, p: &BlPlacement) -> (r: bool)
        ensures
            r == self.collides_spec(*p),
    {
        let c0: (i64, i64) = p.cell(0);
        let c1: (i64, i64) = p.cell(1);
        let c2: (i64, i64) = p.cell(2);
        let c3: (i64, i64) = p.cell(3);
        !(self.is_vacant_at(c0.0, c0.1) && self.is_vacant_at(c1.0, c1.1) && self.is_vacant_at(
            c2.0,
            c2.1,
        ) && self.is_vacant_at(c3.0, c3.1))
    }
}

/// Why a text does not describe a field.
#[derive(Clone, Copy, Debug, PartialEq, Eq, Structural, Hash)]
pub enum BoardError {
    /// The text holds a character that is neither a cell mark nor blank.
    InvalidCharacter,
    /// The number of cell marks is not a multiple of the field's width.
    IncompleteRow,
    /// The text holds more rows than the field has.
    TooManyRows,
}

/// Whether `b` is a space, a tabulator or a line break.
pub open spec fn is_blank(b: u8) -> bool {
    b == 32 || b == 9 || b == 10 || b == 13
}

/// What the mark `b` says of a cell: `.` and `_` stand for an empty cell,
/// `X` and `#` for a block.
pub open spec fn mark_spec(b: u8) -> Option<bool> {
    if b == 46 || b == 95 {
        Some(false)
    } else if b == 88 || b == 35 {
        Some(true)
    } else {
        None
    }
}

/// The cells that the marks in `text` describe, in the order of the text.
/// Blank characters are passed over; there is no result if `text` holds
/// any other character that is not a mark.
pub open spec fn marks_spec(text: Seq<u8>) -> Option<Seq<bool>>
    decreases text.len(),
{
    if text.len() == 0 {
        Some(Seq::empty())
    } else {
        match marks_spec(text.drop_last()) {
            None => None,
            Some(cells) => if is_blank(text.last()) {
                Some(cells)
            } else {
                match mark_spec(text.last()) {
                    Some(block) => Some(cells.push(block)),
                    None => None,
                }
            },
        }
    }
}

/// Whether `board` is the field that `cells` lists row by row, the top row
/// first and each row from left to right.
pub open spec fn shows(board: Board64, cells: Seq<bool>) -> bool {
    forall|x: int, y: int|
        board.occupied(x, y) == (in_bounds_spec(x, y) && y < cells.len() / 10 && cells[(cells.len()
            / 10 - 1 - y) * 10 + x])
}

/// A text that holds a character which is neither a mark nor blank
/// describes no cells, whatever follows that character.
pub proof fn lemma_marks_prefix(text: Seq<u8>, k: int)
    requires
        0 <= k <= text.len(),
        marks_spec(text.take(k)) is None,
    ensures
        marks_spec(text) is None,
    decreases text.len() - k,
{
    if k < text.len() {
        assert(text.take(k + 1).drop_last() =~= text.take(k));
        lemma_marks_prefix(text, k + 1);
    } else {
        assert(text.take(k) =~= text);
    }
}

fn read_marks(text: &[u8]) -> (r: Option<Vec<bool>>)
    ensures
        match r {
            Some(cells) => marks_spec(text@) == Some(cells@),
            None => marks_spec(text@) is None,
        },
{
    let mut cells: Vec<bool> = Vec::new();
    let mut i: usize = 0;
    while i < text.len()
        invariant
            i <= text@.len(),
            marks_spec(text@.take(i as int)) == Some(cells@),
        decreases text@.len() - i,
    {
        let b: u8 = text[i];
        proof {
            assert(text@.take(i + 1).drop_last() =~= text@.take(i as int));
            assert(text@.take(i + 1).last() == b);
        }
        if b == 32 || b == 9 || b == 10 || b == 13 {
        } else if b == 46 || b == 95 {
            cells.push(false);
        } else if b == 88 || b == 35 {
            cells.push(true);
        } else {
            proof {
                lemma_marks_prefix(text@, i + 1);
            }
            return None;
        }
        i = i + 1;
    }
    assert(text@.take(i as int) =~= text@);
    Some(cells)
}

impl Board64 {
    /// Reads a field from a text of cell marks, `.` or `_` for an empty
    /// cell and `X` or `#` for a block. The marks list the rows from the
    /// top one down to the floor, each row from left to right; blank
    /// characters between them are passed over. Rows above those listed
    /// are empty.
    pub fn from_str(text: &str) -> (r: Result<Board64, BoardError>)
        ensures
            match r {
                Ok(board) => marks_spec(text.spec_bytes()) matches Some(cells) && cells.len() % 10
                    == 0 && cells.len() <= 640 && shows(board, cells),
                Err(BoardError::InvalidCharacter) => marks_spec(text.spec_bytes()) is None,
                Err(BoardError::IncompleteRow) => marks_spec(text.spec_bytes()) matches Some(cells)
                    && cells.len() % 10 != 0,
                Err(BoardError::TooManyRows) => marks_spec(text.spec_bytes()) matches Some(cells)
                    && cells.len() % 10 == 0 && cells.len() > 640,
            },
    {
        let cells: Vec<bool> = match read_marks(text.as_bytes()) {
            Some(cells) => cells,
            None => {
                return Err(BoardError::InvalidCharacter);
            },
        };
        if cells.len() % 10 != 0 {
            return Err(BoardError::IncompleteRow);
        }
        if cells.len() > 640 {
            return Err(BoardError::TooManyRows);
        }
        let rows: usize = cells.len() / 10;
        let mut board: Board64 = Board64::blank();
        let mut i: usize = 0;
        while i < cells.len()
            invariant
                i <= cells@.len(),
                cells@.len() == rows * 10,
                rows <= 64,
                forall|x: int, y: int|
                    board.occupied(x, y) == (in_bounds_spec(x, y) && y < rows && (rows - 1 - y) * 10
                        + x < i && cells@[(rows - 1 - y) * 10 + x]),
            decreases cells@.len() - i,
        {
            if cells[i] {
                let x: usize = i % 10;
                let y: usize = rows - 1 - i / 10;
                board.set_at(x as i32, y as i32);
            }
            i = i + 1;
        }
        Ok(board)
    }
}

/// A placement that does not collide has the bottom-left corner of its
/// bounding box on the field.
pub proof fn lemma_free_position(board: Board64, p: BlPlacement)
    requires
        !board.collides_spec(p),
    ensures
        0 <= p.position.lx < BOARD_WIDTH,
        0 <= p.position.by < BOARD_HEIGHT,
{
    crate::pieces::lemma_cells_in_box(p.piece);
    let c = p.piece.cells_spec();
    let i = choose|i: int| 0 <= i < 4 && (#[trigger] c[i]).0 == 0;
    let j = choose|j: int| 0 <= j < 4 && (#[trigger] c[j]).1 == 0;
    assert(board.vacant(p.cell_spec(i).0, p.cell_spec(i).1));
    assert(board.vacant(p.cell_spec(j).0, p.cell_spec(j).1));
}

} // verus!
