//! The capability a rotation system offers to the move search, and a
//! rotation system given by a table.

use crate::pieces::{Offset, Piece, Rotation};
use vstd::prelude::*;

verus! {

/// A rotation system: for a piece and a rotation it names, in order, the
/// displacements of the bounding box's bottom-left corner to try. The first
/// candidate that leaves the turned piece free of collisions is taken; an
/// empty list means the rotation is never possible.
pub trait RotationSystem {
    /// The ordered kick candidates for turning `piece` by `rotation`.
    spec fn kicks_spec(&self, piece: Piece, rotation: Rotation) -> Seq<Offset>;

    /// The ordered kick candidates for turning `piece` by `rotation`.
    fn kick_candidates(&self, piece: Piece, rotation: Rotation) -> (kicks: Vec<Offset>)
        ensures
            kicks@ == self.kicks_spec(piece, rotation),
    ;
}

/// Number of pairs of a piece and a rotation: seven shapes in four
/// orientations, three rotations each.
pub const SLOT_COUNT: usize = 84;

/// The number of the pair of `piece` and `rotation` among such pairs.
pub open spec fn slot_spec(piece: Piece, rotation: Rotation) -> int {
    piece.shape.index_spec() * 12 + piece.orientation.index_spec() * 3
        + rotation.quarter_turns_spec() - 1
}

/// Different pairs of a piece and a rotation have different numbers, all
/// below `SLOT_COUNT`.
pub proof fn lemma_slot(piece: Piece, rotation: Rotation, other: Piece, other_rotation: Rotation)
    ensures
        0 <= slot_spec(piece, rotation) < SLOT_COUNT,
        slot_spec(piece, rotation) == slot_spec(other, other_rotation) ==> piece == other
            && rotation == other_rotation,
{
}

fn slot(piece: Piece, rotation: Rotation) -> (k: usize)
    ensures
        k == slot_spec(piece, rotation),
        k < SLOT_COUNT,
{
    piece.shape.index() * 12 + piece.orientation.index() * 3 + rotation.quarter_turns() - 1
}

fn copy_of(list: &Vec<Offset>) -> (copy: Vec<Offset>)
    ensures
        copy@ == list@,
{
    let mut copy: Vec<Offset> = Vec::new();
    let mut i: usize = 0;
    while i < list.len()
        invariant
            i <= list@.len(),
            copy@ == list@.take(i as int),
        decreases list@.len() - i,
    {
        copy.push(list[i]);
        assert(list@.take(i + 1) =~= list@.take(i as int).push(list@[i as int]));
        i = i + 1;
    }
    assert(list@.take(i as int) =~= list@);
    copy
}

/// A rotation system given by a table: one list of kick candidates for each
/// pair of a piece and a rotation.
#[derive(Debug, PartialEq, Eq, Hash)]
pub struct KickTable {
    lists: Vec<Vec<Offset>>,
}

impl KickTable {
    #[verifier::type_invariant]
    spec fn complete(self) -> bool {
        self.lists@.len() == SLOT_COUNT
    }

    /// The kick candidates the table holds for turning `piece` by
    /// `rotation`.
    pub closed spec fn list_spec(self, piece: Piece, rotation: Rotation) -> Seq<Offset> {
        self.lists@[slot_spec(piece, rotation)]@
    }

    /// The table in which every list is empty: no piece can turn.
    pub fn new() -> (table: KickTable)
        ensures
            forall|piece: Piece, rotation: Rotation|
                #[trigger] table.list_spec(piece, rotation) == Seq::<Offset>::empty(),
    {
        let mut lists: Vec<Vec<Offset>> = Vec::new();
        let mut k: usize = 0;
        while k < SLOT_COUNT
            invariant
                k <= SLOT_COUNT,
                lists@.len() == k,
                forall|j: int| 0 <= j < k ==> (#[trigger] lists@[j])@ == Seq::<Offset>::empty(),
            decreases SLOT_COUNT - k,
        {
            lists.push(Vec::new());
            k = k + 1;
        }
        let table = KickTable { lists };
        proof {
            assert forall|piece: Piece, rotation: Rotation|
                #[trigger] table.list_spec(piece, rotation) == Seq::<Offset>::empty() by {
                lemma_slot(piece, rotation, piece, rotation);
            }
        }
        table
    }

    /// The table with `kicks` as the kick candidates for turning `piece` by
    /// `rotation`, and every other list as it is in `self`.
    pub fn with_kicks(self, piece: Piece, rotation: Rotation, kicks: Vec<Offset>) -> (table:
        KickTable)
        ensures
            table.list_spec(piece, rotation) == kicks@,
            forall|other: Piece, other_rotation: Rotation|
                other != piece || other_rotation != rotation ==> #[trigger] table.list_spec(
                    other,
                    other_rotation,
                ) == self.list_spec(other, other_rotation),
    {
        proof {
            use_type_invariant(&self);
        }
        let k: usize = slot(piece, rotation);
        let mut lists: Vec<Vec<Offset>> = self.lists;
        lists.set(k, kicks);
        let table = KickTable { lists };
        proof {
            assert forall|other: Piece, other_rotation: Rotation|
                other != piece || other_rotation != rotation implies #[trigger] table.list_spec(
                other,
                other_rotation,
            ) == self.list_spec(other, other_rotation) by {
                lemma_slot(other, other_rotation, piece, rotation);
            }
        }
        table
    }
}

impl RotationSystem for KickTable {
    open spec fn kicks_spec(&self, piece: Piece, rotation: Rotation) -> Seq<Offset> {
        self.list_spec(piece, rotation)
    }

    fn kick_candidates(&self, piece: Piece, rotation: Rotation) -> (kicks: Vec<Offset>) {
        proof {
            use_type_invariant(self);
        }
        copy_of(&self.lists[slot(piece, rotation)])
    }
}

} // verus!
