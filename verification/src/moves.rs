//! The rules of move generation and the entry points of the crate.

use crate::boards::Board64;
use crate::graph::{
    hard_drop_spec, lemma_reachable_free, lemma_reachable_reflexive, lemma_reachable_softdrop,
    lemma_reachable_transitive, reachable, terminal,
};
use crate::landing::{
    all_moves_harddrop, all_moves_softdrop, harddrop_moves, lands, lemma_hard_drop,
    lemma_harddrop_moves, lemma_softdrop_moves, softdrop_moves,
};
use crate::placements::BlPlacement;
use crate::reduce::{
    distinct_keys, first_by_key, footprint_key, has_key, lemma_first_by_key,
    lemma_first_by_key_idempotent, lemma_first_by_key_is_first, lemma_first_by_key_len,
    one_per_footprint,
};
use crate::rotation::RotationSystem;
use crate::srs::SrsKickTable;
use std::rc::Rc;
use vstd::prelude::*;

verus! {

/// How a piece travels downward.
#[derive(Copy, Clone, Eq, PartialEq, Structural, Ord, PartialOrd, Hash, Debug, Default)]
pub enum Drop {
    /// The piece may move down row by row, between shifts and rotations.
    #[default]
    Softdrop,
    /// The piece only falls all the way, after its shifts and rotations.
    Harddrop,
}

/// Rules to be applied during move generation: a rotation system and a
/// drop discipline.
#[derive(Clone, Eq, PartialEq, Ord, PartialOrd, Hash, Debug)]
pub struct MoveRules<T> where T: RotationSystem {
    pub rotation_system: Rc<T>,
    pub drop: Drop,
}

/// Every placement in which the piece can come to rest when it starts in
/// `spawn`, in the order in which the breadth-first traversal discovers
/// them.
pub open spec fn all_moves_spec<T: RotationSystem>(
    rs: T,
    board: Board64,
    drop: Drop,
    spawn: BlPlacement,
) -> Seq<BlPlacement> {
    match drop {
        Drop::Softdrop => softdrop_moves(rs, board, spawn),
        Drop::Harddrop => harddrop_moves(rs, board, spawn),
    }
}

/// One placement for each set of cells in which the piece can come to rest:
/// of the placements of `all_moves_spec` that cover the same cells, the one
/// discovered first.
pub open spec fn minimized_moves_spec<T: RotationSystem>(
    rs: T,
    board: Board64,
    drop: Drop,
    spawn: BlPlacement,
) -> Seq<BlPlacement> {
    first_by_key(all_moves_spec(rs, board, drop, spawn), footprint_key())
}

impl MoveRules<SrsKickTable> {
    /// The standard rotation system with soft drop.
    pub fn default() -> (rules: Self)
        ensures
            *rules.rotation_system == SrsKickTable,
            rules.drop == Drop::Softdrop,
    {
        Self::srs(Drop::Softdrop)
    }

    /// The standard rotation system with the drop discipline `drop`.
    pub fn srs(drop: Drop) -> (rules: Self)
        ensures
            *rules.rotation_system == SrsKickTable,
            rules.drop == drop,
    {
        Self { rotation_system: Rc::new(SrsKickTable), drop }
    }
}

impl<T> MoveRules<T> where T: RotationSystem {
    /// The rules made of `rotation_system` and `drop`.
    pub fn new(rotation_system: Rc<T>, drop: Drop) -> (rules: Self)
        ensures
            rules.rotation_system == rotation_system,
            rules.drop == drop,
    {
        Self { rotation_system, drop }
    }

    /// Collects every placement in which the piece can come to rest.
    /// Placements that cover the same cells in different orientations are
    /// all collected.
    ///
    /// `spawn` must be free of collisions with `board`: a search from a
    /// placement that collides has no meaning, and it is the caller who
    /// rules it out, with `Board64::collides`.
    pub fn generate_all_moves(&self, board: Board64, spawn: BlPlacement) -> (moves: Vec<
        BlPlacement,
    >)
        requires
            !board.collides_spec(spawn),
        ensures
            moves@ == all_moves_spec(*self.rotation_system, board, self.drop, spawn),
            moves@.no_duplicates(),
            moves@.len() > 0,
            forall|m: BlPlacement|
                moves@.contains(m) <==> lands(*self.rotation_system, board, self.drop, spawn, m),
    {
        proof {
            let rs = *self.rotation_system;
            lemma_all_moves_exact(rs, board, self.drop, spawn);
        }
        match self.drop {
            Drop::Softdrop => all_moves_softdrop(&*self.rotation_system, &board, spawn),
            Drop::Harddrop => all_moves_harddrop(&*self.rotation_system, &board, spawn),
        }
    }

    /// Collects one placement for each set of cells in which the piece can
    /// come to rest. Of placements that cover the same cells in different
    /// orientations, the one that the search discovers first is collected;
    /// it is a placement the piece can really reach.
    ///
    /// `spawn` must be free of collisions with `board`, as for
    /// `generate_all_moves`.
    pub fn generate_minimized_moves(&self, board: Board64, spawn: BlPlacement) -> (moves: Vec<
        BlPlacement,
    >)
        requires
            !board.collides_spec(spawn),
        ensures
            moves@ == minimized_moves_spec(*self.rotation_system, board, self.drop, spawn),
            moves@.len() > 0,
            forall|j: int|
                0 <= j < moves@.len() ==> lands(
                    *self.rotation_system,
                    board,
                    self.drop,
                    spawn,
                    #[trigger] moves@[j],
                ),
            forall|m: BlPlacement|
                lands(*self.rotation_system, board, self.drop, spawn, m) ==> has_key(
                    moves@,
                    footprint_key(),
                    #[trigger] m.footprint(),
                ),
            distinct_keys(moves@, footprint_key()),
    {
        let all: Vec<BlPlacement> = self.generate_all_moves(board, spawn);
        proof {
            let rs = *self.rotation_system;
            lemma_minimized_lands(rs, board, self.drop, spawn);
        }
        one_per_footprint(&all)
    }
}

/// The search returns, each once, exactly the placements in which the piece
/// can come to rest under the drop discipline; there is at least one.
pub proof fn lemma_all_moves_exact<T: RotationSystem>(
    rs: T,
    board: Board64,
    drop: Drop,
    spawn: BlPlacement,
)
    requires
        !board.collides_spec(spawn),
    ensures
        all_moves_spec(rs, board, drop, spawn).no_duplicates(),
        forall|m: BlPlacement|
            all_moves_spec(rs, board, drop, spawn).contains(m) <==> lands(
                rs,
                board,
                drop,
                spawn,
                m,
            ),
        all_moves_spec(rs, board, drop, spawn).len() > 0,
{
    lemma_softdrop_moves(rs, board, spawn);
    lemma_harddrop_moves(rs, board, spawn);
    lemma_reachable_reflexive(rs, board, drop, spawn);
    lemma_hard_drop(rs, board, spawn);
    assert(lands(rs, board, drop, spawn, hard_drop_spec(board, spawn)));
    assert(all_moves_spec(rs, board, drop, spawn).contains(hard_drop_spec(board, spawn)));
}

/// The moves are a function of the field, the spawning placement, the
/// rotation system and the drop discipline: two runs of the search on the
/// same inputs return the same placements, as often and in the same order.
pub proof fn lemma_all_moves_deterministic<T: RotationSystem>(
    rs: T,
    board: Board64,
    drop: Drop,
    spawn: BlPlacement,
    first: Seq<BlPlacement>,
    second: Seq<BlPlacement>,
)
    requires
        first == all_moves_spec(rs, board, drop, spawn),
        second == all_moves_spec(rs, board, drop, spawn),
    ensures
        first == second,
        first.to_multiset() == second.to_multiset(),
{
}

/// Every placement the search returns rests: it is free of collisions and
/// would collide one row further down. This holds of all moves and of the
/// minimized moves.
pub proof fn lemma_moves_rest<T: RotationSystem>(
    rs: T,
    board: Board64,
    drop: Drop,
    spawn: BlPlacement,
)
    requires
        !board.collides_spec(spawn),
    ensures
        forall|i: int|
            0 <= i < all_moves_spec(rs, board, drop, spawn).len() ==> terminal(
                board,
                #[trigger] all_moves_spec(rs, board, drop, spawn)[i],
            ),
        forall|j: int|
            0 <= j < minimized_moves_spec(rs, board, drop, spawn).len() ==> terminal(
                board,
                #[trigger] minimized_moves_spec(rs, board, drop, spawn)[j],
            ),
{
    let all = all_moves_spec(rs, board, drop, spawn);
    let min = minimized_moves_spec(rs, board, drop, spawn);
    lemma_moves_reachable(rs, board, drop, spawn);
    assert forall|i: int| 0 <= i < all.len() implies terminal(board, #[trigger] all[i]) by {
        if drop == Drop::Harddrop {
            lemma_harddrop_lands_softdrop(rs, board, spawn, all[i]);
        }
    }
    assert forall|j: int| 0 <= j < min.len() implies terminal(board, #[trigger] min[j]) by {
        if drop == Drop::Harddrop {
            lemma_harddrop_lands_softdrop(rs, board, spawn, min[j]);
        }
    }
}

/// Every placement the search returns is connected to `spawn` by actions
/// the drop discipline allows. Under soft drop these are shifts, rotations
/// and single rows downward. Under hard drop they are shifts and rotations,
/// and then the fall. This holds of all moves and of the minimized moves.
pub proof fn lemma_moves_reachable<T: RotationSystem>(
    rs: T,
    board: Board64,
    drop: Drop,
    spawn: BlPlacement,
)
    requires
        !board.collides_spec(spawn),
    ensures
        forall|i: int|
            0 <= i < all_moves_spec(rs, board, drop, spawn).len() ==> lands(
                rs,
                board,
                drop,
                spawn,
                #[trigger] all_moves_spec(rs, board, drop, spawn)[i],
            ),
        forall|j: int|
            0 <= j < minimized_moves_spec(rs, board, drop, spawn).len() ==> lands(
                rs,
                board,
                drop,
                spawn,
                #[trigger] minimized_moves_spec(rs, board, drop, spawn)[j],
            ),
{
    let all = all_moves_spec(rs, board, drop, spawn);
    lemma_all_moves_exact(rs, board, drop, spawn);
    lemma_minimized_lands(rs, board, drop, spawn);
    assert forall|i: int| 0 <= i < all.len() implies lands(
        rs,
        board,
        drop,
        spawn,
        #[trigger] all[i],
    ) by {
        assert(all.contains(all[i]));
    }
}

/// Where the piece can come to rest under hard drop, it can come to rest
/// under soft drop.
pub proof fn lemma_harddrop_lands_softdrop<T: RotationSystem>(
    rs: T,
    board: Board64,
    spawn: BlPlacement,
    m: BlPlacement,
)
    requires
        !board.collides_spec(spawn),
        lands(rs, board, Drop::Harddrop, spawn, m),
    ensures
        lands(rs, board, Drop::Softdrop, spawn, m),
{
    let a = choose|a: BlPlacement|
        #[trigger] reachable(rs, board, Drop::Harddrop, spawn, a) && hard_drop_spec(board, a) == m;
    lemma_reachable_free(rs, board, Drop::Harddrop, spawn, a);
    lemma_hard_drop(rs, board, a);
    lemma_reachable_softdrop(rs, board, spawn, a);
    lemma_reachable_transitive(rs, board, Drop::Softdrop, spawn, a, m);
}

/// With the same field, spawning placement and rotation system, every
/// placement that hard drop returns is among those that soft drop returns.
pub proof fn lemma_harddrop_within_softdrop<T: RotationSystem>(
    rs: T,
    board: Board64,
    spawn: BlPlacement,
)
    requires
        !board.collides_spec(spawn),
    ensures
        forall|m: BlPlacement|
            all_moves_spec(rs, board, Drop::Harddrop, spawn).contains(m) ==> all_moves_spec(
                rs,
                board,
                Drop::Softdrop,
                spawn,
            ).contains(m),
        all_moves_spec(rs, board, Drop::Harddrop, spawn).len() <= all_moves_spec(
            rs,
            board,
            Drop::Softdrop,
            spawn,
        ).len(),
{
    let hard = all_moves_spec(rs, board, Drop::Harddrop, spawn);
    let soft = all_moves_spec(rs, board, Drop::Softdrop, spawn);
    lemma_all_moves_exact(rs, board, Drop::Harddrop, spawn);
    lemma_all_moves_exact(rs, board, Drop::Softdrop, spawn);
    assert forall|m: BlPlacement| hard.contains(m) implies soft.contains(m) by {
        lemma_harddrop_lands_softdrop(rs, board, spawn, m);
    }
    assert forall|m: BlPlacement| hard.to_set().contains(m) implies soft.to_set().contains(m) by {}
    hard.unique_seq_to_set();
    soft.unique_seq_to_set();
    vstd::set_lib::lemma_len_subset(hard.to_set(), soft.to_set());
}

/// The minimized moves are drawn from all moves, and each footprint among
/// all moves is the footprint of exactly one minimized move: the first of
/// all moves that has it. There are at most as many minimized moves as
/// moves, and as many exactly when no two moves share a footprint.
pub proof fn lemma_minimized_moves<T: RotationSystem>(
    rs: T,
    board: Board64,
    drop: Drop,
    spawn: BlPlacement,
)
    ensures
        forall|j: int|
            0 <= j < minimized_moves_spec(rs, board, drop, spawn).len() ==> all_moves_spec(
                rs,
                board,
                drop,
                spawn,
            ).contains(#[trigger] minimized_moves_spec(rs, board, drop, spawn)[j]),
        forall|i: int|
            0 <= i < all_moves_spec(rs, board, drop, spawn).len() ==> exists|j: int|
                0 <= j < minimized_moves_spec(rs, board, drop, spawn).len()
                    && #[trigger] minimized_moves_spec(rs, board, drop, spawn)[j].footprint()
                    == (#[trigger] all_moves_spec(rs, board, drop, spawn)[i]).footprint(),
        forall|i: int, j: int|
            0 <= i < j < minimized_moves_spec(rs, board, drop, spawn).len()
                ==> #[trigger] minimized_moves_spec(rs, board, drop, spawn)[i].footprint()
                != #[trigger] minimized_moves_spec(rs, board, drop, spawn)[j].footprint(),
        minimized_moves_spec(rs, board, drop, spawn).len() <= all_moves_spec(
            rs,
            board,
            drop,
            spawn,
        ).len(),
        minimized_moves_spec(rs, board, drop, spawn).len() == all_moves_spec(
            rs,
            board,
            drop,
            spawn,
        ).len() <==> forall|i: int, j: int|
            0 <= i < j < all_moves_spec(rs, board, drop, spawn).len() ==> (#[trigger] all_moves_spec(
                rs,
                board,
                drop,
                spawn,
            )[i]).footprint() != (#[trigger] all_moves_spec(rs, board, drop, spawn)[j]).footprint(),
{
    let all = all_moves_spec(rs, board, drop, spawn);
    let min = minimized_moves_spec(rs, board, drop, spawn);
    lemma_first_by_key(all, footprint_key());
    lemma_first_by_key_len(all, footprint_key());
    assert forall|i: int| 0 <= i < all.len() implies exists|j: int|
        0 <= j < min.len() && #[trigger] min[j].footprint() == (#[trigger] all[i]).footprint() by {
        assert(has_key(min, footprint_key(), footprint_key()(all[i])));
        let j = choose|j: int|
            0 <= j < min.len() && #[trigger] footprint_key()(min[j]) == footprint_key()(all[i]);
        assert(min[j].footprint() == all[i].footprint());
    }
    assert forall|i: int, j: int| 0 <= i < j < min.len() implies #[trigger] min[i].footprint()
        != #[trigger] min[j].footprint() by {
        assert(footprint_key()(min[i]) != footprint_key()(min[j]));
    }
    if distinct_keys(all, footprint_key()) {
        assert forall|i: int, j: int| 0 <= i < j < all.len() implies (#[trigger] all[i]).footprint()
            != (#[trigger] all[j]).footprint() by {
            assert(footprint_key()(all[i]) != footprint_key()(all[j]));
        }
    }
    if forall|i: int, j: int|
        0 <= i < j < all.len() ==> (#[trigger] all[i]).footprint() != (
        #[trigger] all[j]).footprint() {
        assert forall|i: int, j: int| 0 <= i < j < all.len() implies #[trigger] footprint_key()(
            all[i],
        ) != #[trigger] footprint_key()(all[j]) by {
            assert(all[i].footprint() != all[j].footprint());
        }
    }
}

/// The minimized moves are placements in which the piece can come to rest,
/// no two of them cover the same cells, and wherever the piece can come to
/// rest, one of them covers the same cells.
pub proof fn lemma_minimized_lands<T: RotationSystem>(
    rs: T,
    board: Board64,
    drop: Drop,
    spawn: BlPlacement,
)
    requires
        !board.collides_spec(spawn),
    ensures
        minimized_moves_spec(rs, board, drop, spawn).len() > 0,
        forall|j: int|
            0 <= j < minimized_moves_spec(rs, board, drop, spawn).len() ==> lands(
                rs,
                board,
                drop,
                spawn,
                #[trigger] minimized_moves_spec(rs, board, drop, spawn)[j],
            ),
        forall|m: BlPlacement|
            lands(rs, board, drop, spawn, m) ==> has_key(
                minimized_moves_spec(rs, board, drop, spawn),
                footprint_key(),
                #[trigger] m.footprint(),
            ),
        distinct_keys(minimized_moves_spec(rs, board, drop, spawn), footprint_key()),
{
    let all = all_moves_spec(rs, board, drop, spawn);
    let min = minimized_moves_spec(rs, board, drop, spawn);
    lemma_all_moves_exact(rs, board, drop, spawn);
    lemma_first_by_key(all, footprint_key());
    assert forall|j: int| 0 <= j < min.len() implies lands(
        rs,
        board,
        drop,
        spawn,
        #[trigger] min[j],
    ) by {
        assert(all.contains(min[j]));
    }
    assert forall|m: BlPlacement| lands(rs, board, drop, spawn, m) implies has_key(
        min,
        footprint_key(),
        #[trigger] m.footprint(),
    ) by {
        assert(all.contains(m));
        let i = choose|i: int| 0 <= i < all.len() && all[i] == m;
        assert(has_key(min, footprint_key(), footprint_key()(all[i])));
    }
    assert(has_key(min, footprint_key(), footprint_key()(all[0])));
}

/// Each minimized move is the first of all moves, in the order of
/// discovery, that covers its cells.
pub proof fn lemma_minimized_is_first<T: RotationSystem>(
    rs: T,
    board: Board64,
    drop: Drop,
    spawn: BlPlacement,
    j: int,
)
    requires
        0 <= j < minimized_moves_spec(rs, board, drop, spawn).len(),
    ensures
        exists|i: int|
            0 <= i < all_moves_spec(rs, board, drop, spawn).len() && #[trigger] all_moves_spec(
                rs,
                board,
                drop,
                spawn,
            )[i] == minimized_moves_spec(rs, board, drop, spawn)[j] && forall|h: int|
                0 <= h < i ==> (#[trigger] all_moves_spec(rs, board, drop, spawn)[h]).footprint()
                    != all_moves_spec(rs, board, drop, spawn)[i].footprint(),
{
    let all = all_moves_spec(rs, board, drop, spawn);
    lemma_first_by_key_is_first(all, footprint_key(), j);
    let i = choose|i: int|
        0 <= i < all.len() && #[trigger] all[i] == first_by_key(all, footprint_key())[j]
            && forall|h: int|
            0 <= h < i ==> #[trigger] footprint_key()(all[h]) != footprint_key()(all[i]);
    assert forall|h: int| 0 <= h < i implies (#[trigger] all[h]).footprint()
        != all[i].footprint() by {
        assert(footprint_key()(all[h]) != footprint_key()(all[i]));
    }
}

/// Reducing the minimized moves by footprint once more changes nothing.
pub proof fn lemma_minimized_idempotent<T: RotationSystem>(
    rs: T,
    board: Board64,
    drop: Drop,
    spawn: BlPlacement,
)
    ensures
        first_by_key(minimized_moves_spec(rs, board, drop, spawn), footprint_key())
            == minimized_moves_spec(rs, board, drop, spawn),
{
    lemma_first_by_key_idempotent(all_moves_spec(rs, board, drop, spawn), footprint_key());
}

} // verus!
