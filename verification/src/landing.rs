//! From the placements a traversal visits to the placements in which the
//! piece rests.

use crate::boards::Board64;
use crate::explore::{discovered, explore, lemma_discovered};
use crate::graph::{
    edge, hard_drop, hard_drop_spec, is_terminal, lemma_placed, lemma_reachable_edge,
    lemma_reachable_reflexive, lemma_reachable_transitive, placed_spec, reachable, step_spec,
    steps_spec, terminal,
};
use crate::moves::Drop;
use crate::placements::BlPlacement;
use crate::reduce::{
    distinct_placements, first_by_key, has_key, lemma_first_by_key, placement_key,
};
use crate::rotation::RotationSystem;
use vstd::prelude::*;

verus! {

/// The placements of `s` that rest, in the order of `s`.
pub open spec fn resting(board: Board64, s: Seq<BlPlacement>) -> Seq<BlPlacement>
    decreases s.len(),
{
    if s.len() == 0 {
        Seq::empty()
    } else if terminal(board, s.last()) {
        resting(board, s.drop_last()).push(s.last())
    } else {
        resting(board, s.drop_last())
    }
}

/// Where each placement of `s` comes to rest when it falls straight down.
pub open spec fn dropped(board: Board64, s: Seq<BlPlacement>) -> Seq<BlPlacement> {
    Seq::new(s.len(), |i: int| hard_drop_spec(board, s[i]))
}

/// The resting placements that soft drop reaches from `spawn`, in the order
/// in which the traversal discovers them.
pub open spec fn softdrop_moves<T: RotationSystem>(
    rs: T,
    board: Board64,
    spawn: BlPlacement,
) -> Seq<BlPlacement> {
    resting(board, discovered(rs, board, Drop::Softdrop, spawn))
}

/// The resting placements that hard drop reaches from `spawn`: where the
/// placements reached by shifts and rotations alone fall to, each once, in
/// the order in which the traversal discovers them.
pub open spec fn harddrop_moves<T: RotationSystem>(
    rs: T,
    board: Board64,
    spawn: BlPlacement,
) -> Seq<BlPlacement> {
    first_by_key(dropped(board, discovered(rs, board, Drop::Harddrop, spawn)), placement_key())
}

/// Whether the piece can come to rest in `m` when it starts in `spawn`.
/// Under soft drop `m` rests and shifts, rotations and single rows downward
/// lead to it. Under hard drop `m` is where the piece falls to from a
/// placement that shifts and rotations lead to.
pub open spec fn lands<T: RotationSystem>(
    rs: T,
    board: Board64,
    drop: Drop,
    spawn: BlPlacement,
    m: BlPlacement,
) -> bool {
    match drop {
        Drop::Softdrop => terminal(board, m) && reachable(rs, board, Drop::Softdrop, spawn, m),
        Drop::Harddrop => exists|a: BlPlacement|
            #[trigger] reachable(rs, board, Drop::Harddrop, spawn, a) && hard_drop_spec(board, a)
                == m,
    }
}

/// `resting` keeps exactly the resting placements of the list, and repeats
/// none if the list repeats none.
pub proof fn lemma_resting(board: Board64, s: Seq<BlPlacement>)
    ensures
        resting(board, s).len() <= s.len(),
        forall|m: BlPlacement|
            resting(board, s).contains(m) <==> s.contains(m) && terminal(board, m),
        s.no_duplicates() ==> resting(board, s).no_duplicates(),
    decreases s.len(),
{
    let out = resting(board, s);
    if s.len() > 0 {
        let t = s.drop_last();
        let r = resting(board, t);
        lemma_resting(board, t);
        assert forall|m: BlPlacement| out.contains(m) <==> s.contains(m) && terminal(
            board,
            m,
        ) by {
            if out.contains(m) {
                let j = choose|j: int| 0 <= j < out.len() && out[j] == m;
                if j < r.len() {
                    assert(r[j] == m);
                    assert(r.contains(m));
                    assert(t.contains(m));
                    let i = choose|i: int| 0 <= i < t.len() && t[i] == m;
                    assert(s[i] == m);
                } else {
                    assert(s[s.len() - 1] == m);
                }
            }
            if s.contains(m) && terminal(board, m) {
                let i = choose|i: int| 0 <= i < s.len() && s[i] == m;
                if i < t.len() {
                    assert(t[i] == m);
                    assert(t.contains(m));
                    let j = choose|j: int| 0 <= j < r.len() && r[j] == m;
                    assert(out[j] == m);
                } else {
                    assert(out[out.len() - 1] == m);
                }
            }
        }
        if s.no_duplicates() {
            assert(t.no_duplicates());
            if terminal(board, s.last()) {
                if r.contains(s.last()) {
                    let i = choose|i: int| 0 <= i < t.len() && t[i] == s.last();
                    assert(s[i] == s[s.len() - 1]);
                }
            }
        }
    }
}

/// A piece that is free of collisions falls to a resting placement, and
/// single rows downward lead there.
pub proof fn lemma_hard_drop<T: RotationSystem>(rs: T, board: Board64, p: BlPlacement)
    requires
        !board.collides_spec(p),
    ensures
        terminal(board, hard_drop_spec(board, p)),
        hard_drop_spec(board, p).piece == p.piece,
        hard_drop_spec(board, p).position.lx == p.position.lx,
        hard_drop_spec(board, p).position.by <= p.position.by,
        reachable(rs, board, Drop::Softdrop, p, hard_drop_spec(board, p)),
    decreases p.position.by,
{
    let below = placed_spec(board, p.piece, p.position.lx as int, p.position.by - 1);
    lemma_placed(board, p.piece, p.position.lx as int, p.position.by - 1);
    lemma_reachable_reflexive(rs, board, Drop::Softdrop, p);
    match below {
        Some(q) => {
            lemma_hard_drop(rs, board, q);
            assert(step_spec(rs, board, p, steps_spec(Drop::Softdrop)[5]) == Some(q));
            assert(edge(rs, board, Drop::Softdrop, p, q));
            lemma_reachable_edge(rs, board, Drop::Softdrop, p, q);
            lemma_reachable_transitive(
                rs,
                board,
                Drop::Softdrop,
                p,
                q,
                hard_drop_spec(board, q),
            );
        },
        None => {},
    }
}

/// Under soft drop the search returns, each once, exactly the placements in
/// which the piece can come to rest.
pub proof fn lemma_softdrop_moves<T: RotationSystem>(rs: T, board: Board64, spawn: BlPlacement)
    requires
        !board.collides_spec(spawn),
    ensures
        softdrop_moves(rs, board, spawn).no_duplicates(),
        forall|m: BlPlacement|
            softdrop_moves(rs, board, spawn).contains(m) <==> lands(
                rs,
                board,
                Drop::Softdrop,
                spawn,
                m,
            ),
{
    lemma_discovered(rs, board, Drop::Softdrop, spawn);
    lemma_resting(board, discovered(rs, board, Drop::Softdrop, spawn));
}

/// Under hard drop the search returns, each once, exactly the placements in
/// which the piece can come to rest.
pub proof fn lemma_harddrop_moves<T: RotationSystem>(rs: T, board: Board64, spawn: BlPlacement)
    requires
        !board.collides_spec(spawn),
    ensures
        harddrop_moves(rs, board, spawn).no_duplicates(),
        forall|m: BlPlacement|
            harddrop_moves(rs, board, spawn).contains(m) <==> lands(
                rs,
                board,
                Drop::Harddrop,
                spawn,
                m,
            ),
{
    let found = discovered(rs, board, Drop::Harddrop, spawn);
    let fallen = dropped(board, found);
    let out = harddrop_moves(rs, board, spawn);
    lemma_discovered(rs, board, Drop::Harddrop, spawn);
    lemma_first_by_key(fallen, placement_key());
    assert forall|i: int, j: int| 0 <= i < j < out.len() implies out[i] != out[j] by {
        assert(placement_key()(out[i]) != placement_key()(out[j]));
    }
    assert forall|m: BlPlacement| out.contains(m) <==> lands(
        rs,
        board,
        Drop::Harddrop,
        spawn,
        m,
    ) by {
        if out.contains(m) {
            let j = choose|j: int| 0 <= j < out.len() && out[j] == m;
            assert(fallen.contains(out[j]));
            let i = choose|i: int| 0 <= i < fallen.len() && fallen[i] == m;
            assert(found.contains(found[i]));
            assert(reachable(rs, board, Drop::Harddrop, spawn, found[i]));
        }
        if lands(rs, board, Drop::Harddrop, spawn, m) {
            let a = choose|a: BlPlacement|
                #[trigger] reachable(rs, board, Drop::Harddrop, spawn, a) && hard_drop_spec(
                    board,
                    a,
                ) == m;
            assert(found.contains(a));
            let i = choose|i: int| 0 <= i < found.len() && found[i] == a;
            assert(has_key(out, placement_key(), placement_key()(fallen[i])));
            let j = choose|j: int|
                0 <= j < out.len() && #[trigger] placement_key()(out[j]) == placement_key()(
                    fallen[i],
                );
            assert(out[j] == m);
        }
    }
}

fn keep_resting(board: &Board64, list: &Vec<BlPlacement>) -> (kept: Vec<BlPlacement>)
    ensures
        kept@ == resting(*board, list@),
{
    let mut kept: Vec<BlPlacement> = Vec::new();
    let mut i: usize = 0;
    while i < list.len()
        invariant
            i <= list@.len(),
            kept@ == resting(*board, list@.take(i as int)),
        decreases list@.len() - i,
    {
        let p: BlPlacement = list[i];
        proof {
            assert(list@.take(i + 1).drop_last() =~= list@.take(i as int));
            assert(list@.take(i + 1).last() == p);
        }
        if is_terminal(board, p) {
            kept.push(p);
        }
        i = i + 1;
    }
    assert(list@.take(i as int) =~= list@);
    kept
}

fn drop_each(board: &Board64, list: &Vec<BlPlacement>) -> (fallen: Vec<BlPlacement>)
    ensures
        fallen@ == dropped(*board, list@),
{
    let mut fallen: Vec<BlPlacement> = Vec::new();
    let mut i: usize = 0;
    while i < list.len()
        invariant
            i <= list@.len(),
            fallen@.len() == i,
            forall|j: int| 0 <= j < i ==> fallen@[j] == hard_drop_spec(*board, list@[j]),
        decreases list@.len() - i,
    {
        fallen.push(hard_drop(board, list[i]));
        i = i + 1;
    }
    assert(fallen@ =~= dropped(*board, list@));
    fallen
}

/// Every resting placement that soft drop reaches from `spawn`, in the
/// order of discovery. `spawn` must be free of collisions.
pub fn all_moves_softdrop<T: RotationSystem>(rs: &T, board: &Board64, spawn: BlPlacement) -> (moves:
    Vec<BlPlacement>)
    requires
        !board.collides_spec(spawn),
    ensures
        moves@ == softdrop_moves(*rs, *board, spawn),
        moves@.no_duplicates(),
        forall|m: BlPlacement|
            moves@.contains(m) <==> lands(*rs, *board, Drop::Softdrop, spawn, m),
{
    proof {
        lemma_softdrop_moves(*rs, *board, spawn);
    }
    let found: Vec<BlPlacement> = explore(rs, board, Drop::Softdrop, spawn);
    keep_resting(board, &found)
}

/// Every resting placement that hard drop reaches from `spawn`, in the
/// order of discovery. `spawn` must be free of collisions.
pub fn all_moves_harddrop<T: RotationSystem>(rs: &T, board: &Board64, spawn: BlPlacement) -> (moves:
    Vec<BlPlacement>)
    requires
        !board.collides_spec(spawn),
    ensures
        moves@ == harddrop_moves(*rs, *board, spawn),
        moves@.no_duplicates(),
        forall|m: BlPlacement|
            moves@.contains(m) <==> lands(*rs, *board, Drop::Harddrop, spawn, m),
{
    proof {
        lemma_harddrop_moves(*rs, *board, spawn);
    }
    let found: Vec<BlPlacement> = explore(rs, board, Drop::Harddrop, spawn);
    let fallen: Vec<BlPlacement> = drop_each(board, &found);
    distinct_placements(&fallen)
}

} // verus!
