//! The state graph of a falling piece: placements are the nodes, single
//! shifts, rotations and drops are the edges.

use crate::boards::{in_bounds, in_bounds_spec, Board64};
use crate::moves::Drop;
use crate::pieces::{Offset, Piece, Rotation};
use crate::placements::{bl, BlPlacement, BlPosition};
use crate::rotation::RotationSystem;
use vstd::prelude::*;

verus! {

/// One atomic action on a placement.
#[derive(Clone, Copy, Debug, PartialEq, Eq, Structural, Hash)]
pub enum Step {
    ShiftLeft,
    ShiftRight,
    RotateCw,
    RotateCcw,
    RotateHalf,
    SoftDrop,
}

/// The actions a drop discipline allows, in the order in which the search
/// tries them. Moving down by single rows belongs to soft drop alone.
pub open spec fn steps_spec(drop: Drop) -> Seq<Step> {
    match drop {
        Drop::Softdrop => seq![
            Step::ShiftLeft,
            Step::ShiftRight,
            Step::RotateCw,
            Step::RotateCcw,
            Step::RotateHalf,
            Step::SoftDrop,
        ],
        Drop::Harddrop => seq![
            Step::ShiftLeft,
            Step::ShiftRight,
            Step::RotateCw,
            Step::RotateCcw,
            Step::RotateHalf,
        ],
    }
}

/// `piece` with the bottom-left corner of its bounding box in column `x`,
/// row `y`, if that corner is on the field and the piece collides with
/// nothing there.
pub open spec fn placed_spec(board: Board64, piece: Piece, x: int, y: int) -> Option<BlPlacement> {
    let p = BlPlacement { piece, position: BlPosition { lx: x as i32, by: y as i32 } };
    if in_bounds_spec(x, y) && !board.collides_spec(p) {
        Some(p)
    } else {
        None
    }
}

/// The first of the candidates `kicks[i..]` that places `target`, displaced
/// from `at`, free of collisions.
pub open spec fn first_kick(
    board: Board64,
    target: Piece,
    at: BlPosition,
    kicks: Seq<Offset>,
    i: int,
) -> Option<BlPlacement>
    decreases kicks.len() - i,
{
    if i < 0 || i >= kicks.len() {
        None
    } else {
        match placed_spec(board, target, at.lx + kicks[i].dx, at.by + kicks[i].dy) {
            Some(q) => Some(q),
            None => first_kick(board, target, at, kicks, i + 1),
        }
    }
}

/// Where `rotation` takes `p`: the turned piece at the first candidate of
/// the rotation system that is free of collisions, if there is one.
pub open spec fn rotate_spec<T: RotationSystem>(
    rs: T,
    board: Board64,
    p: BlPlacement,
    rotation: Rotation,
) -> Option<BlPlacement> {
    first_kick(
        board,
        p.piece.rotated_spec(rotation),
        p.position,
        rs.kicks_spec(p.piece, rotation),
        0,
    )
}

/// Where `step` takes `p`, if the result is free of collisions.
pub open spec fn step_spec<T: RotationSystem>(
    rs: T,
    board: Board64,
    p: BlPlacement,
    step: Step,
) -> Option<BlPlacement> {
    match step {
        Step::ShiftLeft => placed_spec(board, p.piece, p.position.lx - 1, p.position.by as int),
        Step::ShiftRight => placed_spec(board, p.piece, p.position.lx + 1, p.position.by as int),
        Step::SoftDrop => placed_spec(board, p.piece, p.position.lx as int, p.position.by - 1),
        Step::RotateCw => rotate_spec(rs, board, p, Rotation::Cw),
        Step::RotateCcw => rotate_spec(rs, board, p, Rotation::Ccw),
        Step::RotateHalf => rotate_spec(rs, board, p, Rotation::Half),
    }
}

/// Whether one action allowed under `drop` takes `p` to `q`.
pub open spec fn edge<T: RotationSystem>(
    rs: T,
    board: Board64,
    drop: Drop,
    p: BlPlacement,
    q: BlPlacement,
) -> bool {
    exists|i: int|
        0 <= i < steps_spec(drop).len() && #[trigger] step_spec(rs, board, p, steps_spec(drop)[i])
            == Some(q)
}

/// Whether each placement of `path` follows from the one before it by one
/// action allowed under `drop`.
pub open spec fn is_path<T: RotationSystem>(
    rs: T,
    board: Board64,
    drop: Drop,
    path: Seq<BlPlacement>,
) -> bool {
    path.len() > 0 && forall|i: int|
        0 < i < path.len() ==> edge(rs, board, drop, #[trigger] path[i - 1], path[i])
}

/// Whether finitely many actions allowed under `drop` lead from `from` to
/// `to`.
pub open spec fn reachable<T: RotationSystem>(
    rs: T,
    board: Board64,
    drop: Drop,
    from: BlPlacement,
    to: BlPlacement,
) -> bool {
    exists|path: Seq<BlPlacement>|
        #[trigger] is_path(rs, board, drop, path) && path[0] == from && path.last() == to
}

/// Whether `p` rests: it is free of collisions and would collide one row
/// further down.
pub open spec fn terminal(board: Board64, p: BlPlacement) -> bool {
    !board.collides_spec(p) && placed_spec(
        board,
        p.piece,
        p.position.lx as int,
        p.position.by - 1,
    ) is None
}

/// Where `p` comes to rest when it falls straight down.
pub open spec fn hard_drop_spec(board: Board64, p: BlPlacement) -> BlPlacement
    decreases p.position.by,
{
    match placed_spec(board, p.piece, p.position.lx as int, p.position.by - 1) {
        Some(q) => hard_drop_spec(board, q),
        None => p,
    }
}

/// What `placed_spec` yields is the piece at the position asked for, free
/// of collisions.
pub proof fn lemma_placed(board: Board64, piece: Piece, x: int, y: int)
    ensures
        placed_spec(board, piece, x, y) matches Some(q) ==> q.piece == piece && q.position.lx == x
            && q.position.by == y && !board.collides_spec(q),
{
}

/// What `first_kick` yields is the target piece, free of collisions.
pub proof fn lemma_first_kick(
    board: Board64,
    target: Piece,
    at: BlPosition,
    kicks: Seq<Offset>,
    i: int,
)
    ensures
        first_kick(board, target, at, kicks, i) matches Some(q) ==> q.piece == target
            && !board.collides_spec(q),
    decreases kicks.len() - i,
{
    if 0 <= i < kicks.len() {
        lemma_first_kick(board, target, at, kicks, i + 1);
    }
}

/// An action keeps the shape and leads to a placement free of collisions.
pub proof fn lemma_step<T: RotationSystem>(rs: T, board: Board64, p: BlPlacement, step: Step)
    ensures
        step_spec(rs, board, p, step) matches Some(q) ==> q.piece.shape == p.piece.shape
            && !board.collides_spec(q),
{
    lemma_first_kick(
        board,
        p.piece.rotated_spec(Rotation::Cw),
        p.position,
        rs.kicks_spec(p.piece, Rotation::Cw),
        0,
    );
    lemma_first_kick(
        board,
        p.piece.rotated_spec(Rotation::Ccw),
        p.position,
        rs.kicks_spec(p.piece, Rotation::Ccw),
        0,
    );
    lemma_first_kick(
        board,
        p.piece.rotated_spec(Rotation::Half),
        p.position,
        rs.kicks_spec(p.piece, Rotation::Half),
        0,
    );
}

/// Every placement can be reached from itself, by no action at all.
pub proof fn lemma_reachable_reflexive<T: RotationSystem>(
    rs: T,
    board: Board64,
    drop: Drop,
    p: BlPlacement,
)
    ensures
        reachable(rs, board, drop, p, p),
{
    let path = seq![p];
    assert(is_path(rs, board, drop, path) && path[0] == p && path.last() == p);
}

/// One action is a path.
pub proof fn lemma_reachable_edge<T: RotationSystem>(
    rs: T,
    board: Board64,
    drop: Drop,
    p: BlPlacement,
    q: BlPlacement,
)
    requires
        edge(rs, board, drop, p, q),
    ensures
        reachable(rs, board, drop, p, q),
{
    let path = seq![p, q];
    assert(is_path(rs, board, drop, path) && path[0] == p && path.last() == q);
}

/// What can be reached from a placement that is free of collisions is a
/// placement of the same shape that is free of collisions.
pub proof fn lemma_reachable_free<T: RotationSystem>(
    rs: T,
    board: Board64,
    drop: Drop,
    from: BlPlacement,
    to: BlPlacement,
)
    requires
        !board.collides_spec(from),
        reachable(rs, board, drop, from, to),
    ensures
        !board.collides_spec(to),
        to.piece.shape == from.piece.shape,
{
    let path = choose|path: Seq<BlPlacement>|
        #[trigger] is_path(rs, board, drop, path) && path[0] == from && path.last() == to;
    lemma_path_free(rs, board, drop, path, path.len() - 1);
}

/// Along a path that starts free of collisions every placement is free of
/// collisions and has the shape of the first.
pub proof fn lemma_path_free<T: RotationSystem>(
    rs: T,
    board: Board64,
    drop: Drop,
    path: Seq<BlPlacement>,
    k: int,
)
    requires
        is_path(rs, board, drop, path),
        !board.collides_spec(path[0]),
        0 <= k < path.len(),
    ensures
        !board.collides_spec(path[k]),
        path[k].piece.shape == path[0].piece.shape,
    decreases k,
{
    if k > 0 {
        lemma_path_free(rs, board, drop, path, k - 1);
        assert(edge(rs, board, drop, path[k - 1], path[k]));
        let i = choose|i: int|
            0 <= i < steps_spec(drop).len() && #[trigger] step_spec(
                rs,
                board,
                path[k - 1],
                steps_spec(drop)[i],
            ) == Some(path[k]);
        lemma_step(rs, board, path[k - 1], steps_spec(drop)[i]);
    }
}

/// A path under hard drop is a path under soft drop, which allows every
/// action that hard drop allows.
pub proof fn lemma_reachable_softdrop<T: RotationSystem>(
    rs: T,
    board: Board64,
    a: BlPlacement,
    b: BlPlacement,
)
    requires
        reachable(rs, board, Drop::Harddrop, a, b),
    ensures
        reachable(rs, board, Drop::Softdrop, a, b),
{
    let path = choose|path: Seq<BlPlacement>|
        #[trigger] is_path(rs, board, Drop::Harddrop, path) && path[0] == a && path.last() == b;
    assert forall|k: int| 0 < k < path.len() implies edge(
        rs,
        board,
        Drop::Softdrop,
        #[trigger] path[k - 1],
        path[k],
    ) by {
        assert(edge(rs, board, Drop::Harddrop, path[k - 1], path[k]));
        let i = choose|i: int|
            0 <= i < steps_spec(Drop::Harddrop).len() && #[trigger] step_spec(
                rs,
                board,
                path[k - 1],
                steps_spec(Drop::Harddrop)[i],
            ) == Some(path[k]);
        assert(steps_spec(Drop::Softdrop)[i] == steps_spec(Drop::Harddrop)[i]);
    }
    assert(is_path(rs, board, Drop::Softdrop, path));
}

/// Paths can be joined.
pub proof fn lemma_reachable_transitive<T: RotationSystem>(
    rs: T,
    board: Board64,
    drop: Drop,
    a: BlPlacement,
    b: BlPlacement,
    c: BlPlacement,
)
    requires
        reachable(rs, board, drop, a, b),
        reachable(rs, board, drop, b, c),
    ensures
        reachable(rs, board, drop, a, c),
{
    let first = choose|path: Seq<BlPlacement>|
        #[trigger] is_path(rs, board, drop, path) && path[0] == a && path.last() == b;
    let second = choose|path: Seq<BlPlacement>|
        #[trigger] is_path(rs, board, drop, path) && path[0] == b && path.last() == c;
    let joined = first + second.drop_first();
    assert forall|k: int| 0 < k < joined.len() implies edge(
        rs,
        board,
        drop,
        #[trigger] joined[k - 1],
        joined[k],
    ) by {
        if k < first.len() {
            assert(edge(rs, board, drop, first[k - 1], first[k]));
        } else {
            let h = k - first.len() + 1;
            assert(edge(rs, board, drop, second[h - 1], second[h]));
            assert(joined[k] == second[h]);
            if k == first.len() {
                assert(joined[k - 1] == first.last());
            } else {
                assert(joined[k - 1] == second[h - 1]);
            }
        }
    }
    assert(is_path(rs, board, drop, joined));
    assert(joined[0] == a);
    if second.len() == 1 {
        assert(joined.last() == first.last());
    } else {
        assert(joined.last() == second.last());
    }
}

/// The actions a drop discipline allows, in the order in which the search
/// tries them.
pub fn enabled_steps(drop: Drop) -> (steps: Vec<Step>)
    ensures
        steps@ == steps_spec(drop),
{
    let mut steps: Vec<Step> = vec![
        Step::ShiftLeft,
        Step::ShiftRight,
        Step::RotateCw,
        Step::RotateCcw,
        Step::RotateHalf,
    ];
    match drop {
        Drop::Softdrop => {
            steps.push(Step::SoftDrop);
        },
        Drop::Harddrop => {},
    }
    assert(steps@ =~= steps_spec(drop));
    steps
}

/// `piece` with the bottom-left corner of its bounding box in column `x`,
/// row `y`, if that corner is on the field and the piece collides with
/// nothing there.
pub fn try_place(board: &Board64, piece: Piece, x: i64, y: i64) -> (r: Option<BlPlacement>)
    ensures
        r == placed_spec(*board, piece, x as int, y as int),
{
    if !in_bounds(x, y) {
        return None;
    }
    let p = BlPlacement { piece, position: bl(x as i32, y as i32) };
    if board.collides(&p) {
        None
    } else {
        Some(p)
    }
}

/// Where `rotation` takes `p` under the rotation system `rs`. The candidates
/// are tried in the order in which the rotation system names them.
pub fn rotate<T: RotationSystem>(rs: &T, board: &Board64, p: BlPlacement, rotation: Rotation) -> (r:
    Option<BlPlacement>)
    ensures
        r == rotate_spec(*rs, *board, p, rotation),
{
    let kicks: Vec<Offset> = rs.kick_candidates(p.piece, rotation);
    let target: Piece = p.piece.rotated(rotation);
    let mut i: usize = 0;
    while i < kicks.len()
        invariant
            i <= kicks@.len(),
            kicks@ == rs.kicks_spec(p.piece, rotation),
            target == p.piece.rotated_spec(rotation),
            first_kick(*board, target, p.position, kicks@, i as int) == first_kick(
                *board,
                target,
                p.position,
                kicks@,
                0,
            ),
        decreases kicks@.len() - i,
    {
        let k: Offset = kicks[i];
        let x: i64 = p.position.lx as i64 + k.dx as i64;
        let y: i64 = p.position.by as i64 + k.dy as i64;
        let q: Option<BlPlacement> = try_place(board, target, x, y);
        if q.is_some() {
            return q;
        }
        i = i + 1;
    }
    None
}

/// Where `step` takes `p`, if the result is free of collisions.
pub fn apply_step<T: RotationSystem>(rs: &T, board: &Board64, p: BlPlacement, step: Step) -> (r:
    Option<BlPlacement>)
    ensures
        r == step_spec(*rs, *board, p, step),
{
    let x: i64 = p.position.lx as i64;
    let y: i64 = p.position.by as i64;
    match step {
        Step::ShiftLeft => try_place(board, p.piece, x - 1, y),
        Step::ShiftRight => try_place(board, p.piece, x + 1, y),
        Step::SoftDrop => try_place(board, p.piece, x, y - 1),
        Step::RotateCw => rotate(rs, board, p, Rotation::Cw),
        Step::RotateCcw => rotate(rs, board, p, Rotation::Ccw),
        Step::RotateHalf => rotate(rs, board, p, Rotation::Half),
    }
}

/// Whether `p` rests: it is free of collisions and would collide one row
/// further down.
pub fn is_terminal(board: &Board64, p: BlPlacement) -> (r: bool)
    ensures
        r == terminal(*board, p),
{
    if board.collides(&p) {
        return false;
    }
    let below: Option<BlPlacement> = try_place(
        board,
        p.piece,
        p.position.lx as i64,
        p.position.by as i64 - 1,
    );
    below.is_none()
}

/// Where `p` comes to rest when it falls straight down.
pub fn hard_drop(board: &Board64, p: BlPlacement) -> (r: BlPlacement)
    ensures
        r == hard_drop_spec(*board, p),
{
    let mut cur: BlPlacement = p;
    loop
        invariant
            hard_drop_spec(*board, cur) == hard_drop_spec(*board, p),
        ensures
            cur == hard_drop_spec(*board, p),
        decreases cur.position.by - i32::MIN,
    {
        let below: Option<BlPlacement> = try_place(
            board,
            cur.piece,
            cur.position.lx as i64,
            cur.position.by as i64 - 1,
        );
        match below {
            Some(q) => {
                cur = q;
            },
            None => {
                break ;
            },
        }
    }
    cur
}

} // verus!
