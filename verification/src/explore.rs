//! Breadth-first exploration of the state graph from a spawning placement.

use crate::boards::{lemma_free_position, Board64};
use crate::graph::{
    apply_step, edge, enabled_steps, is_path, lemma_reachable_edge, lemma_reachable_reflexive,
    lemma_reachable_transitive, lemma_step, reachable, step_spec, steps_spec, Step,
};
use crate::moves::Drop;
use crate::pieces::Shape;
use crate::placements::BlPlacement;
use crate::rotation::RotationSystem;
use vstd::prelude::*;

verus! {

/// Number of placements of one shape whose bounding box has its bottom-left
/// corner on the field: four orientations, ten columns, sixty-four rows.
pub const STATE_COUNT: usize = 2560;

/// The number of a placement among the placements of its shape.
pub open spec fn index_spec(p: BlPlacement) -> int {
    p.piece.orientation.index_spec() * 640 + p.position.by * 10 + p.position.lx
}

/// Whether `queue` lists placements of `shape` that are free of collisions,
/// none of them twice.
pub open spec fn well_formed(board: Board64, shape: Shape, queue: Seq<BlPlacement>) -> bool {
    &&& queue.no_duplicates()
    &&& forall|j: int|
        0 <= j < queue.len() ==> !board.collides_spec(#[trigger] queue[j]) && queue[j].piece.shape
            == shape
}

/// Whether every placement one action away from one of the first `head`
/// placements of `queue` is in `queue` too.
pub open spec fn closed_below<T: RotationSystem>(
    rs: T,
    board: Board64,
    drop: Drop,
    queue: Seq<BlPlacement>,
    head: int,
) -> bool {
    forall|j: int, i: int|
        0 <= j < head && 0 <= i < steps_spec(drop).len() ==> (#[trigger] step_spec(
            rs,
            board,
            queue[j],
            steps_spec(drop)[i],
        ) matches Some(s) ==> queue.contains(s))
}

/// Whether the placement at `j` in `queue` is one action away from a
/// placement before it.
pub open spec fn has_source<T: RotationSystem>(
    rs: T,
    board: Board64,
    drop: Drop,
    queue: Seq<BlPlacement>,
    j: int,
) -> bool {
    exists|i: int| 0 <= i < j && #[trigger] edge(rs, board, drop, queue[i], queue[j])
}

/// Whether every placement of `queue` but the first is one action away from
/// a placement before it.
pub open spec fn sourced<T: RotationSystem>(
    rs: T,
    board: Board64,
    drop: Drop,
    queue: Seq<BlPlacement>,
) -> bool {
    forall|j: int| 0 < j < queue.len() ==> #[trigger] has_source(rs, board, drop, queue, j)
}

/// `queue` after the first `n` actions allowed under `drop` were tried on
/// `p`: each result that is not yet listed is appended.
pub open spec fn expand<T: RotationSystem>(
    rs: T,
    board: Board64,
    drop: Drop,
    queue: Seq<BlPlacement>,
    p: BlPlacement,
    n: int,
) -> Seq<BlPlacement>
    decreases n,
{
    if n <= 0 {
        queue
    } else {
        let q = expand(rs, board, drop, queue, p, n - 1);
        match step_spec(rs, board, p, steps_spec(drop)[n - 1]) {
            Some(s) => if q.contains(s) {
                q
            } else {
                q.push(s)
            },
            None => q,
        }
    }
}

/// The breadth-first traversal continued from a queue whose first `head`
/// placements were expanded already.
pub open spec fn bfs<T: RotationSystem>(
    rs: T,
    board: Board64,
    drop: Drop,
    queue: Seq<BlPlacement>,
    head: int,
) -> Seq<BlPlacement>
    decreases STATE_COUNT - head,
{
    if head < 0 || head >= queue.len() || head >= STATE_COUNT {
        queue
    } else {
        bfs(
            rs,
            board,
            drop,
            expand(rs, board, drop, queue, queue[head], steps_spec(drop).len() as int),
            head + 1,
        )
    }
}

/// The placements the breadth-first traversal from `spawn` visits, in the
/// order in which it discovers them.
pub open spec fn discovered<T: RotationSystem>(
    rs: T,
    board: Board64,
    drop: Drop,
    spawn: BlPlacement,
) -> Seq<BlPlacement> {
    bfs(rs, board, drop, seq![spawn], 0)
}

/// Whether `visited` marks exactly the numbers of the placements in `queue`.
pub open spec fn tracks(
    board: Board64,
    shape: Shape,
    visited: Seq<bool>,
    queue: Seq<BlPlacement>,
) -> bool {
    &&& visited.len() == STATE_COUNT
    &&& forall|s: BlPlacement|
        !board.collides_spec(s) && s.piece.shape == shape ==> visited[#[trigger] index_spec(s)]
            == queue.contains(s)
}

/// Placements of one shape that are free of collisions have numbers below
/// `STATE_COUNT`, and different placements have different numbers.
pub proof fn lemma_index(board: Board64, a: BlPlacement, b: BlPlacement)
    requires
        !board.collides_spec(a),
        !board.collides_spec(b),
        a.piece.shape == b.piece.shape,
    ensures
        0 <= index_spec(a) < STATE_COUNT,
        index_spec(a) == index_spec(b) ==> a == b,
{
    lemma_free_position(board, a);
    lemma_free_position(board, b);
}

/// A well-formed queue holds at most `STATE_COUNT` placements.
pub proof fn lemma_bounded(board: Board64, shape: Shape, queue: Seq<BlPlacement>)
    requires
        well_formed(board, shape, queue),
    ensures
        queue.len() <= STATE_COUNT,
{
    let numbers = Seq::new(queue.len(), |j: int| index_spec(queue[j]));
    let range = vstd::set_lib::set_int_range(0, STATE_COUNT as int);
    assert forall|j: int, k: int|
        0 <= j < numbers.len() && 0 <= k < numbers.len() && j != k implies numbers[j]
        != numbers[k] by {
        lemma_index(board, queue[j], queue[k]);
    }
    assert forall|n: int| numbers.to_set().contains(n) implies range.contains(n) by {
        let j = choose|j: int| 0 <= j < numbers.len() && numbers[j] == n;
        lemma_index(board, queue[j], queue[j]);
    }
    numbers.unique_seq_to_set();
    vstd::set_lib::lemma_int_range(0, STATE_COUNT as int);
    vstd::set_lib::lemma_len_subset(numbers.to_set(), range);
}

/// Expanding a placement keeps the queue well formed and only appends to it;
/// what it appends is one action away from the placement, and afterwards the
/// queue holds every result of the actions tried.
pub proof fn lemma_expand<T: RotationSystem>(
    rs: T,
    board: Board64,
    drop: Drop,
    queue: Seq<BlPlacement>,
    p: BlPlacement,
    n: int,
)
    requires
        well_formed(board, p.piece.shape, queue),
        !board.collides_spec(p),
        0 <= n <= steps_spec(drop).len(),
    ensures
        well_formed(board, p.piece.shape, expand(rs, board, drop, queue, p, n)),
        queue.is_prefix_of(expand(rs, board, drop, queue, p, n)),
        forall|j: int|
            queue.len() <= j < expand(rs, board, drop, queue, p, n).len() ==> edge(
                rs,
                board,
                drop,
                p,
                #[trigger] expand(rs, board, drop, queue, p, n)[j],
            ),
        forall|i: int|
            0 <= i < n ==> (#[trigger] step_spec(rs, board, p, steps_spec(drop)[i]) matches Some(
                s,
            ) ==> expand(rs, board, drop, queue, p, n).contains(s)),
    decreases n,
{
    if n > 0 {
        lemma_expand(rs, board, drop, queue, p, n - 1);
        let q = expand(rs, board, drop, queue, p, n - 1);
        let r = expand(rs, board, drop, queue, p, n);
        let step = steps_spec(drop)[n - 1];
        lemma_step(rs, board, p, step);
        assert forall|i: int| 0 <= i < n implies (#[trigger] step_spec(
            rs,
            board,
            p,
            steps_spec(drop)[i],
        ) matches Some(s) ==> r.contains(s)) by {
            if let Some(s) = step_spec(rs, board, p, steps_spec(drop)[i]) {
                if i < n - 1 {
                    let k = choose|k: int| 0 <= k < q.len() && q[k] == s;
                    assert(r[k] == s);
                } else if !q.contains(s) {
                    assert(r[q.len() as int] == s);
                }
            }
        }
    }
}

/// The traversal ends with a well-formed queue that is closed under every
/// allowed action and in which every placement but the first is one action
/// away from an earlier one.
pub proof fn lemma_bfs<T: RotationSystem>(
    rs: T,
    board: Board64,
    drop: Drop,
    shape: Shape,
    queue: Seq<BlPlacement>,
    head: int,
)
    requires
        well_formed(board, shape, queue),
        0 <= head <= queue.len(),
        closed_below(rs, board, drop, queue, head),
        sourced(rs, board, drop, queue),
    ensures
        well_formed(board, shape, bfs(rs, board, drop, queue, head)),
        queue.is_prefix_of(bfs(rs, board, drop, queue, head)),
        closed_below(
            rs,
            board,
            drop,
            bfs(rs, board, drop, queue, head),
            bfs(rs, board, drop, queue, head).len() as int,
        ),
        sourced(rs, board, drop, bfs(rs, board, drop, queue, head)),
    decreases STATE_COUNT - head,
{
    lemma_bounded(board, shape, queue);
    if head < queue.len() {
        let n = steps_spec(drop).len() as int;
        let next = expand(rs, board, drop, queue, queue[head], n);
        lemma_expand(rs, board, drop, queue, queue[head], n);
        assert forall|j: int, i: int|
            0 <= j < head + 1 && 0 <= i < steps_spec(drop).len() implies (#[trigger] step_spec(
            rs,
            board,
            next[j],
            steps_spec(drop)[i],
        ) matches Some(s) ==> next.contains(s)) by {
            if let Some(s) = step_spec(rs, board, next[j], steps_spec(drop)[i]) {
                assert(next[j] == queue[j]);
                if j < head {
                    let k = choose|k: int| 0 <= k < queue.len() && queue[k] == s;
                    assert(next[k] == s);
                }
            }
        }
        assert forall|j: int| 0 < j < next.len() implies #[trigger] has_source(
            rs,
            board,
            drop,
            next,
            j,
        ) by {
            if j < queue.len() {
                assert(next[j] == queue[j]);
                assert(has_source(rs, board, drop, queue, j));
                let i = choose|i: int|
                    0 <= i < j && #[trigger] edge(rs, board, drop, queue[i], queue[j]);
                assert(next[i] == queue[i]);
                assert(edge(rs, board, drop, next[i], next[j]));
            } else {
                assert(next[head] == queue[head]);
                assert(edge(rs, board, drop, next[head], next[j]));
            }
        }
        lemma_bfs(rs, board, drop, shape, next, head + 1);
    }
}

/// In a sourced queue every placement can be reached from the first.
pub proof fn lemma_sourced_reachable<T: RotationSystem>(
    rs: T,
    board: Board64,
    drop: Drop,
    queue: Seq<BlPlacement>,
    j: int,
)
    requires
        sourced(rs, board, drop, queue),
        0 <= j < queue.len(),
    ensures
        reachable(rs, board, drop, queue[0], queue[j]),
    decreases j,
{
    if j == 0 {
        lemma_reachable_reflexive(rs, board, drop, queue[0]);
    } else {
        assert(has_source(rs, board, drop, queue, j));
        let i = choose|i: int| 0 <= i < j && #[trigger] edge(rs, board, drop, queue[i], queue[j]);
        lemma_sourced_reachable(rs, board, drop, queue, i);
        lemma_reachable_edge(rs, board, drop, queue[i], queue[j]);
        lemma_reachable_transitive(rs, board, drop, queue[0], queue[i], queue[j]);
    }
}

/// A queue that is closed under every allowed action holds every placement
/// on a path that starts in it.
pub proof fn lemma_closed_holds_path<T: RotationSystem>(
    rs: T,
    board: Board64,
    drop: Drop,
    queue: Seq<BlPlacement>,
    path: Seq<BlPlacement>,
    k: int,
)
    requires
        closed_below(rs, board, drop, queue, queue.len() as int),
        is_path(rs, board, drop, path),
        queue.contains(path[0]),
        0 <= k < path.len(),
    ensures
        queue.contains(path[k]),
    decreases k,
{
    if k > 0 {
        lemma_closed_holds_path(rs, board, drop, queue, path, k - 1);
        let j = choose|j: int| 0 <= j < queue.len() && queue[j] == path[k - 1];
        assert(edge(rs, board, drop, path[k - 1], path[k]));
        let i = choose|i: int|
            0 <= i < steps_spec(drop).len() && #[trigger] step_spec(
                rs,
                board,
                path[k - 1],
                steps_spec(drop)[i],
            ) == Some(path[k]);
        assert(step_spec(rs, board, queue[j], steps_spec(drop)[i]) == Some(path[k]));
    }
}

/// The traversal from a spawning placement that is free of collisions
/// discovers exactly the placements that can be reached from it, each once,
/// the spawning placement first.
pub proof fn lemma_discovered<T: RotationSystem>(
    rs: T,
    board: Board64,
    drop: Drop,
    spawn: BlPlacement,
)
    requires
        !board.collides_spec(spawn),
    ensures
        well_formed(board, spawn.piece.shape, discovered(rs, board, drop, spawn)),
        discovered(rs, board, drop, spawn).len() > 0,
        discovered(rs, board, drop, spawn)[0] == spawn,
        forall|q: BlPlacement|
            discovered(rs, board, drop, spawn).contains(q) <==> reachable(
                rs,
                board,
                drop,
                spawn,
                q,
            ),
{
    let start = seq![spawn];
    let found = discovered(rs, board, drop, spawn);
    lemma_bfs(rs, board, drop, spawn.piece.shape, start, 0);
    assert(found[0] == start[0]);
    assert forall|q: BlPlacement| found.contains(q) implies reachable(
        rs,
        board,
        drop,
        spawn,
        q,
    ) by {
        let j = choose|j: int| 0 <= j < found.len() && found[j] == q;
        lemma_sourced_reachable(rs, board, drop, found, j);
    }
    assert forall|q: BlPlacement| reachable(rs, board, drop, spawn, q) implies found.contains(
        q,
    ) by {
        let path = choose|path: Seq<BlPlacement>|
            #[trigger] is_path(rs, board, drop, path) && path[0] == spawn && path.last() == q;
        lemma_closed_holds_path(rs, board, drop, found, path, path.len() - 1);
    }
}

/// The number of a placement among the placements of its shape.
pub fn state_index(p: BlPlacement) -> (k: usize)
    requires
        0 <= p.position.lx < 10,
        0 <= p.position.by < 64,
    ensures
        k == index_spec(p),
        k < STATE_COUNT,
{
    p.piece.orientation.index() * 640 + (p.position.by as usize) * 10 + (p.position.lx as usize)
}

fn unmarked() -> (visited: Vec<bool>)
    ensures
        visited@.len() == STATE_COUNT,
        forall|k: int| 0 <= k < STATE_COUNT ==> !visited@[k],
{
    let mut visited: Vec<bool> = Vec::new();
    let mut k: usize = 0;
    while k < STATE_COUNT
        invariant
            k <= STATE_COUNT,
            visited@.len() == k,
            forall|j: int| 0 <= j < k ==> !visited@[j],
        decreases STATE_COUNT - k,
    {
        visited.push(false);
        k = k + 1;
    }
    visited
}

/// Runs the breadth-first traversal from `spawn` and returns the placements
/// it visits in the order of their discovery. `spawn` must be free of
/// collisions: the traversal has no meaning otherwise.
pub fn explore<T: RotationSystem>(rs: &T, board: &Board64, drop: Drop, spawn: BlPlacement) -> (found:
    Vec<BlPlacement>)
    requires
        !board.collides_spec(spawn),
    ensures
        found@ == discovered(*rs, *board, drop, spawn),
        found@.no_duplicates(),
        found@.len() > 0 && found@[0] == spawn,
        forall|q: BlPlacement| found@.contains(q) <==> reachable(*rs, *board, drop, spawn, q),
{
    proof {
        lemma_discovered(*rs, *board, drop, spawn);
    }
    let steps: Vec<Step> = enabled_steps(drop);
    let ghost shape = spawn.piece.shape;
    let mut visited: Vec<bool> = unmarked();
    let mut queue: Vec<BlPlacement> = Vec::new();
    proof {
        lemma_free_position(*board, spawn);
    }
    visited.set(state_index(spawn), true);
    queue.push(spawn);
    proof {
        assert(queue@ =~= seq![spawn]);
        assert forall|s: BlPlacement|
            !board.collides_spec(s) && s.piece.shape == shape implies visited@[#[trigger] index_spec(
            s,
        )] == queue@.contains(s) by {
            lemma_index(*board, s, spawn);
            if s == spawn {
                assert(queue@[0] == s);
            }
        }
    }
    let mut head: usize = 0;
    while head < queue.len()
        invariant
            steps@ == steps_spec(drop),
            shape == spawn.piece.shape,
            well_formed(*board, shape, queue@),
            tracks(*board, shape, visited@, queue@),
            head <= queue@.len(),
            bfs(*rs, *board, drop, queue@, head as int) == discovered(*rs, *board, drop, spawn),
        decreases STATE_COUNT - head,
    {
        let cur: BlPlacement = queue[head];
        let ghost before = queue@;
        proof {
            lemma_bounded(*board, shape, before);
        }
        let mut i: usize = 0;
        while i < steps.len()
            invariant
                i <= steps@.len(),
                steps@ == steps_spec(drop),
                well_formed(*board, shape, before),
                !board.collides_spec(cur),
                cur.piece.shape == shape,
                tracks(*board, shape, visited@, queue@),
                queue@ == expand(*rs, *board, drop, before, cur, i as int),
            decreases steps@.len() - i,
        {
            let next: Option<BlPlacement> = apply_step(rs, board, cur, steps[i]);
            proof {
                lemma_step(*rs, *board, cur, steps[i as int]);
                lemma_expand(*rs, *board, drop, before, cur, i as int);
            }
            match next {
                Some(s) => {
                    proof {
                        lemma_free_position(*board, s);
                    }
                    let k: usize = state_index(s);
                    if !visited[k] {
                        let ghost old_queue = queue@;
                        let ghost old_visited = visited@;
                        visited.set(k, true);
                        queue.push(s);
                        proof {
                            assert forall|t: BlPlacement|
                                !board.collides_spec(t) && t.piece.shape
                                    == shape implies visited@[#[trigger] index_spec(t)]
                                == queue@.contains(t) by {
                                lemma_index(*board, t, s);
                                if t == s {
                                    assert(queue@[old_queue.len() as int] == t);
                                } else {
                                    assert(visited@[index_spec(t)] == old_visited[index_spec(t)]);
                                    if old_queue.contains(t) {
                                        let j = choose|j: int|
                                            0 <= j < old_queue.len() && old_queue[j] == t;
                                        assert(queue@[j] == t);
                                    }
                                    if queue@.contains(t) {
                                        let j = choose|j: int|
                                            0 <= j < queue@.len() && queue@[j] == t;
                                        assert(old_queue[j] == t);
                                    }
                                }
                            }
                        }
                    }
                },
                None => {},
            }
            i = i + 1;
        }
        proof {
            lemma_expand(*rs, *board, drop, before, cur, steps@.len() as int);
        }
        head = head + 1;
    }
    queue
}

} // verus!
