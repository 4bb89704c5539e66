use piece_moves::explore::{explore, state_index};
use piece_moves::graph::{
    apply_step, enabled_steps, hard_drop, is_terminal, rotate, try_place, Step,
};
use piece_moves::landing::{all_moves_harddrop, all_moves_softdrop};
use piece_moves::reduce::{distinct_placements, one_per_footprint};
use piece_moves::{
    bl, BlPlacement, Board64, Drop, KickTable, MoveRules, Offset, Orientation, Piece, Rotation,
    Shape, SrsKickTable,
};

fn place(shape: Shape, orientation: Orientation, lx: i32, by: i32) -> BlPlacement {
    Piece::new(shape, orientation).with(bl(lx, by))
}

#[test]
fn soft_drop_has_one_step_more() {
    assert_eq!(
        enabled_steps(Drop::Harddrop),
        [Step::ShiftLeft, Step::ShiftRight, Step::RotateCw, Step::RotateCcw, Step::RotateHalf]
    );
    assert_eq!(
        enabled_steps(Drop::Softdrop),
        [
            Step::ShiftLeft,
            Step::ShiftRight,
            Step::RotateCw,
            Step::RotateCcw,
            Step::RotateHalf,
            Step::SoftDrop
        ]
    );
}

#[test]
fn try_place_checks_field_and_blocks() {
    let board = Board64::from_str("...X......").unwrap();
    let t = Piece::new(Shape::T, Orientation::North);
    assert_eq!(try_place(&board, t, 0, 0), Some(t.with(bl(0, 0))));
    assert_eq!(try_place(&board, t, 1, 0), None);
    assert_eq!(try_place(&board, t, -1, 0), None);
    assert_eq!(try_place(&board, t, 0, -1), None);
    assert_eq!(try_place(&board, t, 8, 0), None);
    assert_eq!(try_place(&board, t, 0, 63), None);
    assert_eq!(try_place(&board, t, 7, 62), Some(t.with(bl(7, 62))));
    assert_eq!(try_place(&board, t, i64::MAX, 0), None);
    assert_eq!(try_place(&board, t, 1 << 32, 0), None);
}

#[test]
fn shifts_and_drops_move_one_cell() {
    let board = Board64::from_str("X.........").unwrap();
    let p = place(Shape::O, Orientation::North, 1, 1);
    let rs = SrsKickTable;
    assert_eq!(apply_step(&rs, &board, p, Step::ShiftLeft), Some(place(Shape::O, Orientation::North, 0, 1)));
    assert_eq!(apply_step(&rs, &board, p, Step::ShiftRight), Some(place(Shape::O, Orientation::North, 2, 1)));
    assert_eq!(apply_step(&rs, &board, p, Step::SoftDrop), Some(place(Shape::O, Orientation::North, 1, 0)));
    assert_eq!(apply_step(&rs, &board, p, Step::RotateCw), Some(place(Shape::O, Orientation::East, 1, 1)));
    assert_eq!(apply_step(&rs, &board, p, Step::RotateCcw), Some(place(Shape::O, Orientation::West, 1, 1)));
    assert_eq!(apply_step(&rs, &board, p, Step::RotateHalf), None);
    let low = place(Shape::O, Orientation::North, 1, 0);
    assert_eq!(apply_step(&rs, &board, low, Step::ShiftLeft), None);
    assert_eq!(apply_step(&rs, &board, low, Step::SoftDrop), None);
    let right = place(Shape::O, Orientation::North, 8, 0);
    assert_eq!(apply_step(&rs, &board, right, Step::ShiftRight), None);
}

#[test]
fn first_free_candidate_wins() {
    let bar = Piece::new(Shape::I, Orientation::North);
    let upright = Piece::new(Shape::I, Orientation::East);
    let table = KickTable::new()
        .with_kicks(bar, Rotation::Cw, vec![Offset::new(0, 0), Offset::new(1, 0), Offset::new(2, 0)])
        .with_kicks(upright, Rotation::Cw, vec![Offset::new(0, 0), Offset::new(1, 0), Offset::new(2, 0)]);
    let board = Board64::from_str("X......... X.........").unwrap();
    assert_eq!(
        rotate(&table, &board, bar.with(bl(0, 5)), Rotation::Cw),
        Some(upright.with(bl(0, 5)))
    );
    assert_eq!(
        rotate(&table, &board, bar.with(bl(0, 1)), Rotation::Cw),
        Some(upright.with(bl(1, 1)))
    );
    assert_eq!(
        rotate(&table, &board, upright.with(bl(0, 2)), Rotation::Cw),
        Some(place(Shape::I, Orientation::South, 0, 2))
    );
    assert_eq!(rotate(&table, &board, bar.with(bl(0, 1)), Rotation::Ccw), None);
    assert_eq!(rotate(&table, &board, bar.with(bl(8, 61)), Rotation::Cw), None);
}

#[test]
fn standard_rotation_kicks_off_the_floor_and_the_wall() {
    let board = Board64::blank();
    let rs = SrsKickTable;
    // The bar lying on the floor stands up by the last candidate.
    assert_eq!(
        rotate(&rs, &board, place(Shape::I, Orientation::North, 3, 0), Rotation::Cw),
        Some(place(Shape::I, Orientation::East, 6, 0))
    );
    // In the air the first candidate is taken.
    assert_eq!(
        rotate(&rs, &board, place(Shape::I, Orientation::North, 3, 10), Rotation::Cw),
        Some(place(Shape::I, Orientation::East, 5, 8))
    );
    assert_eq!(
        rotate(&rs, &board, place(Shape::T, Orientation::North, 4, 5), Rotation::Cw),
        Some(place(Shape::T, Orientation::East, 5, 4))
    );
    // Against the right wall the upright T is pushed one column to the left.
    assert_eq!(
        rotate(&rs, &board, place(Shape::T, Orientation::West, 8, 5), Rotation::Cw),
        Some(place(Shape::T, Orientation::North, 7, 6))
    );
    assert_eq!(rotate(&rs, &board, place(Shape::T, Orientation::North, 4, 5), Rotation::Half), None);
}

#[test]
fn hard_drop_falls_to_rest() {
    let board = Board64::from_str("..XXXXXX.. .......... .......... ..........").unwrap();
    let s = place(Shape::S, Orientation::North, 0, 20);
    assert_eq!(hard_drop(&board, s), place(Shape::S, Orientation::North, 0, 3));
    let e = place(Shape::S, Orientation::East, 0, 20);
    assert_eq!(hard_drop(&board, e), place(Shape::S, Orientation::East, 0, 0));
    let mid = place(Shape::S, Orientation::North, 4, 20);
    assert_eq!(hard_drop(&board, mid), place(Shape::S, Orientation::North, 4, 4));
    assert_eq!(hard_drop(&board, hard_drop(&board, mid)), hard_drop(&board, mid));
    let under = place(Shape::S, Orientation::North, 4, 1);
    assert_eq!(hard_drop(&board, under), place(Shape::S, Orientation::North, 4, 0));
    assert!(is_terminal(&board, hard_drop(&board, mid)));
    assert!(!is_terminal(&board, mid));
    assert!(!is_terminal(&board, place(Shape::S, Orientation::North, 4, 3)));
    assert!(is_terminal(&board, place(Shape::S, Orientation::North, 0, 3)));
}

#[test]
fn exploration_starts_at_the_spawn() {
    let board = Board64::blank();
    let spawn = place(Shape::T, Orientation::North, 4, 20);
    let air = explore(&SrsKickTable, &board, Drop::Harddrop, spawn);
    assert_eq!(air[0], spawn);
    assert_eq!(air[1], place(Shape::T, Orientation::North, 3, 20));
    assert_eq!(air[2], place(Shape::T, Orientation::North, 5, 20));
    assert_eq!(air[3], place(Shape::T, Orientation::East, 5, 19));
    assert_eq!(air[4], place(Shape::T, Orientation::West, 4, 19));
    let mut indices: Vec<usize> = air.iter().map(|p| state_index(*p)).collect();
    indices.sort();
    indices.dedup();
    assert_eq!(indices.len(), air.len());
    let all = explore(&SrsKickTable, &board, Drop::Softdrop, spawn);
    assert!(all.len() > air.len());
    assert!(air.iter().all(|p| all.contains(p)));
    assert!(all.iter().all(|p| !board.collides(p)));
}

#[test]
fn state_indices_are_distinct() {
    assert_eq!(state_index(place(Shape::T, Orientation::North, 0, 0)), 0);
    assert_eq!(state_index(place(Shape::T, Orientation::North, 9, 0)), 9);
    assert_eq!(state_index(place(Shape::T, Orientation::North, 0, 1)), 10);
    assert_eq!(state_index(place(Shape::T, Orientation::East, 0, 0)), 640);
    assert_eq!(state_index(place(Shape::Z, Orientation::West, 9, 63)), 2559);
}

#[test]
fn entry_points_agree_with_the_rules() {
    let board = Board64::from_str("XX........ X...XXXXXX XX.XXXXXXX").unwrap();
    let spawn = place(Shape::T, Orientation::North, 4, 20);
    assert_eq!(
        all_moves_softdrop(&SrsKickTable, &board, spawn),
        MoveRules::srs(Drop::Softdrop).generate_all_moves(board, spawn)
    );
    assert_eq!(
        all_moves_harddrop(&SrsKickTable, &board, spawn),
        MoveRules::srs(Drop::Harddrop).generate_all_moves(board, spawn)
    );
}

#[test]
fn reductions_keep_the_first() {
    let a = place(Shape::S, Orientation::North, 1, 0);
    let b = place(Shape::S, Orientation::South, 1, 0);
    let c = place(Shape::S, Orientation::East, 1, 0);
    let d = place(Shape::S, Orientation::West, 1, 0);
    let list = vec![b, a, c, b, d, a, c];
    assert_eq!(distinct_placements(&list), vec![b, a, c, d]);
    assert_eq!(one_per_footprint(&list), vec![b, c]);
    assert_eq!(one_per_footprint(&vec![]), vec![]);
    assert_eq!(distinct_placements(&vec![]), vec![]);
    assert_eq!(one_per_footprint(&vec![d, c, a, b]), vec![d, a]);
}
