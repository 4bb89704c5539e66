use piece_moves::{
    bl, Board64, Drop, KickTable, MoveRules, Offset, Orientation, Piece, Rotation, RotationSystem,
    Shape, SrsKickTable,
};
use std::rc::Rc;

fn kicks(shape: Shape, orientation: Orientation, rotation: Rotation) -> Vec<(i32, i32)> {
    SrsKickTable
        .kick_candidates(Piece::new(shape, orientation), rotation)
        .iter()
        .map(|k| (k.dx, k.dy))
        .collect()
}

#[test]
fn standard_kicks_of_the_three_wide_shapes() {
    assert_eq!(
        kicks(Shape::T, Orientation::North, Rotation::Cw),
        [(1, -1), (0, -1), (0, 0), (1, -3), (0, -3)]
    );
    assert_eq!(
        kicks(Shape::T, Orientation::North, Rotation::Ccw),
        [(0, -1), (1, -1), (1, 0), (0, -3), (1, -3)]
    );
    assert_eq!(
        kicks(Shape::S, Orientation::West, Rotation::Cw),
        [(0, 1), (-1, 1), (-1, 0), (0, 3), (-1, 3)]
    );
    for shape in [Shape::L, Shape::J, Shape::S, Shape::Z] {
        for orientation in
            [Orientation::North, Orientation::East, Orientation::South, Orientation::West]
        {
            for rotation in [Rotation::Cw, Rotation::Ccw] {
                assert_eq!(
                    kicks(shape, orientation, rotation),
                    kicks(Shape::T, orientation, rotation)
                );
            }
        }
    }
}

#[test]
fn standard_kicks_of_the_bar() {
    assert_eq!(
        kicks(Shape::I, Orientation::North, Rotation::Cw),
        [(2, -2), (0, -2), (3, -2), (0, -3), (3, 0)]
    );
    assert_eq!(
        kicks(Shape::I, Orientation::East, Rotation::Ccw),
        [(-2, 2), (0, 2), (-3, 2), (0, 3), (-3, 0)]
    );
}

#[test]
fn the_square_turns_in_place() {
    for orientation in
        [Orientation::North, Orientation::East, Orientation::South, Orientation::West]
    {
        assert_eq!(kicks(Shape::O, orientation, Rotation::Cw), [(0, 0)]);
        assert_eq!(kicks(Shape::O, orientation, Rotation::Ccw), [(0, 0)]);
    }
}

#[test]
fn the_standard_system_has_no_half_turn() {
    for shape in [Shape::T, Shape::I, Shape::O, Shape::L, Shape::J, Shape::S, Shape::Z] {
        assert_eq!(kicks(shape, Orientation::North, Rotation::Half), []);
        assert_eq!(kicks(shape, Orientation::West, Rotation::Half), []);
    }
}

#[test]
fn unkicked_turn_is_undone_by_the_opposite_turn() {
    for shape in [Shape::T, Shape::I, Shape::O, Shape::L, Shape::J, Shape::S, Shape::Z] {
        for orientation in
            [Orientation::North, Orientation::East, Orientation::South, Orientation::West]
        {
            let there = kicks(shape, orientation, Rotation::Cw)[0];
            let back = kicks(shape, orientation.rotated(Rotation::Cw), Rotation::Ccw)[0];
            assert_eq!((there.0 + back.0, there.1 + back.1), (0, 0));
        }
    }
}

#[test]
fn new_table_turns_nothing() {
    let table = KickTable::new();
    for shape in [Shape::T, Shape::I, Shape::O, Shape::L, Shape::J, Shape::S, Shape::Z] {
        for rotation in [Rotation::Cw, Rotation::Ccw, Rotation::Half] {
            let piece = Piece::new(shape, Orientation::East);
            assert!(table.kick_candidates(piece, rotation).is_empty());
        }
    }
    let rules = MoveRules::new(Rc::new(table), Drop::Harddrop);
    let spawn = Piece::new(Shape::T, Orientation::North).with(bl(4, 20));
    let moves = rules.generate_all_moves(Board64::blank(), spawn);
    assert_eq!(moves.len(), 8);
    assert!(moves.iter().all(|m| m.piece.orientation == Orientation::North));
}

#[test]
fn table_keeps_each_list_apart() {
    let l = Piece::new(Shape::L, Orientation::North);
    let table = KickTable::new()
        .with_kicks(l, Rotation::Half, vec![Offset::new(5, 0), Offset::new(0, 0)])
        .with_kicks(l, Rotation::Cw, vec![Offset::new(1, 1)])
        .with_kicks(l, Rotation::Half, vec![Offset::new(0, 0), Offset::new(5, 0)])
        .with_kicks(Piece::new(Shape::Z, Orientation::West), Rotation::Ccw, vec![]);
    assert_eq!(
        table.kick_candidates(l, Rotation::Half),
        [Offset::new(0, 0), Offset::new(5, 0)]
    );
    assert_eq!(table.kick_candidates(l, Rotation::Cw), [Offset::new(1, 1)]);
    assert!(table.kick_candidates(l, Rotation::Ccw).is_empty());
    assert!(table.kick_candidates(Piece::new(Shape::L, Orientation::South), Rotation::Half)
        .is_empty());
    assert!(table.kick_candidates(Piece::new(Shape::J, Orientation::North), Rotation::Half)
        .is_empty());
}

fn half_turns() -> KickTable {
    let mut table = KickTable::new();
    for orientation in
        [Orientation::North, Orientation::East, Orientation::South, Orientation::West]
    {
        table = table.with_kicks(
            Piece::new(Shape::L, orientation),
            Rotation::Half,
            vec![Offset::new(5, 0), Offset::new(0, 0)],
        );
    }
    table
}

#[test]
fn half_turns_with_a_table() {
    let spawn = Piece::new(Shape::L, Orientation::North).with(bl(0, 10));
    for drop in [Drop::Softdrop, Drop::Harddrop] {
        let rules = MoveRules::new(Rc::new(half_turns()), drop);
        let moves = rules.generate_all_moves(Board64::blank(), spawn);
        assert_eq!(moves.len(), 16);
        assert_eq!(
            moves[..6],
            [
                Piece::new(Shape::L, Orientation::North).with(bl(0, 0)),
                Piece::new(Shape::L, Orientation::North).with(bl(1, 0)),
                Piece::new(Shape::L, Orientation::South).with(bl(5, 0)),
                Piece::new(Shape::L, Orientation::North).with(bl(2, 0)),
                Piece::new(Shape::L, Orientation::South).with(bl(6, 0)),
                Piece::new(Shape::L, Orientation::South).with(bl(4, 0)),
            ]
        );
        assert!(moves
            .iter()
            .all(|m| matches!(m.piece.orientation, Orientation::North | Orientation::South)));
    }
}
