use piece_moves::reduce::one_per_footprint;
use piece_moves::{bl, BlPlacement, Board64, Drop, MoveRules, Orientation, Piece, Shape};

#[test]
fn generate_all_moves() {
    let board = Board64::from_str(" \
        ..XXXXXX..\
        ..........\
        ..........\
        ..........\
    ").unwrap();
    let rules = MoveRules::srs(Drop::Harddrop);
    let placement = Piece::new(Shape::S, Orientation::North).with(bl(4, 20));
    let moves = rules.generate_all_moves(board, placement);
    assert_eq!(moves.len(), 34);
    assert_eq!(moves.iter().filter(|it| it.position.by == 0).count(), 4);
}

#[test]
fn generate_minimized_moves() {
    let board = Board64::from_str(" \
        ..XXXXXX..\
        ..........\
        ..........\
        ..........\
    ").unwrap();
    let rules = MoveRules::srs(Drop::Harddrop);
    let placement = Piece::new(Shape::S, Orientation::North).with(bl(4, 20));
    let moves = rules.generate_minimized_moves(board, placement);
    assert_eq!(moves.len(), 17);
    assert_eq!(moves.iter().filter(|it| it.position.by == 0).count(), 2);
}

fn notch() -> Board64 {
    Board64::from_str("..XXXXXX.. .......... .......... ..........").unwrap()
}

fn overhang() -> Board64 {
    Board64::from_str(
        "XX........\
         X...XXXXXX\
         XX.XXXXXXX",
    )
    .unwrap()
}

fn place(shape: Shape, orientation: Orientation, lx: i32, by: i32) -> BlPlacement {
    Piece::new(shape, orientation).with(bl(lx, by))
}

fn sorted(moves: &[BlPlacement]) -> Vec<(usize, i32, i32)> {
    let mut keys: Vec<(usize, i32, i32)> = moves
        .iter()
        .map(|m| (m.piece.orientation.index(), m.position.lx, m.position.by))
        .collect();
    keys.sort();
    keys
}

#[test]
fn softdrop_reaches_under_the_notch() {
    let rules = MoveRules::srs(Drop::Softdrop);
    let spawn = place(Shape::S, Orientation::North, 4, 20);
    let all = rules.generate_all_moves(notch(), spawn);
    assert_eq!(all.len(), 64);
    assert_eq!(all.iter().filter(|it| it.position.by == 0).count(), 34);
    let min = rules.generate_minimized_moves(notch(), spawn);
    assert_eq!(min.len(), 32);
    assert_eq!(min.iter().filter(|it| it.position.by == 0).count(), 17);
}

#[test]
fn repeated_calls_agree() {
    for drop in [Drop::Softdrop, Drop::Harddrop] {
        let rules = MoveRules::srs(drop);
        let spawn = place(Shape::T, Orientation::North, 4, 20);
        let first = rules.generate_all_moves(notch(), spawn);
        let second = rules.generate_all_moves(notch(), spawn);
        assert_eq!(first, second);
        assert_eq!(sorted(&first), sorted(&second));
    }
}

#[test]
fn moves_come_in_order_of_discovery() {
    let spawn = place(Shape::I, Orientation::North, 3, 0);
    for drop in [Drop::Softdrop, Drop::Harddrop] {
        let moves = MoveRules::srs(drop).generate_all_moves(Board64::blank(), spawn);
        assert_eq!(
            moves[..5],
            [
                place(Shape::I, Orientation::North, 3, 0),
                place(Shape::I, Orientation::North, 2, 0),
                place(Shape::I, Orientation::North, 4, 0),
                place(Shape::I, Orientation::East, 6, 0),
                place(Shape::I, Orientation::West, 3, 0),
            ]
        );
    }
}

#[test]
fn no_move_is_returned_twice() {
    for drop in [Drop::Softdrop, Drop::Harddrop] {
        let spawn = place(Shape::J, Orientation::North, 4, 20);
        let moves = MoveRules::srs(drop).generate_all_moves(overhang(), spawn);
        let mut keys = sorted(&moves);
        keys.dedup();
        assert_eq!(keys.len(), moves.len());
    }
}

#[test]
fn returned_placements_rest() {
    for board in [notch(), overhang(), Board64::blank()] {
        for drop in [Drop::Softdrop, Drop::Harddrop] {
            let spawn = place(Shape::L, Orientation::North, 4, 20);
            let moves = MoveRules::srs(drop).generate_all_moves(board, spawn);
            assert!(!moves.is_empty());
            for m in moves.iter() {
                assert!(!board.collides(m));
                let below =
                    place(m.piece.shape, m.piece.orientation, m.position.lx, m.position.by - 1);
                assert!(board.collides(&below));
            }
        }
    }
}

#[test]
fn sealed_cavity_is_not_reached() {
    let board = Board64::from_str("XXXXXXXXXX X....XXXXX XXXXXXXXXX").unwrap();
    let inside = place(Shape::I, Orientation::North, 1, 1);
    assert!(!board.collides(&inside));
    let spawn = place(Shape::I, Orientation::North, 3, 20);
    for drop in [Drop::Softdrop, Drop::Harddrop] {
        let moves = MoveRules::srs(drop).generate_all_moves(board, spawn);
        assert_eq!(moves.len(), 34);
        assert!(!moves.contains(&inside));
        assert!(moves.iter().all(|m| m.position.by == 3));
    }
}

#[test]
fn harddrop_moves_are_softdrop_moves() {
    let spawn = place(Shape::T, Orientation::North, 4, 20);
    let hard = MoveRules::srs(Drop::Harddrop).generate_all_moves(overhang(), spawn);
    let soft = MoveRules::srs(Drop::Softdrop).generate_all_moves(overhang(), spawn);
    assert_eq!(hard.len(), 34);
    assert_eq!(soft.len(), 37);
    for m in hard.iter() {
        assert!(soft.contains(m));
    }
    // The slot under the overhang is reached by a kicked rotation only.
    let spin = place(Shape::T, Orientation::South, 1, 0);
    assert!(soft.contains(&spin));
    assert!(!hard.contains(&spin));
}

#[test]
fn minimized_moves_are_drawn_from_all_moves() {
    for drop in [Drop::Softdrop, Drop::Harddrop] {
        let rules = MoveRules::srs(drop);
        let spawn = place(Shape::Z, Orientation::North, 4, 20);
        let all = rules.generate_all_moves(notch(), spawn);
        let min = rules.generate_minimized_moves(notch(), spawn);
        assert!(min.len() < all.len());
        for m in min.iter() {
            assert!(all.contains(m));
            // The representative is the first of all moves with its cells.
            let first = all.iter().find(|a| a.same_footprint(m)).unwrap();
            assert_eq!(first, m);
        }
        for a in all.iter() {
            assert_eq!(min.iter().filter(|m| m.same_footprint(a)).count(), 1);
        }
    }
}

#[test]
fn minimized_equals_all_when_no_footprint_repeats() {
    let rules = MoveRules::srs(Drop::Harddrop);
    let spawn = place(Shape::T, Orientation::North, 4, 20);
    let all = rules.generate_all_moves(Board64::blank(), spawn);
    let min = rules.generate_minimized_moves(Board64::blank(), spawn);
    // North and South are three wide, East and West two wide.
    assert_eq!(all.len(), 8 + 9 + 8 + 9);
    assert_eq!(min, all);
}

#[test]
fn every_shape_on_the_empty_field() {
    let expected = [
        (Shape::T, 34, 34),
        (Shape::I, 34, 17),
        (Shape::O, 36, 9),
        (Shape::L, 34, 34),
        (Shape::J, 34, 34),
        (Shape::S, 34, 17),
        (Shape::Z, 34, 17),
    ];
    for (shape, all_count, min_count) in expected {
        for drop in [Drop::Softdrop, Drop::Harddrop] {
            let rules = MoveRules::srs(drop);
            let spawn = place(shape, Orientation::North, 4, 20);
            assert_eq!(rules.generate_all_moves(Board64::blank(), spawn).len(), all_count);
            assert_eq!(rules.generate_minimized_moves(Board64::blank(), spawn).len(), min_count);
        }
    }
}

#[test]
fn square_piece_minimizes_to_one_per_column() {
    let rules = MoveRules::srs(Drop::Harddrop);
    let spawn = place(Shape::O, Orientation::North, 4, 20);
    let min = rules.generate_minimized_moves(Board64::blank(), spawn);
    assert_eq!(min.len(), 9);
    assert!(min.iter().all(|m| m.piece.orientation == Orientation::North));
    assert!(min.iter().all(|m| m.position.by == 0));
}

#[test]
fn reducing_twice_changes_nothing() {
    for drop in [Drop::Softdrop, Drop::Harddrop] {
        let rules = MoveRules::srs(drop);
        let spawn = place(Shape::S, Orientation::North, 4, 20);
        let min = rules.generate_minimized_moves(notch(), spawn);
        assert_eq!(one_per_footprint(&min), min);
        let all = rules.generate_all_moves(notch(), spawn);
        assert_eq!(one_per_footprint(&all), min);
    }
}

#[test]
fn spawn_that_rests_is_returned() {
    let spawn = place(Shape::I, Orientation::North, 3, 0);
    let soft = MoveRules::srs(Drop::Softdrop).generate_all_moves(Board64::blank(), spawn);
    assert_eq!(soft[0], spawn);
    let hard = MoveRules::srs(Drop::Harddrop).generate_all_moves(Board64::blank(), spawn);
    assert_eq!(hard[0], spawn);
}

#[test]
fn walled_in_spawn_is_the_only_move() {
    let mut board = Board64::from_str("XXX....XXX XXX....XXX").unwrap();
    for x in 3..7 {
        board.set_at(x, 2);
    }
    let spawn = place(Shape::I, Orientation::North, 3, 0);
    for drop in [Drop::Softdrop, Drop::Harddrop] {
        let rules = MoveRules::srs(drop);
        assert_eq!(rules.generate_all_moves(board, spawn), vec![spawn]);
        assert_eq!(rules.generate_minimized_moves(board, spawn), vec![spawn]);
    }
}

#[test]
fn default_rules_use_softdrop() {
    let rules = MoveRules::default();
    assert_eq!(rules.drop, Drop::Softdrop);
    assert_eq!(Drop::default(), Drop::Softdrop);
    let same = MoveRules::new(rules.rotation_system.clone(), Drop::Softdrop);
    assert_eq!(same, rules);
    assert_eq!(MoveRules::srs(Drop::Harddrop).drop, Drop::Harddrop);
    let spawn = place(Shape::T, Orientation::North, 4, 20);
    assert_eq!(
        rules.generate_all_moves(overhang(), spawn),
        MoveRules::srs(Drop::Softdrop).generate_all_moves(overhang(), spawn)
    );
}
