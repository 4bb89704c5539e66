use piece_moves::{bl, Offset, Orientation, Piece, Rotation, Shape};

const SHAPES: [Shape; 7] =
    [Shape::T, Shape::I, Shape::O, Shape::L, Shape::J, Shape::S, Shape::Z];
const ORIENTATIONS: [Orientation; 4] =
    [Orientation::North, Orientation::East, Orientation::South, Orientation::West];

fn cells(shape: Shape, orientation: Orientation) -> Vec<(i32, i32)> {
    let mut cells: Vec<(i32, i32)> =
        Piece::new(shape, orientation).cells().iter().map(|c| (c.dx, c.dy)).collect();
    cells.sort();
    cells
}

#[test]
fn orientations_cycle() {
    assert_eq!(Orientation::North.rotated(Rotation::Cw), Orientation::East);
    assert_eq!(Orientation::East.rotated(Rotation::Cw), Orientation::South);
    assert_eq!(Orientation::South.rotated(Rotation::Cw), Orientation::West);
    assert_eq!(Orientation::West.rotated(Rotation::Cw), Orientation::North);
    assert_eq!(Orientation::North.rotated(Rotation::Ccw), Orientation::West);
    assert_eq!(Orientation::West.rotated(Rotation::Ccw), Orientation::South);
    assert_eq!(Orientation::North.rotated(Rotation::Half), Orientation::South);
    assert_eq!(Orientation::East.rotated(Rotation::Half), Orientation::West);
    for o in ORIENTATIONS {
        assert_eq!(o.rotated(Rotation::Cw).rotated(Rotation::Ccw), o);
        assert_eq!(o.rotated(Rotation::Half).rotated(Rotation::Half), o);
        assert_eq!(o.rotated(Rotation::Cw).rotated(Rotation::Cw), o.rotated(Rotation::Half));
    }
}

#[test]
fn indices_count_up() {
    for (i, o) in ORIENTATIONS.iter().enumerate() {
        assert_eq!(o.index(), i);
    }
    for (i, s) in SHAPES.iter().enumerate() {
        assert_eq!(s.index(), i);
    }
    assert_eq!(Rotation::Cw.quarter_turns(), 1);
    assert_eq!(Rotation::Half.quarter_turns(), 2);
    assert_eq!(Rotation::Ccw.quarter_turns(), 3);
}

#[test]
fn cells_of_some_pieces() {
    assert_eq!(cells(Shape::T, Orientation::North), [(0, 0), (1, 0), (1, 1), (2, 0)]);
    assert_eq!(cells(Shape::T, Orientation::South), [(0, 1), (1, 0), (1, 1), (2, 1)]);
    assert_eq!(cells(Shape::I, Orientation::North), [(0, 0), (1, 0), (2, 0), (3, 0)]);
    assert_eq!(cells(Shape::I, Orientation::West), [(0, 0), (0, 1), (0, 2), (0, 3)]);
    assert_eq!(cells(Shape::O, Orientation::East), [(0, 0), (0, 1), (1, 0), (1, 1)]);
    assert_eq!(cells(Shape::L, Orientation::North), [(0, 0), (1, 0), (2, 0), (2, 1)]);
    assert_eq!(cells(Shape::L, Orientation::East), [(0, 0), (0, 1), (0, 2), (1, 0)]);
    assert_eq!(cells(Shape::J, Orientation::North), [(0, 0), (0, 1), (1, 0), (2, 0)]);
    assert_eq!(cells(Shape::J, Orientation::West), [(0, 0), (1, 0), (1, 1), (1, 2)]);
    assert_eq!(cells(Shape::S, Orientation::North), [(0, 0), (1, 0), (1, 1), (2, 1)]);
    assert_eq!(cells(Shape::S, Orientation::East), [(0, 1), (0, 2), (1, 0), (1, 1)]);
    assert_eq!(cells(Shape::Z, Orientation::North), [(0, 1), (1, 0), (1, 1), (2, 0)]);
    assert_eq!(cells(Shape::Z, Orientation::East), [(0, 0), (0, 1), (1, 1), (1, 2)]);
}

#[test]
fn every_piece_has_four_cells_in_its_box() {
    for shape in SHAPES {
        for orientation in ORIENTATIONS {
            let mut c = cells(shape, orientation);
            c.dedup();
            assert_eq!(c.len(), 4);
            assert!(c.iter().all(|&(x, y)| (0..4).contains(&x) && (0..4).contains(&y)));
            assert!(c.iter().any(|&(x, _)| x == 0));
            assert!(c.iter().any(|&(_, y)| y == 0));
        }
    }
}

#[test]
fn half_turn_of_three_wide_pieces_is_a_point_reflection() {
    for shape in [Shape::T, Shape::L, Shape::J, Shape::S, Shape::Z] {
        let north = cells(shape, Orientation::North);
        let mut turned: Vec<(i32, i32)> = north.iter().map(|&(x, y)| (2 - x, 1 - y)).collect();
        turned.sort();
        assert_eq!(cells(shape, Orientation::South), turned);
        let east = cells(shape, Orientation::East);
        let mut turned: Vec<(i32, i32)> = east.iter().map(|&(x, y)| (1 - x, 2 - y)).collect();
        turned.sort();
        assert_eq!(cells(shape, Orientation::West), turned);
    }
}

#[test]
fn placement_covers_its_cells() {
    let p = Piece::new(Shape::S, Orientation::North).with(bl(4, 20));
    assert_eq!(p.cell(0), (4, 20));
    assert_eq!(p.cell(3), (6, 21));
    for (x, y) in [(4, 20), (5, 20), (5, 21), (6, 21)] {
        assert!(p.covers(x, y));
    }
    assert!(!p.covers(4, 21));
    assert!(!p.covers(6, 20));
    assert_eq!(Offset::new(-2, 3), Offset { dx: -2, dy: 3 });
    assert_eq!(p.piece.rotated(Rotation::Ccw), Piece::new(Shape::S, Orientation::West));
}

#[test]
fn same_footprint_ignores_the_orientation_label() {
    let north = Piece::new(Shape::S, Orientation::North).with(bl(4, 0));
    let south = Piece::new(Shape::S, Orientation::South).with(bl(4, 0));
    let east = Piece::new(Shape::S, Orientation::East).with(bl(4, 0));
    let west = Piece::new(Shape::S, Orientation::West).with(bl(4, 0));
    assert!(north.same_footprint(&south));
    assert!(east.same_footprint(&west));
    assert!(!north.same_footprint(&east));
    assert!(!north.same_footprint(&Piece::new(Shape::S, Orientation::South).with(bl(5, 0))));
    let bar = Piece::new(Shape::I, Orientation::East).with(bl(2, 3));
    assert!(bar.same_footprint(&Piece::new(Shape::I, Orientation::West).with(bl(2, 3))));
    let t = Piece::new(Shape::T, Orientation::North).with(bl(4, 0));
    assert!(!t.same_footprint(&Piece::new(Shape::T, Orientation::South).with(bl(4, 0))));
    assert!(t.same_footprint(&t));
}
