use tetrus::moves::{Move, SimpleMove};
use tetrus::shapes::{get_shapes, ShapePosition, NUM_COLORS, NUM_SHAPES};

#[test]
fn catalog_has_seven_kinds() {
    let shapes = get_shapes();
    assert_eq!(shapes.len(), 7);
    let counts: Vec<usize> = shapes.iter().map(|s| s.len()).collect();
    assert_eq!(counts, vec![1, 2, 4, 2, 2, 4, 4]);
    assert_eq!(shapes[0][0], [(0, 0), (0, 1), (1, 1), (1, 0)]);
    assert_eq!(shapes[1][1], [(-1, 1), (0, 1), (1, 1), (2, 1)]);
    assert_eq!(shapes[6][0], [(0, 2), (0, 1), (0, 0), (1, 2)]);
}

#[test]
fn every_piece_occupies_four_distinct_cells() {
    let shapes = get_shapes();
    for kind in 0..NUM_SHAPES {
        for rot in 0..shapes[kind].len() {
            let mut p = ShapePosition::spawn(kind, 0);
            p.rotation_index = rot;
            let cells = p.get_pixels();
            for a in 0..4 {
                for b in 0..4 {
                    if a != b {
                        assert_ne!(cells[a], cells[b]);
                    }
                }
            }
        }
    }
}

#[test]
fn spawn_position_and_cells() {
    let p = ShapePosition::spawn(1, 3);
    assert_eq!(p.pos, (0, 5));
    assert_eq!(p.rotation_index, 0);
    assert_eq!(p.color_index, 3);
    assert_eq!(p.get_pixels(), [(0, 5), (0, 6), (0, 7), (0, 8)]);
    assert_eq!(p.n_rotations(), 2);
}

#[test]
fn random_piece_is_valid() {
    for _ in 0..50 {
        let p = ShapePosition::new();
        assert!(p.shape_index < NUM_SHAPES);
        assert!(p.color_index < NUM_COLORS);
        assert_eq!(p.rotation_index, 0);
        assert_eq!(p.pos, (0, 5));
    }
}

#[test]
fn moved_to_each_simple_move() {
    let p = ShapePosition::spawn(2, 0);
    assert_eq!(p.moved_to(&SimpleMove::Left).pos, (0, 4));
    assert_eq!(p.moved_to(&SimpleMove::Right).pos, (0, 6));
    assert_eq!(p.moved_to(&SimpleMove::Down).pos, (1, 5));
    let r = p.moved_to(&SimpleMove::Rotate);
    assert_eq!(r.rotation_index, 1);
    assert_eq!(r.pos, (0, 5));
    assert_eq!(r.get_pixels(), [(0, 5), (0, 6), (-1, 6), (1, 6)]);
}

#[test]
fn rotation_wraps_around() {
    let mut p = ShapePosition::spawn(1, 0);
    p = p.moved_to(&SimpleMove::Rotate);
    assert_eq!(p.rotation_index, 1);
    p = p.moved_to(&SimpleMove::Rotate);
    assert_eq!(p.rotation_index, 0);
    let square = ShapePosition::spawn(0, 0).moved_to(&SimpleMove::Rotate);
    assert_eq!(square.rotation_index, 0);
}

#[test]
fn compound_move_rotates_drops_and_shifts() {
    let p = ShapePosition::spawn(2, 1);
    let q = p.n_moves(-2, 3, 4);
    assert_eq!(q.rotation_index, 3);
    assert_eq!(q.pos, (4, 3));
    assert_eq!(q.get_pixels(), [(4, 4), (3, 4), (5, 4), (4, 5)]);
    // rotation counts wrap around
    let r = p.n_moves(1, 6, 0);
    assert_eq!(r.rotation_index, 2);
    assert_eq!(r.pos, (0, 6));
}

#[test]
fn keys_map_to_moves() {
    assert_eq!(Move::from_key_press(true, false, false, false, false), Some(Move::Simple(SimpleMove::Left)));
    assert_eq!(Move::from_key_press(false, true, true, false, false), Some(Move::Simple(SimpleMove::Right)));
    assert_eq!(Move::from_key_press(false, false, true, false, true), Some(Move::Simple(SimpleMove::Rotate)));
    assert_eq!(Move::from_key_press(false, false, false, true, false), Some(Move::Simple(SimpleMove::Down)));
    assert_eq!(Move::from_key_press(false, false, false, false, true), Some(Move::HardDrop));
    assert_eq!(Move::from_key_press(false, false, false, false, false), None);
}
