use tetris::bricks::{spawn_brick, Brick, Bricks};
use tetris::controls::ControlEvent;
use tetris::shape::{
    collides, make_random_shape, shape_to_bricks, spawn_random, spawn_shape,
    transform_from_control_event, try_move_shape, validate, Piece, ShapeKind, Transform,
};

fn cells(piece: &Piece) -> Vec<(i64, i64)> {
    (0..4).map(|i| piece.cell(i)).collect()
}

fn piece(kind: ShapeKind, x: i32, y: i32, rotation: u8) -> Piece {
    Piece { kind, transform: Transform { x, y, rotation }, hue: 200 }
}

#[test]
fn four_quarter_turns_give_back_the_transform() {
    let quarter = Transform { x: 0, y: 0, rotation: 1 };
    for rotation in 0..4u8 {
        let start = Transform { x: -3, y: 11, rotation };
        let mut t = start;
        for _ in 0..4 {
            t = t.compose(&quarter);
        }
        assert_eq!(t, start);
        let back = Transform { x: 0, y: 0, rotation: 3 };
        assert_eq!(start.compose(&quarter).compose(&back), start);
    }
}

#[test]
fn compose_adds_shifts_and_turns() {
    let t = Transform { x: 2, y: 7, rotation: 3 };
    let d = Transform { x: -1, y: -1, rotation: 1 };
    assert_eq!(t.compose(&d), Transform { x: 1, y: 6, rotation: 0 });
}

#[test]
fn turned_piece_cells() {
    let p = piece(ShapeKind::T, 0, 5, 1);
    assert_eq!(cells(&p), vec![(0, 5), (0, 6), (0, 4), (1, 5)]);
    let p = piece(ShapeKind::I, 0, 5, 2);
    assert_eq!(cells(&p), vec![(1, 5), (0, 5), (-1, 5), (-2, 5)]);
    let p = piece(ShapeKind::L, 1, 5, 3);
    assert_eq!(cells(&p), vec![(1, 7), (1, 6), (1, 5), (0, 5)]);
}

#[test]
fn validate_rejects_cells_off_the_columns_or_below_the_floor() {
    let bricks = Bricks::new();
    let kinds = [
        ShapeKind::T,
        ShapeKind::I,
        ShapeKind::L,
        ShapeKind::J,
        ShapeKind::S,
        ShapeKind::Z,
        ShapeKind::O,
    ];
    for kind in kinds {
        for rotation in 0..4u8 {
            for x in -9..=9i32 {
                for y in -3..=6i32 {
                    let p = piece(kind, x, y, rotation);
                    let inside = cells(&p).iter().all(|&(cx, cy)| (-5..=5).contains(&cx) && cy >= 0);
                    assert_eq!(validate(&p, &bricks), inside);
                }
            }
        }
    }
}

#[test]
fn validate_rejects_occupied_cells_and_has_no_ceiling() {
    let mut bricks = Bricks::new();
    spawn_brick(&mut bricks, Brick { x: 1, y: 0 }, 3);
    assert!(!validate(&piece(ShapeKind::O, 0, 1, 0), &bricks));
    assert!(validate(&piece(ShapeKind::O, -1, 1, 0), &bricks));
    assert!(validate(&piece(ShapeKind::I, 0, 100, 1), &bricks));
}

#[test]
fn collides_with_walls_floor_and_bricks() {
    let mut bricks = Bricks::new();
    spawn_brick(&mut bricks, Brick { x: -5, y: 2 }, 3);
    assert!(collides(-6, 3, &bricks));
    assert!(collides(6, 3, &bricks));
    assert!(collides(0, -1, &bricks));
    assert!(collides(-5, 2, &bricks));
    assert!(!collides(-5, 3, &bricks));
    assert!(!collides(0, 40, &bricks));
}

#[test]
fn refused_move_leaves_the_piece() {
    let bricks = Bricks::new();
    let mut p = piece(ShapeKind::I, 3, 4, 0);
    let right = Transform { x: 1, y: 0, rotation: 0 };
    assert_eq!(try_move_shape(&mut p, &right, &bricks), Err(()));
    assert_eq!(p, piece(ShapeKind::I, 3, 4, 0));
    let left = Transform { x: -1, y: 0, rotation: 0 };
    assert_eq!(try_move_shape(&mut p, &left, &bricks), Ok(()));
    assert_eq!(p, piece(ShapeKind::I, 2, 4, 0));
}

#[test]
fn controls_map_to_moves() {
    assert_eq!(
        transform_from_control_event(ControlEvent::Left),
        Some(Transform { x: -1, y: 0, rotation: 0 })
    );
    assert_eq!(
        transform_from_control_event(ControlEvent::Right),
        Some(Transform { x: 1, y: 0, rotation: 0 })
    );
    assert_eq!(
        transform_from_control_event(ControlEvent::RotateLeft),
        Some(Transform { x: 0, y: 0, rotation: 1 })
    );
    assert_eq!(
        transform_from_control_event(ControlEvent::RotateRight),
        Some(Transform { x: 0, y: 0, rotation: 3 })
    );
    assert_eq!(transform_from_control_event(ControlEvent::Pause), None);
    assert_eq!(transform_from_control_event(ControlEvent::SpeedupStart), None);
    assert_eq!(transform_from_control_event(ControlEvent::SpeedupEnd), None);
}

#[test]
fn settled_piece_becomes_bricks_of_its_hue() {
    let mut bricks = Bricks::new();
    let p = Piece { kind: ShapeKind::S, transform: Transform { x: 0, y: 1, rotation: 0 }, hue: 42 };
    shape_to_bricks(&mut bricks, &p);
    for (x, y) in [(0, 1), (1, 1), (-1, 0), (0, 0)] {
        assert_eq!(bricks.color_at(x, y), Some(42));
    }
    assert!(!bricks.is_occupied(1, 0));
    assert!(!bricks.is_occupied(-1, 1));
}

#[test]
fn draws_choose_the_shapes() {
    let expected = [
        ShapeKind::T,
        ShapeKind::I,
        ShapeKind::L,
        ShapeKind::J,
        ShapeKind::S,
        ShapeKind::Z,
        ShapeKind::O,
    ];
    for (choice, kind) in expected.iter().enumerate() {
        assert_eq!(make_random_shape(choice as u32), *kind);
        let p = spawn_shape(choice as u32, 17);
        assert_eq!(p.kind, *kind);
        assert_eq!(p.transform, Transform { x: 0, y: 20, rotation: 0 });
        assert_eq!(p.hue, 17);
    }
}

#[test]
fn random_pieces_spawn_on_top_with_a_hue_in_degrees() {
    for _ in 0..500 {
        let p = spawn_random();
        assert_eq!(p.transform, Transform { x: 0, y: 20, rotation: 0 });
        assert!(p.hue < 360);
    }
}
