use tetris::bricks::{spawn_brick, Brick, Bricks, LinesRemoved};
use tetris::controls::ControlEvent;
use tetris::game::{pause_resume_game, Game, GameState, GameStats, LineStats};
use tetris::shape::{Piece, ShapeKind, ShapeSpawned, Transform};
use tetris::tick::TickTimer;

fn game_with(bricks: Bricks, piece: Piece) -> Game {
    Game {
        state: GameState::InGame,
        bricks,
        piece: Some(piece),
        timer: TickTimer::new(),
        stats: GameStats::new(),
    }
}

fn at(kind: ShapeKind, x: i32, y: i32) -> Piece {
    Piece { kind, transform: Transform { x, y, rotation: 0 }, hue: 90 }
}

#[test]
fn soft_drop_interval_ignores_progress() {
    let held = TickTimer { elapsed_us: 0, in_speedup: true };
    assert_eq!(held.interval_us(0), 30_000);
    assert_eq!(held.interval_us(1_000), 30_000);
    let released = TickTimer { elapsed_us: 0, in_speedup: false };
    assert_eq!(released.interval_us(0), 1_000_000);
    assert_eq!(released.interval_us(50), 500_000);
    assert_eq!(released.interval_us(25), 666_666);
    assert_eq!(released.interval_us(u64::MAX), 1);
}

#[test]
fn soft_drop_follows_the_last_control() {
    let mut timer = TickTimer::new();
    timer.speedup(&vec![ControlEvent::SpeedupStart]);
    assert!(timer.in_speedup);
    assert_eq!(timer.interval_us(10), 30_000);
    timer.speedup(&vec![ControlEvent::Left, ControlEvent::SpeedupEnd, ControlEvent::Pause]);
    assert!(!timer.in_speedup);
    assert_eq!(timer.interval_us(0), 1_000_000);
    timer.speedup(&vec![ControlEvent::SpeedupEnd, ControlEvent::SpeedupStart]);
    assert!(timer.in_speedup);
}

#[test]
fn long_frame_catches_up_and_keeps_the_rest() {
    let mut timer = TickTimer::new();
    assert_eq!(timer.tick_system(2_500_000, 0), 2);
    assert_eq!(timer.elapsed_us, 500_000);
    assert_eq!(timer.tick_system(600_000, 0), 1);
    assert_eq!(timer.elapsed_us, 100_000);
    assert_eq!(timer.tick_system(10_000, 0), 0);
    assert_eq!(timer.elapsed_us, 110_000);
}

#[test]
fn round_starts_after_loading() {
    let mut game = Game::new();
    assert_eq!(game.state, GameState::AssetLoading);
    game.step(&vec![ControlEvent::Pause], 16_000, 3, 10);
    assert_eq!(game.state, GameState::AssetLoading);
    game.assets_loaded();
    assert_eq!(game.state, GameState::Starting);
    game.step(&vec![], 16_000, 3, 10);
    assert_eq!(game.state, GameState::InGame);
    let piece = game.piece.unwrap();
    assert_eq!(piece.kind, ShapeKind::J);
    assert_eq!(piece.transform, Transform { x: 0, y: 20, rotation: 0 });
    assert_eq!(piece.hue, 10);
}

#[test]
fn pause_freezes_the_round() {
    let mut game = game_with(Bricks::new(), at(ShapeKind::T, 0, 10));
    game.step(&vec![ControlEvent::Pause], 16_000, 0, 0);
    assert_eq!(game.state, GameState::Paused);
    game.step(&vec![ControlEvent::Left], 5_000_000, 0, 0);
    assert_eq!(game.piece, Some(at(ShapeKind::T, 0, 10)));
    assert_eq!(game.timer.elapsed_us, 0);
    game.step(&vec![ControlEvent::Pause], 16_000, 0, 0);
    assert_eq!(game.state, GameState::InGame);
    assert_eq!(game.piece, Some(at(ShapeKind::T, 0, 10)));
}

#[test]
fn pause_control_by_phase() {
    assert_eq!(pause_resume_game(GameState::InGame), GameState::Paused);
    assert_eq!(pause_resume_game(GameState::Paused), GameState::InGame);
    assert_eq!(pause_resume_game(GameState::GameOver), GameState::Starting);
    assert_eq!(pause_resume_game(GameState::AssetLoading), GameState::AssetLoading);
    assert_eq!(pause_resume_game(GameState::Starting), GameState::Starting);
}

#[test]
fn moves_come_before_falls() {
    let mut game = game_with(Bricks::new(), at(ShapeKind::T, 0, 10));
    let events = game.step(
        &vec![ControlEvent::Left, ControlEvent::Left, ControlEvent::RotateLeft],
        1_000_000,
        0,
        0,
    );
    assert_eq!(events.shape_spawned, None);
    assert_eq!(events.lines_removed, None);
    assert_eq!(
        game.piece,
        Some(Piece { kind: ShapeKind::T, transform: Transform { x: -2, y: 9, rotation: 1 }, hue: 90 })
    );
    assert_eq!(game.state, GameState::InGame);
}

#[test]
fn soft_drop_makes_several_falls_in_a_frame() {
    let mut game = game_with(Bricks::new(), at(ShapeKind::O, 0, 10));
    game.step(&vec![ControlEvent::SpeedupStart], 95_000, 0, 0);
    assert_eq!(game.piece.unwrap().transform.y, 7);
    assert_eq!(game.timer.elapsed_us, 5_000);
}

#[test]
fn settling_clears_rows_and_counts() {
    let mut bricks = Bricks::new();
    for y in 0..2i8 {
        for x in -5..=5i8 {
            if x != 0 && x != 1 {
                spawn_brick(&mut bricks, Brick { x, y }, 5);
            }
        }
    }
    spawn_brick(&mut bricks, Brick { x: -4, y: 2 }, 6);
    let mut game = game_with(bricks, at(ShapeKind::O, 0, 1));
    let events = game.step(&vec![], 1_000_000, 6, 33);
    assert_eq!(events.shape_spawned, Some(ShapeSpawned));
    assert_eq!(events.lines_removed, Some(LinesRemoved(2)));
    assert_eq!(game.stats.shapes_spawned, 1);
    assert_eq!(game.stats.lines_removed, LineStats { single: 0, double: 1, triple: 0, quadruple: 0 });
    assert_eq!(game.bricks.color_at(-4, 0), Some(6));
    for y in 0..24i64 {
        for x in -5..=5i64 {
            assert_eq!(game.bricks.is_occupied(x, y), x == -4 && y == 0);
        }
    }
    assert_eq!(
        game.piece,
        Some(Piece { kind: ShapeKind::O, transform: Transform { x: 0, y: 20, rotation: 0 }, hue: 33 })
    );
    assert_eq!(game.state, GameState::InGame);
}

#[test]
fn blocked_spawn_ends_the_round() {
    let mut bricks = Bricks::new();
    for y in 0..19i8 {
        spawn_brick(&mut bricks, Brick { x: 0, y }, 1);
    }
    let mut game = game_with(bricks, at(ShapeKind::I, 2, 19));
    let events = game.step(&vec![ControlEvent::Left], 1_000_000, 0, 250);
    assert_eq!(events.shape_spawned, Some(ShapeSpawned));
    assert_eq!(game.state, GameState::GameOver);
    let spawned = Piece { kind: ShapeKind::T, transform: Transform { x: 0, y: 20, rotation: 0 }, hue: 250 };
    assert_eq!(game.piece, Some(spawned));
    for x in -5..=5i64 {
        assert_eq!(game.bricks.is_occupied(x, 19), (0..=3).contains(&x));
        assert_eq!(game.bricks.is_occupied(x, 20), false);
    }
    for y in 0..19i64 {
        assert!(game.bricks.is_occupied(0, y));
    }

    game.step(&vec![ControlEvent::Left], 1_000_000, 0, 0);
    assert_eq!(game.state, GameState::GameOver);
    assert_eq!(game.piece, Some(spawned));

    game.step(&vec![ControlEvent::Pause], 16_000, 2, 7);
    assert_eq!(game.state, GameState::InGame);
    assert!(game.bricks.detect_full_rows().is_empty());
    assert!(!game.bricks.is_occupied(0, 0));
    assert_eq!(game.stats, GameStats::new());
    assert_eq!(game.piece.unwrap().kind, ShapeKind::L);
}

#[test]
fn line_stats_count_by_size() {
    let mut stats = LineStats { single: 0, double: 0, triple: 0, quadruple: 0 };
    stats.add(1);
    stats.add(4);
    stats.add(4);
    stats.add(3);
    stats.add(0);
    stats.add(5);
    assert_eq!(stats, LineStats { single: 1, double: 0, triple: 1, quadruple: 2 });
    let mut full = LineStats { single: u64::MAX, double: 0, triple: 0, quadruple: 0 };
    full.add(1);
    assert_eq!(full.single, u64::MAX);
}

#[test]
fn random_frame_keeps_playing() {
    let mut game = Game::new();
    game.assets_loaded();
    game.frame(&vec![], 16_000);
    assert_eq!(game.state, GameState::InGame);
    let piece = game.piece.unwrap();
    assert!(piece.hue < 360);
    assert_eq!(piece.transform, Transform { x: 0, y: 20, rotation: 0 });
}
