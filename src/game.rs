use vstd::prelude::*;

use crate::bricks::{
    cleared, empty_board, full_rows, move_lines_down, packed, remove_lines, reset, Bricks,
    LinesRemoved,
};
use crate::controls::ControlEvent;
use crate::random::random_below;
use crate::shape::{
    committed, control_delta, fall, lemma_cells_on_board, lemma_fitting_anchor,
    lemma_spawn_fits_empty, moved, piece_fits, shape_of_choice, shape_to_bricks, spawn_shape,
    spawn_transform, transform_from_control_event, try_move_shape, validate, Piece, ShapeSpawned,
    Transform,
};
use crate::tick::{current_interval, speedup_after, TickTimer, MAX_FRAME_US};
use crate::BRICK_ROWS;

verus! {

/// The phase of a round.
#[derive(Clone, Copy, Debug, PartialEq, Eq, Structural)]
pub enum GameState {
    AssetLoading,
    Starting,
    InGame,
    Paused,
    GameOver,
}

/// How many clears took off one, two, three and four rows at once.
#[derive(Clone, Copy, Debug, PartialEq, Eq, Structural)]
pub struct LineStats {
    pub single: u64,
    pub double: u64,
    pub triple: u64,
    pub quadruple: u64,
}

/// What a round has counted so far.
#[derive(Clone, Copy, Debug, PartialEq, Eq, Structural)]
pub struct GameStats {
    pub lines_removed: LineStats,
    pub shapes_spawned: u64,
}

/// What one frame announces to the collaborators around the game.
#[derive(Clone, Copy, Debug, PartialEq, Eq, Structural)]
pub struct FrameEvents {
    pub shape_spawned: Option<ShapeSpawned>,
    pub lines_removed: Option<LinesRemoved>,
}

/// The whole game: phase, settled bricks, the falling piece, the fall timer
/// and the counts.
pub struct Game {
    pub state: GameState,
    pub bricks: Bricks,
    pub piece: Option<Piece>,
    pub timer: TickTimer,
    pub stats: GameStats,
}

/// The game as values.
pub struct GameView {
    pub state: GameState,
    pub board: Seq<Seq<Option<u16>>>,
    pub piece: Option<Piece>,
    pub timer: TickTimer,
    pub stats: GameStats,
}

/// A count raised by one, held at its largest value.
pub open spec fn bumped(c: u64) -> u64 {
    if c < u64::MAX {
        (c + 1) as u64
    } else {
        c
    }
}

/// The counts after a clear of `n` rows; a clear of more than four rows is
/// not counted.
pub open spec fn lines_added(l: LineStats, n: int) -> LineStats {
    if n == 1 {
        LineStats { single: bumped(l.single), ..l }
    } else if n == 2 {
        LineStats { double: bumped(l.double), ..l }
    } else if n == 3 {
        LineStats { triple: bumped(l.triple), ..l }
    } else if n == 4 {
        LineStats { quadruple: bumped(l.quadruple), ..l }
    } else {
        l
    }
}

pub open spec fn zero_stats() -> GameStats {
    GameStats {
        lines_removed: LineStats { single: 0, double: 0, triple: 0, quadruple: 0 },
        shapes_spawned: 0,
    }
}

/// The piece after the moves that the controls ask for, each made only where
/// the piece fits afterwards.
pub open spec fn after_controls(p: Piece, events: Seq<ControlEvent>, s: Seq<Seq<Option<u16>>>) -> Piece
    decreases events.len(),
{
    if events.len() == 0 {
        p
    } else {
        let q = after_controls(p, events.drop_last(), s);
        match control_delta(events.last()) {
            Some(d) => if piece_fits(moved(q, d), s) {
                moved(q, d)
            } else {
                q
            },
            None => q,
        }
    }
}

/// The piece after up to `k` falls of one row, and whether a fall was refused:
/// it stops at the first refusal.
pub open spec fn fallen(p: Piece, k: nat, s: Seq<Seq<Option<u16>>>) -> (Piece, bool)
    decreases k,
{
    if k == 0 {
        (p, false)
    } else if piece_fits(moved(p, fall()), s) {
        fallen(moved(p, fall()), (k - 1) as nat, s)
    } else {
        (p, true)
    }
}

pub open spec fn spawned_piece(choice: int, hue: u16) -> Piece {
    Piece { kind: shape_of_choice(choice), transform: spawn_transform(), hue }
}

pub open spec fn has_pause(events: Seq<ControlEvent>) -> bool {
    events.contains(ControlEvent::Pause)
}

/// The phase that a pause control leads to.
pub open spec fn paused_or_resumed(state: GameState) -> GameState {
    match state {
        GameState::InGame => GameState::Paused,
        GameState::Paused => GameState::InGame,
        GameState::GameOver => GameState::Starting,
        _ => state,
    }
}

/// A new round: an empty board, a fresh timer and counts, and a new piece.
pub open spec fn started(choice: int, hue: u16) -> GameView {
    GameView {
        state: GameState::InGame,
        board: empty_board(),
        piece: Some(spawned_piece(choice, hue)),
        timer: TickTimer { elapsed_us: 0, in_speedup: false },
        stats: zero_stats(),
    }
}

/// Where the piece ends in a frame of play, and whether a fall was refused:
/// the soft drop is set first, the moves follow, then the falls that the
/// timer makes due.
pub open spec fn landing(g: GameView, events: Seq<ControlEvent>, delta: int) -> (Piece, bool) {
    let held = speedup_after(events, g.timer.in_speedup);
    let interval = current_interval(held, g.stats.shapes_spawned as int);
    let steered = after_controls(g.piece.unwrap(), events, g.board);
    fallen(steered, ((g.timer.elapsed_us + delta) / interval) as nat, g.board)
}

/// The board once the piece, if a fall was refused, has settled.
pub open spec fn settled_board(g: GameView, events: Seq<ControlEvent>, delta: int) -> Seq<
    Seq<Option<u16>>,
> {
    let l = landing(g, events, delta);
    if l.1 {
        committed(g.board, l.0)
    } else {
        g.board
    }
}

/// One frame in play: soft drop, moves, falls; a piece that cannot fall
/// settles and a new one comes; full rows go and gravity follows; the round
/// ends if the piece then does not fit.
pub open spec fn played(
    g: GameView,
    events: Seq<ControlEvent>,
    delta: int,
    choice: int,
    hue: u16,
) -> GameView {
    let held = speedup_after(events, g.timer.in_speedup);
    let interval = current_interval(held, g.stats.shapes_spawned as int);
    let total = g.timer.elapsed_us + delta;
    let l = landing(g, events, delta);
    let settled = settled_board(g, events, delta);
    let piece = if l.1 {
        spawned_piece(choice, hue)
    } else {
        l.0
    };
    let full = full_rows(settled);
    let board = packed(cleared(settled, full));
    GameView {
        state: if piece_fits(piece, board) {
            GameState::InGame
        } else {
            GameState::GameOver
        },
        board,
        piece: Some(piece),
        timer: TickTimer { elapsed_us: (total % interval) as u64, in_speedup: held },
        stats: GameStats {
            lines_removed: if full.len() == 0 {
                g.stats.lines_removed
            } else {
                lines_added(g.stats.lines_removed, full.len() as int)
            },
            shapes_spawned: if l.1 {
                bumped(g.stats.shapes_spawned)
            } else {
                g.stats.shapes_spawned
            },
        },
    }
}

/// What a frame announces: in play, a new piece when one settled, and the
/// number of rows cleared when there were any; nothing otherwise.
pub open spec fn frame_events(g: GameView, events: Seq<ControlEvent>, delta: int) -> FrameEvents {
    if g.state == GameState::InGame && !has_pause(events) {
        let full = full_rows(settled_board(g, events, delta));
        FrameEvents {
            shape_spawned: if landing(g, events, delta).1 {
                Some(ShapeSpawned)
            } else {
                None
            },
            lines_removed: if full.len() == 0 {
                None
            } else {
                Some(LinesRemoved(full.len() as u8))
            },
        }
    } else {
        FrameEvents { shape_spawned: None, lines_removed: None }
    }
}

/// The game after one frame.
pub open spec fn next_view(
    g: GameView,
    events: Seq<ControlEvent>,
    delta: int,
    choice: int,
    hue: u16,
) -> GameView {
    match g.state {
        GameState::AssetLoading => g,
        GameState::Starting => started(choice, hue),
        GameState::InGame => if has_pause(events) {
            GameView { state: GameState::Paused, ..g }
        } else {
            played(g, events, delta, choice, hue)
        },
        GameState::Paused => if has_pause(events) {
            GameView { state: GameState::InGame, ..g }
        } else {
            g
        },
        GameState::GameOver => if has_pause(events) {
            started(choice, hue)
        } else {
            g
        },
    }
}

fn bump(c: u64) -> (r: u64)
    ensures
        r == bumped(c),
{
    if c < u64::MAX {
        c + 1
    } else {
        c
    }
}

impl LineStats {
    /// Counts a clear of `lines` rows.
    pub fn add(&mut self, lines: usize)
        ensures
            *final(self) == lines_added(*old(self), lines as int),
    {
        if lines == 1 {
            self.single = bump(self.single);
        } else if lines == 2 {
            self.double = bump(self.double);
        } else if lines == 3 {
            self.triple = bump(self.triple);
        } else if lines == 4 {
            self.quadruple = bump(self.quadruple);
        }
    }
}

impl GameStats {
    /// Nothing counted yet.
    pub fn new() -> (r: GameStats)
        ensures
            r == zero_stats(),
    {
        GameStats {
            lines_removed: LineStats { single: 0, double: 0, triple: 0, quadruple: 0 },
            shapes_spawned: 0,
        }
    }
}

/// The phase that a pause control leads to: play and pause alternate, a
/// finished round starts again, and loading or starting ignore it.
pub fn pause_resume_game(state: GameState) -> (r: GameState)
    ensures
        r == paused_or_resumed(state),
{
    match state {
        GameState::InGame => GameState::Paused,
        GameState::Paused => GameState::InGame,
        GameState::GameOver => GameState::Starting,
        GameState::AssetLoading => GameState::AssetLoading,
        GameState::Starting => GameState::Starting,
    }
}

fn pause_requested(events: &Vec<ControlEvent>) -> (r: bool)
    ensures
        r == has_pause(events@),
{
    let mut i: usize = 0;
    while i < events.len()
        invariant
            0 <= i <= events@.len(),
            forall|k: int| 0 <= k < i ==> events@[k] != ControlEvent::Pause,
        decreases events@.len() - i,
    {
        if events[i] == ControlEvent::Pause {
            assert(events@[i as int] == ControlEvent::Pause);
            return true;
        }
        i += 1;
    }
    false
}

impl Game {
    pub open spec fn view(&self) -> GameView {
        GameView {
            state: self.state,
            board: self.bricks@,
            piece: self.piece,
            timer: self.timer,
            stats: self.stats,
        }
    }

    /// The bricks and timer are sound, and while a round is on there is a
    /// piece, not above the spawn row; in play or paused it fits the board.
    pub open spec fn wf(&self) -> bool {
        &&& self.bricks.wf()
        &&& self.timer.wf()
        &&& (self.state == GameState::InGame || self.state == GameState::Paused
            || self.state == GameState::GameOver) ==> self.piece is Some
            && self.piece.unwrap().transform.y <= BRICK_ROWS
        &&& (self.state == GameState::InGame || self.state == GameState::Paused) ==> piece_fits(
            self.piece.unwrap(),
            self.bricks@,
        )
    }

    /// A game waiting for its assets.
    pub fn new() -> (r: Game)
        ensures
            r.wf(),
            r.state == GameState::AssetLoading,
            r.bricks@ == empty_board(),
            r.piece is None,
            r.timer == (TickTimer { elapsed_us: 0, in_speedup: false }),
            r.stats == zero_stats(),
    {
        Game {
            state: GameState::AssetLoading,
            bricks: Bricks::new(),
            piece: None,
            timer: TickTimer::new(),
            stats: GameStats::new(),
        }
    }

    /// The assets are in: a loading game moves on to starting a round.
    pub fn assets_loaded(&mut self)
        requires
            old(self).wf(),
        ensures
            final(self).wf(),
            final(self).view() == (if old(self).state == GameState::AssetLoading {
                GameView { state: GameState::Starting, ..old(self).view() }
            } else {
                old(self).view()
            }),
    {
        if self.state == GameState::AssetLoading {
            self.state = GameState::Starting;
        }
    }

    /// Starts a round: clears the board, resets the timer and the counts, and
    /// brings in the first piece.
    pub fn start_round(&mut self, choice: u32, hue: u16)
        requires
            choice < 7,
        ensures
            final(self).wf(),
            final(self).view() == started(choice as int, hue),
    {
        reset(&mut self.bricks);
        self.timer = TickTimer::new();
        self.stats = GameStats::new();
        let piece = spawn_shape(choice, hue);
        proof {
            lemma_spawn_fits_empty(piece);
        }
        self.piece = Some(piece);
        self.state = GameState::InGame;
    }

    /// Applies the moves that the controls ask for, in order; a move after
    /// which the piece would not fit is dropped.
    fn steer(piece: &mut Piece, events: &Vec<ControlEvent>, bricks: &Bricks)
        requires
            bricks.wf(),
            piece_fits(*old(piece), bricks@),
            old(piece).transform.y <= BRICK_ROWS,
        ensures
            *final(piece) == after_controls(*old(piece), events@, bricks@),
            piece_fits(*final(piece), bricks@),
            final(piece).transform.y <= BRICK_ROWS,
    {
        let mut i: usize = 0;
        while i < events.len()
            invariant
                0 <= i <= events@.len(),
                bricks.wf(),
                *piece == after_controls(*old(piece), events@.take(i as int), bricks@),
                piece_fits(*piece, bricks@),
                piece.transform.y <= BRICK_ROWS,
            decreases events@.len() - i,
        {
            let ghost before = events@.take(i as int);
            assert(events@.take(i + 1).drop_last() == before);
            assert(events@.take(i + 1).last() == events@[i as int]);
            if let Some(delta) = transform_from_control_event(events[i]) {
                proof {
                    lemma_fitting_anchor(*piece, bricks@);
                }
                let _ = try_move_shape(piece, &delta, bricks);
            }
            i += 1;
        }
        assert(events@.take(events@.len() as int) == events@);
    }

    /// Lets the piece fall up to `pulses` rows; returns whether a fall was
    /// refused, which stops the falls.
    fn drop_piece(piece: &mut Piece, pulses: u64, bricks: &Bricks) -> (frozen: bool)
        requires
            bricks.wf(),
            piece_fits(*old(piece), bricks@),
            old(piece).transform.y <= BRICK_ROWS,
        ensures
            (*final(piece), frozen) == fallen(*old(piece), pulses as nat, bricks@),
            piece_fits(*final(piece), bricks@),
            final(piece).transform.y <= BRICK_ROWS,
    {
        let down = Transform { x: 0, y: -1, rotation: 0 };
        let mut k: u64 = 0;
        while k < pulses
            invariant
                0 <= k <= pulses,
                bricks.wf(),
                down == fall(),
                fallen(*old(piece), pulses as nat, bricks@) == fallen(
                    *piece,
                    (pulses - k) as nat,
                    bricks@,
                ),
                piece_fits(*piece, bricks@),
                piece.transform.y <= BRICK_ROWS,
            decreases pulses - k,
        {
            proof {
                lemma_fitting_anchor(*piece, bricks@);
            }
            if try_move_shape(piece, &down, bricks).is_err() {
                return true;
            }
            k += 1;
        }
        false
    }

    /// One frame in play, once no pause was asked for.
    fn play(&mut self, events: &Vec<ControlEvent>, delta_us: u64, choice: u32, hue: u16) -> (r:
        FrameEvents)
        requires
            old(self).wf(),
            old(self).state == GameState::InGame,
            !has_pause(events@),
            delta_us <= MAX_FRAME_US,
            choice < 7,
        ensures
            final(self).wf(),
            final(self).view() == played(
                old(self).view(),
                events@,
                delta_us as int,
                choice as int,
                hue,
            ),
            r == frame_events(old(self).view(), events@, delta_us as int),
    {
        let ghost g = self.view();
        self.timer.speedup(events);
        let mut piece = self.piece.unwrap();
        Self::steer(&mut piece, events, &self.bricks);
        let pulses = self.timer.tick_system(delta_us, self.stats.shapes_spawned);
        let frozen = Self::drop_piece(&mut piece, pulses, &self.bricks);
        let mut spawned: Option<ShapeSpawned> = None;
        if frozen {
            proof {
                lemma_cells_on_board(piece);
            }
            shape_to_bricks(&mut self.bricks, &piece);
            piece = spawn_shape(choice, hue);
            self.stats.shapes_spawned = bump(self.stats.shapes_spawned);
            spawned = Some(ShapeSpawned);
        }
        let ghost settled = self.bricks@;
        let lines = remove_lines(&mut self.bricks);
        move_lines_down(&mut self.bricks);
        if let Some(LinesRemoved(n)) = lines {
            self.stats.lines_removed.add(n as usize);
        }
        self.piece = Some(piece);
        if validate(&piece, &self.bricks) {
            self.state = GameState::InGame;
        } else {
            self.state = GameState::GameOver;
        }
        proof {
            assert(full_rows(settled).len() < 256) by {
                crate::bricks::lemma_full_rows_len(settled);
            }
        }
        FrameEvents { shape_spawned: spawned, lines_removed: lines }
    }

    /// Advances the game by one frame of `delta_us` microseconds, given the
    /// controls of the frame and the shape (`0..7`) and hue of the piece to
    /// bring in should one be needed.
    pub fn step(
        &mut self,
        events: &Vec<ControlEvent>,
        delta_us: u64,
        choice: u32,
        hue: u16,
    ) -> (r: FrameEvents)
        requires
            old(self).wf(),
            delta_us <= MAX_FRAME_US,
            choice < 7,
        ensures
            final(self).wf(),
            final(self).view() == next_view(
                old(self).view(),
                events@,
                delta_us as int,
                choice as int,
                hue,
            ),
            r == frame_events(old(self).view(), events@, delta_us as int),
    {
        let none = FrameEvents { shape_spawned: None, lines_removed: None };
        match self.state {
            GameState::AssetLoading => none,
            GameState::Starting => {
                self.start_round(choice, hue);
                none
            },
            GameState::InGame => {
                if pause_requested(events) {
                    self.state = pause_resume_game(self.state);
                    none
                } else {
                    self.play(events, delta_us, choice, hue)
                }
            },
            GameState::Paused => {
                if pause_requested(events) {
                    self.state = pause_resume_game(self.state);
                }
                none
            },
            GameState::GameOver => {
                if pause_requested(events) {
                    self.state = pause_resume_game(self.state);
                    self.start_round(choice, hue);
                }
                none
            },
        }
    }

    /// Advances the game by one frame, drawing the shape and hue (in degrees)
    /// of a piece that may come in at random.
    pub fn frame(&mut self, events: &Vec<ControlEvent>, delta_us: u64) -> (r: FrameEvents)
        requires
            old(self).wf(),
            delta_us <= MAX_FRAME_US,
        ensures
            final(self).wf(),
            exists|choice: int, hue: u16|
                0 <= choice < 7 && hue < 360 && final(self).view() == next_view(
                    old(self).view(),
                    events@,
                    delta_us as int,
                    choice,
                    hue,
                ),
            r == frame_events(old(self).view(), events@, delta_us as int),
    {
        let choice = random_below(7);
        let hue = random_below(360) as u16;
        self.step(events, delta_us, choice, hue)
    }
}

} // verus!
