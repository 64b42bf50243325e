use vstd::prelude::*;

use crate::bricks::{
    board_shape, empty_board, empty_row, legal_column, occupied, spawn_brick, Brick, Bricks,
};
use crate::controls::ControlEvent;
use crate::random::random_below;
use crate::{BOARD_ROWS, BRICK_ROWS, HALF_COLS};

verus! {

/// The seven tetrominoes.
#[derive(Clone, Copy, Debug, PartialEq, Eq, Structural)]
pub enum ShapeKind {
    T,
    I,
    L,
    J,
    S,
    Z,
    O,
}

/// Where a piece stands: its anchor cell and how many quarter turns
/// counter-clockwise it has made (counted modulo four).
#[derive(Clone, Copy, Debug, PartialEq, Eq, Structural)]
pub struct Transform {
    pub x: i32,
    pub y: i32,
    pub rotation: u8,
}

/// The falling piece: its shape, where it stands and its hue in degrees.
#[derive(Clone, Copy, Debug, PartialEq, Eq, Structural)]
pub struct Piece {
    pub kind: ShapeKind,
    pub transform: Transform,
    pub hue: u16,
}

/// Announces that a new piece entered the board after the previous one settled.
#[derive(Clone, Copy, Debug, PartialEq, Eq, Structural)]
pub struct ShapeSpawned;

/// The four cells of a shape, relative to its anchor, before any turn.
pub open spec fn shape_offsets(kind: ShapeKind) -> Seq<(int, int)> {
    match kind {
        ShapeKind::T => seq![(0, 0), (1, 0), (-1, 0), (0, -1)],
        ShapeKind::I => seq![(-1, 0), (0, 0), (1, 0), (2, 0)],
        ShapeKind::L => seq![(-2, 0), (-1, 0), (0, 0), (0, -1)],
        ShapeKind::J => seq![(2, 0), (1, 0), (0, 0), (0, -1)],
        ShapeKind::S => seq![(0, 0), (1, 0), (-1, -1), (0, -1)],
        ShapeKind::Z => seq![(0, 0), (-1, 0), (1, -1), (0, -1)],
        ShapeKind::O => seq![(0, 0), (1, 0), (0, -1), (1, -1)],
    }
}

/// An offset turned by `r` quarter turns counter-clockwise.
pub open spec fn turned(r: int, d: (int, int)) -> (int, int) {
    if r % 4 == 0 {
        d
    } else if r % 4 == 1 {
        (-d.1, d.0)
    } else if r % 4 == 2 {
        (-d.0, -d.1)
    } else {
        (d.1, -d.0)
    }
}

/// Cell `i` (of four) of the piece on the board.
pub open spec fn piece_cell(p: Piece, i: int) -> (int, int) {
    let d = turned(p.transform.rotation as int, shape_offsets(p.kind)[i]);
    (p.transform.x + d.0, p.transform.y + d.1)
}

/// A cell a piece may stand on: within the columns, not below the floor, and free.
pub open spec fn cell_free(s: Seq<Seq<Option<u16>>>, c: (int, int)) -> bool {
    &&& legal_column(c.0)
    &&& c.1 >= 0
    &&& !occupied(s, c.0, c.1)
}

/// The piece stands on free cells only.
pub open spec fn piece_fits(p: Piece, s: Seq<Seq<Option<u16>>>) -> bool {
    forall|i: int| 0 <= i < 4 ==> cell_free(s, #[trigger] piece_cell(p, i))
}

/// The piece covers cell `(x, y)`.
pub open spec fn covers(p: Piece, x: int, y: int) -> bool {
    exists|i: int| 0 <= i < 4 && #[trigger] piece_cell(p, i) == (x, y)
}

/// The board with the piece's cells settled in its hue.
pub open spec fn committed(s: Seq<Seq<Option<u16>>>, p: Piece) -> Seq<Seq<Option<u16>>> {
    Seq::new(
        s.len(),
        |y: int|
            Seq::new(
                s[y].len(),
                |c: int|
                    if covers(p, c - HALF_COLS, y) {
                        Some(p.hue)
                    } else {
                        s[y][c]
                    },
            ),
    )
}

/// The transform after applying `delta` to `t`: the shifts add, the turns add.
pub open spec fn composed(t: Transform, delta: Transform) -> Transform {
    Transform {
        x: (t.x + delta.x) as i32,
        y: (t.y + delta.y) as i32,
        rotation: ((t.rotation % 4 + delta.rotation % 4) % 4) as u8,
    }
}

pub open spec fn composable(t: Transform, delta: Transform) -> bool {
    &&& i32::MIN <= t.x + delta.x <= i32::MAX
    &&& i32::MIN <= t.y + delta.y <= i32::MAX
}

/// The piece moved by `delta`.
pub open spec fn moved(p: Piece, delta: Transform) -> Piece {
    Piece { transform: composed(p.transform, delta), ..p }
}

/// One quarter turn counter-clockwise.
pub open spec fn quarter_turn() -> Transform {
    Transform { x: 0, y: 0, rotation: 1 }
}

/// One quarter turn clockwise.
pub open spec fn quarter_turn_back() -> Transform {
    Transform { x: 0, y: 0, rotation: 3 }
}

/// One row down.
pub open spec fn fall() -> Transform {
    Transform { x: 0, y: -1i32, rotation: 0 }
}

/// The move that a control asks for, if it asks for one.
pub open spec fn control_delta(event: ControlEvent) -> Option<Transform> {
    match event {
        ControlEvent::Left => Some(Transform { x: -1i32, y: 0, rotation: 0 }),
        ControlEvent::Right => Some(Transform { x: 1, y: 0, rotation: 0 }),
        ControlEvent::RotateRight => Some(quarter_turn_back()),
        ControlEvent::RotateLeft => Some(quarter_turn()),
        _ => None,
    }
}

/// Where every new piece appears: the centre column of the row just above
/// the visible rows, unturned.
pub open spec fn spawn_transform() -> Transform {
    Transform { x: 0, y: BRICK_ROWS as i32, rotation: 0 }
}

pub open spec fn shape_of_choice(choice: int) -> ShapeKind {
    if choice == 0 {
        ShapeKind::T
    } else if choice == 1 {
        ShapeKind::I
    } else if choice == 2 {
        ShapeKind::L
    } else if choice == 3 {
        ShapeKind::J
    } else if choice == 4 {
        ShapeKind::S
    } else if choice == 5 {
        ShapeKind::Z
    } else {
        ShapeKind::O
    }
}

/// Four quarter turns bring a transform back to where it was, and so do a
/// turn one way followed by a turn the other way.
pub proof fn lemma_full_turn(t: Transform)
    requires
        t.rotation < 4,
    ensures
        composed(composed(composed(composed(t, quarter_turn()), quarter_turn()), quarter_turn()),
            quarter_turn()) == t,
        composed(composed(t, quarter_turn()), quarter_turn_back()) == t,
        composed(composed(t, quarter_turn_back()), quarter_turn()) == t,
{
}

/// Whatever the shape and the transform, a piece with a cell outside the
/// columns or below the floor does not fit.
pub proof fn lemma_out_of_range_rejected(p: Piece, s: Seq<Seq<Option<u16>>>, i: int)
    requires
        0 <= i < 4,
        !legal_column(piece_cell(p, i).0) || piece_cell(p, i).1 < 0,
    ensures
        !piece_fits(p, s),
{
    assert(!cell_free(s, piece_cell(p, i)));
}

/// Every offset, turned or not, lies within two cells of the anchor.
proof fn lemma_offsets_small(p: Piece, i: int)
    requires
        0 <= i < 4,
    ensures
        -2 <= turned(p.transform.rotation as int, shape_offsets(p.kind)[i]).0 <= 2,
        -2 <= turned(p.transform.rotation as int, shape_offsets(p.kind)[i]).1 <= 2,
{
}

/// A piece that fits has its anchor near the columns and not far below the floor.
pub proof fn lemma_fitting_anchor(p: Piece, s: Seq<Seq<Option<u16>>>)
    requires
        piece_fits(p, s),
    ensures
        -(HALF_COLS as int) - 2 <= p.transform.x <= HALF_COLS as int + 2,
        p.transform.y >= -2,
{
    lemma_offsets_small(p, 0);
    assert(cell_free(s, piece_cell(p, 0)));
}

/// A piece whose anchor is not above the spawn row has its cells on the board's rows.
pub proof fn lemma_cells_on_board(p: Piece)
    requires
        p.transform.y <= BRICK_ROWS,
    ensures
        forall|i: int| 0 <= i < 4 ==> #[trigger] piece_cell(p, i).1 < BOARD_ROWS,
{
    assert forall|i: int| 0 <= i < 4 implies #[trigger] piece_cell(p, i).1 < BOARD_ROWS by {
        lemma_offsets_small(p, i);
    }
}

/// A piece at the spawn transform fits on an empty board.
pub proof fn lemma_spawn_fits_empty(p: Piece)
    requires
        p.transform == spawn_transform(),
    ensures
        piece_fits(p, empty_board()),
{
    assert forall|i: int| 0 <= i < 4 implies cell_free(empty_board(), #[trigger] piece_cell(p, i)) by {
        lemma_offsets_small(p, i);
        let c = piece_cell(p, i);
        if 0 <= c.1 < BOARD_ROWS {
            assert(empty_board()[c.1] == empty_row());
        }
    }
}

fn offset(kind: ShapeKind, i: usize) -> (r: (i64, i64))
    requires
        i < 4,
    ensures
        (r.0 as int, r.1 as int) == shape_offsets(kind)[i as int],
{
    let table: [(i64, i64); 4] = match kind {
        ShapeKind::T => [(0, 0), (1, 0), (-1, 0), (0, -1)],
        ShapeKind::I => [(-1, 0), (0, 0), (1, 0), (2, 0)],
        ShapeKind::L => [(-2, 0), (-1, 0), (0, 0), (0, -1)],
        ShapeKind::J => [(2, 0), (1, 0), (0, 0), (0, -1)],
        ShapeKind::S => [(0, 0), (1, 0), (-1, -1), (0, -1)],
        ShapeKind::Z => [(0, 0), (-1, 0), (1, -1), (0, -1)],
        ShapeKind::O => [(0, 0), (1, 0), (0, -1), (1, -1)],
    };
    table[i]
}

impl Piece {
    /// Cell `i` (of four) of the piece on the board.
    pub fn cell(&self, i: usize) -> (r: (i64, i64))
        requires
            i < 4,
        ensures
            (r.0 as int, r.1 as int) == piece_cell(*self, i as int),
    {
        let d = offset(self.kind, i);
        let t = (d.0, d.1);
        let turned = if self.transform.rotation % 4 == 0 {
            t
        } else if self.transform.rotation % 4 == 1 {
            (-t.1, t.0)
        } else if self.transform.rotation % 4 == 2 {
            (-t.0, -t.1)
        } else {
            (t.1, -t.0)
        };
        proof {
            lemma_offsets_small(*self, i as int);
        }
        (self.transform.x as i64 + turned.0, self.transform.y as i64 + turned.1)
    }
}

impl Transform {
    /// This transform followed by `delta`.
    pub fn compose(&self, delta: &Transform) -> (r: Transform)
        requires
            composable(*self, *delta),
        ensures
            r == composed(*self, *delta),
    {
        Transform {
            x: self.x + delta.x,
            y: self.y + delta.y,
            rotation: (self.rotation % 4 + delta.rotation % 4) % 4,
        }
    }
}

/// Whether the cell `(x, y)` is closed to a piece: off the columns, below
/// the floor, or occupied.
pub fn collides(x: i64, y: i64, bricks: &Bricks) -> (r: bool)
    requires
        bricks.wf(),
    ensures
        r == !cell_free(bricks@, (x as int, y as int)),
{
    if x < -(HALF_COLS as i64) || x > HALF_COLS as i64 {
        return true;
    }
    if y < 0 {
        return true;
    }
    bricks.is_occupied(x, y)
}

/// Whether every cell of the piece is free; there is no bound above.
pub fn validate(piece: &Piece, bricks: &Bricks) -> (r: bool)
    requires
        bricks.wf(),
    ensures
        r == piece_fits(*piece, bricks@),
{
    let mut i: usize = 0;
    while i < 4
        invariant
            0 <= i <= 4,
            bricks.wf(),
            forall|k: int| 0 <= k < i ==> cell_free(bricks@, #[trigger] piece_cell(*piece, k)),
        decreases 4 - i,
    {
        let c = piece.cell(i);
        if collides(c.0, c.1, bricks) {
            return false;
        }
        i += 1;
    }
    true
}

/// Moves the piece by `delta` if it fits there; otherwise leaves it and
/// reports the refusal.
pub fn try_move_shape(piece: &mut Piece, delta: &Transform, bricks: &Bricks) -> (r: Result<(), ()>)
    requires
        bricks.wf(),
        composable(old(piece).transform, *delta),
    ensures
        piece_fits(moved(*old(piece), *delta), bricks@) ==> r is Ok && *final(piece) == moved(
            *old(piece),
            *delta,
        ),
        !piece_fits(moved(*old(piece), *delta), bricks@) ==> r is Err && *final(piece) == *old(
            piece,
        ),
{
    let next = Piece { transform: piece.transform.compose(delta), ..*piece };
    if validate(&next, bricks) {
        *piece = next;
        Ok(())
    } else {
        Err(())
    }
}

/// The move that a control asks for: a column left or right, or a quarter
/// turn; the other controls ask for none.
pub fn transform_from_control_event(event: ControlEvent) -> (r: Option<Transform>)
    ensures
        r == control_delta(event),
{
    match event {
        ControlEvent::SpeedupStart | ControlEvent::SpeedupEnd | ControlEvent::Pause => None,
        ControlEvent::Left => Some(Transform { x: -1, y: 0, rotation: 0 }),
        ControlEvent::Right => Some(Transform { x: 1, y: 0, rotation: 0 }),
        ControlEvent::RotateRight => Some(Transform { x: 0, y: 0, rotation: 3 }),
        ControlEvent::RotateLeft => Some(Transform { x: 0, y: 0, rotation: 1 }),
    }
}

/// The board with the piece's first `n` cells settled in its hue.
pub open spec fn committed_upto(s: Seq<Seq<Option<u16>>>, p: Piece, n: int) -> Seq<
    Seq<Option<u16>>,
> {
    Seq::new(
        s.len(),
        |y: int|
            Seq::new(
                s[y].len(),
                |c: int|
                    if exists|i: int| 0 <= i < n && #[trigger] piece_cell(p, i) == (c - HALF_COLS, y) {
                        Some(p.hue)
                    } else {
                        s[y][c]
                    },
            ),
    )
}

/// Settles the piece: each of its cells becomes a brick of its hue.
pub fn shape_to_bricks(bricks: &mut Bricks, piece: &Piece)
    requires
        old(bricks).wf(),
        piece_fits(*piece, old(bricks)@),
        forall|i: int| 0 <= i < 4 ==> #[trigger] piece_cell(*piece, i).1 < BOARD_ROWS,
    ensures
        final(bricks).wf(),
        final(bricks)@ == committed(old(bricks)@, *piece),
{
    let ghost s = old(bricks)@;
    let mut i: usize = 0;
    assert forall|y: int| 0 <= y < s.len() implies #[trigger] bricks@[y] =~= committed_upto(
        s,
        *piece,
        0,
    )[y] by {}
    assert(bricks@ =~= committed_upto(s, *piece, 0));
    while i < 4
        invariant
            0 <= i <= 4,
            board_shape(s),
            bricks.wf(),
            piece_fits(*piece, s),
            forall|k: int| 0 <= k < 4 ==> #[trigger] piece_cell(*piece, k).1 < BOARD_ROWS,
            bricks@ == committed_upto(s, *piece, i as int),
        decreases 4 - i,
    {
        let c = piece.cell(i);
        assert(cell_free(s, piece_cell(*piece, i as int)));
        let ghost before = bricks@;
        spawn_brick(bricks, Brick { x: c.0 as i8, y: c.1 as i8 }, piece.hue);
        proof {
            let next = committed_upto(s, *piece, i + 1);
            assert forall|y: int| 0 <= y < s.len() implies #[trigger] bricks@[y] =~= next[y] by {
                assert forall|col: int| 0 <= col < s[y].len() implies bricks@[y][col]
                    == next[y][col] by {
                    if exists|k: int|
                        0 <= k < i + 1 && #[trigger] piece_cell(*piece, k) == (col - HALF_COLS, y) {
                        let k = choose|k: int|
                            0 <= k < i + 1 && #[trigger] piece_cell(*piece, k) == (col
                                - HALF_COLS, y);
                        if k < i {
                            assert(before[y][col] == Some(piece.hue));
                        }
                    } else {
                        assert(!(exists|k: int|
                            0 <= k < i && #[trigger] piece_cell(*piece, k) == (col - HALF_COLS,
                                y)));
                        assert(piece_cell(*piece, i as int) != (col - HALF_COLS, y));
                    }
                }
            }
            assert(bricks@ =~= next);
        }
        i += 1;
    }
    assert forall|y: int| 0 <= y < s.len() implies #[trigger] committed_upto(s, *piece, 4)[y]
        =~= committed(s, *piece)[y] by {}
    assert(bricks@ =~= committed(s, *piece));
}

/// The shape for a draw in `0..7`.
pub fn make_random_shape(choice: u32) -> (r: ShapeKind)
    requires
        choice < 7,
    ensures
        r == shape_of_choice(choice as int),
{
    match choice {
        0 => ShapeKind::T,
        1 => ShapeKind::I,
        2 => ShapeKind::L,
        3 => ShapeKind::J,
        4 => ShapeKind::S,
        5 => ShapeKind::Z,
        _ => ShapeKind::O,
    }
}

/// A new piece of the drawn shape and hue, at the spawn transform.
pub fn spawn_shape(choice: u32, hue: u16) -> (r: Piece)
    requires
        choice < 7,
    ensures
        r == (Piece { kind: shape_of_choice(choice as int), transform: spawn_transform(), hue }),
{
    Piece { kind: make_random_shape(choice), transform: Transform { x: 0, y: BRICK_ROWS as i32, rotation: 0 }, hue }
}

/// A new piece at the spawn transform, of a shape and a hue (in degrees)
/// drawn at random.
pub fn spawn_random() -> (r: Piece)
    ensures
        r.transform == spawn_transform(),
        r.hue < 360,
{
    let choice = random_below(7);
    let hue = random_below(360);
    spawn_shape(choice, hue as u16)
}

} // verus!
