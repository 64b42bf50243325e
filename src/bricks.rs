use vstd::prelude::*;

use crate::{BOARD_ROWS, BRICK_COLS, HALF_COLS};

verus! {

/// A cell of the board, by column (`-HALF_COLS..=HALF_COLS`) and row (0 at the bottom).
#[derive(Clone, Copy, Debug, PartialEq, Eq, Structural)]
pub struct Brick {
    pub x: i8,
    pub y: i8,
}

/// Announces how many rows one clearing pass took off the board.
#[derive(Clone, Copy, Debug, PartialEq, Eq, Structural)]
pub struct LinesRemoved(pub u8);

/// The settled cells: one row per board row, bottom row first, one slot per
/// column, left to right; an occupied slot holds the hue of its cell.
pub struct Bricks {
    rows: Vec<Vec<Option<u16>>>,
}

pub open spec fn legal_column(x: int) -> bool {
    -(HALF_COLS as int) <= x <= HALF_COLS as int
}

pub open spec fn row_full(row: Seq<Option<u16>>) -> bool {
    forall|c: int| 0 <= c < row.len() ==> #[trigger] row[c] is Some
}

pub open spec fn row_empty(row: Seq<Option<u16>>) -> bool {
    forall|c: int| 0 <= c < row.len() ==> #[trigger] row[c] is None
}

pub open spec fn empty_row() -> Seq<Option<u16>> {
    Seq::new(BRICK_COLS as nat, |c: int| None)
}

/// A board has `BOARD_ROWS` rows of `BRICK_COLS` slots each.
pub open spec fn board_shape(s: Seq<Seq<Option<u16>>>) -> bool {
    &&& s.len() == BOARD_ROWS
    &&& forall|y: int| 0 <= y < s.len() ==> (#[trigger] s[y]).len() == BRICK_COLS
}

pub open spec fn empty_board() -> Seq<Seq<Option<u16>>> {
    Seq::new(BOARD_ROWS as nat, |y: int| empty_row())
}

/// What the board holds at column `x`, row `y`.
pub open spec fn cell(s: Seq<Seq<Option<u16>>>, x: int, y: int) -> Option<u16> {
    s[y][x + HALF_COLS]
}

pub open spec fn occupied(s: Seq<Seq<Option<u16>>>, x: int, y: int) -> bool {
    &&& legal_column(x)
    &&& 0 <= y < s.len()
    &&& cell(s, x, y) is Some
}

/// The indices of the full rows, lowest first.
pub open spec fn full_rows(s: Seq<Seq<Option<u16>>>) -> Seq<int>
    decreases s.len(),
{
    if s.len() == 0 {
        seq![]
    } else {
        let p = full_rows(s.drop_last());
        if row_full(s.last()) {
            p.push(s.len() - 1)
        } else {
            p
        }
    }
}

/// The board with each listed row emptied.
pub open spec fn cleared(s: Seq<Seq<Option<u16>>>, rows: Seq<int>) -> Seq<Seq<Option<u16>>> {
    Seq::new(s.len(), |y: int| if rows.contains(y) { empty_row() } else { s[y] })
}

/// The rows that hold at least one cell, in their order from the bottom.
pub open spec fn nonempty_rows(s: Seq<Seq<Option<u16>>>) -> Seq<Seq<Option<u16>>>
    decreases s.len(),
{
    if s.len() == 0 {
        seq![]
    } else {
        let p = nonempty_rows(s.drop_last());
        if row_empty(s.last()) {
            p
        } else {
            p.push(s.last())
        }
    }
}

/// The board after gravity: its non-empty rows, in order, from the bottom up,
/// and empty rows above them.
pub open spec fn packed(s: Seq<Seq<Option<u16>>>) -> Seq<Seq<Option<u16>>> {
    let k = nonempty_rows(s);
    k + Seq::new((s.len() - k.len()) as nat, |i: int| empty_row())
}

/// The number of empty rows in `s`.
pub open spec fn empty_count(s: Seq<Seq<Option<u16>>>) -> nat
    decreases s.len(),
{
    if s.len() == 0 {
        0
    } else if row_empty(s.last()) {
        empty_count(s.drop_last()) + 1
    } else {
        empty_count(s.drop_last())
    }
}

/// The row that row `y` of `s` comes to rest on under gravity.
pub open spec fn landing_row(s: Seq<Seq<Option<u16>>>, y: int) -> int {
    nonempty_rows(s.take(y)).len() as int
}

pub open spec fn ints(v: Seq<i8>) -> Seq<int> {
    v.map_values(|y: i8| y as int)
}

pub open spec fn rows_view(v: Seq<Vec<Option<u16>>>) -> Seq<Seq<Option<u16>>> {
    Seq::new(v.len(), |y: int| v[y]@)
}

impl View for Bricks {
    type V = Seq<Seq<Option<u16>>>;

    closed spec fn view(&self) -> Seq<Seq<Option<u16>>> {
        rows_view(self.rows@)
    }
}

proof fn lemma_full_rows_exact(s: Seq<Seq<Option<u16>>>)
    ensures
        forall|i: int|
            0 <= i < full_rows(s).len() ==> 0 <= #[trigger] full_rows(s)[i] < s.len(),
        forall|i: int, j: int|
            0 <= i < j < full_rows(s).len() ==> full_rows(s)[i] < full_rows(s)[j],
        forall|y: int|
            0 <= y < s.len() ==> (#[trigger] full_rows(s).contains(y) <==> row_full(s[y])),
    decreases s.len(),
{
    if s.len() > 0 {
        let t = s.drop_last();
        lemma_full_rows_exact(t);
        assert forall|y: int| 0 <= y < s.len() implies (#[trigger] full_rows(s).contains(y)
            <==> row_full(s[y])) by {
            if y < s.len() - 1 {
                assert(s[y] == t[y]);
                if full_rows(s).contains(y) {
                    let i = choose|i: int| 0 <= i < full_rows(s).len() && full_rows(s)[i] == y;
                    if i < full_rows(t).len() {
                        assert(full_rows(t)[i] == y);
                    }
                }
                if full_rows(t).contains(y) {
                    let i = choose|i: int| 0 <= i < full_rows(t).len() && full_rows(t)[i] == y;
                    assert(full_rows(s)[i] == y);
                }
            } else {
                if row_full(s.last()) {
                    assert(full_rows(s)[full_rows(s).len() - 1] == y);
                } else {
                    if full_rows(s).contains(y) {
                        let i = choose|i: int|
                            0 <= i < full_rows(s).len() && full_rows(s)[i] == y;
                        assert(full_rows(t)[i] < t.len());
                    }
                }
            }
        }
    }
}

pub(crate) proof fn lemma_full_rows_len(s: Seq<Seq<Option<u16>>>)
    ensures
        full_rows(s).len() <= s.len(),
    decreases s.len(),
{
    if s.len() > 0 {
        lemma_full_rows_len(s.drop_last());
    }
}

proof fn lemma_nonempty_rows_from(s: Seq<Seq<Option<u16>>>)
    ensures
        nonempty_rows(s).len() + empty_count(s) == s.len(),
        forall|i: int|
            0 <= i < nonempty_rows(s).len() ==> !row_empty(#[trigger] nonempty_rows(s)[i])
                && s.contains(nonempty_rows(s)[i]),
    decreases s.len(),
{
    if s.len() > 0 {
        let t = s.drop_last();
        lemma_nonempty_rows_from(t);
        assert forall|i: int| 0 <= i < nonempty_rows(s).len() implies !row_empty(
            #[trigger] nonempty_rows(s)[i],
        ) && s.contains(nonempty_rows(s)[i]) by {
            if i < nonempty_rows(t).len() {
                assert(nonempty_rows(s)[i] == nonempty_rows(t)[i]);
                let j = choose|j: int| 0 <= j < t.len() && t[j] == nonempty_rows(t)[i];
                assert(s[j] == t[j]);
            } else {
                assert(s[s.len() - 1] == s.last());
            }
        }
    }
}

/// The rows that survive gravity from the first `k` rows lead the rows that
/// survive from all of them.
proof fn lemma_nonempty_rows_prefix(s: Seq<Seq<Option<u16>>>, k: int)
    requires
        0 <= k <= s.len(),
    ensures
        nonempty_rows(s.take(k)).len() <= nonempty_rows(s).len(),
        nonempty_rows(s).take(nonempty_rows(s.take(k)).len() as int) == nonempty_rows(
            s.take(k),
        ),
    decreases s.len(),
{
    if k == s.len() {
        assert(s.take(k) == s);
        assert(nonempty_rows(s).take(nonempty_rows(s).len() as int) == nonempty_rows(s));
    } else {
        let t = s.drop_last();
        assert(s.take(k) == t.take(k));
        lemma_nonempty_rows_prefix(t, k);
        let p = nonempty_rows(t.take(k));
        assert(nonempty_rows(s).take(p.len() as int) == nonempty_rows(t).take(p.len() as int));
    }
}

/// A non-empty row `y` lands on `landing_row(s, y)`.
proof fn lemma_landing(s: Seq<Seq<Option<u16>>>, y: int)
    requires
        0 <= y < s.len(),
        !row_empty(s[y]),
    ensures
        landing_row(s, y) < nonempty_rows(s).len(),
        nonempty_rows(s)[landing_row(s, y)] == s[y],
        landing_row(s, y) == y - empty_count(s.take(y)),
{
    let u = s.take(y + 1);
    assert(u.drop_last() == s.take(y));
    assert(u.last() == s[y]);
    lemma_nonempty_rows_prefix(s, y + 1);
    lemma_nonempty_rows_from(s.take(y));
    assert(nonempty_rows(s).take(nonempty_rows(u).len() as int)[landing_row(s, y)]
        == nonempty_rows(u)[landing_row(s, y)]);
}

proof fn lemma_landing_monotone(s: Seq<Seq<Option<u16>>>, y1: int, y2: int)
    requires
        0 <= y1 < y2 <= s.len(),
        !row_empty(s[y1]),
    ensures
        landing_row(s, y1) < landing_row(s, y2),
{
    let u = s.take(y1 + 1);
    assert(u.drop_last() == s.take(y1));
    assert(u.last() == s[y1]);
    let w = s.take(y2);
    assert(w.take(y1 + 1) == u);
    lemma_nonempty_rows_prefix(w, y1 + 1);
}

proof fn lemma_packed_shape(s: Seq<Seq<Option<u16>>>)
    requires
        board_shape(s),
    ensures
        board_shape(packed(s)),
        forall|i: int| 0 <= i < nonempty_rows(s).len() ==> packed(s)[i] == nonempty_rows(s)[i],
        forall|i: int|
            nonempty_rows(s).len() <= i < s.len() ==> packed(s)[i] == empty_row(),
{
    lemma_nonempty_rows_from(s);
    let k = nonempty_rows(s);
    assert forall|i: int| 0 <= i < packed(s).len() implies (#[trigger] packed(s)[i]).len()
        == BRICK_COLS by {
        if i < k.len() {
            let j = choose|j: int| 0 <= j < s.len() && s[j] == k[i];
        }
    }
}

/// Gravity after a clear: whichever rows are cleared, gravity leaves no
/// empty row below an occupied one; every row that held cells and was not
/// cleared comes to rest on its old index less the number of empty rows below
/// it after the clear, so two such rows keep their order.
pub proof fn lemma_clear_then_gravity(s: Seq<Seq<Option<u16>>>, rows: Seq<int>)
    requires
        board_shape(s),
    ensures
        ({
            let t = cleared(s, rows);
            let c = packed(t);
            &&& board_shape(c)
            &&& forall|i: int, j: int|
                0 <= i < j < c.len() && row_empty(#[trigger] c[i]) ==> row_empty(#[trigger] c[j])
            &&& forall|y: int|
                0 <= y < s.len() && !rows.contains(y) && !row_empty(s[y]) ==> c[y - empty_count(
                    t.take(y),
                )] == s[y]
            &&& forall|y1: int, y2: int|
                0 <= y1 < y2 < s.len() && !rows.contains(y1) && !row_empty(s[y1]) && !rows.contains(
                    y2,
                ) && !row_empty(s[y2]) ==> y1 - empty_count(t.take(y1)) < y2 - empty_count(
                    t.take(y2),
                )
        }),
{
    let t = cleared(s, rows);
    let c = packed(t);
    assert(board_shape(t));
    lemma_packed_shape(t);
    lemma_nonempty_rows_from(t);
    let k = nonempty_rows(t);
    assert forall|i: int, j: int|
        0 <= i < j < c.len() && row_empty(#[trigger] c[i]) implies row_empty(#[trigger] c[j]) by {
        if i < k.len() {
            assert(c[i] == k[i]);
        }
    }
    assert forall|y: int|
        0 <= y < s.len() && !rows.contains(y) && !row_empty(s[y]) implies c[y - empty_count(
        t.take(y),
    )] == s[y] by {
        assert(t[y] == s[y]);
        lemma_landing(t, y);
    }
    assert forall|y1: int, y2: int|
        0 <= y1 < y2 < s.len() && !rows.contains(y1) && !row_empty(s[y1]) && !rows.contains(y2)
            && !row_empty(s[y2]) implies y1 - empty_count(t.take(y1)) < y2 - empty_count(
        t.take(y2),
    ) by {
        assert(t[y1] == s[y1]);
        assert(t[y2] == s[y2]);
        lemma_landing(t, y1);
        lemma_landing(t, y2);
        lemma_landing_monotone(t, y1, y2);
    }
}

proof fn lemma_nonempty_rows_keep(k: Seq<Seq<Option<u16>>>)
    requires
        forall|i: int| 0 <= i < k.len() ==> !row_empty(#[trigger] k[i]),
    ensures
        nonempty_rows(k) == k,
    decreases k.len(),
{
    if k.len() > 0 {
        lemma_nonempty_rows_keep(k.drop_last());
        assert(k.drop_last().push(k.last()) == k);
    }
}

proof fn lemma_nonempty_rows_pad(a: Seq<Seq<Option<u16>>>, n: nat)
    ensures
        nonempty_rows(a + Seq::new(n, |i: int| empty_row())) == nonempty_rows(a),
    decreases n,
{
    let padded = a + Seq::new(n, |i: int| empty_row());
    if n == 0 {
        assert(padded == a);
    } else {
        lemma_nonempty_rows_pad(a, (n - 1) as nat);
        assert(padded.drop_last() == a + Seq::new((n - 1) as nat, |i: int| empty_row()));
        assert(padded.last() == empty_row());
    }
}

/// Gravity a second time changes nothing.
pub proof fn lemma_gravity_idempotent(s: Seq<Seq<Option<u16>>>)
    ensures
        packed(packed(s)) == packed(s),
{
    let k = nonempty_rows(s);
    lemma_nonempty_rows_from(s);
    lemma_nonempty_rows_pad(k, (s.len() - k.len()) as nat);
    lemma_nonempty_rows_keep(k);
    assert(packed(packed(s)) =~= packed(s));
}

fn empty_row_vec() -> (r: Vec<Option<u16>>)
    ensures
        r@ == empty_row(),
{
    let mut r: Vec<Option<u16>> = Vec::new();
    let mut c: i8 = 0;
    while c < BRICK_COLS
        invariant
            0 <= c <= BRICK_COLS,
            r@ == Seq::new(c as nat, |i: int| None::<u16>),
        decreases BRICK_COLS - c,
    {
        r.push(None);
        c += 1;
    }
    assert(r@ == empty_row());
    r
}

fn row_is_full(row: &Vec<Option<u16>>) -> (r: bool)
    ensures
        r == row_full(row@),
{
    let mut c: usize = 0;
    while c < row.len()
        invariant
            0 <= c <= row@.len(),
            forall|i: int| 0 <= i < c ==> #[trigger] row@[i] is Some,
        decreases row@.len() - c,
    {
        if row[c].is_none() {
            return false;
        }
        c += 1;
    }
    true
}

fn row_is_empty(row: &Vec<Option<u16>>) -> (r: bool)
    ensures
        r == row_empty(row@),
{
    let mut c: usize = 0;
    while c < row.len()
        invariant
            0 <= c <= row@.len(),
            forall|i: int| 0 <= i < c ==> #[trigger] row@[i] is None,
        decreases row@.len() - c,
    {
        if row[c].is_some() {
            return false;
        }
        c += 1;
    }
    true
}

impl Bricks {
    pub open spec fn wf(&self) -> bool {
        board_shape(self@)
    }

    /// An empty board.
    pub fn new() -> (b: Bricks)
        ensures
            b.wf(),
            b@ == empty_board(),
    {
        let mut rows: Vec<Vec<Option<u16>>> = Vec::new();
        let mut y: usize = 0;
        while y < BOARD_ROWS
            invariant
                0 <= y <= BOARD_ROWS,
                rows@.len() == y,
                forall|i: int| 0 <= i < y ==> (#[trigger] rows@[i])@ == empty_row(),
            decreases BOARD_ROWS - y,
        {
            let row = empty_row_vec();
            rows.push(row);
            y += 1;
        }
        let b = Bricks { rows };
        assert(b@ =~= empty_board());
        b
    }

    /// Whether the cell at column `x`, row `y` holds a settled brick; a cell
    /// off the board never does.
    pub fn is_occupied(&self, x: i64, y: i64) -> (r: bool)
        requires
            self.wf(),
        ensures
            r == occupied(self@, x as int, y as int),
    {
        if x < -(HALF_COLS as i64) || x > HALF_COLS as i64 || y < 0 || y >= BOARD_ROWS as i64 {
            return false;
        }
        let row = &self.rows[y as usize];
        assert(row@ == self@[y as int]);
        row[(x + HALF_COLS as i64) as usize].is_some()
    }

    /// The hue of the brick at column `x`, row `y`, if one is settled there.
    pub fn color_at(&self, x: i64, y: i64) -> (r: Option<u16>)
        requires
            self.wf(),
        ensures
            r == if legal_column(x as int) && 0 <= y < BOARD_ROWS {
                cell(self@, x as int, y as int)
            } else {
                None
            },
    {
        if x < -(HALF_COLS as i64) || x > HALF_COLS as i64 || y < 0 || y >= BOARD_ROWS as i64 {
            return None;
        }
        let row = &self.rows[y as usize];
        assert(row@ == self@[y as int]);
        row[(x + HALF_COLS as i64) as usize]
    }

    /// The rows whose every column is occupied, lowest first, and no others.
    pub fn detect_full_rows(&self) -> (r: Vec<i8>)
        requires
            self.wf(),
        ensures
            ints(r@) == full_rows(self@),
            forall|i: int| 0 <= i < r@.len() ==> 0 <= #[trigger] r@[i] < BOARD_ROWS,
            forall|i: int, j: int| 0 <= i < j < r@.len() ==> r@[i] < r@[j],
            forall|y: int|
                0 <= y < BOARD_ROWS ==> (#[trigger] ints(r@).contains(y) <==> row_full(self@[y])),
    {
        let mut r: Vec<i8> = Vec::new();
        let mut y: usize = 0;
        while y < BOARD_ROWS
            invariant
                0 <= y <= BOARD_ROWS,
                self.wf(),
                ints(r@) == full_rows(self@.take(y as int)),
            decreases BOARD_ROWS - y,
        {
            let ghost before = self@.take(y as int);
            let ghost after = self@.take(y + 1);
            assert(after.drop_last() == before);
            assert(after.last() == self@[y as int]);
            assert(self.rows@[y as int]@ == self@[y as int]);
            if row_is_full(&self.rows[y]) {
                r.push(y as i8);
                assert(ints(r@) == full_rows(after));
            }
            y += 1;
        }
        assert(self@.take(BOARD_ROWS as int) == self@);
        proof {
            lemma_full_rows_exact(self@);
            assert forall|i: int| 0 <= i < r@.len() implies 0 <= #[trigger] r@[i] < BOARD_ROWS by {
                assert(ints(r@)[i] == r@[i] as int);
            }
            assert forall|i: int, j: int| 0 <= i < j < r@.len() implies r@[i] < r@[j] by {
                assert(ints(r@)[i] == r@[i] as int);
                assert(ints(r@)[j] == r@[j] as int);
            }
        }
        r
    }

    /// Empties each listed row.
    pub fn remove_rows(&mut self, rows: &Vec<i8>)
        requires
            old(self).wf(),
            forall|i: int| 0 <= i < rows@.len() ==> 0 <= #[trigger] rows@[i] < BOARD_ROWS,
        ensures
            final(self).wf(),
            final(self)@ == cleared(old(self)@, ints(rows@)),
    {
        let mut i: usize = 0;
        while i < rows.len()
            invariant
                0 <= i <= rows@.len(),
                forall|k: int| 0 <= k < rows@.len() ==> 0 <= #[trigger] rows@[k] < BOARD_ROWS,
                self.wf(),
                self@ == cleared(old(self)@, ints(rows@.take(i as int))),
            decreases rows@.len() - i,
        {
            remove_line(self, rows[i]);
            proof {
                let before = ints(rows@.take(i as int));
                let after = ints(rows@.take(i + 1));
                assert(rows@.take(i + 1) == rows@.take(i as int).push(rows@[i as int]));
                assert(after =~= before.push(rows@[i as int] as int));
                assert forall|z: int| #![auto] after.contains(z) <==> (before.contains(z) || z
                    == rows@[i as int] as int) by {
                    if after.contains(z) {
                        let k = choose|k: int| 0 <= k < after.len() && after[k] == z;
                        if k < before.len() {
                            assert(before[k] == z);
                        }
                    }
                    if before.contains(z) {
                        let k = choose|k: int| 0 <= k < before.len() && before[k] == z;
                        assert(after[k] == z);
                    }
                    if z == rows@[i as int] as int {
                        assert(after[i as int] == z);
                    }
                }
                assert(self@ =~= cleared(old(self)@, after));
            }
            i += 1;
        }
        assert(rows@.take(rows@.len() as int) == rows@);
    }
}

/// Settles one brick of the given hue on the board.
pub fn spawn_brick(bricks: &mut Bricks, brick: Brick, color: u16)
    requires
        old(bricks).wf(),
        legal_column(brick.x as int),
        0 <= brick.y < BOARD_ROWS,
    ensures
        final(bricks).wf(),
        final(bricks)@ == old(bricks)@.update(
            brick.y as int,
            old(bricks)@[brick.y as int].update(brick.x + HALF_COLS, Some(color)),
        ),
{
    let y = brick.y as usize;
    let mut row = Vec::new();
    bricks.rows.set_and_swap(y, &mut row);
    assert(row@ == old(bricks)@[brick.y as int]);
    row.set((brick.x + HALF_COLS) as usize, Some(color));
    bricks.rows.set(y, row);
    assert(bricks@ =~= old(bricks)@.update(
        brick.y as int,
        old(bricks)@[brick.y as int].update(brick.x + HALF_COLS, Some(color)),
    ));
}

/// Takes every brick off row `y`.
pub fn remove_line(bricks: &mut Bricks, y: i8)
    requires
        old(bricks).wf(),
        0 <= y < BOARD_ROWS,
    ensures
        final(bricks).wf(),
        final(bricks)@ == old(bricks)@.update(y as int, empty_row()),
{
    let row = empty_row_vec();
    bricks.rows.set(y as usize, row);
    assert(bricks@ == old(bricks)@.update(y as int, empty_row()));
}

/// Detects the full rows and removes all of them in one pass; reports how many
/// went, if any did.
pub fn remove_lines(bricks: &mut Bricks) -> (r: Option<LinesRemoved>)
    requires
        old(bricks).wf(),
    ensures
        final(bricks).wf(),
        final(bricks)@ == cleared(old(bricks)@, full_rows(old(bricks)@)),
        forall|y: int|
            0 <= y < BOARD_ROWS ==> #[trigger] final(bricks)@[y] == if row_full(old(bricks)@[y]) {
                empty_row()
            } else {
                old(bricks)@[y]
            },
        r == if full_rows(old(bricks)@).len() == 0 {
            None
        } else {
            Some(LinesRemoved(full_rows(old(bricks)@).len() as u8))
        },
{
    let full = bricks.detect_full_rows();
    bricks.remove_rows(&full);
    assert(full@.len() == ints(full@).len());
    if full.len() == 0 {
        None
    } else {
        Some(LinesRemoved(full.len() as u8))
    }
}

/// Gravity: every non-empty row falls until no empty row lies below it, in
/// order.
pub fn move_lines_down(bricks: &mut Bricks)
    requires
        old(bricks).wf(),
    ensures
        final(bricks).wf(),
        final(bricks)@ == packed(old(bricks)@),
{
    let ghost orig = old(bricks)@;
    let mut old_rows: Vec<Vec<Option<u16>>> = Vec::new();
    std::mem::swap(&mut bricks.rows, &mut old_rows);
    assert(rows_view(old_rows@) == orig);
    let mut kept: Vec<Vec<Option<u16>>> = Vec::new();
    let mut y: usize = 0;
    while y < BOARD_ROWS
        invariant
            0 <= y <= BOARD_ROWS,
            board_shape(orig),
            old_rows@.len() == BOARD_ROWS,
            forall|i: int| y <= i < BOARD_ROWS ==> (#[trigger] old_rows@[i])@ == orig[i],
            rows_view(kept@) == nonempty_rows(orig.take(y as int)),
        decreases BOARD_ROWS - y,
    {
        let mut row = Vec::new();
        old_rows.set_and_swap(y, &mut row);
        let ghost after = orig.take(y + 1);
        assert(after.drop_last() == orig.take(y as int));
        assert(after.last() == orig[y as int]);
        if !row_is_empty(&row) {
            kept.push(row);
            assert(rows_view(kept@) == nonempty_rows(after));
        }
        y += 1;
    }
    assert(orig.take(BOARD_ROWS as int) == orig);
    proof {
        lemma_nonempty_rows_from(orig);
    }
    while kept.len() < BOARD_ROWS
        invariant
            nonempty_rows(orig).len() <= kept@.len() <= BOARD_ROWS,
            orig.len() == BOARD_ROWS,
            rows_view(kept@) == nonempty_rows(orig) + Seq::new(
                (kept@.len() - nonempty_rows(orig).len()) as nat,
                |i: int| empty_row(),
            ),
        decreases BOARD_ROWS - kept@.len(),
    {
        let row = empty_row_vec();
        let ghost prev = kept@;
        kept.push(row);
        let ghost k = nonempty_rows(orig);
        let ghost pad = Seq::new((prev.len() - k.len()) as nat, |i: int| empty_row());
        assert forall|i: int| 0 <= i < kept@.len() implies rows_view(kept@)[i] == (k + Seq::new(
            (kept@.len() - k.len()) as nat,
            |i: int| empty_row(),
        ))[i] by {
            if i < prev.len() {
                assert(rows_view(prev)[i] == (k + pad)[i]);
                assert(kept@[i] == prev[i]);
            }
        }
        assert(rows_view(kept@) =~= nonempty_rows(orig) + Seq::new(
            (kept@.len() - nonempty_rows(orig).len()) as nat,
            |i: int| empty_row(),
        ));
    }
    bricks.rows = kept;
    proof {
        lemma_packed_shape(orig);
    }
}

/// Clears the board.
pub fn reset(bricks: &mut Bricks)
    ensures
        final(bricks).wf(),
        final(bricks)@ == empty_board(),
{
    *bricks = Bricks::new();
}

} // verus!
