use crate::shapes::{
    lemma_mask_nonempty, mask_at, spec_ccw, spec_color_of, spec_cw, spec_kicks, spec_spawn_x,
    spec_spawn_y, Rotation, Shape, ShapeColor,
};
use vstd::prelude::*;

verus! {

/// A position on the board: `x` is the column, `y` the row of the top-left
/// corner of a piece's 4x4 local frame.
#[derive(Clone, Copy, PartialEq, Eq, Structural, Debug)]
pub struct Coord {
    pub x: i16,
    pub y: i16,
}

/// A movement or rotation direction requested by the player.
#[derive(Clone, Copy, PartialEq, Eq, Structural, Debug)]
pub enum Direction {
    Left,
    Right,
    Up,
    Down,
}

impl Direction {
    /// Returns a value of 1 or -1 based on the direction.
    pub fn to_value(&self) -> (v: i16)
        ensures
            v == match *self {
                Direction::Left => -1,
                Direction::Right => 1,
                Direction::Up => -1,
                Direction::Down => 1,
            },
    {
        match self {
            Direction::Left => -1,
            Direction::Right => 1,
            Direction::Up => -1,
            Direction::Down => 1,
        }
    }
}

/// Represents the current phase of the game the player is in. Only
/// `Playing` and `GameOver` are produced by the transitions here; `Help`
/// and `Score` are declared extension points with no producing transition.
#[derive(Clone, Copy, PartialEq, Eq, Structural, Debug)]
pub enum GamePhase {
    Playing,
    GameOver,
    Help,
    Score,
}

/// The playfield is 10 columns wide and 22 rows tall; rows 0 and 1 are a
/// hidden spawn buffer, rows 2 through 21 are visible.
pub type Board = [[ShapeColor; 10]; 22];

/// The board as a sequence of 22 rows of 10 cells each.
pub open spec fn board_rows(b: Board) -> Seq<Seq<ShapeColor>> {
    Seq::new(22, |y: int| Seq::new(10, |x: int| b@[y]@[x]))
}

/// Whether the cell at row `y`, column `x` holds a block.
pub open spec fn spec_occupied(rows: Seq<Seq<ShapeColor>>, y: int, x: int) -> bool {
    !(rows[y][x] is Empty)
}

/// Whether shape `s` in orientation `r`, anchored at column `px` and row
/// `py`, maps every occupied mask cell onto an in-bounds, free board cell.
pub open spec fn spec_can_place(
    rows: Seq<Seq<ShapeColor>>,
    s: Shape,
    r: Rotation,
    px: int,
    py: int,
) -> bool {
    forall|dy: int, dx: int|
        0 <= dy < 4 && 0 <= dx < 4 && mask_at(s, r, dy, dx) ==> 0 <= px + dx < 10 && 0 <= py + dy
            < 22 && !spec_occupied(rows, py + dy, px + dx)
}

/// Whether some occupied mask cell of shape `s` in orientation `r`,
/// anchored at (`px`, `py`), lands on board cell (`y`, `x`).
pub open spec fn spec_covered(s: Shape, r: Rotation, px: int, py: int, y: int, x: int) -> bool {
    exists|dy: int, dx: int|
        0 <= dy < 4 && 0 <= dx < 4 && mask_at(s, r, dy, dx) && px + dx == x && py + dy == y
}

/// The board after writing color `c` into every in-bounds cell covered by
/// the piece; all other cells keep their contents.
pub open spec fn spec_commit(
    rows: Seq<Seq<ShapeColor>>,
    s: Shape,
    r: Rotation,
    px: int,
    py: int,
    c: ShapeColor,
) -> Seq<Seq<ShapeColor>> {
    Seq::new(
        22,
        |y: int|
            Seq::new(
                10,
                |x: int| if spec_covered(s, r, px, py, y, x) {
                    c
                } else {
                    rows[y][x]
                },
            ),
    )
}

/// The cells covered by mask cells that a column-major commit sweep has
/// already processed: every column before `dx`, and the cells above `dy`
/// within column `dx`.
spec fn spec_covered_upto(
    s: Shape,
    r: Rotation,
    px: int,
    py: int,
    y: int,
    x: int,
    dx: int,
    dy: int,
) -> bool {
    exists|dy0: int, dx0: int|
        0 <= dy0 < 4 && 0 <= dx0 < 4 && (dx0 < dx || (dx0 == dx && dy0 < dy)) && mask_at(
            s,
            r,
            dy0,
            dx0,
        ) && px + dx0 == x && py + dy0 == y
}

/// A row is full exactly when all ten of its cells hold a block.
pub open spec fn spec_row_full(row: Seq<ShapeColor>) -> bool {
    forall|x: int| 0 <= x < 10 ==> !((#[trigger] row[x]) is Empty)
}

/// The predicate keeping the rows that survive a clearing pass.
pub open spec fn spec_not_full_pred() -> spec_fn(Seq<ShapeColor>) -> bool {
    |row: Seq<ShapeColor>| !spec_row_full(row)
}

/// The non-full rows among rows 1 to `y - 1`, in top-to-bottom order.
pub open spec fn spec_kept_prefix(rows: Seq<Seq<ShapeColor>>, y: int) -> Seq<Seq<ShapeColor>> {
    rows.subrange(1, y).filter(spec_not_full_pred())
}

/// The non-full rows among rows 1 to 21, in top-to-bottom order. Row 0,
/// the topmost buffer row, is never eligible for clearing.
pub open spec fn spec_kept_rows(rows: Seq<Seq<ShapeColor>>) -> Seq<Seq<ShapeColor>> {
    spec_kept_prefix(rows, 22)
}

/// How many full rows among rows `lo` to `hi - 1`.
pub open spec fn spec_count_full(rows: Seq<Seq<ShapeColor>>, lo: int, hi: int) -> int
    decreases hi - lo,
{
    if lo >= hi {
        0
    } else {
        spec_count_full(rows, lo, hi - 1) + if spec_row_full(rows[hi - 1]) {
            1int
        } else {
            0int
        }
    }
}

/// How many rows a clearing pass removes.
pub open spec fn spec_clear_count(rows: Seq<Seq<ShapeColor>>) -> int {
    21 - spec_kept_rows(rows).len()
}

/// A row with all ten cells empty.
pub open spec fn spec_empty_row() -> Seq<ShapeColor> {
    Seq::new(10, |x: int| ShapeColor::Empty)
}

/// The board after a clearing pass: each full row among rows 1 to 21 is
/// removed, every surviving row above it — the top buffer row included —
/// shifts down one step per removed row below it, and the vacated rows at
/// the top become empty.
pub open spec fn spec_cleared_board(rows: Seq<Seq<ShapeColor>>) -> Seq<Seq<ShapeColor>> {
    Seq::new(
        22,
        |y: int| if y < spec_clear_count(rows) {
            spec_empty_row()
        } else if y == spec_clear_count(rows) {
            rows[0]
        } else {
            spec_kept_rows(rows)[y - spec_clear_count(rows) - 1]
        },
    )
}

/// Appending one row to a prefix keeps it when it is not full and drops it
/// when it is.
proof fn lemma_kept_prefix_step(rows: Seq<Seq<ShapeColor>>, y: int)
    requires
        1 <= y < rows.len(),
    ensures
        spec_kept_prefix(rows, y + 1) == if !spec_row_full(rows[y]) {
            spec_kept_prefix(rows, y).push(rows[y])
        } else {
            spec_kept_prefix(rows, y)
        },
{
    reveal(Seq::filter);
    let s = rows.subrange(1, y);
    let t = rows.subrange(1, y + 1);
    assert(t =~= s.push(rows[y]));
    assert(t.drop_last() =~= s);
    assert(t.last() == rows[y]);
}

/// The kept prefix holds everything the full-row count does not.
proof fn lemma_kept_prefix_len(rows: Seq<Seq<ShapeColor>>, y: int)
    requires
        1 <= y <= rows.len(),
        rows.len() == 22,
    ensures
        spec_kept_prefix(rows, y).len() == (y - 1) - spec_count_full(rows, 1, y),
        0 <= spec_count_full(rows, 1, y) <= y - 1,
    decreases y,
{
    reveal(Seq::filter);
    if y == 1 {
        assert(rows.subrange(1, 1) =~= Seq::<Seq<ShapeColor>>::empty());
    } else {
        lemma_kept_prefix_len(rows, y - 1);
        lemma_kept_prefix_step(rows, y - 1);
    }
}

/// Counting full rows over adjacent ranges adds up.
proof fn lemma_count_full_split(rows: Seq<Seq<ShapeColor>>, lo: int, mid: int, hi: int)
    requires
        lo <= mid <= hi,
    ensures
        spec_count_full(rows, lo, hi) == spec_count_full(rows, lo, mid) + spec_count_full(
            rows,
            mid,
            hi,
        ),
    decreases hi - mid,
{
    if mid < hi {
        lemma_count_full_split(rows, lo, mid, hi - 1);
    }
}

/// A range of `hi - lo` rows holds at most `hi - lo` full ones.
proof fn lemma_count_full_bounds(rows: Seq<Seq<ShapeColor>>, lo: int, hi: int)
    requires
        lo <= hi,
    ensures
        0 <= spec_count_full(rows, lo, hi) <= hi - lo,
    decreases hi - lo,
{
    if lo < hi {
        lemma_count_full_bounds(rows, lo, hi - 1);
    }
}

/// Whether row `y` of the board is full.
fn board_row_full(b: &Board, y: usize) -> (r: bool)
    requires
        y < 22,
    ensures
        r == spec_row_full(board_rows(*b)[y as int]),
{
    for x in 0..10usize
        invariant
            y < 22,
            forall|x0: int| 0 <= x0 < x ==> !((#[trigger] board_rows(*b)[y as int][x0]) is Empty),
    {
        if !b[y][x].is_block() {
            proof {
                assert(board_rows(*b)[y as int][x as int] is Empty);
            }
            return false;
        }
    }
    true
}

/// Represents the current game state.
pub struct GameState {
    pub player_pos: Coord,
    pub current_shape: Shape,
    pub rotation: Rotation,
    pub board: Board,
    pub score: i32,
    pub held: Option<Shape>,
    pub shape_queue: Vec<Shape>,
    pub just_held: bool,
    pub game_phase: GamePhase,
}

impl GameState {
    /// The piece supply never runs dry: a full bag of lookahead is always
    /// queued.
    pub open spec fn wf(self) -> bool {
        self.shape_queue@.len() >= 7
    }

    /// The board rows of this state.
    pub open spec fn rows(self) -> Seq<Seq<ShapeColor>> {
        board_rows(self.board)
    }

    /// Whether the active piece legally occupies its current position.
    pub open spec fn spec_place_ok(self) -> bool {
        spec_can_place(
            self.rows(),
            self.current_shape,
            self.rotation,
            self.player_pos.x as int,
            self.player_pos.y as int,
        )
    }

    /// The board after the active piece's color is written over the cells
    /// its mask covers, before any rows clear.
    pub open spec fn spec_committed_rows(self) -> Seq<Seq<ShapeColor>> {
        spec_commit(
            self.rows(),
            self.current_shape,
            self.rotation,
            self.player_pos.x as int,
            self.player_pos.y as int,
            spec_color_of(self.current_shape),
        )
    }

    /// The active piece sits at its kind's spawn anchor in orientation R0.
    pub open spec fn spec_at_spawn(self) -> bool {
        self.player_pos.x as int == spec_spawn_x(self.current_shape) && self.player_pos.y as int
            == spec_spawn_y(self.current_shape) && self.rotation is R0
    }

    /// Creates a new game: an empty board, a random starting piece at its
    /// spawn anchor, and one full bag of lookahead.
    #[verifier::loop_isolation(false)]
    pub fn new() -> (g: GameState)
        ensures
            g.wf(),
            g.score == 0,
            g.held is None,
            g.just_held == false,
            g.game_phase is Playing,
            g.spec_at_spawn(),
            g.shape_queue@.len() == 7,
            g.shape_queue@.no_duplicates(),
            forall|sh: Shape| g.shape_queue@.contains(sh),
            forall|y: int, x: int| 0 <= y < 22 && 0 <= x < 10 ==> (#[trigger] g.rows()[y][x]) is Empty,
    {
        let shape = Shape::random();  // Get starting shape
        let bag = create_new_7_bag();
        let mut queue: Vec<Shape> = Vec::new();
        for k in 0..7usize
            invariant
                queue@ == bag@.subrange(0, k as int),
        {
            proof {
                assert(bag@.subrange(0, k as int + 1) =~= bag@.subrange(0, k as int).push(
                    bag@[k as int],
                ));
            }
            queue.push(bag[k]);
        }
        proof {
            assert(queue@ =~= bag@);
        }
        GameState {
            player_pos: shape.get_spawn_offsets(),
            current_shape: shape,
            rotation: Rotation::R0,
            board: [[ShapeColor::Empty; 10]; 22],
            score: 0,
            held: None,
            shape_queue: queue,
            just_held: false,
            game_phase: GamePhase::Playing,
        }
    }

    /// Determines if a piece can be placed at a position.
    pub fn can_place(&self, shape: &Shape, rot: &Rotation, at: &Coord) -> (r: bool)
        ensures
            r == spec_can_place(self.rows(), *shape, *rot, at.x as int, at.y as int),
    {
        let m = shape.get_shape(rot);
        for dx in 0..4usize
            invariant
                forall|dy: int, dx0: int|
                    0 <= dy < 4 && 0 <= dx0 < dx && mask_at(*shape, *rot, dy, dx0) ==> 0 <= at.x
                        + dx0 < 10 && 0 <= at.y + dy < 22 && !spec_occupied(
                        self.rows(),
                        at.y + dy,
                        at.x + dx0,
                    ),
                forall|dy: int, dx0: int|
                    0 <= dy < 4 && 0 <= dx0 < 4 ==> m@[dy]@[dx0] == mask_at(*shape, *rot, dy, dx0),
        {
            for dy in 0..4usize
                invariant
                    forall|dy0: int, dx0: int|
                        0 <= dy0 < 4 && 0 <= dx0 < dx && mask_at(*shape, *rot, dy0, dx0) ==> 0
                            <= at.x + dx0 < 10 && 0 <= at.y + dy0 < 22 && !spec_occupied(
                            self.rows(),
                            at.y + dy0,
                            at.x + dx0,
                        ),
                    forall|dy0: int|
                        0 <= dy0 < dy && mask_at(*shape, *rot, dy0, dx as int) ==> 0 <= at.x + dx
                            < 10 && 0 <= at.y + dy0 < 22 && !spec_occupied(
                            self.rows(),
                            at.y + dy0,
                            at.x + dx as int,
                        ),
                    forall|dy0: int, dx0: int|
                        0 <= dy0 < 4 && 0 <= dx0 < 4 ==> m@[dy0]@[dx0] == mask_at(
                            *shape,
                            *rot,
                            dy0,
                            dx0,
                        ),
                    dx < 4,
            {
                if m[dy][dx] {
                    // Widened coordinates: the anchor may sit anywhere in
                    // i16, so the absolute cell is computed without overflow.
                    let x: i32 = at.x as i32 + dx as i32;
                    let y: i32 = at.y as i32 + dy as i32;

                    proof {
                        assert(mask_at(*shape, *rot, dy as int, dx as int));
                    }

                    // Bounds checks
                    if x < 0 || y < 0 {
                        return false;
                    }
                    if x >= 10 || y >= 22 {
                        return false;
                    }

                    // Check for existing tile
                    if self.board[y as usize][x as usize].is_block() {
                        proof {
                            assert(spec_occupied(self.rows(), at.y + dy, at.x + dx));
                        }
                        return false;
                    }
                }
            }
        }
        true
    }

    /// Places the player onto the board, triggers game over if the
    /// attempted placement cannot be completed. The piece's color is
    /// written over every board cell its mask covers, whether or not the
    /// placement was valid, and full rows are then cleared.
    #[verifier::loop_isolation(false)]
    pub fn place_player(&mut self)
        requires
            old(self).score <= i32::MAX - 2100,
        ensures
            final(self).game_phase == if old(self).spec_place_ok() {
                old(self).game_phase
            } else {
                GamePhase::GameOver
            },
            final(self).rows() == spec_cleared_board(old(self).spec_committed_rows()),
            final(self).score == old(self).score + 100 * spec_clear_count(
                old(self).spec_committed_rows(),
            ),
            final(self).just_held == false,
            final(self).player_pos == old(self).player_pos,
            final(self).current_shape == old(self).current_shape,
            final(self).rotation == old(self).rotation,
            final(self).held == old(self).held,
            final(self).shape_queue == old(self).shape_queue,
    {
        // get current shape
        let shape = self.current_shape;

        // Determine if player can be placed
        if !self.can_place(&shape, &self.rotation, &self.player_pos) {
            self.game_phase = GamePhase::GameOver;  // Piece cant be placed, game over
        }
        let ghost phase1 = self.game_phase;
        let ghost orows = self.rows();
        let ghost s = self.current_shape;
        let ghost r = self.rotation;
        let ghost px = self.player_pos.x as int;
        let ghost py = self.player_pos.y as int;

        // Get shape array and color
        let m = shape.get_shape(&self.rotation);
        let color = shape.get_color();

        // Iterate player
        for dx in 0..4usize
            invariant
                self.game_phase == phase1,
                self.player_pos == old(self).player_pos,
                self.current_shape == old(self).current_shape,
                self.rotation == old(self).rotation,
                self.held == old(self).held,
                self.shape_queue == old(self).shape_queue,
                self.just_held == old(self).just_held,
                self.score == old(self).score,
                forall|yy: int, xx: int|
                    0 <= yy < 22 && 0 <= xx < 10 ==> self.rows()[yy][xx] == if spec_covered_upto(
                        s,
                        r,
                        px,
                        py,
                        yy,
                        xx,
                        dx as int,
                        0,
                    ) {
                        spec_color_of(s)
                    } else {
                        orows[yy][xx]
                    },
        {
            for dy in 0..4usize
                invariant
                    self.game_phase == phase1,
                    self.player_pos == old(self).player_pos,
                    self.current_shape == old(self).current_shape,
                    self.rotation == old(self).rotation,
                    self.held == old(self).held,
                    self.shape_queue == old(self).shape_queue,
                    self.just_held == old(self).just_held,
                    self.score == old(self).score,
                    forall|yy: int, xx: int|
                        0 <= yy < 22 && 0 <= xx < 10 ==> self.rows()[yy][xx]
                            == if spec_covered_upto(s, r, px, py, yy, xx, dx as int, dy as int) {
                            spec_color_of(s)
                        } else {
                            orows[yy][xx]
                        },
            {
                // Get tiles in shape
                if m[dy][dx] {
                    proof {
                        assert(mask_at(s, r, dy as int, dx as int));
                    }

                    // Get board positions, widened so any anchor is safe
                    let x: i32 = self.player_pos.x as i32 + dx as i32;
                    let y: i32 = self.player_pos.y as i32 + dy as i32;

                    // Place piece on every in-bounds covered cell
                    if 0 <= x && x < 10 && 0 <= y && y < 22 {
                        let ghost pre = *self;
                        self.board[y as usize][x as usize] = color;
                        proof {
                            assert forall|yy: int, xx: int|
                                0 <= yy < 22 && 0 <= xx < 10 implies self.rows()[yy][xx] == (
                            if yy == y as int && xx == x as int {
                                spec_color_of(s)
                            } else {
                                pre.rows()[yy][xx]
                            }) by {}
                            assert(spec_covered_upto(
                                s,
                                r,
                                px,
                                py,
                                py + dy as int,
                                px + dx as int,
                                dx as int,
                                dy as int + 1,
                            ));
                        }
                    }
                }
            }
            proof {
                assert forall|yy: int, xx: int|
                    spec_covered_upto(s, r, px, py, yy, xx, dx as int, 4) == spec_covered_upto(
                        s,
                        r,
                        px,
                        py,
                        yy,
                        xx,
                        dx as int + 1,
                        0,
                    ) by {}
            }
        }

        proof {
            let crows = spec_commit(orows, s, r, px, py, spec_color_of(s));
            assert forall|yy: int| 0 <= yy < 22 implies self.rows()[yy] == crows[yy] by {
                assert forall|xx: int|
                    0 <= xx < 10 implies self.rows()[yy][xx] == crows[yy][xx] by {
                    assert(spec_covered_upto(s, r, px, py, yy, xx, 4, 0) == spec_covered(
                        s,
                        r,
                        px,
                        py,
                        yy,
                        xx,
                    ));
                }
                assert(self.rows()[yy] =~= crows[yy]);
            }
            assert(self.rows() =~= crows);
        }

        // Allow hold again
        self.just_held = false;

        // Attempt to clear any lines
        self.clear_lines();
    }

    /// Checks and clears any lines the player has created: the rows above
    /// each cleared row move down one step, empty rows enter at the top,
    /// and each cleared row scores 100 points.
    #[verifier::loop_isolation(false)]
    pub fn clear_lines(&mut self) -> (cleared: usize)
        requires
            old(self).score <= i32::MAX - 2100,
        ensures
            cleared as int == spec_clear_count(old(self).rows()),
            final(self).rows() == spec_cleared_board(old(self).rows()),
            final(self).score == old(self).score + 100 * cleared,
            final(self).player_pos == old(self).player_pos,
            final(self).current_shape == old(self).current_shape,
            final(self).rotation == old(self).rotation,
            final(self).held == old(self).held,
            final(self).shape_queue == old(self).shape_queue,
            final(self).just_held == old(self).just_held,
            final(self).game_phase == old(self).game_phase,
    {
        let old_b = self.board;
        let ghost orows = board_rows(old_b);

        // Count the full rows; row 0 is never eligible.
        let mut full_count: usize = 0;
        for y in 1..22usize
            invariant
                full_count as int == spec_count_full(orows, 1, y as int),
                full_count < y,
        {
            proof {
                assert(spec_count_full(orows, 1, y as int + 1) == spec_count_full(
                    orows,
                    1,
                    y as int,
                ) + if spec_row_full(orows[y as int]) {
                    1int
                } else {
                    0int
                });
            }
            if board_row_full(&old_b, y) {
                full_count += 1;
            }
        }
        proof {
            lemma_kept_prefix_len(orows, 22);
            assert(spec_clear_count(orows) == full_count as int);
        }

        let mut nb = old_b;
        let empty_row: [ShapeColor; 10] = [ShapeColor::Empty; 10];

        // The vacated rows at the top become empty, and the top buffer row
        // shifts down one step per cleared row.
        let mut y: usize = 0;
        while y < full_count
            invariant
                full_count <= 21,
                y <= full_count,
                forall|p: int| 0 <= p < y ==> nb@[p] == empty_row,
            decreases full_count - y,
        {
            nb[y] = empty_row;
            y += 1;
        }
        nb[full_count] = old_b[0];

        // The surviving rows settle at the bottom, in order.
        let mut w = full_count + 1;
        for y in 1..22usize
            invariant
                full_count as int == spec_count_full(orows, 1, 22),
                full_count <= 21,
                w as int == full_count + 1 + spec_kept_prefix(orows, y as int).len(),
                w <= 22,
                forall|p: int| 0 <= p < full_count ==> nb@[p] == empty_row,
                nb@[full_count as int] == old_b@[0],
                forall|p: int|
                    full_count + 1 <= p < w ==> board_rows(nb)[p] == spec_kept_prefix(
                        orows,
                        y as int,
                    )[p - full_count - 1],
        {
            proof {
                lemma_kept_prefix_step(orows, y as int);
                lemma_kept_prefix_len(orows, y as int);
                lemma_kept_prefix_len(orows, y as int + 1);
                lemma_count_full_split(orows, 1, y as int, 22);
                lemma_count_full_bounds(orows, y as int, 22);
                lemma_count_full_bounds(orows, 1, y as int);
            }
            if !board_row_full(&old_b, y) {
                proof {
                    lemma_count_full_split(orows, y as int, y as int + 1, 22);
                    lemma_count_full_bounds(orows, y as int + 1, 22);
                    assert(spec_count_full(orows, y as int, y as int) == 0);
                    assert(spec_count_full(orows, y as int, y as int + 1) == if spec_row_full(
                        orows[y as int],
                    ) {
                        1int
                    } else {
                        0int
                    });
                    assert(spec_count_full(orows, y as int, 22) == spec_count_full(
                        orows,
                        y as int + 1,
                        22,
                    ));
                    assert(w as int == y + spec_count_full(orows, y as int, 22));
                    assert(w < 22);
                }
                let ghost nb_pre = nb;
                nb[w] = old_b[y];
                proof {
                    assert(nb@ =~= nb_pre@.update(w as int, old_b@[y as int]));
                    assert(board_rows(nb)[w as int] =~= orows[y as int]);
                    assert forall|p: int| full_count + 1 <= p < w + 1 implies board_rows(nb)[p]
                        == spec_kept_prefix(orows, y as int + 1)[p - full_count - 1] by {
                        if p < w {
                            assert(board_rows(nb)[p] =~= board_rows(nb_pre)[p]);
                        }
                    }
                }
                w += 1;
            }
        }

        proof {
            lemma_kept_prefix_len(orows, 22);
            assert(w == 22);
            assert forall|p: int| 0 <= p < 22 implies board_rows(nb)[p] == spec_cleared_board(
                orows,
            )[p] by {
                if p < full_count {
                    assert(board_rows(nb)[p] =~= spec_empty_row());
                } else if p == full_count {
                    assert(board_rows(nb)[p] =~= orows[0]);
                }
            }
            assert(board_rows(nb) =~= spec_cleared_board(orows));
        }

        self.board = nb;
        self.score = self.score + 100 * (full_count as i32);
        full_count
    }

    /// Moves the player to starting position.
    pub fn player_to_top(&mut self)
        ensures
            final(self).spec_at_spawn(),
            final(self).current_shape == old(self).current_shape,
            final(self).board == old(self).board,
            final(self).score == old(self).score,
            final(self).held == old(self).held,
            final(self).shape_queue == old(self).shape_queue,
            final(self).just_held == old(self).just_held,
            final(self).game_phase == old(self).game_phase,
    {
        // Set new positions
        let new_pos = self.current_shape.get_spawn_offsets();
        let new_rot = Rotation::R0;

        self.player_pos = new_pos;
        self.rotation = new_rot;
    }

    /// Gets the next shape from the queue and extends the queue with a
    /// fresh bag when fewer than seven entries would remain.
    #[verifier::loop_isolation(false)]
    pub fn get_next_shape(&mut self) -> (sh: Shape)
        requires
            old(self).wf(),
        ensures
            final(self).wf(),
            sh == old(self).shape_queue@[0],
            final(self).shape_queue@.len() >= 7,
            final(self).shape_queue@.subrange(0, old(self).shape_queue@.len() - 1)
                == old(self).shape_queue@.skip(1),
            old(self).shape_queue@.len() > 7
                ==> final(self).shape_queue@ == old(self).shape_queue@.skip(1),
            old(self).shape_queue@.len() == 7 ==> final(self).shape_queue@.len() == 13
                && final(self).shape_queue@.skip(6).no_duplicates() && (forall|s2: Shape|
                final(self).shape_queue@.skip(6).contains(s2)),
            final(self).board == old(self).board,
            final(self).player_pos == old(self).player_pos,
            final(self).current_shape == old(self).current_shape,
            final(self).rotation == old(self).rotation,
            final(self).score == old(self).score,
            final(self).held == old(self).held,
            final(self).just_held == old(self).just_held,
            final(self).game_phase == old(self).game_phase,
    {
        let ghost oq = self.shape_queue@;

        // Take the front of the queue
        let new_shape = self.shape_queue.remove(0);
        proof {
            assert(self.shape_queue@ =~= oq.skip(1));
        }

        // If queue is less then 7, add a new 7bag
        if self.shape_queue.len() < 7 {
            let ghost tail = self.shape_queue@;
            let new_bag = create_new_7_bag();
            for k in 0..7usize
                invariant
                    self.shape_queue@ == tail + new_bag@.subrange(0, k as int),
                    self.board == old(self).board,
                    self.player_pos == old(self).player_pos,
                    self.current_shape == old(self).current_shape,
                    self.rotation == old(self).rotation,
                    self.score == old(self).score,
                    self.held == old(self).held,
                    self.just_held == old(self).just_held,
                    self.game_phase == old(self).game_phase,
            {
                proof {
                    assert(tail + new_bag@.subrange(0, k as int + 1) =~= (tail + new_bag@.subrange(
                        0,
                        k as int,
                    )).push(new_bag@[k as int]));
                }
                self.shape_queue.push(new_bag[k]);
            }
            proof {
                assert(new_bag@.subrange(0, 7) =~= new_bag@);
                assert(self.shape_queue@.skip(6) =~= new_bag@);
                assert(self.shape_queue@.subrange(0, oq.len() - 1) =~= oq.skip(1));
            }
        } else {
            proof {
                assert(self.shape_queue@.subrange(0, oq.len() - 1) =~= oq.skip(1));
            }
        }

        new_shape
    }

    /// Swaps in the next queued piece and returns it to the spawn position.
    fn reset_player_piece(&mut self)
        requires
            old(self).wf(),
        ensures
            final(self).wf(),
            final(self).current_shape == old(self).shape_queue@[0],
            final(self).spec_at_spawn(),
            final(self).shape_queue@.subrange(0, old(self).shape_queue@.len() - 1)
                == old(self).shape_queue@.skip(1),
            final(self).board == old(self).board,
            final(self).score == old(self).score,
            final(self).held == old(self).held,
            final(self).just_held == old(self).just_held,
            final(self).game_phase == old(self).game_phase,
    {
        // New piece and reset position
        self.current_shape = self.get_next_shape();
        self.player_to_top();
    }

    /// Moves the player to the left or right. Vertical directions are
    /// silently ignored, as is any movement after the game has ended.
    pub fn move_player_horizontal(&mut self, dir: Direction)
        ensures
            final(self).board == old(self).board,
            final(self).current_shape == old(self).current_shape,
            final(self).rotation == old(self).rotation,
            final(self).score == old(self).score,
            final(self).held == old(self).held,
            final(self).shape_queue == old(self).shape_queue,
            final(self).just_held == old(self).just_held,
            final(self).game_phase == old(self).game_phase,
            final(self).player_pos.y == old(self).player_pos.y,
            (dir is Up || dir is Down || !(old(self).game_phase is Playing))
                ==> final(self).player_pos.x == old(self).player_pos.x,
            ((dir is Left || dir is Right) && old(self).game_phase is Playing)
                ==> final(self).player_pos.x as int == if spec_can_place(
                old(self).rows(),
                old(self).current_shape,
                old(self).rotation,
                old(self).player_pos.x as int + spec_dir_value(dir),
                old(self).player_pos.y as int,
            ) {
                old(self).player_pos.x as int + spec_dir_value(dir)
            } else {
                old(self).player_pos.x as int
            },
    {
        // Once the game is over the piece no longer moves
        if !(self.game_phase == GamePhase::Playing) {
            return ;
        }

        // Horizontal only
        match dir {
            Direction::Up | Direction::Down => {
                return ;
            },
            _ => {},
        }

        // Get new position, widened so any anchor is safe
        let nx: i32 = self.player_pos.x as i32 + dir.to_value() as i32;
        if nx < i16::MIN as i32 || nx > i16::MAX as i32 {
            // The shifted anchor pushes every occupied cell out of bounds.
            proof {
                lemma_mask_nonempty(self.current_shape, self.rotation);
            }
            return ;
        }
        let new_pos = Coord { x: nx as i16, y: self.player_pos.y };

        // Determine if piece can be moved
        if !self.can_place(&self.current_shape, &self.rotation, &new_pos) {
            return ;
        }

        // Move piece
        self.player_pos.x = new_pos.x;
    }

    /// Attempts to move the player down one tile, returns false on fail.
    pub fn fall_player(&mut self) -> (fell: bool)
        ensures
            final(self).board == old(self).board,
            final(self).current_shape == old(self).current_shape,
            final(self).rotation == old(self).rotation,
            final(self).score == old(self).score,
            final(self).held == old(self).held,
            final(self).shape_queue == old(self).shape_queue,
            final(self).just_held == old(self).just_held,
            final(self).game_phase == old(self).game_phase,
            final(self).player_pos.x == old(self).player_pos.x,
            !(old(self).game_phase is Playing)
                ==> !fell && final(self).player_pos.y == old(self).player_pos.y,
            old(self).game_phase is Playing ==> fell == spec_can_place(
                old(self).rows(),
                old(self).current_shape,
                old(self).rotation,
                old(self).player_pos.x as int,
                old(self).player_pos.y as int + 1,
            ) && final(self).player_pos.y as int == if fell {
                old(self).player_pos.y as int + 1
            } else {
                old(self).player_pos.y as int
            },
    {
        // Once the game is over the piece no longer falls
        if !(self.game_phase == GamePhase::Playing) {
            return false;
        }

        // Get new position, widened so any anchor is safe
        let ny: i32 = self.player_pos.y as i32 + 1;
        if ny > i16::MAX as i32 {
            // The lowered anchor pushes every occupied cell out of bounds.
            proof {
                lemma_mask_nonempty(self.current_shape, self.rotation);
            }
            return false;
        }
        let new_pos = Coord { x: self.player_pos.x, y: ny as i16 };

        // Try to move down
        if !self.can_place(&self.current_shape, &self.rotation, &new_pos) {
            return false;
        }

        // Move player
        self.player_pos.y = new_pos.y;
        true
    }

    /// Attempts to rotate the player.
    ///
    /// Up and down are the only directions acted on and are interpreted
    /// as clockwise and counter-clockwise respectively; the five kick
    /// offsets for the transition are tried strictly in order and the
    /// first that fits is committed. Horizontal directions, a finished
    /// game, or five misses all leave the state unchanged.
    #[verifier::loop_isolation(false)]
    pub fn rotate_player(&mut self, dir: Direction)
        ensures
            final(self).board == old(self).board,
            final(self).current_shape == old(self).current_shape,
            final(self).score == old(self).score,
            final(self).held == old(self).held,
            final(self).shape_queue == old(self).shape_queue,
            final(self).just_held == old(self).just_held,
            final(self).game_phase == old(self).game_phase,
            (dir is Left || dir is Right || !(old(self).game_phase is Playing))
                ==> *final(self) == *old(self),
            ((dir is Up || dir is Down) && old(self).game_phase is Playing) ==> ({
                let to = if dir is Up {
                    spec_cw(old(self).rotation)
                } else {
                    spec_ccw(old(self).rotation)
                };
                let f = spec_first_kick(*old(self), to, 0);
                &&& f == 5 ==> final(self).player_pos == old(self).player_pos
                    && final(self).rotation == old(self).rotation
                &&& f < 5 ==> final(self).rotation == to
                    && final(self).player_pos.x as int == old(self).player_pos.x as int
                    + spec_kicks(old(self).current_shape, old(self).rotation, to)[f].0
                    && final(self).player_pos.y as int == old(self).player_pos.y as int
                    + spec_kicks(old(self).current_shape, old(self).rotation, to)[f].1
            }),
    {
        // Once the game is over the piece no longer rotates
        if !(self.game_phase == GamePhase::Playing) {
            return ;
        }

        // Get new rotation; horizontal directions are not rotations
        let new_rot = match dir {
            Direction::Up => self.rotation.rotate_cw(),
            Direction::Down => self.rotation.rotate_ccw(),
            _ => {
                return ;
            },
        };
        let ghost st0 = *self;
        let ghost to = new_rot;
        let offsets = self.current_shape.get_kick_data(&self.rotation, &new_rot);

        // Iterate each offset
        let mut i: usize = 0;
        while i < 5
            invariant
                0 <= i <= 5,
                *self == st0,
                forall|k: int| 0 <= k < i ==> !spec_kick_fits(st0, to, k),
            decreases 5 - i,
        {
            // Calculate new position, widened so any anchor is safe
            let nx: i32 = self.player_pos.x as i32 + offsets[i].0 as i32;
            let ny: i32 = self.player_pos.y as i32 + offsets[i].1 as i32;

            if i16::MIN as i32 <= nx && nx <= i16::MAX as i32 && i16::MIN as i32 <= ny && ny
                <= i16::MAX as i32 {
                let new_pos = Coord { x: nx as i16, y: ny as i16 };

                // Attempt placement
                if self.can_place(&self.current_shape, &new_rot, &new_pos) {
                    // Placement possible!
                    proof {
                        lemma_first_kick_from(st0, to, 0, i as int);
                    }
                    self.player_pos = new_pos;
                    self.rotation = new_rot;
                    return ;
                }
            } else {
                // The kicked anchor pushes every occupied cell out of
                // bounds, so this candidate cannot fit.
                proof {
                    lemma_mask_nonempty(self.current_shape, new_rot);
                }
            }
            i += 1;
        }
        proof {
            lemma_first_kick_from(st0, to, 0, 5);
        }
    }

    /// Swaps the player with the held piece. A piece already swapped in
    /// since the last lock cannot be swapped again; when nothing is held
    /// yet, the replacement comes from the queue instead.
    pub fn hold(&mut self)
        requires
            old(self).wf(),
        ensures
            final(self).wf(),
            old(self).just_held ==> *final(self) == *old(self),
            !old(self).just_held ==> {
                &&& final(self).just_held == true
                &&& final(self).held == Some(old(self).current_shape)
                &&& final(self).current_shape == if old(self).held is Some {
                    old(self).held->0
                } else {
                    old(self).shape_queue@[0]
                }
                &&& final(self).spec_at_spawn()
                &&& final(self).board == old(self).board
                &&& final(self).score == old(self).score
                &&& final(self).game_phase == old(self).game_phase
                &&& (old(self).held is Some ==> final(self).shape_queue == old(self).shape_queue)
                &&& (old(self).held is None ==> final(self).shape_queue@.len() >= 7
                    && final(self).shape_queue@.subrange(0, old(self).shape_queue@.len() - 1)
                    == old(self).shape_queue@.skip(1))
            },
    {
        // No double hold
        if self.just_held {
            return ;
        }

        // Swap shape and held; an empty hold slot draws from the supply
        let temp = self.current_shape;
        match self.held {
            Some(h) => {
                self.current_shape = h;
            },
            None => {
                let fresh = self.get_next_shape();
                self.current_shape = fresh;
            },
        }
        self.held = Some(temp);
        self.player_to_top();

        // Set held
        self.just_held = true;
    }

    /// Whether the piece mask, anchored at column `player_pos.x` and row
    /// `y`, would collide with the floor or a settled block one row down.
    #[verifier::loop_isolation(false)]
    fn blocked_below(&self, shape: &[[bool; 4]; 4], y: i32) -> (r: bool)
        requires
            -40000 <= y <= 40000,
            forall|dy: int, dx: int|
                0 <= dy < 4 && 0 <= dx < 4 && shape@[dy]@[dx] ==> 0 <= self.player_pos.x as int
                    + dx < 10,
        ensures
            r == spec_blocked_below(self.rows(), *shape, self.player_pos.x as int, y as int),
    {
        for dx in 0..4usize
            invariant
                forall|dy0: int, dx0: int|
                    0 <= dy0 < 4 && 0 <= dx0 < dx && shape@[dy0]@[dx0] ==> !(y + dy0 + 1 >= 22 || (
                    y + dy0 + 1 >= 0 && spec_occupied(
                        self.rows(),
                        y + dy0 + 1,
                        self.player_pos.x as int + dx0,
                    ))),
        {
            for dy in 0..4usize
                invariant
                    dx < 4,
                    forall|dy0: int, dx0: int|
                        0 <= dy0 < 4 && 0 <= dx0 < dx && shape@[dy0]@[dx0] ==> !(y + dy0 + 1 >= 22
                            || (y + dy0 + 1 >= 0 && spec_occupied(
                            self.rows(),
                            y + dy0 + 1,
                            self.player_pos.x as int + dx0,
                        ))),
                    forall|dy0: int|
                        0 <= dy0 < dy && shape@[dy0]@[dx as int] ==> !(y + dy0 + 1 >= 22 || (y
                            + dy0 + 1 >= 0 && spec_occupied(
                            self.rows(),
                            y + dy0 + 1,
                            self.player_pos.x as int + dx as int,
                        ))),
            {
                if shape[dy][dx] {
                    let yy: i32 = y + dy as i32 + 1;

                    // Stop if the tile would collide with the bottom
                    if yy >= 22 {
                        return true;
                    }
                    // ... or with a settled tile
                    if yy >= 0 {
                        let xx: i32 = self.player_pos.x as i32 + dx as i32;
                        if self.board[yy as usize][xx as usize].is_block() {
                            proof {
                                assert(spec_occupied(
                                    self.rows(),
                                    y + dy as int + 1,
                                    self.player_pos.x as int + dx as int,
                                ));
                            }
                            return true;
                        }
                    }
                }
            }
        }
        false
    }

    /// Determines the drop height of the current shape: the anchor keeps
    /// falling from its current row until the next step would collide.
    #[verifier::loop_isolation(false)]
    pub fn get_drop_position(&self, shape: &[[bool; 4]; 4]) -> (drop_y: i16)
        requires
            exists|dy: int, dx: int| 0 <= dy < 4 && 0 <= dx < 4 && shape@[dy]@[dx],
            forall|dy: int, dx: int|
                0 <= dy < 4 && 0 <= dx < 4 && shape@[dy]@[dx] ==> 0 <= self.player_pos.x as int
                    + dx < 10,
        ensures
            drop_y as int >= self.player_pos.y as int,
            spec_blocked_below(self.rows(), *shape, self.player_pos.x as int, drop_y as int),
            forall|yy: int|
                self.player_pos.y as int <= yy < drop_y as int ==> !spec_blocked_below(
                    self.rows(),
                    *shape,
                    self.player_pos.x as int,
                    yy,
                ),
    {
        let mut ghost_y: i32 = self.player_pos.y as i32;  // Starting y
        let mut blocked = self.blocked_below(shape, ghost_y);
        while !blocked
            invariant
                self.player_pos.y as i32 <= ghost_y,
                ghost_y <= 22 || ghost_y == self.player_pos.y as i32,
                blocked == spec_blocked_below(
                    self.rows(),
                    *shape,
                    self.player_pos.x as int,
                    ghost_y as int,
                ),
                forall|yy: int|
                    self.player_pos.y as int <= yy < ghost_y as int ==> !spec_blocked_below(
                        self.rows(),
                        *shape,
                        self.player_pos.x as int,
                        yy,
                    ),
            decreases 30 - ghost_y,
        {
            proof {
                let (dy0, dx0) = choose|dy0: int, dx0: int|
                    0 <= dy0 < 4 && 0 <= dx0 < 4 && shape@[dy0]@[dx0];
                if ghost_y + dy0 + 1 >= 22 {
                    assert(spec_blocked_below(
                        self.rows(),
                        *shape,
                        self.player_pos.x as int,
                        ghost_y as int,
                    ));
                }
                assert(ghost_y <= 20);
            }
            ghost_y = ghost_y + 1;
            blocked = self.blocked_below(shape, ghost_y);
        }
        ghost_y as i16
    }

    /// Drops the player onto the ghost block: the piece teleports to its
    /// drop position and locks there at once.
    pub fn hard_drop(&mut self)
        requires
            old(self).wf(),
            old(self).score <= i32::MAX - 2100,
            forall|dy: int, dx: int|
                0 <= dy < 4 && 0 <= dx < 4 && mask_at(
                    old(self).current_shape,
                    old(self).rotation,
                    dy,
                    dx,
                ) ==> 0 <= old(self).player_pos.x as int + dx < 10,
        ensures
            ({
                let st = *old(self);
                let dy_f = spec_drop_y(st);
                let crows = spec_commit(
                    st.rows(),
                    st.current_shape,
                    st.rotation,
                    st.player_pos.x as int,
                    dy_f,
                    spec_color_of(st.current_shape),
                );
                &&& final(self).wf()
                &&& final(self).rows() == spec_cleared_board(crows)
                &&& final(self).score == st.score + 100 * spec_clear_count(crows)
                &&& final(self).just_held == false
                &&& final(self).held == st.held
                &&& final(self).current_shape == st.shape_queue@[0]
                &&& final(self).spec_at_spawn()
                &&& final(self).shape_queue@.len() >= 7
                &&& final(self).shape_queue@.subrange(0, st.shape_queue@.len() - 1)
                    == st.shape_queue@.skip(1)
                &&& final(self).game_phase == if spec_can_place(
                    st.rows(),
                    st.current_shape,
                    st.rotation,
                    st.player_pos.x as int,
                    dy_f,
                ) && spec_can_place(
                    spec_cleared_board(crows),
                    st.shape_queue@[0],
                    Rotation::R0,
                    spec_spawn_x(st.shape_queue@[0]),
                    spec_spawn_y(st.shape_queue@[0]),
                ) {
                    st.game_phase
                } else {
                    GamePhase::GameOver
                }
            }),
    {
        // get new drop height
        let shape = self.current_shape.get_shape(&self.rotation);
        proof {
            lemma_mask_nonempty(self.current_shape, self.rotation);
            let (dy0, dx0) = choose|dy0: int, dx0: int|
                0 <= dy0 < 4 && 0 <= dx0 < 4 && mask_at(
                    self.current_shape,
                    self.rotation,
                    dy0,
                    dx0,
                );
            assert(shape@[dy0]@[dx0]);
            assert forall|dy: int, dx: int|
                0 <= dy < 4 && 0 <= dx < 4 && shape@[dy]@[dx] implies 0 <= self.player_pos.x as int
                + dx < 10 by {
                assert(mask_at(self.current_shape, self.rotation, dy, dx));
            }
            assert forall|yy: int|
                spec_blocked_below(self.rows(), shape, self.player_pos.x as int, yy)
                    == spec_piece_blocked_below(*self, yy) by {
                if spec_blocked_below(self.rows(), shape, self.player_pos.x as int, yy) {
                    let (dy1, dx1) = choose|dy1: int, dx1: int|
                        0 <= dy1 < 4 && 0 <= dx1 < 4 && shape@[dy1]@[dx1] && (yy + dy1 + 1 >= 22
                            || (yy + dy1 + 1 >= 0 && spec_occupied(
                            self.rows(),
                            yy + dy1 + 1,
                            self.player_pos.x as int + dx1,
                        )));
                    assert(mask_at(self.current_shape, self.rotation, dy1, dx1));
                    assert(spec_piece_blocked_below(*self, yy));
                }
                if spec_piece_blocked_below(*self, yy) {
                    let (dy1, dx1) = choose|dy1: int, dx1: int|
                        0 <= dy1 < 4 && 0 <= dx1 < 4 && mask_at(
                            self.current_shape,
                            self.rotation,
                            dy1,
                            dx1,
                        ) && (yy + dy1 + 1 >= 22 || (yy + dy1 + 1 >= 0 && spec_occupied(
                            self.rows(),
                            yy + dy1 + 1,
                            self.player_pos.x as int + dx1,
                        )));
                    assert(shape@[dy1]@[dx1]);
                    assert(spec_blocked_below(
                        self.rows(),
                        shape,
                        self.player_pos.x as int,
                        yy,
                    ));
                }
            }
        }
        let drop_y = self.get_drop_position(&shape);
        proof {
            lemma_drop_y_from(*self, self.player_pos.y as int, drop_y as int);
        }

        // Change player position and place
        self.player_pos.y = drop_y;
        self.place_and_reset();
    }

    /// Places and resets the player: the piece locks where it is, full
    /// rows clear, and the next queued piece spawns; the phase falls to
    /// GameOver when the lock position or the fresh spawn is blocked.
    pub fn place_and_reset(&mut self)
        requires
            old(self).wf(),
            old(self).score <= i32::MAX - 2100,
        ensures
            final(self).wf(),
            final(self).rows() == spec_cleared_board(old(self).spec_committed_rows()),
            final(self).score == old(self).score + 100 * spec_clear_count(
                old(self).spec_committed_rows(),
            ),
            final(self).just_held == false,
            final(self).held == old(self).held,
            final(self).current_shape == old(self).shape_queue@[0],
            final(self).spec_at_spawn(),
            final(self).shape_queue@.len() >= 7,
            final(self).shape_queue@.subrange(0, old(self).shape_queue@.len() - 1)
                == old(self).shape_queue@.skip(1),
            final(self).game_phase == if old(self).spec_place_ok() && spec_can_place(
                spec_cleared_board(old(self).spec_committed_rows()),
                old(self).shape_queue@[0],
                Rotation::R0,
                spec_spawn_x(old(self).shape_queue@[0]),
                spec_spawn_y(old(self).shape_queue@[0]),
            ) {
                old(self).game_phase
            } else {
                GamePhase::GameOver
            },
    {
        self.place_player();
        self.reset_player_piece();

        // Determine if moving player to top is game loss
        if !self.can_place(&self.current_shape, &self.rotation, &self.player_pos) {
            self.game_phase = GamePhase::GameOver;
        }
    }
}

/// Creates a new 7 bag: each of the seven kinds exactly once, in an order
/// drawn at random.
pub fn create_new_7_bag() -> (bag: [Shape; 7])
    ensures
        bag@.no_duplicates(),
        forall|sh: Shape| bag@.contains(sh),
{
    let mut bag: [Shape; 7] = [
        Shape::I,
        Shape::J,
        Shape::L,
        Shape::O,
        Shape::Z,
        Shape::T,
        Shape::S,
    ];
    proof {
        assert forall|sh: Shape| bag@.contains(sh) by {
            match sh {
                Shape::I => assert(bag@[0] == sh),
                Shape::J => assert(bag@[1] == sh),
                Shape::L => assert(bag@[2] == sh),
                Shape::O => assert(bag@[3] == sh),
                Shape::Z => assert(bag@[4] == sh),
                Shape::T => assert(bag@[5] == sh),
                Shape::S => assert(bag@[6] == sh),
            }
        }
    }

    // Shuffle: swap each slot, from the last down, with a uniformly random
    // slot at or before it.
    let mut i: usize = 6;
    while i >= 1
        invariant
            i <= 6,
            bag@.no_duplicates(),
            forall|sh: Shape| bag@.contains(sh),
        decreases i,
    {
        let j = crate::shapes::random_below((i + 1) as u8) as usize;
        let ghost pre = bag@;

        let tmp = bag[i];
        bag[i] = bag[j];
        bag[j] = tmp;

        proof {
            assert forall|p: int| 0 <= p < 7 implies bag@[p] == pre[swap_idx(p, i as int, j as int)]
            by {}
            assert forall|sh: Shape| bag@.contains(sh) by {
                assert(pre.contains(sh));
                let k = choose|k: int| 0 <= k < pre.len() && pre[k] == sh;
                assert(0 <= swap_idx(k, i as int, j as int) < 7);
                assert(bag@[swap_idx(k, i as int, j as int)] == sh);
            }
        }
        i -= 1;
    }
    bag
}

/// Whether an occupied cell of mask `m` anchored at column `px`, row `y`,
/// would hit the floor or a settled block one step further down.
pub open spec fn spec_blocked_below(
    rows: Seq<Seq<ShapeColor>>,
    m: [[bool; 4]; 4],
    px: int,
    y: int,
) -> bool {
    exists|dy: int, dx: int|
        0 <= dy < 4 && 0 <= dx < 4 && m@[dy]@[dx] && (y + dy + 1 >= 22 || (y + dy + 1 >= 0
            && spec_occupied(rows, y + dy + 1, px + dx)))
}

/// The same floor-or-block test for the active piece's own mask.
pub open spec fn spec_piece_blocked_below(st: GameState, y: int) -> bool {
    exists|dy: int, dx: int|
        0 <= dy < 4 && 0 <= dx < 4 && mask_at(st.current_shape, st.rotation, dy, dx) && (y + dy + 1
            >= 22 || (y + dy + 1 >= 0 && spec_occupied(
            st.rows(),
            y + dy + 1,
            st.player_pos.x as int + dx,
        )))
}

/// The first anchor row at or below `y` from which the active piece can
/// fall no further.
pub open spec fn spec_drop_y_from(st: GameState, y: int) -> int
    decreases (if y < 22 {
        22 - y
    } else {
        0
    }),
{
    if y >= 22 {
        y
    } else if spec_piece_blocked_below(st, y) {
        y
    } else {
        spec_drop_y_from(st, y + 1)
    }
}

/// The anchor row where a hard drop lands the active piece.
pub open spec fn spec_drop_y(st: GameState) -> int {
    spec_drop_y_from(st, st.player_pos.y as int)
}

/// A scan that found no obstruction strictly between `lo` and `y` and an
/// obstruction at `y` pins down the drop row.
proof fn lemma_drop_y_from(st: GameState, lo: int, y: int)
    requires
        lo <= y,
        spec_piece_blocked_below(st, y),
        forall|yy: int| lo <= yy < y ==> !spec_piece_blocked_below(st, yy),
        exists|dy: int, dx: int|
            0 <= dy < 4 && 0 <= dx < 4 && mask_at(st.current_shape, st.rotation, dy, dx),
    ensures
        spec_drop_y_from(st, lo) == y,
    decreases y - lo,
{
    if lo < y {
        let (dy0, dx0) = choose|dy0: int, dx0: int|
            0 <= dy0 < 4 && 0 <= dx0 < 4 && mask_at(st.current_shape, st.rotation, dy0, dx0);
        assert(!spec_piece_blocked_below(st, lo));
        if lo >= 21 {
            assert(lo + dy0 + 1 >= 22);
            assert(spec_piece_blocked_below(st, lo));
        }
        assert(lo < 22);
        lemma_drop_y_from(st, lo + 1, y);
    }
}

/// The horizontal or vertical displacement a direction stands for.
pub open spec fn spec_dir_value(d: Direction) -> int {
    match d {
        Direction::Left => -1,
        Direction::Right => 1,
        Direction::Up => -1,
        Direction::Down => 1,
    }
}

/// Whether kick candidate `i` of the transition to `to` gives the active
/// piece a legal position.
pub open spec fn spec_kick_fits(st: GameState, to: Rotation, i: int) -> bool {
    spec_can_place(
        st.rows(),
        st.current_shape,
        to,
        st.player_pos.x as int + spec_kicks(st.current_shape, st.rotation, to)[i].0,
        st.player_pos.y as int + spec_kicks(st.current_shape, st.rotation, to)[i].1,
    )
}

/// The index of the first kick candidate at or after `i` that fits, or 5
/// when none of the remaining candidates does.
pub open spec fn spec_first_kick(st: GameState, to: Rotation, i: int) -> int
    decreases 5 - i,
{
    if i < 0 || i >= 5 {
        5
    } else if spec_kick_fits(st, to, i) {
        i
    } else {
        spec_first_kick(st, to, i + 1)
    }
}

/// A scan that rejected every candidate before `i` and accepts `i` (or
/// ran out at 5) pins down the first fitting candidate.
proof fn lemma_first_kick_from(st: GameState, to: Rotation, j: int, i: int)
    requires
        0 <= j <= i <= 5,
        forall|k: int| j <= k < i ==> !spec_kick_fits(st, to, k),
        i == 5 || spec_kick_fits(st, to, i),
    ensures
        spec_first_kick(st, to, j) == i,
    decreases i - j,
{
    if j < i {
        lemma_first_kick_from(st, to, j + 1, i);
    }
}

/// Determines if the tile at board column `x`, row `y` overlaps an
/// occupied cell of the player piece anchored at (`px`, `py`).
pub fn is_player_tile(x: i16, y: i16, px: i16, py: i16, shape: &[[bool; 4]; 4]) -> (r: bool)
    ensures
        r == (px as int <= x as int && (x as int) < px as int + 4 && py as int <= y as int
            && (y as int) < py as int + 4 && shape@[y as int - py as int]@[x as int - px as int]),
{
    // Widened, so any coordinates are safe
    let xi: i32 = x as i32;
    let yi: i32 = y as i32;
    let pxi: i32 = px as i32;
    let pyi: i32 = py as i32;
    if xi >= pxi && xi < pxi + 4 && yi >= pyi && yi < pyi + 4 {
        let local_x = (xi - pxi) as usize;
        let local_y = (yi - pyi) as usize;
        shape[local_y][local_x]
    } else {
        false
    }
}

/// Determines if the tile at board column `x`, row `y` overlaps the ghost
/// preview of the piece anchored at column `gx` and drop row `py`.
#[verifier::loop_isolation(false)]
pub fn is_ghost_tile(x: usize, y: usize, gx: i16, py: i16, shape: &[[bool; 4]; 4]) -> (r: bool)
    ensures
        r == exists|dy: int, dx: int|
            0 <= dy < 4 && 0 <= dx < 4 && shape@[dy]@[dx] && gx as int + dx == x as int
                && py as int + dy == y as int,
{
    for dy in 0..4usize
        invariant
            forall|dy0: int, dx0: int|
                0 <= dy0 < dy && 0 <= dx0 < 4 && shape@[dy0]@[dx0] ==> !(gx as int + dx0
                    == x as int && py as int + dy0 == y as int),
    {
        for dx in 0..4usize
            invariant
                dy < 4,
                forall|dy0: int, dx0: int|
                    0 <= dy0 < dy && 0 <= dx0 < 4 && shape@[dy0]@[dx0] ==> !(gx as int + dx0
                        == x as int && py as int + dy0 == y as int),
                forall|dx0: int|
                    0 <= dx0 < dx && shape@[dy as int]@[dx0] ==> !(gx as int + dx0 == x as int
                        && py as int + dy as int == y as int),
        {
            if shape[dy][dx] {
                let gxx: i64 = gx as i64 + dx as i64;
                let gyy: i64 = py as i64 + dy as i64;

                if x as u64 <= i64::MAX as u64 && gxx == x as i64 && y as u64 <= i64::MAX as u64
                    && gyy == y as i64 {
                    return true;
                }
            }
        }
    }
    false
}

/// A prefix with no full row filters to itself.
proof fn lemma_kept_prefix_all_nonfull(rows: Seq<Seq<ShapeColor>>, y: int)
    requires
        rows.len() == 22,
        1 <= y <= 22,
        forall|z: int| 1 <= z < y ==> !spec_row_full(rows[z]),
    ensures
        spec_kept_prefix(rows, y) == rows.subrange(1, y),
    decreases y,
{
    reveal(Seq::filter);
    if y == 1 {
        assert(rows.subrange(1, 1) =~= Seq::<Seq<ShapeColor>>::empty());
        assert(spec_kept_prefix(rows, 1) =~= rows.subrange(1, 1));
    } else {
        lemma_kept_prefix_all_nonfull(rows, y - 1);
        lemma_kept_prefix_step(rows, y - 1);
        assert(spec_kept_prefix(rows, y) =~= rows.subrange(1, y));
    }
}

/// With `r` the only full row seen so far, the filtered prefix is the
/// original prefix with row `r` left out.
proof fn lemma_kept_prefix_after(rows: Seq<Seq<ShapeColor>>, r: int, y: int)
    requires
        rows.len() == 22,
        1 <= r < y <= 22,
        spec_row_full(rows[r]),
        forall|z: int| 1 <= z < y && z != r ==> !spec_row_full(rows[z]),
    ensures
        spec_kept_prefix(rows, y) == rows.subrange(1, r) + rows.subrange(r + 1, y),
    decreases y,
{
    if y == r + 1 {
        lemma_kept_prefix_all_nonfull(rows, r);
        lemma_kept_prefix_step(rows, r);
        assert(spec_kept_prefix(rows, y) =~= rows.subrange(1, r) + rows.subrange(r + 1, y));
    } else {
        lemma_kept_prefix_after(rows, r, y - 1);
        lemma_kept_prefix_step(rows, y - 1);
        assert(spec_kept_prefix(rows, y) =~= rows.subrange(1, r) + rows.subrange(r + 1, y));
    }
}

/// Clearing a board whose only full row is `r` removes exactly that row:
/// one row clears, every row above `r` — the hidden buffer row included —
/// shifts down one step, row 0 becomes empty, and every row below `r`
/// keeps its contents.
pub proof fn lemma_clear_single_full_row(rows: Seq<Seq<ShapeColor>>, r: int)
    requires
        rows.len() == 22,
        2 <= r <= 21,
        spec_row_full(rows[r]),
        forall|y: int| 1 <= y <= 21 && y != r ==> !spec_row_full(rows[y]),
    ensures
        spec_clear_count(rows) == 1,
        forall|x: int| 0 <= x < 10 ==> ((#[trigger] spec_cleared_board(rows)[0][x]) is Empty),
        forall|j: int| 1 <= j <= r ==> spec_cleared_board(rows)[j] == rows[j - 1],
        forall|y: int| r < y < 22 ==> spec_cleared_board(rows)[y] == rows[y],
{
    lemma_kept_prefix_after(rows, r, 22);
    let kept = spec_kept_rows(rows);
    assert(kept.len() == 20);
    assert(spec_clear_count(rows) == 1);
    assert(spec_cleared_board(rows)[0] == spec_empty_row());
    assert forall|j: int| 1 <= j <= r implies spec_cleared_board(rows)[j] == rows[j - 1] by {
        if j >= 2 {
            assert(spec_cleared_board(rows)[j] == kept[j - 2]);
            assert(kept[j - 2] == rows.subrange(1, r)[j - 2]);
            assert(rows.subrange(1, r)[j - 2] == rows[j - 1]);
        }
    }
    assert forall|y: int| r < y < 22 implies spec_cleared_board(rows)[y] == rows[y] by {
        assert(spec_cleared_board(rows)[y] == kept[y - 2]);
        assert(kept[y - 2] == rows.subrange(r + 1, 22)[y - 2 - (r - 1)]);
        assert(rows.subrange(r + 1, 22)[y - r - 1] == rows[y]);
    }
}

/// A clearing pass removes between zero and twenty-one rows, so the
/// score never decreases and one lock adds at most 2100 points.
pub proof fn lemma_clear_count_bounds(rows: Seq<Seq<ShapeColor>>)
    requires
        rows.len() == 22,
    ensures
        0 <= spec_clear_count(rows) <= 21,
{
    lemma_kept_prefix_len(rows, 22);
}

/// Rotation resolution is deterministic and order-preserving: with the
/// unshifted candidate blocked and the next candidate free, the second
/// candidate is the one selected, and when no candidate fits the scan
/// reports that none does, leaving the piece untouched.
pub proof fn lemma_kick_resolution_order(st: GameState, to: Rotation)
    ensures
        !spec_kick_fits(st, to, 0) && spec_kick_fits(st, to, 1) ==> spec_first_kick(st, to, 0)
            == 1,
        (forall|i: int| 0 <= i < 5 ==> !spec_kick_fits(st, to, i)) ==> spec_first_kick(st, to, 0)
            == 5,
{
    if !spec_kick_fits(st, to, 0) && spec_kick_fits(st, to, 1) {
        lemma_first_kick_from(st, to, 0, 1);
    }
    if forall|i: int| 0 <= i < 5 ==> !spec_kick_fits(st, to, i) {
        lemma_first_kick_from(st, to, 0, 5);
    }
}

/// Where the element at `p` comes from after the slots `i` and `j` swap.
spec fn swap_idx(p: int, i: int, j: int) -> int {
    if p == i {
        j
    } else if p == j {
        i
    } else {
        p
    }
}

} // verus!

