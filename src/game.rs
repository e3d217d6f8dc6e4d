use vstd::prelude::*;

use crate::ai::{chosen_moves, fallen, lemma_on_board_anchor, on_board, TetrisBot};
use crate::constants::{GRID_HEIGHT, GRID_WIDTH};
use crate::grid::{
    can_place_on, cell_of, cleared, empty_board, in_bounds, n_cleared, painted, well_shaped, Grid,
    EMPTY_CELL,
};
use crate::moves::{Move, SimpleMove};
use crate::score::Score;
use crate::shapes::{ShapePosition, NUM_COLORS, NUM_SHAPES};

verus! {

/// A piece fresh from the spawn point: its first rotation state, anchored
/// on the top row in the middle column.
pub open spec fn is_spawned(p: ShapePosition) -> bool {
    &&& p.wf()
    &&& p.pos == (0i16, (GRID_WIDTH / 2) as i16)
    &&& p.rotation_index == 0
    &&& p.color_index < NUM_COLORS
}

/// A freshly spawned piece lies on the board.
pub proof fn lemma_spawn_on_board(p: ShapePosition)
    requires
        is_spawned(p),
    ensures
        on_board(p),
{
    assert(p.shape_index < NUM_SHAPES);
}

/// The board of a game whose falling piece `p` lies on board `b`, once a
/// hard drop has brought the piece to rest.
pub open spec fn landed_board(b: Seq<Seq<i32>>, p: ShapePosition) -> Seq<Seq<i32>> {
    let q = fallen(b, p.cells(), p);
    painted(painted(b, p.cells(), EMPTY_CELL), q.cells(), p.color_index as i32)
}

/// Freshly painted cells hold the paint.
proof fn lemma_painted_holds(b: Seq<Seq<i32>>, a: Seq<(i16, i16)>, color: i32)
    requires
        forall|k: int| 0 <= k < a.len() ==> in_bounds(#[trigger] a[k]),
    ensures
        forall|k: int| 0 <= k < a.len() ==> #[trigger] cell_of(painted(b, a, color), a[k]) == color,
{
    assert forall|k: int| 0 <= k < a.len() implies #[trigger] cell_of(painted(b, a, color), a[k])
        == color by {
        let c = a[k];
        assert(in_bounds(c));
        assert(((c.0 as int) as i16, (c.1 as int) as i16) == c);
        assert(a.contains(c));
    }
}

/// Erasing cells that hold `color` and painting them again gives the board back.
proof fn lemma_repaint(b: Seq<Seq<i32>>, a: Seq<(i16, i16)>, color: i32)
    requires
        well_shaped(b),
        forall|k: int| 0 <= k < a.len() ==> in_bounds(#[trigger] a[k]) && cell_of(b, a[k]) == color,
    ensures
        painted(painted(b, a, EMPTY_CELL), a, color) == b,
{
    let r = painted(painted(b, a, EMPTY_CELL), a, color);
    assert forall|i: int, j: int| 0 <= i < GRID_HEIGHT && 0 <= j < GRID_WIDTH implies r[i][j]
        == b[i][j] by {
        if a.contains((i as i16, j as i16)) {
            let k = choose|k: int| 0 <= k < a.len() && a[k] == (i as i16, j as i16);
            assert(in_bounds(a[k]));
            assert(cell_of(b, a[k]) == color);
        }
    }
    assert(r =~~= b);
}

/// Painting cells that were empty and erasing them again gives the board back.
proof fn lemma_unpaint(e: Seq<Seq<i32>>, a: Seq<(i16, i16)>, color: i32)
    requires
        well_shaped(e),
        forall|k: int| 0 <= k < a.len() ==> in_bounds(#[trigger] a[k]) && cell_of(e, a[k]) == EMPTY_CELL,
    ensures
        painted(painted(e, a, color), a, EMPTY_CELL) == e,
{
    let r = painted(painted(e, a, color), a, EMPTY_CELL);
    assert forall|i: int, j: int| 0 <= i < GRID_HEIGHT && 0 <= j < GRID_WIDTH implies r[i][j]
        == e[i][j] by {
        if a.contains((i as i16, j as i16)) {
            let k = choose|k: int| 0 <= k < a.len() && a[k] == (i as i16, j as i16);
            assert(in_bounds(a[k]));
            assert(cell_of(e, a[k]) == EMPTY_CELL);
        }
    }
    assert(r =~~= e);
}

/// A piece that started on board `g0` at cells `p` and now lies at cells `a`
/// (legally, with `p` counted as free) sees the same legal moves as it would
/// on `g0` with `p` counted as free; and the cells it covers were free.
proof fn lemma_moving_piece(
    g0: Seq<Seq<i32>>,
    p: Seq<(i16, i16)>,
    a: Seq<(i16, i16)>,
    color: i32,
    d: Seq<(i16, i16)>,
)
    requires
        well_shaped(g0),
        color != EMPTY_CELL,
        can_place_on(g0, a, p),
    ensures
        can_place_on(painted(painted(g0, p, EMPTY_CELL), a, color), d, a) == can_place_on(g0, d, p),
        forall|k: int| 0 <= k < a.len() ==> #[trigger] cell_of(painted(g0, p, EMPTY_CELL), a[k])
            == EMPTY_CELL,
{
    let e0 = painted(g0, p, EMPTY_CELL);
    let g = painted(e0, a, color);
    assert forall|k: int| 0 <= k < a.len() implies #[trigger] cell_of(e0, a[k]) == EMPTY_CELL by {
        let c = a[k];
        assert(in_bounds(c));
        assert(((c.0 as int) as i16, (c.1 as int) as i16) == c);
    }
    assert forall|k: int| 0 <= k < d.len() && in_bounds(#[trigger] d[k]) implies (a.contains(d[k])
        || cell_of(g, d[k]) == EMPTY_CELL) == (p.contains(d[k]) || cell_of(g0, d[k])
        == EMPTY_CELL) by {
        let c = d[k];
        assert(((c.0 as int) as i16, (c.1 as int) as i16) == c);
        if a.contains(c) {
            let m = choose|m: int| 0 <= m < a.len() && a[m] == c;
            assert(p.contains(a[m]) || cell_of(g0, a[m]) == EMPTY_CELL);
        }
    }
}

/// The state of one game: the board (which holds the falling piece's
/// cells), the falling piece, the score, the automated player if
/// there is one, and whether the game is over.
pub struct Game {
    pub grid: Grid,
    pub current_shape: ShapePosition,
    pub score: Score,
    pub bot: Option<TetrisBot>,
    pub is_over: bool,
}

impl Game {
    /// The falling piece lies on the board in a valid state, the board holds
    /// the piece's color in each of its cells, and the score counts upward
    /// from zero.
    pub open spec fn wf(&self) -> bool {
        &&& self.current_shape.wf()
        &&& on_board(self.current_shape)
        &&& self.current_shape.color_index < NUM_COLORS
        &&& forall|k: int|
            0 <= k < 4 ==> #[trigger] cell_of(self.grid@, self.current_shape.cells()[k])
                == self.current_shape.color_index as i32
        &&& self.score.level >= 0
        &&& self.score.total_lines_cleared >= 0
    }

    /// A new game with a random first piece; `use_ai` gives it an automated
    /// player.
    pub fn new(use_ai: bool) -> (r: Self)
        ensures
            r.wf(),
            is_spawned(r.current_shape),
            r.grid@ == painted(
                empty_board(),
                r.current_shape.cells(),
                r.current_shape.color_index as i32,
            ),
            r.score == (Score { points: 0, level: 0, total_lines_cleared: 0 }),
            !r.is_over,
            r.bot is Some == use_ai,
            use_ai ==> r.bot.unwrap()@ == chosen_moves(r.grid@, r.current_shape),
    {
        let first = ShapePosition::new();
        Self::start(use_ai, first)
    }

    /// A new game whose first piece is `first_shape`, already on the board.
    pub fn start(use_ai: bool, first_shape: ShapePosition) -> (r: Self)
        requires
            is_spawned(first_shape),
        ensures
            r.wf(),
            r.current_shape == first_shape,
            r.grid@ == painted(empty_board(), first_shape.cells(), first_shape.color_index as i32),
            r.score == (Score { points: 0, level: 0, total_lines_cleared: 0 }),
            !r.is_over,
            r.bot is Some == use_ai,
            use_ai ==> r.bot.unwrap()@ == chosen_moves(r.grid@, first_shape),
    {
        proof {
            lemma_spawn_on_board(first_shape);
        }
        let mut grid = Grid::new();
        grid.set_pixels(&first_shape.get_pixels(), first_shape.color_index as i32);
        proof {
            lemma_painted_holds(empty_board(), first_shape.cells(), first_shape.color_index as i32);
        }
        let bot = if use_ai {
            let mut bot = TetrisBot::new();
            bot.update_policy(&grid, &first_shape);
            Some(bot)
        } else {
            None
        };
        Game { grid, current_shape: first_shape, score: Score::new(), bot, is_over: false }
    }

    /// Whether the falling piece may move to `new_pos`: its own cells count as free.
    pub fn is_valid_move(&self, new_pos: &ShapePosition) -> (r: bool)
        requires
            self.current_shape.wf(),
            new_pos.wf(),
        ensures
            r == can_place_on(self.grid@, new_pos.cells(), self.current_shape.cells()),
    {
        let new_pixels = new_pos.get_pixels();
        self.grid.can_set_pixels(&new_pixels, &self.current_shape.get_pixels())
    }

    /// Whether a new piece fits on the board; if not, the game is over.
    pub fn is_valid_add(&self, new_pos: &ShapePosition) -> (r: bool)
        requires
            new_pos.wf(),
        ensures
            r == can_place_on(self.grid@, new_pos.cells(), Seq::empty()),
    {
        let no_cells: [(i16, i16); 0] = [];
        assert(no_cells@ =~= Seq::<(i16, i16)>::empty());
        self.grid.can_set_pixels(&new_pos.get_pixels(), &no_cells)
    }

    fn clear_shape_from_grid(&mut self)
        requires
            old(self).current_shape.wf(),
            on_board(old(self).current_shape),
        ensures
            final(self).grid@ == painted(old(self).grid@, old(self).current_shape.cells(), EMPTY_CELL),
            final(self).current_shape == old(self).current_shape,
            final(self).score == old(self).score,
            final(self).bot == old(self).bot,
            final(self).is_over == old(self).is_over,
    {
        let pixels = self.current_shape.get_pixels();
        self.grid.unset_pixels(&pixels);
    }

    fn add_shape_to_grid(&mut self)
        requires
            old(self).current_shape.wf(),
            on_board(old(self).current_shape),
            old(self).current_shape.color_index < NUM_COLORS,
        ensures
            final(self).grid@ == painted(
                old(self).grid@,
                old(self).current_shape.cells(),
                old(self).current_shape.color_index as i32,
            ),
            final(self).current_shape == old(self).current_shape,
            final(self).score == old(self).score,
            final(self).bot == old(self).bot,
            final(self).is_over == old(self).is_over,
            forall|k: int|
                0 <= k < 4 ==> #[trigger] cell_of(final(self).grid@, final(self).current_shape.cells()[k])
                    == final(self).current_shape.color_index as i32,
    {
        let pixels = self.current_shape.get_pixels();
        self.grid.set_pixels(&pixels, self.current_shape.color_index as i32);
        proof {
            lemma_painted_holds(
                old(self).grid@,
                old(self).current_shape.cells(),
                old(self).current_shape.color_index as i32,
            );
        }
    }

    /// Moves the falling piece to `new_pos`, on the board as in the piece.
    fn move_shape_to(&mut self, new_pos: ShapePosition)
        requires
            old(self).wf(),
            new_pos.wf(),
            on_board(new_pos),
            new_pos.color_index == old(self).current_shape.color_index,
        ensures
            final(self).wf(),
            final(self).grid@ == painted(
                painted(old(self).grid@, old(self).current_shape.cells(), EMPTY_CELL),
                new_pos.cells(),
                new_pos.color_index as i32,
            ),
            final(self).current_shape == new_pos,
            final(self).score == old(self).score,
            final(self).bot == old(self).bot,
            final(self).is_over == old(self).is_over,
    {
        self.clear_shape_from_grid();
        self.current_shape = new_pos;
        self.add_shape_to_grid();
    }

    /// Applies one action to the falling piece. A simple move happens only
    /// where it is legal; a hard drop lets the piece fall until it settles.
    pub fn apply_move(&mut self, move_: &Move)
        requires
            old(self).wf(),
        ensures
            final(self).wf(),
            match *move_ {
                Move::Simple(m) => {
                    let p = old(self).current_shape;
                    let q = p.moved(m);
                    if can_place_on(old(self).grid@, q.cells(), p.cells()) {
                        &&& final(self).current_shape == q
                        &&& final(self).grid@ == painted(
                            painted(old(self).grid@, p.cells(), EMPTY_CELL),
                            q.cells(),
                            q.color_index as i32,
                        )
                        &&& final(self).score == old(self).score
                        &&& final(self).is_over == old(self).is_over
                    } else {
                        &&& final(self).current_shape == p
                        &&& final(self).grid@ == old(self).grid@
                        &&& final(self).score == old(self).score
                        &&& final(self).is_over == old(self).is_over
                    }
                },
                Move::HardDrop => {
                    let landed = landed_board(old(self).grid@, old(self).current_shape);
                    let next = final(self).current_shape;
                    let settled = cleared(landed);
                    let fits = can_place_on(settled, next.cells(), Seq::empty());
                    &&& is_spawned(next)
                    &&& final(self).score == old(self).score.after_clearing(n_cleared(landed))
                    &&& final(self).grid@ == painted(settled, next.cells(), next.color_index as i32)
                    &&& final(self).is_over == (old(self).is_over || !fits)
                    &&& (final(self).bot is Some == old(self).bot is Some)
                    &&& (fits && final(self).bot is Some) ==> final(self).bot.unwrap()@
                        == chosen_moves(final(self).grid@, next)
                },
            },
    {
        match move_ {
            Move::Simple(simple_move) => {
                proof {
                    lemma_on_board_anchor(self.current_shape);
                }
                let new_pos = self.current_shape.moved_to(simple_move);
                if self.is_valid_move(&new_pos) {
                    assert(on_board(new_pos));
                    self.move_shape_to(new_pos);
                }
            },
            Move::HardDrop => {
                let ghost start = *self;
                let ghost g0 = self.grid@;
                let ghost p = self.current_shape;
                let ghost color = p.color_index as i32;
                let ghost e0 = painted(g0, p.cells(), EMPTY_CELL);
                let ghost q = fallen(g0, p.cells(), p);
                let ghost landed = painted(e0, q.cells(), color);
                proof {
                    lemma_repaint(g0, p.cells(), color);
                    assert forall|k: int| 0 <= k < p.cells().len() implies p.cells().contains(
                        #[trigger] p.cells()[k],
                    ) by {}
                    assert(can_place_on(g0, p.cells(), p.cells()));
                }
                // fall one row at a time until the piece settles
                loop
                    invariant_except_break
                        self.current_shape.color_index == p.color_index,
                        self.grid@ == painted(e0, self.current_shape.cells(), color),
                        can_place_on(g0, self.current_shape.cells(), p.cells()),
                        fallen(g0, p.cells(), self.current_shape) == q,
                        self.score == start.score,
                        self.is_over == start.is_over,
                        self.bot == start.bot,
                    invariant
                        self.wf(),
                        start.wf(),
                        g0 == start.grid@,
                        p == start.current_shape,
                        color == p.color_index as i32,
                        e0 == painted(g0, p.cells(), EMPTY_CELL),
                        q == fallen(g0, p.cells(), p),
                        landed == painted(e0, q.cells(), color),
                    ensures
                        self.wf(),
                        is_spawned(self.current_shape),
                        self.score == start.score.after_clearing(n_cleared(landed)),
                        self.grid@ == painted(
                            cleared(landed),
                            self.current_shape.cells(),
                            self.current_shape.color_index as i32,
                        ),
                        self.is_over == (start.is_over || !can_place_on(
                            cleared(landed),
                            self.current_shape.cells(),
                            Seq::empty(),
                        )),
                        (self.bot is Some == start.bot is Some),
                        (can_place_on(cleared(landed), self.current_shape.cells(), Seq::empty())
                            && self.bot is Some) ==> self.bot.unwrap()@ == chosen_moves(
                            self.grid@,
                            self.current_shape,
                        ),
                    decreases GRID_HEIGHT - self.current_shape.pos.0,
                {
                    let ghost cur = self.current_shape;
                    proof {
                        lemma_on_board_anchor(cur);
                        lemma_moving_piece(
                            g0,
                            p.cells(),
                            cur.cells(),
                            color,
                            cur.moved(SimpleMove::Down).cells(),
                        );
                    }
                    let did_hit_rock_bottom = self.perform_block_drop();
                    if did_hit_rock_bottom {
                        assert(fallen(g0, p.cells(), cur) == cur);
                        break;
                    }
                    proof {
                        let down = cur.moved(SimpleMove::Down);
                        lemma_on_board_anchor(self.current_shape);
                        lemma_unpaint(e0, cur.cells(), color);
                        assert(fallen(g0, p.cells(), cur) == fallen(g0, p.cells(), down));
                    }
                }
            },
        }
    }

    /// One step of gravity. If the falling piece can move down one row, it
    /// does, and the result is false. Otherwise it settles: full rows are
    /// cleared and scored, a new piece spawns (the game is over if it does
    /// not fit) and the automated player plans for it; the result is true.
    pub fn perform_block_drop(&mut self) -> (r: bool)
        requires
            old(self).wf(),
        ensures
            final(self).wf(),
            r == !can_place_on(
                old(self).grid@,
                old(self).current_shape.moved(SimpleMove::Down).cells(),
                old(self).current_shape.cells(),
            ),
            !r ==> {
                let p = old(self).current_shape;
                let q = p.moved(SimpleMove::Down);
                &&& final(self).current_shape == q
                &&& final(self).grid@ == painted(
                    painted(old(self).grid@, p.cells(), EMPTY_CELL),
                    q.cells(),
                    q.color_index as i32,
                )
                &&& final(self).score == old(self).score
                &&& final(self).is_over == old(self).is_over
                &&& final(self).bot == old(self).bot
            },
            r ==> {
                let next = final(self).current_shape;
                let settled = cleared(old(self).grid@);
                let fits = can_place_on(settled, next.cells(), Seq::empty());
                &&& is_spawned(next)
                &&& final(self).score == old(self).score.after_clearing(
                    n_cleared(old(self).grid@),
                )
                &&& final(self).grid@ == painted(settled, next.cells(), next.color_index as i32)
                &&& final(self).is_over == (old(self).is_over || !fits)
                &&& (final(self).bot is Some == old(self).bot is Some)
                &&& (fits && final(self).bot is Some) ==> final(self).bot.unwrap()@ == chosen_moves(
                    final(self).grid@,
                    next,
                )
            },
    {
        proof {
            lemma_on_board_anchor(self.current_shape);
        }
        let mut new_pos = self.current_shape.moved_to(&SimpleMove::Down);
        if !self.is_valid_move(&new_pos) {
            // the piece cannot move down any further: clear the full rows
            let n_cleared = self.grid.clear_completed_rows();
            self.score.update(n_cleared);
            // then drop the next piece
            new_pos = ShapePosition::new();
            proof {
                lemma_spawn_on_board(new_pos);
            }
            if !self.is_valid_add(&new_pos) {
                // the new piece overlaps the stack: show it anyway
                self.current_shape = new_pos;
                self.add_shape_to_grid();
                self.is_over = true;
                return true;
            }
            self.current_shape = new_pos;
            self.add_shape_to_grid();
            match &mut self.bot {
                Some(bot) => bot.update_policy(&self.grid, &self.current_shape),
                None => {},
            }
            true
        } else {
            assert(on_board(new_pos));
            self.move_shape_to(new_pos);
            false
        }
    }
}

} // verus!
