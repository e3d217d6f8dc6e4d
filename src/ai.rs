use vstd::prelude::*;
use vstd::string::StringExecFns;

use crate::constants::{GRID_HEIGHT, GRID_WIDTH};
use crate::grid::{
    can_place_on, cell_of, empty_board, in_bounds, painted, row_full, well_shaped, Grid, EMPTY_CELL,
};
use crate::moves::{Move, SimpleMove};
use crate::shapes::{lemma_shape_offsets, rotation_count, ShapePosition, ANCHOR_LIMIT};

verus! {

/// Rows a candidate is moved down before it rotates and shifts, to give
/// rotations room near the top of the board.
pub const N_DROPS: u16 = 4;

/// How many lateral distances the search tries in each direction: `0` to
/// `GRID_WIDTH / 2`.
pub open spec fn shift_count() -> int {
    GRID_WIDTH / 2 + 1
}

// ---------------------------------------------------------------------------
// Board analysis

/// Row `i` of `b` holds at least one occupied cell.
pub open spec fn row_nonempty(b: Seq<Seq<i32>>, i: int) -> bool {
    exists|j: int| 0 <= j < GRID_WIDTH && #[trigger] b[i][j] != EMPTY_CELL
}

/// The first row at or below row `i` that holds an occupied cell, or
/// `GRID_HEIGHT` if there is none.
pub open spec fn first_nonempty_from(b: Seq<Seq<i32>>, i: int) -> int
    decreases GRID_HEIGHT - i,
{
    if i >= GRID_HEIGHT || i < 0 {
        GRID_HEIGHT as int
    } else if row_nonempty(b, i) {
        i
    } else {
        first_nonempty_from(b, i + 1)
    }
}

/// The index of the topmost row that holds an occupied cell, or
/// `GRID_HEIGHT` for an empty board.
pub open spec fn first_nonempty_row(b: Seq<Seq<i32>>) -> int {
    first_nonempty_from(b, 0)
}

/// How many of the first `n` rows of `b` are full.
pub open spec fn count_full_rows(b: Seq<Seq<i32>>, n: int) -> int
    decreases n,
{
    if n <= 0 {
        0
    } else {
        count_full_rows(b, n - 1) + if row_full(b, n - 1) {
            1int
        } else {
            0int
        }
    }
}

/// Some cell of column `j` in rows `[top, i)` is occupied.
pub open spec fn filled_between(b: Seq<Seq<i32>>, j: int, top: int, i: int) -> bool {
    exists|k: int| top <= k < i && #[trigger] b[k][j] != EMPTY_CELL
}

/// How many cells of column `j` in rows `[top, hi)` are gaps within those
/// rows: empty, with an occupied cell above them, at or below row `top`.
/// With `top == 0` these are the column's gaps.
pub open spec fn column_gaps(b: Seq<Seq<i32>>, j: int, top: int, hi: int) -> int
    decreases hi - top,
{
    if hi <= top {
        0
    } else {
        column_gaps(b, j, top, hi - 1) + if b[hi - 1][j] == EMPTY_CELL && filled_between(
            b,
            j,
            top,
            hi - 1,
        ) {
            1int
        } else {
            0int
        }
    }
}

/// How many cells of column `j` in rows `[top, hi)` are empty with no
/// occupied cell above them within those rows.
pub open spec fn open_cells(b: Seq<Seq<i32>>, j: int, top: int, hi: int) -> int
    decreases hi - top,
{
    if hi <= top {
        0
    } else {
        open_cells(b, j, top, hi - 1) + if b[hi - 1][j] == EMPTY_CELL && !filled_between(
            b,
            j,
            top,
            hi - 1,
        ) {
            1int
        } else {
            0int
        }
    }
}

/// Each row of a range is a gap, an open cell, or neither.
proof fn lemma_column_counts_bounded(b: Seq<Seq<i32>>, j: int, top: int, hi: int)
    requires
        top <= hi,
    ensures
        0 <= column_gaps(b, j, top, hi),
        0 <= open_cells(b, j, top, hi),
        column_gaps(b, j, top, hi) + open_cells(b, j, top, hi) <= hi - top,
    decreases hi - top,
{
    if hi > top {
        lemma_column_counts_bounded(b, j, top, hi - 1);
    }
}

/// Extending a range one row up, onto an occupied cell: every open cell of
/// the range becomes a gap.
proof fn lemma_extend_up_filled(b: Seq<Seq<i32>>, j: int, top: int, hi: int)
    requires
        1 <= top <= hi,
        b[top - 1][j] != EMPTY_CELL,
    ensures
        column_gaps(b, j, top - 1, hi) == column_gaps(b, j, top, hi) + open_cells(b, j, top, hi),
        open_cells(b, j, top - 1, hi) == 0,
    decreases hi - top,
{
    if hi > top {
        lemma_extend_up_filled(b, j, top, hi - 1);
        assert(b[top - 1][j] != EMPTY_CELL);
        assert(filled_between(b, j, top - 1, hi - 1));
        assert(column_gaps(b, j, top - 1, hi) == column_gaps(b, j, top - 1, hi - 1) + if b[hi
            - 1][j] == EMPTY_CELL {
            1int
        } else {
            0int
        });
    } else {
        assert(column_gaps(b, j, top - 1, top - 1) == 0);
        assert(open_cells(b, j, top - 1, top - 1) == 0);
    }
}

/// Extending a range one row up, onto an empty cell: the gaps stay the same
/// and the new cell is open.
proof fn lemma_extend_up_empty(b: Seq<Seq<i32>>, j: int, top: int, hi: int)
    requires
        1 <= top <= hi,
        b[top - 1][j] == EMPTY_CELL,
    ensures
        column_gaps(b, j, top - 1, hi) == column_gaps(b, j, top, hi),
        open_cells(b, j, top - 1, hi) == open_cells(b, j, top, hi) + 1,
    decreases hi - top,
{
    if hi > top {
        lemma_extend_up_empty(b, j, top, hi - 1);
        if filled_between(b, j, top - 1, hi - 1) {
            let k = choose|k: int| top - 1 <= k < hi - 1 && #[trigger] b[k][j] != EMPTY_CELL;
            assert(k != top - 1);
            assert(filled_between(b, j, top, hi - 1));
        }
        if filled_between(b, j, top, hi - 1) {
            let k = choose|k: int| top <= k < hi - 1 && #[trigger] b[k][j] != EMPTY_CELL;
            assert(filled_between(b, j, top - 1, hi - 1));
        }
    } else {
        assert(!filled_between(b, j, top - 1, top - 1));
        assert(column_gaps(b, j, top - 1, top - 1) == 0);
        assert(open_cells(b, j, top - 1, top - 1) == 0);
    }
}

/// How many gaps the first `m` columns of `b` hold.
pub open spec fn gaps_in_columns(b: Seq<Seq<i32>>, m: int) -> int
    decreases m,
{
    if m <= 0 {
        0
    } else {
        gaps_in_columns(b, m - 1) + column_gaps(b, m - 1, 0, GRID_HEIGHT as int)
    }
}

/// How many gaps the board holds.
pub open spec fn count_gaps_of(b: Seq<Seq<i32>>) -> int {
    gaps_in_columns(b, GRID_WIDTH as int)
}

/// The heuristic value of a board: ten points for each full row, plus the
/// index of the topmost occupied row (a lower stack is better), minus one
/// point for each gap.
pub open spec fn score_of(b: Seq<Seq<i32>>) -> int {
    10 * count_full_rows(b, GRID_HEIGHT as int) + first_nonempty_row(b) - count_gaps_of(b)
}

/// Queries on a board that the search uses to score it.
pub struct GridAnalysis {}

impl GridAnalysis {
    /// The index of the topmost row that holds an occupied cell, or
    /// `GRID_HEIGHT` for an empty board.
    pub fn get_first_nonempty_row_index(grid: &Grid) -> (r: usize)
        ensures
            r == first_nonempty_row(grid@),
            r <= GRID_HEIGHT,
    {
        let mut i: usize = 0;
        while i < GRID_HEIGHT
            invariant
                i <= GRID_HEIGHT,
                first_nonempty_from(grid@, i as int) == first_nonempty_row(grid@),
            decreases GRID_HEIGHT - i,
        {
            let mut j: usize = 0;
            while j < GRID_WIDTH
                invariant
                    i < GRID_HEIGHT,
                    j <= GRID_WIDTH,
                    first_nonempty_from(grid@, i as int) == first_nonempty_row(grid@),
                    forall|m: int| 0 <= m < j ==> #[trigger] grid@[i as int][m] == EMPTY_CELL,
                decreases GRID_WIDTH - j,
            {
                assert(grid@[i as int] == grid.grid@[i as int]@);
                if grid.grid[i][j] != EMPTY_CELL {
                    assert(grid@[i as int][j as int] != EMPTY_CELL);
                    assert(row_nonempty(grid@, i as int));
                    assert(first_nonempty_from(grid@, i as int) == i);
                    return i;
                }
                j = j + 1;
            }
            assert(!row_nonempty(grid@, i as int));
            i = i + 1;
        }
        GRID_HEIGHT
    }

    /// How many rows of the board are full.
    pub fn count_filled_rows(grid: &Grid) -> (r: usize)
        ensures
            r == count_full_rows(grid@, GRID_HEIGHT as int),
            r <= GRID_HEIGHT,
    {
        let mut n: usize = 0;
        let mut i: usize = 0;
        while i < GRID_HEIGHT
            invariant
                i <= GRID_HEIGHT,
                n <= i,
                n == count_full_rows(grid@, i as int),
            decreases GRID_HEIGHT - i,
        {
            let mut full = true;
            let mut j: usize = 0;
            while j < GRID_WIDTH
                invariant
                    i < GRID_HEIGHT,
                    j <= GRID_WIDTH,
                    full == forall|m: int| 0 <= m < j ==> #[trigger] grid@[i as int][m] != EMPTY_CELL,
                decreases GRID_WIDTH - j,
            {
                assert(grid@[i as int] == grid.grid@[i as int]@);
                if grid.grid[i][j] == EMPTY_CELL {
                    full = false;
                }
                j = j + 1;
            }
            if full {
                n = n + 1;
            }
            i = i + 1;
        }
        n
    }

    /// How many gaps the board holds: empty cells with an occupied cell
    /// somewhere above them in the same column.
    pub fn count_gaps(grid: &Grid) -> (r: usize)
        ensures
            r == count_gaps_of(grid@),
            r <= GRID_WIDTH * GRID_HEIGHT,
    {
        let ghost b = grid@;
        let mut total_gap_count: usize = 0;
        let mut col_index: usize = 0;
        while col_index < GRID_WIDTH
            invariant
                b == grid@,
                col_index <= GRID_WIDTH,
                total_gap_count == gaps_in_columns(b, col_index as int),
                total_gap_count <= col_index * GRID_HEIGHT,
            decreases GRID_WIDTH - col_index,
        {
            // scan the column from the bottom: `n_zeros` counts the empty
            // cells met since the last occupied one; they are gaps as soon as
            // an occupied cell turns up above them
            let ghost before = total_gap_count as int;
            let ghost j = col_index as int;
            let mut n_zeros: usize = 0;
            let mut row_index: usize = GRID_HEIGHT;
            while row_index > 0
                invariant
                    b == grid@,
                    col_index < GRID_WIDTH,
                    j == col_index,
                    row_index <= GRID_HEIGHT,
                    before == gaps_in_columns(b, j),
                    before <= col_index * GRID_HEIGHT,
                    total_gap_count == before + column_gaps(b, j, row_index as int, GRID_HEIGHT as int),
                    n_zeros == open_cells(b, j, row_index as int, GRID_HEIGHT as int),
                    column_gaps(b, j, row_index as int, GRID_HEIGHT as int) + n_zeros <= GRID_HEIGHT
                        - row_index,
                decreases row_index,
            {
                let r = row_index - 1;
                assert(b[r as int] == grid.grid@[r as int]@);
                let filled = grid.grid[r][col_index] != EMPTY_CELL;
                proof {
                    if filled {
                        lemma_extend_up_filled(b, j, row_index as int, GRID_HEIGHT as int);
                    } else {
                        lemma_extend_up_empty(b, j, row_index as int, GRID_HEIGHT as int);
                    }
                    lemma_column_counts_bounded(b, j, r as int, GRID_HEIGHT as int);
                }
                if n_zeros > 0 && filled {
                    total_gap_count = total_gap_count + n_zeros;
                    n_zeros = 0;
                }
                if !filled {
                    n_zeros = n_zeros + 1;
                }
                row_index = r;
            }
            col_index = col_index + 1;
        }
        total_gap_count
    }
}

// ---------------------------------------------------------------------------
// Candidate placements

/// Every cell of piece `p` lies on the board.
pub open spec fn on_board(p: ShapePosition) -> bool {
    forall|k: int| 0 <= k < 4 ==> in_bounds(#[trigger] p.cells()[k])
}

/// The anchor of `p` is far enough from the limits for every shift the
/// search tries.
pub open spec fn has_search_room(p: ShapePosition) -> bool {
    &&& -ANCHOR_LIMIT + 8 <= p.pos.0 <= ANCHOR_LIMIT - 8
    &&& -ANCHOR_LIMIT + 8 <= p.pos.1 <= ANCHOR_LIMIT - 8
}

/// A piece whose cells all lie on the board has its anchor near the board.
pub proof fn lemma_on_board_anchor(p: ShapePosition)
    requires
        p.wf(),
        on_board(p),
    ensures
        -2 <= p.pos.0 <= GRID_HEIGHT,
        -3 <= p.pos.1 <= GRID_WIDTH,
        p.has_room(),
{
    lemma_shape_offsets(p.shape_index as int, p.rotation_index as int);
    assert(in_bounds(p.cells()[0]));
}

/// Where piece `p` comes to rest when it falls one row at a time for as long
/// as its cells stay on the board and empty or among `ignore`.
pub open spec fn fallen(b: Seq<Seq<i32>>, ignore: Seq<(i16, i16)>, p: ShapePosition) -> ShapePosition
    decreases GRID_HEIGHT - p.pos.0,
{
    if p.pos.0 < GRID_HEIGHT && can_place_on(b, p.moved(SimpleMove::Down).cells(), ignore) {
        fallen(b, ignore, p.moved(SimpleMove::Down))
    } else {
        p
    }
}

/// The shift-left or shift-right action.
pub open spec fn lateral(is_left: bool) -> Move {
    if is_left {
        Move::Simple(SimpleMove::Left)
    } else {
        Move::Simple(SimpleMove::Right)
    }
}

/// `n` copies of action `m`.
pub open spec fn repeated(m: Move, n: int) -> Seq<Move> {
    Seq::new(n as nat, |i: int| m)
}

/// The actions that reach a candidate, in the order they are executed:
/// the drops, then the rotations, then the lateral shifts, then a hard drop.
pub open spec fn planned_moves(is_left: bool, n_h: int, n_rot: int, n_drops: int) -> Seq<Move> {
    repeated(Move::Simple(SimpleMove::Down), n_drops) + repeated(
        Move::Simple(SimpleMove::Rotate),
        n_rot,
    ) + repeated(lateral(is_left), n_h) + seq![Move::HardDrop]
}

/// The candidate that `orig` becomes after the initial drops, `rot`
/// rotations and `shift` columns of lateral movement.
pub open spec fn candidate(orig: ShapePosition, is_left: bool, rot: int, shift: int) -> ShapePosition {
    orig.compound(
        if is_left {
            -shift
        } else {
            shift
        },
        rot,
        N_DROPS as int,
    )
}

/// The option that one (direction, rotation, distance) triple gives: none if
/// the candidate is not legal, else its resting position and its actions,
/// stored last-first.
pub open spec fn option_at(
    b: Seq<Seq<i32>>,
    orig: ShapePosition,
    is_left: bool,
    rot: int,
    shift: int,
) -> Seq<(ShapePosition, Seq<Move>)> {
    let c = candidate(orig, is_left, rot, shift);
    if can_place_on(b, c.cells(), orig.cells()) {
        seq![(fallen(b, c.cells(), c), planned_moves(is_left, shift, rot, N_DROPS as int).reverse())]
    } else {
        seq![]
    }
}

/// The options of the first `n` lateral distances, for one direction and rotation.
pub open spec fn options_shifts(
    b: Seq<Seq<i32>>,
    orig: ShapePosition,
    is_left: bool,
    rot: int,
    n: int,
) -> Seq<(ShapePosition, Seq<Move>)>
    decreases n,
{
    if n <= 0 {
        seq![]
    } else {
        options_shifts(b, orig, is_left, rot, n - 1) + option_at(b, orig, is_left, rot, n - 1)
    }
}

/// The options of the first `n` rotation counts, for one direction.
pub open spec fn options_rotations(
    b: Seq<Seq<i32>>,
    orig: ShapePosition,
    is_left: bool,
    n: int,
) -> Seq<(ShapePosition, Seq<Move>)>
    decreases n,
{
    if n <= 0 {
        seq![]
    } else {
        options_rotations(b, orig, is_left, n - 1) + options_shifts(
            b,
            orig,
            is_left,
            n - 1,
            shift_count(),
        )
    }
}

/// Every option of the search, in enumeration order: left before right, then
/// by rotation count, then by distance.
pub open spec fn all_options(b: Seq<Seq<i32>>, orig: ShapePosition) -> Seq<(ShapePosition, Seq<Move>)> {
    let n = rotation_count(orig.shape_index as int);
    options_rotations(b, orig, true, n) + options_rotations(b, orig, false, n)
}

/// The options of a search as values of the model.
pub open spec fn options_view(v: Seq<(ShapePosition, Vec<Move>)>) -> Seq<(ShapePosition, Seq<Move>)> {
    Seq::new(v.len(), |i: int| (v[i].0, v[i].1@))
}

/// The score of the board that results from placing an option's piece.
pub open spec fn option_score(b: Seq<Seq<i32>>, o: (ShapePosition, Seq<Move>)) -> int {
    score_of(painted(b, o.0.cells(), 1))
}

/// The index of the first option with the highest score among the first `n`.
pub open spec fn best_option(b: Seq<Seq<i32>>, opts: Seq<(ShapePosition, Seq<Move>)>, n: int) -> int
    decreases n,
{
    if n <= 1 {
        0
    } else {
        let i = best_option(b, opts, n - 1);
        if option_score(b, opts[n - 1]) > option_score(b, opts[i]) {
            n - 1
        } else {
            i
        }
    }
}

/// The actions, stored last-first, that the search picks for piece `cur` on
/// board `b` (which still holds the piece's cells): empty if no candidate is
/// legal.
pub open spec fn chosen_moves(b: Seq<Seq<i32>>, cur: ShapePosition) -> Seq<Move> {
    let b0 = painted(b, cur.cells(), EMPTY_CELL);
    let opts = all_options(b0, cur);
    if opts.len() == 0 {
        seq![]
    } else {
        opts[best_option(b0, opts, opts.len() as int)].1
    }
}

/// The letter that names action `m` in a plan's text: `L`, `R` or `S` (for a
/// rotation); drops have none.
pub open spec fn move_letter(m: Move) -> Seq<char> {
    match m {
        Move::Simple(SimpleMove::Left) => seq!['L'],
        Move::Simple(SimpleMove::Right) => seq!['R'],
        Move::Simple(SimpleMove::Rotate) => seq!['S'],
        _ => seq![],
    }
}

/// The letters of the first `i` actions of a last-first plan `s`, in
/// execution order (from `s[i - 1]` down to `s[0]`).
pub open spec fn plan_letters(s: Seq<Move>, i: int) -> Seq<char>
    decreases i,
{
    if i <= 0 {
        seq![]
    } else {
        move_letter(s[i - 1]) + plan_letters(s, i - 1)
    }
}

/// The automated player: it holds the actions it has planned for the current
/// piece, last action first.
pub struct TetrisBot {
    moves: Vec<Move>,
}

impl View for TetrisBot {
    type V = Seq<Move>;

    /// The planned actions, stored last-first: the next one is at the end.
    closed spec fn view(&self) -> Seq<Move> {
        self.moves@
    }
}

impl TetrisBot {
    /// A player with nothing planned.
    pub fn new() -> (r: Self)
        ensures
            r@ == Seq::<Move>::empty(),
    {
        TetrisBot { moves: Vec::new() }
    }

    /// A short text for a last-first plan, in execution order, between angle
    /// brackets: `L`, `R` and `S` for shifts and rotations; drops are not shown.
    pub fn moves_to_str(moves: &Vec<Move>) -> (r: String)
        ensures
            r@ == seq!['<'] + plan_letters(moves@, moves@.len() as int) + seq!['>'],
    {
        proof {
            reveal_strlit("<");
            reveal_strlit(">");
        }
        let mut r = String::from_str("<");
        let mut i = moves.len();
        while i > 0
            invariant
                i <= moves@.len(),
                seq!['<'] + plan_letters(moves@, moves@.len() as int) == r@ + plan_letters(
                    moves@,
                    i as int,
                ),
            decreases i,
        {
            let letter = match moves[i - 1] {
                Move::HardDrop => "",
                Move::Simple(SimpleMove::Down) => "",
                Move::Simple(SimpleMove::Left) => "L",
                Move::Simple(SimpleMove::Right) => "R",
                Move::Simple(SimpleMove::Rotate) => "S",
            };
            let ghost before = r@;
            proof {
                reveal_strlit("L");
                reveal_strlit("R");
                reveal_strlit("S");
                reveal_strlit("");
            }
            assert(letter@ == move_letter(moves@[i - 1]));
            r.append(letter);
            assert(before + plan_letters(moves@, i as int) =~= r@ + plan_letters(moves@, i - 1));
            i = i - 1;
        }
        r.append(">");
        assert(r@ =~= seq!['<'] + plan_letters(moves@, moves@.len() as int) + seq!['>']);
        r
    }

    /// The actions that reach a candidate, stored last-first so that popping
    /// from the end yields them in execution order: the drops, the
    /// rotations, the lateral shifts, then a hard drop.
    fn as_moves_sequence(
        is_left: bool,
        n_horizontal_moves: i16,
        n_rotations: usize,
        n_drops: usize,
    ) -> (r: Vec<Move>)
        requires
            n_horizontal_moves >= 0,
            n_drops + n_rotations + n_horizontal_moves + 1 <= usize::MAX,
        ensures
            r@ == planned_moves(
                is_left,
                n_horizontal_moves as int,
                n_rotations as int,
                n_drops as int,
            ).reverse(),
    {
        let ghost side = lateral(is_left);
        let ghost n_h = n_horizontal_moves as int;
        let ghost n_r = n_rotations as int;
        let mut r: Vec<Move> = Vec::new();
        r.push(Move::HardDrop);
        let mut k: i16 = 0;
        while k < n_horizontal_moves
            invariant
                0 <= k <= n_horizontal_moves,
                r@ =~= seq![Move::HardDrop] + repeated(side, k as int),
                side == lateral(is_left),
            decreases n_horizontal_moves - k,
        {
            if is_left {
                r.push(Move::Simple(SimpleMove::Left));
            } else {
                r.push(Move::Simple(SimpleMove::Right));
            }
            k = k + 1;
        }
        let mut k: usize = 0;
        while k < n_rotations
            invariant
                k <= n_rotations,
                r@ =~= seq![Move::HardDrop] + repeated(side, n_h) + repeated(
                    Move::Simple(SimpleMove::Rotate),
                    k as int,
                ),
            decreases n_rotations - k,
        {
            r.push(Move::Simple(SimpleMove::Rotate));
            k = k + 1;
        }
        let mut k: usize = 0;
        while k < n_drops
            invariant
                k <= n_drops,
                r@ =~= seq![Move::HardDrop] + repeated(side, n_h) + repeated(
                    Move::Simple(SimpleMove::Rotate),
                    n_r,
                ) + repeated(Move::Simple(SimpleMove::Down), k as int),
            decreases n_drops - k,
        {
            r.push(Move::Simple(SimpleMove::Down));
            k = k + 1;
        }
        assert(r@ =~= planned_moves(is_left, n_h, n_r, n_drops as int).reverse());
        r
    }

    /// Where `original_shape` comes to rest when it falls one row at a time
    /// for as long as it stays legal (its own starting cells count as free).
    fn get_position_after_fall(original_shape: &ShapePosition, grid: &Grid) -> (r: ShapePosition)
        requires
            original_shape.wf(),
            on_board(*original_shape),
        ensures
            r == fallen(grid@, original_shape.cells(), *original_shape),
            r.wf(),
            on_board(r),
    {
        let ignore = original_shape.get_pixels();
        let mut shape = *original_shape;
        loop
            invariant
                shape.wf(),
                on_board(shape),
                ignore@ == original_shape.cells(),
                fallen(grid@, ignore@, shape) == fallen(grid@, ignore@, *original_shape),
            decreases GRID_HEIGHT - shape.pos.0,
        {
            proof {
                lemma_on_board_anchor(shape);
            }
            let next = shape.moved_to(&SimpleMove::Down);
            if !grid.can_set_pixels(&next.get_pixels(), &ignore) {
                return shape;
            }
            proof {
                assert(on_board(next));
                lemma_on_board_anchor(next);
                assert(next.pos.0 == shape.pos.0 + 1);
                assert(fallen(grid@, ignore@, shape) == fallen(grid@, ignore@, next));
            }
            shape = next;
        }
    }

    /// The score of a board.
    pub fn grid_score(grid: &Grid) -> (r: i32)
        ensures
            r == score_of(grid@),
    {
        let index_of_first_nonempty_row = GridAnalysis::get_first_nonempty_row_index(grid) as i32;
        let n_filled_rows = GridAnalysis::count_filled_rows(grid) as i32;
        let n_gaps = GridAnalysis::count_gaps(grid) as i32;
        n_filled_rows * 10 + index_of_first_nonempty_row - n_gaps
    }

    /// The score of the board with piece `shape` placed on it.
    fn placement_score(grid: &Grid, shape: &ShapePosition) -> (r: i32)
        requires
            shape.wf(),
            on_board(*shape),
        ensures
            r == score_of(painted(grid@, shape.cells(), 1)),
    {
        let mut trial = *grid;
        trial.set_pixels(&shape.get_pixels(), 1);
        Self::grid_score(&trial)
    }

    /// Every legal candidate, with its resting position and the actions that
    /// reach it (stored last-first). A candidate is the piece moved down by
    /// `N_DROPS` rows, then rotated, then shifted left or right by `0` to
    /// `GRID_WIDTH / 2` columns; it is legal when its cells lie on the board
    /// and are empty or among the piece's own cells.
    fn enumerate_options(grid: &Grid, original_shape: &ShapePosition) -> (r: Vec<
        (ShapePosition, Vec<Move>),
    >)
        requires
            original_shape.wf(),
            has_search_room(*original_shape),
        ensures
            options_view(r@) == all_options(grid@, *original_shape),
            forall|i: int|
                0 <= i < r@.len() ==> (#[trigger] r@[i]).0.wf() && on_board(r@[i].0),
    {
        let ghost b = grid@;
        let ghost orig = *original_shape;
        let mut result: Vec<(ShapePosition, Vec<Move>)> = Vec::new();
        let n_drops: u16 = N_DROPS;
        let ignore = original_shape.get_pixels();
        let n_rotations = original_shape.n_rotations();
        let ghost n = n_rotations as int;
        let n_shifts: i16 = (GRID_WIDTH / 2 + 1) as i16;
        let mut d: usize = 0;
        while d < 2
            invariant
                d <= 2,
                ignore@ == orig.cells(),
                n == rotation_count(orig.shape_index as int),
                n_rotations == n,
                n_shifts == shift_count(),
                n_drops == N_DROPS,
                orig == *original_shape,
                b == grid@,
                orig.wf(),
                has_search_room(orig),
                options_view(result@) == if d == 0 {
                    seq![]
                } else if d == 1 {
                    options_rotations(b, orig, true, n)
                } else {
                    all_options(b, orig)
                },
                forall|i: int|
                    0 <= i < result@.len() ==> (#[trigger] result@[i]).0.wf() && on_board(
                        result@[i].0,
                    ),
            decreases 2 - d,
        {
            let is_left = d == 0;
            let direction_sign: i16 = if is_left {
                -1
            } else {
                1
            };
            let ghost done = options_view(result@);
            let mut i_rotation: usize = 0;
            while i_rotation < n_rotations
                invariant
                    d < 2,
                    is_left == (d == 0),
                    direction_sign == if is_left {
                        -1i16
                    } else {
                        1i16
                    },
                    i_rotation <= n_rotations,
                    ignore@ == orig.cells(),
                    n == rotation_count(orig.shape_index as int),
                    n_rotations == n,
                    n_shifts == shift_count(),
                    n_drops == N_DROPS,
                    orig == *original_shape,
                    b == grid@,
                    orig.wf(),
                    has_search_room(orig),
                    done == if d == 0 {
                        seq![]
                    } else {
                        options_rotations(b, orig, true, n)
                    },
                    options_view(result@) == done + options_rotations(
                        b,
                        orig,
                        is_left,
                        i_rotation as int,
                    ),
                    forall|i: int|
                        0 <= i < result@.len() ==> (#[trigger] result@[i]).0.wf() && on_board(
                            result@[i].0,
                        ),
                decreases n_rotations - i_rotation,
            {
                let mut i_shift: i16 = 0;
                while i_shift < n_shifts
                    invariant
                        d < 2,
                        is_left == (d == 0),
                        direction_sign == if is_left {
                            -1i16
                        } else {
                            1i16
                        },
                        i_rotation < n_rotations,
                        0 <= i_shift <= n_shifts,
                        ignore@ == orig.cells(),
                        n == rotation_count(orig.shape_index as int),
                        n_rotations == n,
                        n_shifts == shift_count(),
                        n_drops == N_DROPS,
                        orig == *original_shape,
                        b == grid@,
                        orig.wf(),
                        has_search_room(orig),
                        options_view(result@) == done + options_rotations(
                            b,
                            orig,
                            is_left,
                            i_rotation as int,
                        ) + options_shifts(b, orig, is_left, i_rotation as int, i_shift as int),
                        forall|i: int|
                            0 <= i < result@.len() ==> (#[trigger] result@[i]).0.wf() && on_board(
                                result@[i].0,
                            ),
                    decreases n_shifts - i_shift,
                {
                    // always move down first, to give the piece room to rotate
                    let shape = original_shape.n_moves(
                        i_shift * direction_sign,
                        i_rotation,
                        n_drops,
                    );
                    let ghost before = options_view(result@);
                    if grid.can_set_pixels(&shape.get_pixels(), &ignore) {
                        let pos_after_fall = Self::get_position_after_fall(&shape, grid);
                        let moves = Self::as_moves_sequence(
                            is_left,
                            i_shift,
                            i_rotation,
                            n_drops as usize,
                        );
                        result.push((pos_after_fall, moves));
                        assert(options_view(result@) =~= before + option_at(
                            b,
                            orig,
                            is_left,
                            i_rotation as int,
                            i_shift as int,
                        ));
                    } else {
                        assert(option_at(b, orig, is_left, i_rotation as int, i_shift as int)
                            =~= seq![]);
                        assert(options_view(result@) =~= before + option_at(
                            b,
                            orig,
                            is_left,
                            i_rotation as int,
                            i_shift as int,
                        ));
                    }
                    i_shift = i_shift + 1;
                }
                i_rotation = i_rotation + 1;
            }
            d = d + 1;
        }
        result
    }

    /// The actions, stored last-first, that bring `current_shape` to the
    /// best-scoring resting place: the first candidate with the highest score,
    /// or nothing when no candidate is legal. `original_grid` holds the
    /// piece's cells; it is left unchanged.
    pub fn decide_moves(original_grid: &Grid, current_shape: &ShapePosition) -> (r: Vec<Move>)
        requires
            current_shape.wf(),
            on_board(*current_shape),
        ensures
            r@ == chosen_moves(original_grid@, *current_shape),
            (r@.len() == 0) == (all_options(
                painted(original_grid@, current_shape.cells(), EMPTY_CELL),
                *current_shape,
            ).len() == 0),
            r@.len() > 0 ==> r@[0] == Move::HardDrop,
    {
        proof {
            lemma_on_board_anchor(*current_shape);
            lemma_chosen_moves(original_grid@, *current_shape);
        }
        let mut grid = *original_grid;
        grid.unset_pixels(&current_shape.get_pixels());
        let mut options = Self::enumerate_options(&grid, current_shape);
        let ghost b = grid@;
        let ghost opts = options_view(options@);
        if options.len() == 0 {
            return Vec::new();
        }
        let mut best: usize = 0;
        let mut best_score = Self::placement_score(&grid, &options[0].0);
        let mut i: usize = 1;
        while i < options.len()
            invariant
                1 <= i <= options@.len(),
                opts == options_view(options@),
                b == grid@,
                forall|k: int|
                    0 <= k < options@.len() ==> (#[trigger] options@[k]).0.wf() && on_board(
                        options@[k].0,
                    ),
                best == best_option(b, opts, i as int),
                best < i,
                best_score == option_score(b, opts[best as int]),
            decreases options@.len() - i,
        {
            let score = Self::placement_score(&grid, &options[i].0);
            if score > best_score {
                best = i;
                best_score = score;
            }
            i = i + 1;
        }
        let (_, best_moves) = options.remove(best);
        best_moves
    }

    /// Plans the actions for a newly spawned piece.
    pub fn update_policy(&mut self, grid: &Grid, current_shape: &ShapePosition)
        requires
            current_shape.wf(),
            on_board(*current_shape),
        ensures
            final(self)@ == chosen_moves(grid@, *current_shape),
            (final(self)@.len() == 0) == (all_options(
                painted(grid@, current_shape.cells(), EMPTY_CELL),
                *current_shape,
            ).len() == 0),
            final(self)@.len() > 0 ==> final(self)@[0] == Move::HardDrop,
    {
        proof {
            lemma_chosen_moves(grid@, *current_shape);
        }
        self.moves = Self::decide_moves(grid, current_shape);
    }

    /// The next planned action, if any is left.
    pub fn pop_next_move(&mut self) -> (r: Option<Move>)
        ensures
            old(self)@.len() == 0 ==> r is None && final(self)@ == old(self)@,
            old(self)@.len() > 0 ==> r == Some(old(self)@.last()) && final(self)@ == old(
                self,
            )@.drop_last(),
    {
        self.moves.pop()
    }
}

// ---------------------------------------------------------------------------
// Laws of the search

/// Every option's actions, stored last-first, start with the final hard drop.
pub open spec fn all_end_in_hard_drop(opts: Seq<(ShapePosition, Seq<Move>)>) -> bool {
    forall|i: int|
        0 <= i < opts.len() ==> (#[trigger] opts[i]).1.len() > 0 && opts[i].1[0] == Move::HardDrop
}

proof fn lemma_option_at_ends_in_hard_drop(
    b: Seq<Seq<i32>>,
    orig: ShapePosition,
    is_left: bool,
    rot: int,
    shift: int,
)
    requires
        rot >= 0,
        shift >= 0,
    ensures
        all_end_in_hard_drop(option_at(b, orig, is_left, rot, shift)),
{
    let p = planned_moves(is_left, shift, rot, N_DROPS as int);
    assert(p.last() == Move::HardDrop);
    assert(p.reverse()[0] == p[p.len() - 1]);
}

proof fn lemma_options_shifts_end_in_hard_drop(
    b: Seq<Seq<i32>>,
    orig: ShapePosition,
    is_left: bool,
    rot: int,
    n: int,
)
    requires
        rot >= 0,
    ensures
        all_end_in_hard_drop(options_shifts(b, orig, is_left, rot, n)),
    decreases n,
{
    if n > 0 {
        lemma_options_shifts_end_in_hard_drop(b, orig, is_left, rot, n - 1);
        lemma_option_at_ends_in_hard_drop(b, orig, is_left, rot, n - 1);
        let s = options_shifts(b, orig, is_left, rot, n - 1);
        let t = option_at(b, orig, is_left, rot, n - 1);
        assert forall|i: int| 0 <= i < (s + t).len() implies (#[trigger] (s + t)[i]).1.len() > 0
            && (s + t)[i].1[0] == Move::HardDrop by {
            if i >= s.len() {
                assert((s + t)[i] == t[i - s.len()]);
            } else {
                assert((s + t)[i] == s[i]);
            }
        }
    }
}

proof fn lemma_options_rotations_end_in_hard_drop(
    b: Seq<Seq<i32>>,
    orig: ShapePosition,
    is_left: bool,
    n: int,
)
    ensures
        all_end_in_hard_drop(options_rotations(b, orig, is_left, n)),
    decreases n,
{
    if n > 0 {
        lemma_options_rotations_end_in_hard_drop(b, orig, is_left, n - 1);
        lemma_options_shifts_end_in_hard_drop(b, orig, is_left, n - 1, shift_count());
        let s = options_rotations(b, orig, is_left, n - 1);
        let t = options_shifts(b, orig, is_left, n - 1, shift_count());
        assert forall|i: int| 0 <= i < (s + t).len() implies (#[trigger] (s + t)[i]).1.len() > 0
            && (s + t)[i].1[0] == Move::HardDrop by {
            if i >= s.len() {
                assert((s + t)[i] == t[i - s.len()]);
            } else {
                assert((s + t)[i] == s[i]);
            }
        }
    }
}

proof fn lemma_all_options_end_in_hard_drop(b: Seq<Seq<i32>>, orig: ShapePosition)
    ensures
        all_end_in_hard_drop(all_options(b, orig)),
{
    let n = rotation_count(orig.shape_index as int);
    lemma_options_rotations_end_in_hard_drop(b, orig, true, n);
    lemma_options_rotations_end_in_hard_drop(b, orig, false, n);
    let s = options_rotations(b, orig, true, n);
    let t = options_rotations(b, orig, false, n);
    assert forall|i: int| 0 <= i < (s + t).len() implies (#[trigger] (s + t)[i]).1.len() > 0 && (s
        + t)[i].1[0] == Move::HardDrop by {
        if i >= s.len() {
            assert((s + t)[i] == t[i - s.len()]);
        } else {
            assert((s + t)[i] == s[i]);
        }
    }
}

proof fn lemma_best_option_in_range(b: Seq<Seq<i32>>, opts: Seq<(ShapePosition, Seq<Move>)>, n: int)
    requires
        n >= 1,
    ensures
        0 <= best_option(b, opts, n) < n,
    decreases n,
{
    if n > 1 {
        lemma_best_option_in_range(b, opts, n - 1);
    }
}

/// The search plans nothing exactly when no candidate is legal; otherwise
/// the last action it plans is a hard drop.
pub proof fn lemma_chosen_moves(b: Seq<Seq<i32>>, cur: ShapePosition)
    ensures
        (chosen_moves(b, cur).len() == 0) == (all_options(
            painted(b, cur.cells(), EMPTY_CELL),
            cur,
        ).len() == 0),
        chosen_moves(b, cur).len() > 0 ==> chosen_moves(b, cur)[0] == Move::HardDrop,
{
    let b0 = painted(b, cur.cells(), EMPTY_CELL);
    let opts = all_options(b0, cur);
    lemma_all_options_end_in_hard_drop(b0, cur);
    if opts.len() > 0 {
        lemma_best_option_in_range(b0, opts, opts.len() as int);
        let k = best_option(b0, opts, opts.len() as int);
        assert(opts[k].1.len() > 0);
    }
}

proof fn lemma_options_shifts_keep_first(
    b: Seq<Seq<i32>>,
    orig: ShapePosition,
    is_left: bool,
    rot: int,
    n: int,
)
    requires
        n >= 1,
    ensures
        options_shifts(b, orig, is_left, rot, n).len() >= option_at(b, orig, is_left, rot, 0).len(),
    decreases n,
{
    if n > 1 {
        lemma_options_shifts_keep_first(b, orig, is_left, rot, n - 1);
    }
}

proof fn lemma_options_rotations_keep_first(b: Seq<Seq<i32>>, orig: ShapePosition, is_left: bool, n: int)
    requires
        n >= 1,
    ensures
        options_rotations(b, orig, is_left, n).len() >= option_at(b, orig, is_left, 0, 0).len(),
    decreases n,
{
    if n > 1 {
        lemma_options_rotations_keep_first(b, orig, is_left, n - 1);
    } else {
        lemma_options_shifts_keep_first(b, orig, is_left, 0, shift_count());
    }
}

/// On a board that is empty but for the piece's own cells (or empty
/// altogether), the search always finds a placement for a freshly spawned
/// piece (in any rotation state), and the last action it plans is a hard drop.
pub proof fn lemma_search_on_empty_board(b: Seq<Seq<i32>>, p: ShapePosition)
    requires
        well_shaped(b),
        p.wf(),
        p.pos == (0i16, (GRID_WIDTH / 2) as i16),
        forall|i: int, j: int|
            0 <= i < GRID_HEIGHT && 0 <= j < GRID_WIDTH && !p.cells().contains((i as i16, j as i16))
                ==> #[trigger] b[i][j] == EMPTY_CELL,
    ensures
        chosen_moves(b, p).len() > 0,
        chosen_moves(b, p)[0] == Move::HardDrop,
{
    let b0 = painted(b, p.cells(), EMPTY_CELL);
    assert(b0 =~~= empty_board());
    let c = candidate(p, true, 0, 0);
    lemma_shape_offsets(c.shape_index as int, c.rotation_index as int);
    assert(c.rotation_index == p.rotation_index);
    assert forall|k: int| 0 <= k < c.cells().len() implies in_bounds(#[trigger] c.cells()[k]) && (
    p.cells().contains(c.cells()[k]) || cell_of(b0, c.cells()[k]) == EMPTY_CELL) by {
        assert(in_bounds(c.cells()[k]));
    }
    assert(can_place_on(b0, c.cells(), p.cells()));
    assert(option_at(b0, p, true, 0, 0).len() == 1);
    lemma_options_rotations_keep_first(b0, p, true, rotation_count(p.shape_index as int));
    lemma_chosen_moves(b, p);
}

/// Making one more row full, and changing nothing else, adds exactly one
/// full row, so the score rises by ten points plus what the change does to
/// the height of the stack and to the number of gaps.
pub proof fn lemma_extra_full_row(b1: Seq<Seq<i32>>, b2: Seq<Seq<i32>>, i: int)
    requires
        well_shaped(b1),
        well_shaped(b2),
        0 <= i < GRID_HEIGHT,
        forall|r: int| 0 <= r < GRID_HEIGHT && r != i ==> b1[r] == b2[r],
        !row_full(b1, i),
        row_full(b2, i),
    ensures
        count_full_rows(b2, GRID_HEIGHT as int) == count_full_rows(b1, GRID_HEIGHT as int) + 1,
        score_of(b2) - score_of(b1) == 10 + (first_nonempty_row(b2) - first_nonempty_row(b1)) - (
        count_gaps_of(b2) - count_gaps_of(b1)),
{
    lemma_count_full_rows_step(b1, b2, i, GRID_HEIGHT as int);
}

proof fn lemma_count_full_rows_step(b1: Seq<Seq<i32>>, b2: Seq<Seq<i32>>, i: int, n: int)
    requires
        0 <= i < GRID_HEIGHT,
        0 <= n <= GRID_HEIGHT,
        forall|r: int| 0 <= r < GRID_HEIGHT && r != i ==> b1[r] == b2[r],
        !row_full(b1, i),
        row_full(b2, i),
    ensures
        count_full_rows(b2, n) == count_full_rows(b1, n) + if n > i {
            1int
        } else {
            0int
        },
    decreases n,
{
    if n > 0 {
        lemma_count_full_rows_step(b1, b2, i, n - 1);
        if n - 1 != i {
            assert(b1[n - 1] == b2[n - 1]);
            assert(row_full(b1, n - 1) == row_full(b2, n - 1));
        }
    }
}

} // verus!
