use vstd::prelude::*;

use crate::constants::{GRID_HEIGHT, GRID_WIDTH};

verus! {

/// The tag of a cell that no piece occupies.
pub const EMPTY_CELL: i32 = -1;

/// A board model has `GRID_HEIGHT` rows of `GRID_WIDTH` cells each.
pub open spec fn well_shaped(b: Seq<Seq<i32>>) -> bool {
    &&& b.len() == GRID_HEIGHT
    &&& forall|i: int| 0 <= i < GRID_HEIGHT ==> (#[trigger] b[i]).len() == GRID_WIDTH
}

/// The cell `c` (row, column) lies on the board.
pub open spec fn in_bounds(c: (i16, i16)) -> bool {
    0 <= c.0 < GRID_HEIGHT && 0 <= c.1 < GRID_WIDTH
}

/// The tag held by cell `c` of board `b`.
pub open spec fn cell_of(b: Seq<Seq<i32>>, c: (i16, i16)) -> i32 {
    b[c.0 as int][c.1 as int]
}

/// Every cell of `cells` lies on the board and is either empty or one of `ignore`.
pub open spec fn can_place_on(b: Seq<Seq<i32>>, cells: Seq<(i16, i16)>, ignore: Seq<(i16, i16)>) -> bool {
    forall|k: int|
        0 <= k < cells.len() ==> in_bounds(#[trigger] cells[k]) && (ignore.contains(cells[k])
            || cell_of(b, cells[k]) == EMPTY_CELL)
}

/// Board `b` with tag `color` written into each cell of `cells`.
pub open spec fn painted(b: Seq<Seq<i32>>, cells: Seq<(i16, i16)>, color: i32) -> Seq<Seq<i32>> {
    Seq::new(
        GRID_HEIGHT as nat,
        |i: int|
            Seq::new(
                GRID_WIDTH as nat,
                |j: int|
                    if cells.contains((i as i16, j as i16)) {
                        color
                    } else {
                        b[i][j]
                    },
            ),
    )
}

/// A row of empty cells.
pub open spec fn empty_row() -> Seq<i32> {
    Seq::new(GRID_WIDTH as nat, |j: int| EMPTY_CELL)
}

/// The board with every cell empty.
pub open spec fn empty_board() -> Seq<Seq<i32>> {
    Seq::new(GRID_HEIGHT as nat, |i: int| empty_row())
}

/// Every cell of row `i` of `b` is occupied.
pub open spec fn row_full(b: Seq<Seq<i32>>, i: int) -> bool {
    forall|j: int| 0 <= j < GRID_WIDTH ==> #[trigger] b[i][j] != EMPTY_CELL
}

/// Board `b` after removing row `r`: the rows above it move down by one and
/// an empty row enters at the top.
pub open spec fn shift_down(b: Seq<Seq<i32>>, r: int) -> Seq<Seq<i32>> {
    Seq::new(
        GRID_HEIGHT as nat,
        |i: int|
            if i == 0 {
                empty_row()
            } else if i <= r {
                b[i - 1]
            } else {
                b[i]
            },
    )
}

/// Clearing the full rows of `b` from row `i` down to the bottom, one at a
/// time from the top: the resulting board and the number of rows removed.
pub open spec fn cleared_from(b: Seq<Seq<i32>>, i: int) -> (Seq<Seq<i32>>, int)
    decreases GRID_HEIGHT - i,
{
    if i >= GRID_HEIGHT || i < 0 {
        (b, 0)
    } else if row_full(b, i) {
        let rest = cleared_from(shift_down(b, i), i + 1);
        (rest.0, rest.1 + 1)
    } else {
        cleared_from(b, i + 1)
    }
}

/// The board after all its full rows have been cleared.
pub open spec fn cleared(b: Seq<Seq<i32>>) -> Seq<Seq<i32>> {
    cleared_from(b, 0).0
}

/// The number of rows that clearing `b` removes.
pub open spec fn n_cleared(b: Seq<Seq<i32>>) -> int {
    cleared_from(b, 0).1
}

/// Whether `cells` holds `c`.
fn contains_cell(cells: &[(i16, i16)], c: (i16, i16)) -> (r: bool)
    ensures
        r == cells@.contains(c),
{
    let mut k: usize = 0;
    while k < cells.len()
        invariant
            k <= cells@.len(),
            forall|m: int| 0 <= m < k ==> cells@[m] != c,
        decreases cells@.len() - k,
    {
        if cells[k].0 == c.0 && cells[k].1 == c.1 {
            return true;
        }
        k = k + 1;
    }
    false
}

/// Whether every cell of `row` is occupied.
fn row_is_full(row: &[i32; GRID_WIDTH]) -> (r: bool)
    ensures
        r == forall|j: int| 0 <= j < GRID_WIDTH ==> #[trigger] row@[j] != EMPTY_CELL,
{
    let mut j: usize = 0;
    while j < GRID_WIDTH
        invariant
            j <= GRID_WIDTH,
            forall|m: int| 0 <= m < j ==> #[trigger] row@[m] != EMPTY_CELL,
        decreases GRID_WIDTH - j,
    {
        if row[j] == EMPTY_CELL {
            return false;
        }
        j = j + 1;
    }
    true
}

/// The playfield: each cell holds `EMPTY_CELL` or the color tag of the piece
/// that occupies it. Row 0 is the top row, column 0 the leftmost.
#[derive(Clone, Copy)]
pub struct Grid {
    pub grid: [[i32; GRID_WIDTH]; GRID_HEIGHT],
}

impl View for Grid {
    type V = Seq<Seq<i32>>;

    open spec fn view(&self) -> Seq<Seq<i32>> {
        Seq::new(GRID_HEIGHT as nat, |i: int| self.grid@[i]@)
    }
}

impl Grid {
    /// An empty board.
    pub fn new() -> (r: Self)
        ensures
            r@ == empty_board(),
    {
        let r = Grid { grid: [[EMPTY_CELL; GRID_WIDTH]; GRID_HEIGHT] };
        assert(r@ =~~= empty_board());
        r
    }

    /// Whether a piece may occupy `pixels_to_set`: each cell lies on the board
    /// and is empty, or is one of `pixels_to_disable` (the piece's own current
    /// cells, which it leaves as it moves).
    pub fn can_set_pixels(&self, pixels_to_set: &[(i16, i16)], pixels_to_disable: &[(i16, i16)]) -> (r:
        bool)
        ensures
            r == can_place_on(self@, pixels_to_set@, pixels_to_disable@),
    {
        let mut k: usize = 0;
        while k < pixels_to_set.len()
            invariant
                k <= pixels_to_set@.len(),
                forall|m: int|
                    0 <= m < k ==> in_bounds(#[trigger] pixels_to_set@[m]) && (
                    pixels_to_disable@.contains(pixels_to_set@[m]) || cell_of(
                        self@,
                        pixels_to_set@[m],
                    ) == EMPTY_CELL),
            decreases pixels_to_set@.len() - k,
        {
            let (i, j) = pixels_to_set[k];
            if i < 0 || j < 0 || i >= GRID_HEIGHT as i16 || j >= GRID_WIDTH as i16 {
                // the cell is off the board
                return false;
            }
            if !contains_cell(pixels_to_disable, (i, j)) {
                if self.grid[i as usize][j as usize] != EMPTY_CELL {
                    // the cell is occupied by another piece
                    return false;
                }
            }
            k = k + 1;
        }
        true
    }

    /// Writes `color` into each cell of `pixels`.
    pub fn set_pixels(&mut self, pixels: &[(i16, i16)], color: i32)
        requires
            forall|k: int| 0 <= k < pixels@.len() ==> in_bounds(#[trigger] pixels@[k]),
        ensures
            final(self)@ == painted(old(self)@, pixels@, color),
    {
        let ghost start = self@;
        let mut k: usize = 0;
        assert(self@ =~~= painted(start, pixels@.subrange(0, 0), color));
        while k < pixels.len()
            invariant
                k <= pixels@.len(),
                forall|m: int| 0 <= m < pixels@.len() ==> in_bounds(#[trigger] pixels@[m]),
                well_shaped(start),
                self@ == painted(start, pixels@.subrange(0, k as int), color),
            decreases pixels@.len() - k,
        {
            let (i, j) = pixels[k];
            let ghost before = self@;
            let ghost before_grid = self.grid@;
            self.grid[i as usize][j as usize] = color;
            assert(forall|a: int| 0 <= a < GRID_HEIGHT && a != i ==> #[trigger] self.grid@[a] == before_grid[a]);
            assert(self.grid@[i as int]@ == before_grid[i as int]@.update(j as int, color));
            proof {
                let done = pixels@.subrange(0, k as int);
                let next = pixels@.subrange(0, k + 1);
                assert(next =~= done.push(pixels@[k as int]));
                assert forall|a: int, b: int|
                    0 <= a < GRID_HEIGHT && 0 <= b < GRID_WIDTH implies self@[a][b] == painted(
                    start,
                    next,
                    color,
                )[a][b] by {
                    let c = (a as i16, b as i16);
                    assert(self@[a] == self.grid@[a]@);
                    assert(before[a] == before_grid[a]@);
                    assert(before[a][b] == painted(start, done, color)[a][b]);
                    if a == i && b == j {
                        assert(next[k as int] == c);
                        assert(next.contains(c));
                    } else {
                        assert(self@[a][b] == before[a][b]);
                        if next.contains(c) {
                            let w = choose|w: int| 0 <= w < next.len() && next[w] == c;
                            assert(w != k);
                            assert(done[w] == c);
                            assert(done.contains(c));
                        }
                        if done.contains(c) {
                            let w = choose|w: int| 0 <= w < done.len() && done[w] == c;
                            assert(next[w] == c);
                            assert(next.contains(c));
                        }
                    }
                }
                assert(self@ =~~= painted(start, next, color));
            }
            k = k + 1;
        }
        assert(pixels@.subrange(0, pixels@.len() as int) =~= pixels@);
    }

    /// Empties each cell of `pixels`.
    pub fn unset_pixels(&mut self, pixels: &[(i16, i16)])
        requires
            forall|k: int| 0 <= k < pixels@.len() ==> in_bounds(#[trigger] pixels@[k]),
        ensures
            final(self)@ == painted(old(self)@, pixels@, EMPTY_CELL),
    {
        self.set_pixels(pixels, EMPTY_CELL);
    }

    /// Removes every full row, top to bottom: each removal moves the rows above
    /// it down by one and empties the top row. Returns how many rows were removed.
    pub fn clear_completed_rows(&mut self) -> (r: i32)
        ensures
            final(self)@ == cleared(old(self)@),
            r == n_cleared(old(self)@),
            0 <= r <= GRID_HEIGHT,
    {
        let ghost start = self@;
        let mut count: i32 = 0;
        let mut i: usize = 0;
        while i < GRID_HEIGHT
            invariant
                i <= GRID_HEIGHT,
                0 <= count <= i,
                cleared_from(self@, i as int).0 == cleared(start),
                count + cleared_from(self@, i as int).1 == n_cleared(start),
            decreases GRID_HEIGHT - i,
        {
            assert(self@[i as int] == self.grid@[i as int]@);
            if row_is_full(&self.grid[i]) {
                assert(row_full(self@, i as int));
                self.shift_rows_down(i);
                count = count + 1;
            } else {
                assert(!row_full(self@, i as int));
            }
            i = i + 1;
        }
        count
    }

    /// Removes row `start_index`: the rows above it move down by one and the
    /// top row becomes empty.
    fn shift_rows_down(&mut self, start_index: usize)
        requires
            start_index < GRID_HEIGHT,
        ensures
            final(self)@ == shift_down(old(self)@, start_index as int),
    {
        let ghost start = self@;
        let mut i = start_index;
        while i > 0
            invariant
                i <= start_index < GRID_HEIGHT,
                well_shaped(start),
                forall|r: int|
                    0 <= r < GRID_HEIGHT ==> #[trigger] self@[r] == if r <= i {
                        start[r]
                    } else if r <= start_index {
                        start[r - 1]
                    } else {
                        start[r]
                    },
            decreases i,
        {
            let ghost before = self@;
            assert(before[i - 1] == start[i - 1]);
            self.grid[i] = self.grid[i - 1];
            assert forall|r: int| 0 <= r < GRID_HEIGHT implies #[trigger] self@[r] == if r == i {
                before[i - 1]
            } else {
                before[r]
            } by {
                assert(self@[r] == self.grid@[r]@);
                assert(before[r] == before[r]);
            }
            i = i - 1;
        }
        let ghost before = self@;
        self.grid[0] = [EMPTY_CELL; GRID_WIDTH];
        assert forall|r: int| 0 <= r < GRID_HEIGHT implies #[trigger] self@[r] == shift_down(
            start,
            start_index as int,
        )[r] by {
            assert(self@[r] == self.grid@[r]@);
            if r == 0 {
                assert(self@[0] =~= empty_row());
            } else {
                assert(before[r] == before[r]);
            }
        }
        assert(self@ =~~= shift_down(start, start_index as int));
    }
}

/// A board with no full row is left as it is, and nothing is counted.
pub proof fn lemma_clear_without_full_rows(b: Seq<Seq<i32>>)
    requires
        well_shaped(b),
        forall|i: int| 0 <= i < GRID_HEIGHT ==> !row_full(b, i),
    ensures
        cleared(b) == b,
        n_cleared(b) == 0,
{
    lemma_cleared_from_unchanged(b, 0);
}

proof fn lemma_cleared_from_unchanged(b: Seq<Seq<i32>>, i: int)
    requires
        0 <= i <= GRID_HEIGHT,
        forall|r: int| i <= r < GRID_HEIGHT ==> !row_full(b, r),
    ensures
        cleared_from(b, i) == (b, 0int),
    decreases GRID_HEIGHT - i,
{
    if i < GRID_HEIGHT {
        lemma_cleared_from_unchanged(b, i + 1);
    }
}

/// After clearing, no row is full, so clearing a second time removes nothing
/// and changes nothing.
pub proof fn lemma_clear_idempotent(b: Seq<Seq<i32>>)
    requires
        well_shaped(b),
    ensures
        forall|i: int| 0 <= i < GRID_HEIGHT ==> !row_full(cleared(b), i),
        n_cleared(cleared(b)) == 0,
        cleared(cleared(b)) == cleared(b),
{
    lemma_cleared_from_no_full_rows(b, 0);
    lemma_clear_without_full_rows(cleared(b));
}

proof fn lemma_cleared_from_no_full_rows(b: Seq<Seq<i32>>, i: int)
    requires
        well_shaped(b),
        0 <= i <= GRID_HEIGHT,
        forall|r: int| 0 <= r < i ==> !row_full(b, r),
    ensures
        well_shaped(cleared_from(b, i).0),
        forall|r: int| 0 <= r < GRID_HEIGHT ==> !row_full(cleared_from(b, i).0, r),
    decreases GRID_HEIGHT - i,
{
    if i < GRID_HEIGHT {
        if row_full(b, i) {
            let s = shift_down(b, i);
            assert forall|r: int| 0 <= r < i + 1 implies !row_full(s, r) by {
                if r == 0 {
                    assert(s[0][0] == EMPTY_CELL);
                } else {
                    assert(s[r] == b[r - 1]);
                    assert(!row_full(b, r - 1));
                    let j = choose|j: int| 0 <= j < GRID_WIDTH && #[trigger] b[r - 1][j] == EMPTY_CELL;
                    assert(s[r][j] == EMPTY_CELL);
                }
            }
            lemma_cleared_from_no_full_rows(s, i + 1);
        } else {
            lemma_cleared_from_no_full_rows(b, i + 1);
        }
    }
}

/// No placement is allowed that puts a cell off the board.
pub proof fn lemma_off_board_refused(
    b: Seq<Seq<i32>>,
    cells: Seq<(i16, i16)>,
    ignore: Seq<(i16, i16)>,
    k: int,
)
    requires
        0 <= k < cells.len(),
        !in_bounds(cells[k]),
    ensures
        !can_place_on(b, cells, ignore),
{
}

/// A piece may always stay where it is, whatever the board holds under it:
/// checking cells against themselves is a check of the bounds alone.
pub proof fn lemma_stay_in_place(b: Seq<Seq<i32>>, cells: Seq<(i16, i16)>)
    ensures
        can_place_on(b, cells, cells) == forall|k: int|
            0 <= k < cells.len() ==> in_bounds(#[trigger] cells[k]),
{
    assert forall|k: int| 0 <= k < cells.len() implies cells.contains(#[trigger] cells[k]) by {}
}

} // verus!
