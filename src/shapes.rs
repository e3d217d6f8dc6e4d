use rand::Rng;
use vstd::arithmetic::div_mod::lemma_add_mod_noop_right;
use vstd::prelude::*;

use crate::constants::GRID_WIDTH;
use crate::moves::SimpleMove;

verus! {

/// Number of piece kinds in the catalog.
pub const NUM_SHAPES: usize = 7;

/// Number of colors a piece can be drawn with.
pub const NUM_COLORS: usize = 7;

/// Largest distance of a piece's anchor from the origin, in either direction.
/// It keeps every cell coordinate, and every shift a search applies, inside `i16`.
pub const ANCHOR_LIMIT: i16 = 30000;

/// How many rotation states the piece kind `kind` has.
pub open spec fn rotation_count(kind: int) -> int {
    if kind == 0 {
        1
    } else if kind == 1 || kind == 3 || kind == 4 {
        2
    } else {
        4
    }
}

/// An offset of `row` rows and `col` columns from a piece's anchor.
pub open spec fn off(row: int, col: int) -> (i16, i16) {
    (row as i16, col as i16)
}

/// The four cell offsets `(row, column)` of rotation state `rot` of piece kind
/// `kind`, relative to the piece's anchor.
pub open spec fn shape_offsets(kind: int, rot: int) -> Seq<(i16, i16)> {
    if kind == 0 {
        // square
        seq![off(0, 0), off(0, 1), off(1, 1), off(1, 0)]
    } else if kind == 1 {
        // straight
        if rot == 0 {
            seq![off(0, 0), off(0, 1), off(0, 2), off(0, 3)]
        } else {
            seq![off(-1, 1), off(0, 1), off(1, 1), off(2, 1)]
        }
    } else if kind == 2 {
        // T
        if rot == 0 {
            seq![off(0, 0), off(0, 1), off(0, 2), off(1, 1)]
        } else if rot == 1 {
            seq![off(0, 0), off(0, 1), off(-1, 1), off(1, 1)]
        } else if rot == 2 {
            seq![off(0, 0), off(0, 1), off(0, 2), off(-1, 1)]
        } else {
            seq![off(0, 1), off(-1, 1), off(1, 1), off(0, 2)]
        }
    } else if kind == 3 {
        // skew, falling to the right
        if rot == 0 {
            seq![off(0, 0), off(0, 1), off(1, 1), off(1, 2)]
        } else {
            seq![off(0, 1), off(0, 2), off(-1, 2), off(1, 1)]
        }
    } else if kind == 4 {
        // skew, falling to the left
        if rot == 0 {
            seq![off(0, 1), off(0, 2), off(1, 1), off(1, 0)]
        } else {
            seq![off(0, 1), off(-1, 1), off(0, 2), off(1, 2)]
        }
    } else if kind == 5 {
        // L
        if rot == 0 {
            seq![off(0, 0), off(0, 1), off(0, 2), off(1, 0)]
        } else if rot == 1 {
            seq![off(-1, 0), off(-1, 1), off(0, 1), off(1, 1)]
        } else if rot == 2 {
            seq![off(0, 0), off(0, 1), off(0, 2), off(-1, 2)]
        } else {
            seq![off(-1, 1), off(0, 1), off(1, 1), off(1, 2)]
        }
    } else {
        // J, the mirror image of L
        if rot == 0 {
            seq![off(0, 2), off(0, 1), off(0, 0), off(1, 2)]
        } else if rot == 1 {
            seq![off(-1, 2), off(-1, 1), off(0, 1), off(1, 1)]
        } else if rot == 2 {
            seq![off(0, 2), off(0, 1), off(0, 0), off(-1, 0)]
        } else {
            seq![off(-1, 1), off(0, 1), off(1, 1), off(1, 0)]
        }
    }
}

/// Every rotation state holds four distinct offsets, each with a row in
/// `[-1, 2]` and a column in `[0, 3]`.
pub proof fn lemma_shape_offsets(kind: int, rot: int)
    requires
        0 <= kind < NUM_SHAPES,
        0 <= rot < rotation_count(kind),
    ensures
        shape_offsets(kind, rot).len() == 4,
        forall|k: int|
            0 <= k < 4 ==> -1 <= #[trigger] shape_offsets(kind, rot)[k].0 <= 2 && 0
                <= shape_offsets(kind, rot)[k].1 <= 3,
        forall|a: int, b: int|
            0 <= a < 4 && 0 <= b < 4 && a != b ==> #[trigger] shape_offsets(kind, rot)[a]
                != #[trigger] shape_offsets(kind, rot)[b],
{
}

/// The offsets of one rotation state of one piece kind.
fn rotation_offsets(kind: usize, rot: usize) -> (r: [(i16, i16); 4])
    requires
        kind < NUM_SHAPES,
        rot < rotation_count(kind as int),
    ensures
        r@ == shape_offsets(kind as int, rot as int),
{
    let r: [(i16, i16); 4] = if kind == 0 {
        [(0, 0), (0, 1), (1, 1), (1, 0)]
    } else if kind == 1 {
        if rot == 0 {
            [(0, 0), (0, 1), (0, 2), (0, 3)]
        } else {
            [(-1, 1), (0, 1), (1, 1), (2, 1)]
        }
    } else if kind == 2 {
        if rot == 0 {
            [(0, 0), (0, 1), (0, 2), (1, 1)]
        } else if rot == 1 {
            [(0, 0), (0, 1), (-1, 1), (1, 1)]
        } else if rot == 2 {
            [(0, 0), (0, 1), (0, 2), (-1, 1)]
        } else {
            [(0, 1), (-1, 1), (1, 1), (0, 2)]
        }
    } else if kind == 3 {
        if rot == 0 {
            [(0, 0), (0, 1), (1, 1), (1, 2)]
        } else {
            [(0, 1), (0, 2), (-1, 2), (1, 1)]
        }
    } else if kind == 4 {
        if rot == 0 {
            [(0, 1), (0, 2), (1, 1), (1, 0)]
        } else {
            [(0, 1), (-1, 1), (0, 2), (1, 2)]
        }
    } else if kind == 5 {
        if rot == 0 {
            [(0, 0), (0, 1), (0, 2), (1, 0)]
        } else if rot == 1 {
            [(-1, 0), (-1, 1), (0, 1), (1, 1)]
        } else if rot == 2 {
            [(0, 0), (0, 1), (0, 2), (-1, 2)]
        } else {
            [(-1, 1), (0, 1), (1, 1), (1, 2)]
        }
    } else {
        if rot == 0 {
            [(0, 2), (0, 1), (0, 0), (1, 2)]
        } else if rot == 1 {
            [(-1, 2), (-1, 1), (0, 1), (1, 1)]
        } else if rot == 2 {
            [(0, 2), (0, 1), (0, 0), (-1, 0)]
        } else {
            [(-1, 1), (0, 1), (1, 1), (1, 0)]
        }
    };
    assert(r@ =~= shape_offsets(kind as int, rot as int));
    r
}

/// The whole catalog: for each piece kind, its rotation states in order.
pub fn get_shapes() -> (r: Vec<Vec<[(i16, i16); 4]>>)
    ensures
        r@.len() == NUM_SHAPES,
        forall|k: int|
            0 <= k < NUM_SHAPES ==> (#[trigger] r@[k])@.len() == rotation_count(k) && forall|
                j: int,
            |
                0 <= j < rotation_count(k) ==> (#[trigger] r@[k]@[j])@ == shape_offsets(k, j),
{
    let mut r: Vec<Vec<[(i16, i16); 4]>> = Vec::new();
    let mut kind: usize = 0;
    while kind < NUM_SHAPES
        invariant
            kind <= NUM_SHAPES,
            r@.len() == kind,
            forall|k: int|
                0 <= k < kind ==> (#[trigger] r@[k])@.len() == rotation_count(k) && forall|
                    j: int,
                |
                    0 <= j < rotation_count(k) ==> (#[trigger] r@[k]@[j])@ == shape_offsets(
                        k,
                        j,
                    ),
        decreases NUM_SHAPES - kind,
    {
        let count = n_rotations_of(kind);
        let mut states: Vec<[(i16, i16); 4]> = Vec::new();
        let mut rot: usize = 0;
        while rot < count
            invariant
                kind < NUM_SHAPES,
                count == rotation_count(kind as int),
                rot <= count,
                states@.len() == rot,
                forall|j: int| 0 <= j < rot ==> (#[trigger] states@[j])@ == shape_offsets(kind as int, j),
            decreases count - rot,
        {
            states.push(rotation_offsets(kind, rot));
            rot = rot + 1;
        }
        r.push(states);
        kind = kind + 1;
    }
    r
}

/// How many rotation states the piece kind `kind` has.
fn n_rotations_of(kind: usize) -> (r: usize)
    requires
        kind < NUM_SHAPES,
    ensures
        r == rotation_count(kind as int),
{
    if kind == 0 {
        1
    } else if kind == 1 || kind == 3 || kind == 4 {
        2
    } else {
        4
    }
}

/// Relies on rand's `Rng::gen_range` over `rand::thread_rng()`: a value drawn
/// from `0..n` (the call panics on an empty range, which `n > 0` rules out).
#[verifier::external_body]
fn random_below(n: usize) -> (r: usize)
    requires
        n > 0,
    ensures
        r < n,
{
    rand::thread_rng().gen_range(0..n)
}

/// Whether `(row, col)` is close enough to the origin to serve as an anchor.
pub open spec fn anchor_in_limits(row: int, col: int) -> bool {
    -ANCHOR_LIMIT <= row <= ANCHOR_LIMIT && -ANCHOR_LIMIT <= col <= ANCHOR_LIMIT
}

/// A piece of one kind, in one rotation state, anchored at one grid coordinate.
#[derive(Clone, Copy, Debug)]
pub struct ShapePosition {
    /// The anchor `(row, column)` that the rotation state's offsets are relative to.
    pub pos: (i16, i16),
    pub shape_index: usize,
    pub rotation_index: usize,
    pub color_index: usize,
}

impl ShapePosition {
    /// The piece kind exists, the rotation state exists for that kind, and the
    /// anchor lies within `ANCHOR_LIMIT`.
    pub open spec fn wf(&self) -> bool {
        &&& self.shape_index < NUM_SHAPES
        &&& self.rotation_index < rotation_count(self.shape_index as int)
        &&& anchor_in_limits(self.pos.0 as int, self.pos.1 as int)
    }

    /// The anchor can move one step in any direction and stay within limits.
    pub open spec fn has_room(&self) -> bool {
        -ANCHOR_LIMIT < self.pos.0 < ANCHOR_LIMIT && -ANCHOR_LIMIT < self.pos.1 < ANCHOR_LIMIT
    }

    /// The offsets of the piece's current rotation state.
    pub open spec fn offsets(&self) -> Seq<(i16, i16)> {
        shape_offsets(self.shape_index as int, self.rotation_index as int)
    }

    /// The absolute cells the piece occupies: its anchor plus each offset.
    pub open spec fn cells(&self) -> Seq<(i16, i16)> {
        Seq::new(
            4,
            |k: int|
                (
                    (self.pos.0 + self.offsets()[k].0) as i16,
                    (self.pos.1 + self.offsets()[k].1) as i16,
                ),
        )
    }

    /// The piece after one atomic move: a shift left or right, a one-row
    /// drop, or the next rotation state (wrapping around).
    pub open spec fn moved(&self, m: SimpleMove) -> ShapePosition {
        match m {
            SimpleMove::Left => ShapePosition { pos: (self.pos.0, (self.pos.1 - 1) as i16), ..*self },
            SimpleMove::Right => ShapePosition {
                pos: (self.pos.0, (self.pos.1 + 1) as i16),
                ..*self
            },
            SimpleMove::Down => ShapePosition { pos: ((self.pos.0 + 1) as i16, self.pos.1), ..*self },
            SimpleMove::Rotate => ShapePosition {
                rotation_index: ((self.rotation_index + 1) % rotation_count(
                    self.shape_index as int,
                )) as usize,
                ..*self
            },
        }
    }

    /// The piece after `n_rot` rotations, then `v` rows down, then `h` columns
    /// to the right (to the left where `h` is negative).
    pub open spec fn compound(&self, h: int, n_rot: int, v: int) -> ShapePosition {
        ShapePosition {
            pos: ((self.pos.0 + v) as i16, (self.pos.1 + h) as i16),
            rotation_index: ((self.rotation_index + n_rot) % rotation_count(
                self.shape_index as int,
            )) as usize,
            ..*self
        }
    }

    /// A piece of kind `shape_index` and color `color_index` in its first
    /// rotation state, anchored at the top row, in the middle column.
    pub fn spawn(shape_index: usize, color_index: usize) -> (r: Self)
        requires
            shape_index < NUM_SHAPES,
        ensures
            r.wf(),
            r.pos == (0i16, (GRID_WIDTH / 2) as i16),
            r.shape_index == shape_index,
            r.rotation_index == 0,
            r.color_index == color_index,
    {
        ShapePosition {
            pos: (0, (GRID_WIDTH / 2) as i16),
            shape_index,
            rotation_index: 0,
            color_index,
        }
    }

    /// A new piece at the spawn point, of a random kind and a random color.
    pub fn new() -> (r: Self)
        ensures
            r.wf(),
            r.pos == (0i16, (GRID_WIDTH / 2) as i16),
            r.rotation_index == 0,
            r.color_index < NUM_COLORS,
    {
        let shape_index = random_below(NUM_SHAPES);
        let color_index = random_below(NUM_COLORS);
        Self::spawn(shape_index, color_index)
    }

    pub fn n_rotations(&self) -> (r: usize)
        requires
            self.shape_index < NUM_SHAPES,
        ensures
            r == rotation_count(self.shape_index as int),
    {
        n_rotations_of(self.shape_index)
    }

    /// The piece after one atomic move. No legality check: that is the board's work.
    pub fn moved_to(&self, move_: &SimpleMove) -> (r: Self)
        requires
            self.wf(),
            self.has_room(),
        ensures
            r == self.moved(*move_),
            r.wf(),
    {
        let mut new_pos = *self;
        match move_ {
            SimpleMove::Left => new_pos.pos.1 = new_pos.pos.1 - 1,
            SimpleMove::Right => new_pos.pos.1 = new_pos.pos.1 + 1,
            SimpleMove::Down => new_pos.pos.0 = new_pos.pos.0 + 1,
            SimpleMove::Rotate => {
                let n_rotations = self.n_rotations();
                new_pos.rotation_index = (new_pos.rotation_index + 1) % n_rotations;
            },
        }
        new_pos
    }

    /// The piece after `n_rotations` rotations, then `vertical_shift` rows
    /// down, then `horizontal_shift` columns to the right. No legality check.
    pub fn n_moves(&self, horizontal_shift: i16, n_rotations: usize, vertical_shift: u16) -> (r:
        Self)
        requires
            self.wf(),
            anchor_in_limits(
                self.pos.0 + vertical_shift,
                self.pos.1 + horizontal_shift,
            ),
        ensures
            r == self.compound(horizontal_shift as int, n_rotations as int, vertical_shift as int),
            r.wf(),
    {
        let count = self.n_rotations();
        let mut new_pos = *self;
        new_pos.rotation_index = (self.rotation_index + n_rotations % count) % count;
        proof {
            lemma_add_mod_noop_right(self.rotation_index as int, n_rotations as int, count as int);
        }
        new_pos.pos.0 = (new_pos.pos.0 as i32 + vertical_shift as i32) as i16;
        new_pos.pos.1 = new_pos.pos.1 + horizontal_shift;
        new_pos
    }

    /// The four cells the piece occupies.
    pub fn get_pixels(&self) -> (r: [(i16, i16); 4])
        requires
            self.wf(),
        ensures
            r@ == self.cells(),
    {
        let offsets = rotation_offsets(self.shape_index, self.rotation_index);
        proof {
            lemma_shape_offsets(self.shape_index as int, self.rotation_index as int);
        }
        let (i, j) = self.pos;
        let r = [
            (i + offsets[0].0, j + offsets[0].1),
            (i + offsets[1].0, j + offsets[1].1),
            (i + offsets[2].0, j + offsets[2].1),
            (i + offsets[3].0, j + offsets[3].1),
        ];
        assert(r@ =~= self.cells());
        r
    }
}

/// A piece always occupies exactly four distinct cells.
pub proof fn lemma_cells_distinct(p: ShapePosition)
    requires
        p.wf(),
    ensures
        p.cells().len() == 4,
        forall|a: int, b: int|
            0 <= a < 4 && 0 <= b < 4 && a != b ==> #[trigger] p.cells()[a] != #[trigger] p.cells()[b],
{
    lemma_shape_offsets(p.shape_index as int, p.rotation_index as int);
}

} // verus!
