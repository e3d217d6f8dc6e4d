use vstd::prelude::*;

verus! {

/// An action whose effect on a piece does not depend on the board.
#[derive(Clone, Copy, Debug, PartialEq, Eq, Structural)]
pub enum SimpleMove {
    Left,
    Right,
    Down,
    Rotate,
}

/// One atomic action applied to the falling piece.
#[derive(Clone, Copy, Debug, PartialEq, Eq, Structural)]
pub enum Move {
    Simple(SimpleMove),
    /// Drop the piece as low as it can go: the only action whose effect
    /// depends on the state of the board.
    HardDrop,
}

impl Move {
    /// Maps the keys released during one poll to at most one action. When
    /// several keys were released, the first of left, right, up, down and
    /// space wins.
    pub fn from_key_press(left: bool, right: bool, up: bool, down: bool, space: bool) -> (r:
        Option<Move>)
        ensures
            r == (if left {
                Some(Move::Simple(SimpleMove::Left))
            } else if right {
                Some(Move::Simple(SimpleMove::Right))
            } else if up {
                Some(Move::Simple(SimpleMove::Rotate))
            } else if down {
                Some(Move::Simple(SimpleMove::Down))
            } else if space {
                Some(Move::HardDrop)
            } else {
                None
            }),
    {
        if left {
            Some(Move::Simple(SimpleMove::Left))
        } else if right {
            Some(Move::Simple(SimpleMove::Right))
        } else if up {
            Some(Move::Simple(SimpleMove::Rotate))
        } else if down {
            Some(Move::Simple(SimpleMove::Down))
        } else if space {
            Some(Move::HardDrop)
        } else {
            None
        }
    }
}

} // verus!
