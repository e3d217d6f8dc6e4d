use vstd::prelude::*;

verus! {

/// Points for clearing `n` rows at once, before the level multiplier.
pub open spec fn line_points(n: int) -> int {
    if n == 1 {
        40
    } else if n == 2 {
        100
    } else if n == 3 {
        300
    } else if n == 4 {
        1200
    } else {
        0
    }
}

/// `x` clamped into the range of `i32`.
pub open spec fn saturate(x: int) -> int {
    if x > i32::MAX {
        i32::MAX as int
    } else if x < i32::MIN {
        i32::MIN as int
    } else {
        x
    }
}

/// `x / 10`, rounded toward zero.
pub open spec fn tenth(x: int) -> int {
    if x >= 0 {
        x / 10
    } else {
        -((-x) / 10)
    }
}

/// The player's points, level and number of rows cleared so far.
#[derive(Clone, Copy, Debug, PartialEq, Eq, Structural)]
pub struct Score {
    pub points: i32,
    pub level: i32,
    pub total_lines_cleared: i32,
}

impl Score {
    /// The score after clearing `n` rows at once: the points for `n` rows
    /// times one more than the level, the rows added to the total, and the
    /// level set to one tenth of the total (rounded toward zero). Sums that
    /// leave `i32` saturate.
    pub open spec fn after_clearing(self, n: int) -> Score {
        if n == 0 {
            self
        } else {
            let total = saturate(self.total_lines_cleared + n);
            Score {
                points: saturate(self.points + line_points(n) * (self.level + 1)) as i32,
                level: tenth(total) as i32,
                total_lines_cleared: total as i32,
            }
        }
    }

    /// A score of nothing at level 0.
    pub fn new() -> (r: Self)
        ensures
            r == (Score { points: 0, level: 0, total_lines_cleared: 0 }),
    {
        Score { points: 0, level: 0, total_lines_cleared: 0 }
    }

    /// Counts `n_lines_cleared` rows cleared at once; returns whether the
    /// level went up.
    pub fn update(&mut self, n_lines_cleared: i32) -> (r: bool)
        ensures
            *final(self) == old(self).after_clearing(n_lines_cleared as int),
            r == (final(self).level > old(self).level),
            (old(self).level >= 0 && old(self).total_lines_cleared >= 0 && n_lines_cleared >= 0)
                ==> final(self).level >= 0 && final(self).total_lines_cleared >= 0,
    {
        if n_lines_cleared == 0 {
            return false;
        }
        let base: i64 = if n_lines_cleared == 1 {
            40
        } else if n_lines_cleared == 2 {
            100
        } else if n_lines_cleared == 3 {
            300
        } else if n_lines_cleared == 4 {
            1200
        } else {
            0
        };
        let points = self.points as i64 + base * (self.level as i64 + 1);
        self.points = if points > i32::MAX as i64 {
            i32::MAX
        } else if points < i32::MIN as i64 {
            i32::MIN
        } else {
            points as i32
        };
        let total = self.total_lines_cleared as i64 + n_lines_cleared as i64;
        self.total_lines_cleared = if total > i32::MAX as i64 {
            i32::MAX
        } else if total < i32::MIN as i64 {
            i32::MIN
        } else {
            total as i32
        };
        let curr_level = self.total_lines_cleared / 10;
        let did_level_up = curr_level > self.level;
        self.level = curr_level;
        did_level_up
    }
}

} // verus!
