use vstd::prelude::*;

use crate::BoardSize;

verus! {

/// Where a coordinate moving from `p` with velocity `d` stands after `step`
/// time units.
pub open spec fn moved(p: int, d: int, step: int) -> int {
    p + step * d
}

/// Whether coordinate `v` lies outside the allowed range `[lo, hi]`.
pub open spec fn overshoots(v: int, lo: int, hi: int) -> bool {
    v < lo || v > hi
}

/// Coordinate `v` mirrored at the bound of `[lo, hi]` that it overshoots;
/// unchanged when it overshoots neither.
pub open spec fn bounced_position(v: int, lo: int, hi: int) -> int {
    if v < lo {
        2 * lo - v
    } else if v > hi {
        2 * hi - v
    } else {
        v
    }
}

/// Velocity component `d` after a bounce test of coordinate `v` against
/// `[lo, hi]`: negated on an overshoot, else unchanged.
pub open spec fn bounced_direction(v: int, lo: int, hi: int, d: int) -> int {
    if overshoots(v, lo, hi) {
        -d
    } else {
        d
    }
}

/// Whether `v` fits in an `i64`.
pub open spec fn fits_i64(v: int) -> bool {
    i64::MIN <= v <= i64::MAX
}

/// The ball. `direction` is its velocity in board units per time unit; its
/// length is the speed. The ball's centre keeps `radius` away from the
/// board's edges.
#[derive(Debug, Clone, Copy, PartialEq, Eq)]
pub struct Ball {
    pub position: [i64; 2],
    pub direction: [i64; 2],
    pub radius: i64,
}

impl Ball {
    /// Whether the ball fits on `board`: its radius is non-negative and its
    /// diameter fits in both extents.
    pub open spec fn fits_on(&self, board: BoardSize) -> bool {
        &&& 0 <= self.radius
        &&& 2 * self.radius <= board.width
        &&& 2 * self.radius <= board.height
    }

    /// Lowest allowed coordinate of the centre, on both axes.
    pub open spec fn low(&self) -> int {
        self.radius as int
    }

    /// Highest allowed coordinate of the centre on `axis` (`0` is x).
    pub open spec fn high(&self, board: BoardSize, axis: int) -> int {
        if axis == 0 {
            board.width - self.radius
        } else {
            board.height - self.radius
        }
    }

    /// Where the centre would stand on `axis` after `step` without bouncing.
    pub open spec fn next(&self, step: int, axis: int) -> int {
        moved(self.position[axis] as int, self.direction[axis] as int, step)
    }

    /// Position on `axis` after `step` and one bounce test.
    pub open spec fn bounced_position_on(&self, step: int, board: BoardSize, axis: int) -> int {
        bounced_position(self.next(step, axis), self.low(), self.high(board, axis))
    }

    /// Velocity component on `axis` after `step` and one bounce test.
    pub open spec fn bounced_direction_on(&self, step: int, board: BoardSize, axis: int) -> int {
        bounced_direction(
            self.next(step, axis),
            self.low(),
            self.high(board, axis),
            self.direction[axis] as int,
        )
    }

    /// Whether the ball after `step` on `board` is representable.
    pub open spec fn update_fits(&self, step: int, board: BoardSize) -> bool {
        &&& fits_i64(self.bounced_position_on(step, board, 0))
        &&& fits_i64(self.bounced_position_on(step, board, 1))
        &&& fits_i64(self.bounced_direction_on(step, board, 0))
        &&& fits_i64(self.bounced_direction_on(step, board, 1))
    }

    /// Whether `self` is `prev` after one update by `step` on `board`: each
    /// axis that overshoots its allowed range is mirrored at the bound it
    /// crossed and has its velocity negated, once.
    pub open spec fn stepped_from(&self, prev: Ball, step: int, board: BoardSize) -> bool {
        &&& self.radius == prev.radius
        &&& self.position[0] == prev.bounced_position_on(step, board, 0)
        &&& self.position[1] == prev.bounced_position_on(step, board, 1)
        &&& self.direction[0] == prev.bounced_direction_on(step, board, 0)
        &&& self.direction[1] == prev.bounced_direction_on(step, board, 1)
    }
    /// The ball's position and velocity after `step`, each axis tested
    /// against the board: `(x, y, dx, dy)`, not yet narrowed to `i64`.
    fn bounce(&self, step: u32, board: &BoardSize) -> (r: (i128, i128, i128, i128))
        requires
            self.fits_on(*board),
        ensures
            r.0 == self.bounced_position_on(step as int, *board, 0),
            r.1 == self.bounced_position_on(step as int, *board, 1),
            r.2 == self.bounced_direction_on(step as int, *board, 0),
            r.3 == self.bounced_direction_on(step as int, *board, 1),
    {
        let dx = self.direction[0] as i128;
        let dy = self.direction[1] as i128;
        proof {
            lemma_move_fits(self.position[0] as int, dx as int, step as int);
            lemma_move_fits(self.position[1] as int, dy as int, step as int);
        }
        let px = self.position[0] as i128 + (step as i128) * dx;
        let py = self.position[1] as i128 + (step as i128) * dy;
        let lo = self.radius as i128;
        let hx = board.width as i128 - lo;
        let hy = board.height as i128 - lo;
        // The corners come first: a point past both axes must bounce off both.
        if px > hx && py > hy {
            (2 * hx - px, 2 * hy - py, -dx, -dy)
        } else if px > hx && py < lo {
            (2 * hx - px, 2 * lo - py, -dx, -dy)
        } else if px < lo && py < lo {
            (2 * lo - px, 2 * lo - py, -dx, -dy)
        } else if px < lo && py > hy {
            (2 * lo - px, 2 * hy - py, -dx, -dy)
        } else if px < lo {
            (2 * lo - px, py, -dx, dy)
        } else if px > hx {
            (2 * hx - px, py, -dx, dy)
        } else if py < lo {
            (px, 2 * lo - py, dx, -dy)
        } else if py > hy {
            (px, 2 * hy - py, dx, -dy)
        } else {
            (px, py, dx, dy)
        }
    }

    /// Whether `update(step, board)` can represent its result.
    pub fn can_update(&self, step: u32, board: &BoardSize) -> (r: bool)
        requires
            self.fits_on(*board),
        ensures
            r == self.update_fits(step as int, *board),
    {
        let (x, y, dx, dy) = self.bounce(step, board);
        let lo = i64::MIN as i128;
        let hi = i64::MAX as i128;
        lo <= x && x <= hi && lo <= y && y <= hi && lo <= dx && dx <= hi && lo <= dy && dy <= hi
    }

    /// Moves the ball by `step` time units along its direction, then bounces
    /// it once off the board's edges: on each axis where the centre passed
    /// the allowed range, the position is mirrored at the bound it crossed
    /// and that velocity component is negated.
    pub fn update(&mut self, step: u32, board: &BoardSize)
        requires
            old(self).fits_on(*board),
            old(self).update_fits(step as int, *board),
        ensures
            final(self).stepped_from(*old(self), step as int, *board),
    {
        let (x, y, dx, dy) = self.bounce(step, board);
        self.position = [x as i64, y as i64];
        self.direction = [dx as i64, dy as i64];
    }
}

/// One move of an `i64` coordinate by a `u32` step fits in `i128`.
proof fn lemma_move_fits(p: int, d: int, step: int)
    requires
        fits_i64(p),
        fits_i64(d),
        0 <= step <= u32::MAX,
    ensures
        -0x1_0000_0000_0000_0000_0000_0000 < step * d < 0x1_0000_0000_0000_0000_0000_0000,
        -0x2_0000_0000_0000_0000_0000_0000 < p + step * d < 0x2_0000_0000_0000_0000_0000_0000,
{
    assert(-0x1_0000_0000_0000_0000_0000_0000 < step * d < 0x1_0000_0000_0000_0000_0000_0000)
        by (nonlinear_arith)
        requires
            i64::MIN <= d <= i64::MAX,
            0 <= step <= u32::MAX,
    ;
}

/// A ball whose move by `step` keeps its centre within the allowed range on
/// both axes keeps its direction and moves by exactly `step * direction`:
/// these are the values that `update` gives it.
pub proof fn lemma_free_move(prev: Ball, step: int, board: BoardSize)
    requires
        prev.low() <= prev.next(step, 0) <= prev.high(board, 0),
        prev.low() <= prev.next(step, 1) <= prev.high(board, 1),
    ensures
        prev.bounced_position_on(step, board, 0) == prev.position[0] + step * prev.direction[0],
        prev.bounced_position_on(step, board, 1) == prev.position[1] + step * prev.direction[1],
        prev.bounced_direction_on(step, board, 0) == prev.direction[0],
        prev.bounced_direction_on(step, board, 1) == prev.direction[1],
{
}

/// A ball whose centre passes the right bound `width - radius` while
/// staying within range vertically bounces off the right edge alone: its
/// x velocity is negated, its x position is mirrored at that bound, and its
/// vertical motion is untouched.
pub proof fn lemma_right_edge_bounce(prev: Ball, step: int, board: BoardSize)
    requires
        prev.fits_on(board),
        prev.next(step, 0) > prev.high(board, 0),
        prev.low() <= prev.next(step, 1) <= prev.high(board, 1),
    ensures
        prev.bounced_direction_on(step, board, 0) == -prev.direction[0],
        prev.bounced_position_on(step, board, 0) == 2 * (board.width - prev.radius) - prev.next(
            step,
            0,
        ),
        prev.bounced_direction_on(step, board, 1) == prev.direction[1],
        prev.bounced_position_on(step, board, 1) == prev.next(step, 1),
{
}

/// A ball whose centre passes the right and the top bound at once bounces
/// off both: both velocity components are negated and both coordinates are
/// mirrored at the bounds they crossed.
pub proof fn lemma_corner_bounce(prev: Ball, step: int, board: BoardSize)
    requires
        prev.fits_on(board),
        prev.next(step, 0) > prev.high(board, 0),
        prev.next(step, 1) > prev.high(board, 1),
    ensures
        prev.bounced_direction_on(step, board, 0) == -prev.direction[0],
        prev.bounced_direction_on(step, board, 1) == -prev.direction[1],
        prev.bounced_position_on(step, board, 0) == 2 * (board.width - prev.radius) - prev.next(
            step,
            0,
        ),
        prev.bounced_position_on(step, board, 1) == 2 * (board.height - prev.radius) - prev.next(
            step,
            1,
        ),
{
}

/// One bounce brings the centre back into its allowed range whenever the
/// move overshoots it by no more than the range's own length. A longer
/// overshoot is not corrected by a second bounce: the ball may then stand
/// outside the board until later updates bring it back.
pub proof fn lemma_single_bounce_lands_inside(prev: Ball, step: int, board: BoardSize)
    requires
        prev.fits_on(board),
        2 * prev.low() - prev.high(board, 0) <= prev.next(step, 0) <= 2 * prev.high(board, 0)
            - prev.low(),
        2 * prev.low() - prev.high(board, 1) <= prev.next(step, 1) <= 2 * prev.high(board, 1)
            - prev.low(),
    ensures
        prev.low() <= prev.bounced_position_on(step, board, 0) <= prev.high(board, 0),
        prev.low() <= prev.bounced_position_on(step, board, 1) <= prev.high(board, 1),
{
}

} // verus!
