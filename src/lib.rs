use vstd::prelude::*;

pub mod ball;
pub mod bricks;

pub use crate::ball::Ball;
use crate::bricks::{cell_index, grid_line, Bricks};

verus! {

/// The extent of the board, in the same integer units as ball positions.
/// The board spans `[0, width] x [0, height]`.
#[derive(Debug, Clone, Copy, PartialEq, Eq)]
pub struct BoardSize {
    pub width: usize,
    pub height: usize,
}

/// Why a game could not be set up.
#[derive(Debug, Clone, Copy, PartialEq, Eq)]
pub enum SetupError {
    /// The board has a zero width or height.
    EmptyBoard,
    /// The ball's radius is negative, or its diameter exceeds the board.
    BallDoesNotFit,
}

/// The game state: a ball moving on a board above a grid of bricks that
/// spans the whole board.
#[derive(Debug)]
pub struct Breakout {
    pub ball: Ball,
    pub board: BoardSize,
    pub bricks: Bricks,
}

impl Breakout {
    /// Whether the board is non-empty, the ball fits on it and the grid is
    /// well formed.
    pub open spec fn well_formed(&self) -> bool {
        &&& self.board.width > 0
        &&& self.board.height > 0
        &&& self.ball.fits_on(self.board)
        &&& self.bricks.wf()
    }

    /// The cell in which the ball's centre stands after moving by `step`
    /// and bouncing off the board's edges.
    pub open spec fn struck_cell(&self, step: int) -> (int, int) {
        (
            grid_line(
                self.ball.bounced_position_on(step, self.board, 0),
                self.bricks.columns() as int,
                self.board.width as int,
            ),
            grid_line(
                self.ball.bounced_position_on(step, self.board, 1),
                self.bricks.rows() as int,
                self.board.height as int,
            ),
        )
    }

    /// Whether the ball ends the update by `step` on a live brick.
    pub open spec fn strikes(&self, step: int) -> bool {
        self.bricks.alive_at(self.struck_cell(step).0, self.struck_cell(step).1)
    }

    /// A game of `ball` on `board` above `bricks`, refused when the board is
    /// empty or the ball does not fit on it.
    pub fn new(ball: Ball, board: BoardSize, bricks: Bricks) -> (r: Result<Breakout, SetupError>)
        requires
            bricks.wf(),
        ensures
            board.width == 0 || board.height == 0 ==> r is Err && r->Err_0
                == SetupError::EmptyBoard,
            board.width > 0 && board.height > 0 && !ball.fits_on(board) ==> r is Err && r->Err_0
                == SetupError::BallDoesNotFit,
            board.width > 0 && board.height > 0 && ball.fits_on(board) ==> r is Ok,
            r matches Ok(g) ==> g.ball == ball && g.board == board && g.bricks == bricks
                && g.well_formed(),
    {
        if board.width == 0 || board.height == 0 {
            return Err(SetupError::EmptyBoard);
        }
        if ball.radius < 0 || ball.radius as i128 * 2 > board.width as i128 || ball.radius as i128
            * 2 > board.height as i128 {
            return Err(SetupError::BallDoesNotFit);
        }
        Ok(Breakout { ball, board, bricks })
    }

    /// Whether `update(step)` can represent its result.
    pub fn can_update(&self, step: u32) -> (r: bool)
        requires
            self.well_formed(),
        ensures
            r == (self.ball.update_fits(step as int, self.board) && self.ball.direction[1]
                > i64::MIN),
    {
        self.ball.can_update(step, &self.board) && self.ball.direction[1] > i64::MIN
    }

    /// Advances the game by `step` time units. The ball moves and bounces
    /// off the board's edges; if its centre then stands in the cell of a
    /// live brick, that brick loses one life and the ball's vertical
    /// direction is reversed. The board stays as it is.
    pub fn update(&mut self, step: u32)
        requires
            old(self).well_formed(),
            old(self).ball.update_fits(step as int, old(self).board),
            old(self).ball.direction[1] > i64::MIN,
        ensures
            final(self).well_formed(),
            final(self).board == old(self).board,
            final(self).ball.radius == old(self).ball.radius,
            final(self).ball.position[0] == old(self).ball.bounced_position_on(
                step as int,
                old(self).board,
                0,
            ),
            final(self).ball.position[1] == old(self).ball.bounced_position_on(
                step as int,
                old(self).board,
                1,
            ),
            final(self).ball.direction[0] == old(self).ball.bounced_direction_on(
                step as int,
                old(self).board,
                0,
            ),
            final(self).ball.direction[1] == if old(self).strikes(step as int) {
                -old(self).ball.bounced_direction_on(step as int, old(self).board, 1)
            } else {
                old(self).ball.bounced_direction_on(step as int, old(self).board, 1)
            },
            final(self).bricks.columns() == old(self).bricks.columns(),
            final(self).bricks.rows() == old(self).bricks.rows(),
            final(self).bricks.lives() == if old(self).strikes(step as int) {
                old(self).bricks.lives().update(
                    cell_index(
                        old(self).bricks.columns() as int,
                        old(self).struck_cell(step as int).0,
                        old(self).struck_cell(step as int).1,
                    ),
                    (old(self).bricks.life(
                        old(self).struck_cell(step as int).0,
                        old(self).struck_cell(step as int).1,
                    ) - 1) as usize,
                )
            } else {
                old(self).bricks.lives()
            },
    {
        self.ball.update(step, &self.board);
        let cell = self.bricks.in_which(self.ball.position[0], self.ball.position[1], &self.board);
        if let Some((c, r)) = cell {
            if self.bricks.hit(c, r) {
                self.ball.direction = [self.ball.direction[0], -self.ball.direction[1]];
            }
        }
    }
}

} // verus!
