//! The board: a grid of cells indexed by row (top to bottom) and column
//! (left to right), pieces that fall to the lowest free cell, and detection of
//! a completed line.
use vstd::array::spec_array_update;
use vstd::prelude::*;

verus! {

broadcast use vstd::array::group_array_axioms;

pub const COLUMNS: u8 = 7;

pub const ROWS: u8 = 6;

/// How many pieces of one player in a row win the game.
pub const WINNING_LENGTH: u8 = 4;

#[derive(Copy, Clone, PartialEq, Eq, Debug, Structural)]
pub enum Player {
    O,
    X,
}

impl Player {
    pub open spec fn opponent(self) -> Player {
        match self {
            Player::O => Player::X,
            Player::X => Player::O,
        }
    }

    pub fn other(self) -> (r: Player)
        ensures
            r == self.opponent(),
    {
        if let Player::O = self {
            Player::X
        } else {
            Player::O
        }
    }
}

#[derive(Copy, Clone, PartialEq, Eq, Debug, Structural)]
pub enum Cell {
    Empty,
    Occupied(Player),
}

impl Default for Cell {
    fn default() -> (r: Cell)
        ensures
            r == Cell::Empty,
    {
        Cell::Empty
    }
}

/// The grid (rows from the top, each a row of columns from the left) and the
/// player whose turn it is.
#[derive(Clone, Copy, PartialEq, Eq, Debug)]
pub struct State(pub [[Cell; 7]; 6], pub Player);

/// The outcome of dropping a piece into a column.
#[derive(Debug, Clone, Copy)]
pub enum MoveResult {
    /// The column is full.
    Impossible,
    /// The piece completes a line for the player who dropped it.
    Victory,
    /// The game goes on from this state, with the other player to move.
    State(State),
}

/// The offset after `t` steps along an axis whose direction has sign `d`.
pub open spec fn along(d: int, t: int) -> int {
    if d > 0 {
        t
    } else if d < 0 {
        -t
    } else {
        0
    }
}

/// Number of occupied cells in a row.
pub open spec fn count_set(cells: Seq<Cell>) -> nat
    decreases cells.len(),
{
    if cells.len() == 0 {
        0
    } else {
        count_set(cells.drop_last()) + if cells.last() is Occupied {
            1nat
        } else {
            0nat
        }
    }
}

/// Number of occupied cells in a sequence of rows.
pub open spec fn count_rows(rows: Seq<[Cell; 7]>) -> nat
    decreases rows.len(),
{
    if rows.len() == 0 {
        0
    } else {
        count_rows(rows.drop_last()) + count_set(rows.last()@)
    }
}

/// A row has no more occupied cells than cells.
pub proof fn lemma_count_set_bound(cells: Seq<Cell>)
    ensures
        count_set(cells) <= cells.len(),
    decreases cells.len(),
{
    if cells.len() > 0 {
        lemma_count_set_bound(cells.drop_last());
    }
}

impl State {
    pub open spec fn cell(self, c: int, r: int) -> Cell {
        self.0[r][c]
    }

    /// The cell at column `c`, row `r` lies on the board and holds a piece of `p`.
    pub open spec fn owns(self, c: int, r: int, p: Player) -> bool {
        0 <= c < COLUMNS as int && 0 <= r < ROWS as int && self.cell(c, r) == Cell::Occupied(p)
    }

    /// The cell `t` steps away from `(c, r)` in direction `(dc, dr)` holds a piece of `p`.
    pub open spec fn owns_along(self, c: int, r: int, dc: int, dr: int, p: Player, t: int) -> bool {
        self.owns(c + along(dc, t), r + along(dr, t), p)
    }

    /// Every cell of the window of steps `lo .. lo + WINNING_LENGTH` along
    /// `(dc, dr)`, except `(c, r)` itself, holds a piece of `p`.
    pub open spec fn window_owned(self, c: int, r: int, dc: int, dr: int, p: Player, lo: int) -> bool {
        forall|t: int|
            lo <= t < lo + WINNING_LENGTH as int && t != 0 ==> #[trigger] self.owns_along(
                c,
                r,
                dc,
                dr,
                p,
                t,
            )
    }

    /// A piece of `p` at `(c, r)` would complete a line along `(dc, dr)`.
    pub open spec fn line_through(self, c: int, r: int, dc: int, dr: int, p: Player) -> bool {
        exists|lo: int|
            1 - WINNING_LENGTH as int <= lo <= 0 && #[trigger] self.window_owned(c, r, dc, dr, p, lo)
    }

    /// A piece of `p` at `(c, r)` would complete a horizontal, vertical or
    /// diagonal line.
    pub open spec fn completes_line(self, c: int, r: int, p: Player) -> bool {
        ||| self.line_through(c, r, 1, 0, p)
        ||| self.line_through(c, r, 0, 1, p)
        ||| self.line_through(c, r, 1, -1, p)
        ||| self.line_through(c, r, 1, 1, p)
    }

    /// The row where a piece at row `r` of column `c` comes to rest: it falls
    /// until the cell below is occupied or it reaches the bottom row.
    pub open spec fn fall_from(self, c: int, r: int) -> int
        decreases ROWS as int - r,
    {
        if r + 1 >= ROWS as int {
            ROWS as int - 1
        } else if self.cell(c, r + 1) is Occupied {
            r
        } else {
            self.fall_from(c, r + 1)
        }
    }

    pub open spec fn landing_row(self, c: int) -> int {
        self.fall_from(c, 0)
    }

    /// The state after the player to move puts a piece at `(c, r)`.
    pub open spec fn placed(self, c: int, r: int) -> State {
        State(
            spec_array_update(self.0, r, spec_array_update(self.0[r], c, Cell::Occupied(self.1))),
            self.1.opponent(),
        )
    }

    /// What dropping a piece into column `c` does.
    pub open spec fn outcome(self, c: int) -> MoveResult {
        if self.cell(c, 0) is Occupied {
            MoveResult::Impossible
        } else if self.completes_line(c, self.landing_row(c), self.1) {
            MoveResult::Victory
        } else {
            MoveResult::State(self.placed(c, self.landing_row(c)))
        }
    }

    /// Number of occupied cells.
    pub open spec fn occupied(self) -> nat {
        count_rows(self.0@)
    }

    /// The row where a piece dropped into `column` lands.
    fn landing(&self, column: u8) -> (row: u8)
        requires
            column < COLUMNS,
        ensures
            row == self.landing_row(column as int),
            row < ROWS,
    {
        let mut row: u8 = 1;
        while row < ROWS
            invariant
                1 <= row <= ROWS,
                column < COLUMNS,
                self.landing_row(column as int) == self.fall_from(column as int, row - 1),
            decreases ROWS - row,
        {
            if let Cell::Occupied(_) = self.0[row as usize][column as usize] {
                return row - 1;
            }
            row += 1;
        }
        ROWS - 1
    }

    /// How many cells in a row, from `(column, row)` in direction `(dc, dr)`,
    /// hold a piece of `player`, not counting `(column, row)` itself.
    fn reach(&self, column: u8, row: u8, dc: i8, dr: i8, player: Player) -> (n: u8)
        requires
            column < COLUMNS,
            row < ROWS,
            -1 <= dc <= 1,
            -1 <= dr <= 1,
            dc != 0 || dr != 0,
        ensures
            n <= COLUMNS,
            forall|t: int|
                1 <= t <= n ==> self.owns_along(
                    column as int,
                    row as int,
                    dc as int,
                    dr as int,
                    player,
                    t,
                ),
            !self.owns_along(column as int, row as int, dc as int, dr as int, player, n + 1),
    {
        let mut n: u8 = 0;
        while n < COLUMNS
            invariant
                n <= COLUMNS,
                column < COLUMNS,
                row < ROWS,
                forall|t: int|
                    1 <= t <= n ==> self.owns_along(
                        column as int,
                        row as int,
                        dc as int,
                        dr as int,
                        player,
                        t,
                    ),
            decreases COLUMNS - n,
        {
            let t: i16 = n as i16 + 1;
            let x: i16 = if dc > 0 {
                column as i16 + t
            } else if dc < 0 {
                column as i16 - t
            } else {
                column as i16
            };
            let y: i16 = if dr > 0 {
                row as i16 + t
            } else if dr < 0 {
                row as i16 - t
            } else {
                row as i16
            };
            if 0 <= x && x < COLUMNS as i16 && 0 <= y && y < ROWS as i16 && self.0[y as usize][x
                as usize] == Cell::Occupied(player) {
                n += 1;
            } else {
                return n;
            }
        }
        n
    }

    /// Whether a piece of `player` at `(column, row)` completes a line along
    /// `(dc, dr)`, counting the run on both sides.
    fn completes_along(&self, column: u8, row: u8, dc: i8, dr: i8, player: Player) -> (b: bool)
        requires
            column < COLUMNS,
            row < ROWS,
            -1 <= dc <= 1,
            -1 <= dr <= 1,
            dc != 0 || dr != 0,
        ensures
            b == self.line_through(column as int, row as int, dc as int, dr as int, player),
    {
        let ahead = self.reach(column, row, dc, dr, player);
        let behind = self.reach(column, row, -dc, -dr, player);
        let ghost c = column as int;
        let ghost r = row as int;
        let ghost dx = dc as int;
        let ghost dy = dr as int;
        let found = ahead as u16 + behind as u16 + 1 >= WINNING_LENGTH as u16;
        proof {
        assert forall|t: int|
            #![trigger self.owns_along(c, r, -dx, -dy, player, t)]
            #![trigger self.owns_along(c, r, dx, dy, player, -t)]
            self.owns_along(c, r, -dx, -dy, player, t) == self.owns_along(
                c,
                r,
                dx,
                dy,
                player,
                -t,
            ) by {
            assert(along(-dx, t) == along(dx, -t));
            assert(along(-dy, t) == along(dy, -t));
        }
            if found {
                let lo: int = if behind >= 3 {
                    -3
                } else {
                    -(behind as int)
                };
                assert forall|t: int|
                    lo <= t < lo + WINNING_LENGTH as int && t != 0 implies #[trigger] self.owns_along(
                    c,
                    r,
                    dx,
                    dy,
                    player,
                    t,
                ) by {
                    if t < 0 {
                        assert(self.owns_along(c, r, -dx, -dy, player, -t));
                    }
                }
                assert(self.window_owned(c, r, dx, dy, player, lo));
            } else if self.line_through(c, r, dx, dy, player) {
                let lo = choose|lo: int|
                    1 - WINNING_LENGTH as int <= lo <= 0 && #[trigger] self.window_owned(
                        c,
                        r,
                        dx,
                        dy,
                        player,
                        lo,
                    );
                if lo <= -(behind as int) - 1 {
                    assert(!self.owns_along(c, r, -dx, -dy, player, behind + 1));
                    assert(self.owns_along(c, r, dx, dy, player, -(behind + 1)));
                } else {
                    assert(self.owns_along(c, r, dx, dy, player, ahead + 1));
                }
            }
        }
        found
    }

    /// Number of pieces on the board.
    pub fn turn(&self) -> (n: usize)
        ensures
            n == self.occupied(),
    {
        let mut n: usize = 0;
        let mut r: usize = 0;
        while r < 6
            invariant
                r <= 6,
                n == count_rows(self.0@.subrange(0, r as int)),
                n <= 7 * r,
            decreases 6 - r,
        {
            let line = self.0[r];
            let mut k: usize = 0;
            while k < 7
                invariant
                    r < 6,
                    k <= 7,
                    line == self.0@[r as int],
                    n == count_rows(self.0@.subrange(0, r as int)) + count_set(
                        line@.subrange(0, k as int),
                    ),
                    count_rows(self.0@.subrange(0, r as int)) <= 7 * r,
                decreases 7 - k,
            {
                proof {
                    lemma_count_set_bound(line@.subrange(0, k as int));
                    assert(line@.subrange(0, k + 1).drop_last() =~= line@.subrange(0, k as int));
                }
                if let Cell::Occupied(_) = line[k] {
                    n += 1;
                }
                k += 1;
            }
            proof {
                lemma_count_set_bound(line@);
                assert(line@.subrange(0, 7) =~= line@);
                assert(self.0@.subrange(0, r + 1).drop_last() =~= self.0@.subrange(0, r as int));
            }
            r += 1;
        }
        proof {
            assert(self.0@.subrange(0, 6) =~= self.0@);
        }
        n
    }

    /// Drops a piece of the player to move into `column`: the column is full,
    /// the piece completes a line, or play goes on with the piece placed and
    /// the turn passed to the opponent.
    pub fn try_move(&self, column: u8) -> (r: MoveResult)
        requires
            column < COLUMNS,
        ensures
            r == self.outcome(column as int),
    {
        if let Cell::Occupied(_) = self.0[0][column as usize] {
            return MoveResult::Impossible;
        }
        let row = self.landing(column);
        let player = self.1;
        if self.completes_along(column, row, 1, 0, player) || self.completes_along(
            column,
            row,
            0,
            1,
            player,
        ) || self.completes_along(column, row, 1, -1, player) || self.completes_along(
            column,
            row,
            1,
            1,
            player,
        ) {
            return MoveResult::Victory;
        }
        let mut grid = self.0;
        let mut line = grid[row as usize];
        line[column as usize] = Cell::Occupied(player);
        grid[row as usize] = line;
        let next = State(grid, self.1.other());
        proof {
            let spec_next = self.placed(column as int, row as int);
            assert(line =~= spec_array_update(self.0[row as int], column as int, Cell::Occupied(player)));
            assert(next.0 =~= spec_next.0);
        }
        MoveResult::State(next)
    }
}

} // verus!
