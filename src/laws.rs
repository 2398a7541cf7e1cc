//! Properties that hold of every board and every search.
use crate::board::{along, count_rows, count_set, Cell, Player, State, COLUMNS, ROWS, WINNING_LENGTH};
use crate::search::{best_moves, evaluation, first_win_from, recommended_below, successor, Eval};
use vstd::prelude::*;

verus! {

broadcast use vstd::array::group_array_axioms;

/// Occupying an empty cell adds one to the count of a row.
proof fn lemma_count_set_occupy(cells: Seq<Cell>, i: int, v: Cell)
    requires
        0 <= i < cells.len(),
        cells[i] is Empty,
        v is Occupied,
    ensures
        count_set(cells.update(i, v)) == count_set(cells) + 1,
    decreases cells.len(),
{
    let u = cells.update(i, v);
    if i == cells.len() - 1 {
        assert(u.drop_last() =~= cells.drop_last());
    } else {
        assert(u.drop_last() =~= cells.drop_last().update(i, v));
        lemma_count_set_occupy(cells.drop_last(), i, v);
    }
}

/// Replacing one row changes the count of the grid by the difference of the
/// two rows' counts.
proof fn lemma_count_rows_update(rows: Seq<[Cell; 7]>, i: int, line: [Cell; 7])
    requires
        0 <= i < rows.len(),
    ensures
        count_rows(rows.update(i, line)) + count_set(rows[i]@) == count_rows(rows) + count_set(
            line@,
        ),
    decreases rows.len(),
{
    let u = rows.update(i, line);
    if i == rows.len() - 1 {
        assert(u.drop_last() =~= rows.drop_last());
    } else {
        assert(u.drop_last() =~= rows.drop_last().update(i, line));
        lemma_count_rows_update(rows.drop_last(), i, line);
    }
}

/// A piece that starts on an empty cell comes to rest on an empty cell at
/// or below it.
proof fn lemma_fall_ends_empty(s: State, c: int, r: int)
    requires
        0 <= c < COLUMNS,
        0 <= r < ROWS,
        s.cell(c, r) is Empty,
    ensures
        r <= s.fall_from(c, r) < ROWS,
        s.cell(c, s.fall_from(c, r)) is Empty,
    decreases ROWS - r,
{
    if r + 1 < ROWS && !(s.cell(c, r + 1) is Occupied) {
        lemma_fall_ends_empty(s, c, r + 1);
    }
}

/// A move into a full column is refused: it neither wins nor goes on.
pub proof fn lemma_full_column_refused(s: State, c: int)
    requires
        0 <= c < COLUMNS,
        s.cell(c, 0) is Occupied,
    ensures
        s.outcome(c) is Impossible,
{
}

/// A move that lets play go on adds exactly one piece to the board and
/// passes the turn to the opponent.
pub proof fn lemma_move_adds_one_piece(s: State, c: int)
    requires
        0 <= c < COLUMNS,
        s.outcome(c) is State,
    ensures
        (s.outcome(c)->State_0).occupied() == s.occupied() + 1,
        (s.outcome(c)->State_0).1 == s.1.opponent(),
{
    let row = s.landing_row(c);
    lemma_fall_ends_empty(s, c, 0);
    let next = s.outcome(c)->State_0;
    let old_line = s.0[row];
    let new_line = vstd::array::spec_array_update(old_line, c, Cell::Occupied(s.1));
    assert(next.0@ =~= s.0@.update(row, new_line));
    assert(new_line@ =~= old_line@.update(c, Cell::Occupied(s.1)));
    lemma_count_set_occupy(old_line@, c, Cell::Occupied(s.1));
    lemma_count_rows_update(s.0@, row, new_line);
}

/// From `j` on, the first winning column is `c` when no column between
/// them wins.
proof fn lemma_first_win_from(s: State, j: int, c: int)
    requires
        0 <= j <= c < COLUMNS,
        s.outcome(c) is Victory,
        forall|k: int| j <= k < c ==> !(#[trigger] s.outcome(k) is Victory),
    ensures
        first_win_from(s, j) == Some(c),
    decreases c - j,
{
    if j < c {
        lemma_first_win_from(s, j + 1, c);
    }
}

/// Where some move wins at once, the search reports the first such column
/// alone, as an immediate win, at every depth.
pub proof fn lemma_first_win_reported(s: State, depth: nat, c: int)
    requires
        0 <= c < COLUMNS,
        s.outcome(c) is Victory,
        forall|j: int| 0 <= j < c ==> !(#[trigger] s.outcome(j) is Victory),
    ensures
        evaluation(s, depth) == Eval::ImmediateVictory,
        best_moves(s, depth) == seq![c as u8],
{
    lemma_first_win_from(s, 0, c);
}

/// On a board whose top row is full, no column wins from `j` on.
proof fn lemma_no_win_on_full_board(s: State, j: int)
    requires
        0 <= j <= COLUMNS,
        forall|c: int| 0 <= c < COLUMNS ==> #[trigger] s.cell(c, 0) is Occupied,
    ensures
        first_win_from(s, j) is None,
    decreases COLUMNS - j,
{
    if j < COLUMNS {
        assert(s.cell(j, 0) is Occupied);
        lemma_no_win_on_full_board(s, j + 1);
    }
}

/// On a board whose top row is full, no column below `n` is recommended.
proof fn lemma_nothing_recommended_on_full_board(s: State, depth: nat, n: int)
    requires
        0 <= n <= COLUMNS,
        forall|c: int| 0 <= c < COLUMNS ==> #[trigger] s.cell(c, 0) is Occupied,
    ensures
        recommended_below(s, depth, n) == Seq::<u8>::empty(),
    decreases n,
{
    if n > 0 {
        assert(s.cell(n - 1, 0) is Occupied);
        lemma_nothing_recommended_on_full_board(s, depth, n - 1);
    }
}

/// A full board is a draw: the search recommends nothing and leaves the
/// position undetermined, at every depth.
pub proof fn lemma_full_board_is_draw(s: State, depth: nat)
    requires
        forall|c: int| 0 <= c < COLUMNS ==> #[trigger] s.cell(c, 0) is Occupied,
    ensures
        evaluation(s, depth) == Eval::Neutral,
        best_moves(s, depth) == Seq::<u8>::empty(),
{
    lemma_no_win_on_full_board(s, 0);
    assert forall|c: int| 0 <= c < COLUMNS implies #[trigger] successor(s, c) is None by {
        assert(s.cell(c, 0) is Occupied);
    }
    lemma_nothing_recommended_on_full_board(s, depth, COLUMNS as int);
}

/// A window of `s1` along one direction carries over to `s2` along another,
/// where the cells `t` steps along the first are owned exactly where the cells
/// `t` steps (or `-t` steps, with `flip`) along the second are.
proof fn lemma_line_carries_over(
    s1: State,
    c1: int,
    r1: int,
    dc1: int,
    dr1: int,
    owner1: Player,
    s2: State,
    c2: int,
    r2: int,
    dc2: int,
    dr2: int,
    owner2: Player,
    flip: bool,
)
    requires
        forall|t: int|
            #[trigger] s1.owns_along(c1, r1, dc1, dr1, owner1, t) == s2.owns_along(
                c2,
                r2,
                dc2,
                dr2,
                owner2,
                if flip {
                    -t
                } else {
                    t
                },
            ),
        s1.line_through(c1, r1, dc1, dr1, owner1),
    ensures
        s2.line_through(c2, r2, dc2, dr2, owner2),
{
    let lo = choose|lo: int|
        1 - WINNING_LENGTH as int <= lo <= 0 && #[trigger] s1.window_owned(c1, r1, dc1, dr1, owner1, lo);
    let lo2 = if flip {
        -lo - (WINNING_LENGTH as int - 1)
    } else {
        lo
    };
    assert forall|t: int| lo2 <= t < lo2 + WINNING_LENGTH as int && t != 0 implies #[trigger] s2.owns_along(
        c2,
        r2,
        dc2,
        dr2,
        owner2,
        t,
    ) by {
        let t1 = if flip {
            -t
        } else {
            t
        };
        assert(s1.owns_along(c1, r1, dc1, dr1, owner1, t1));
    }
    assert(s2.window_owned(c2, r2, dc2, dr2, owner2, lo2));
}

/// Both directions of `lemma_line_carries_over`.
proof fn lemma_line_same(
    s1: State,
    c1: int,
    r1: int,
    dc1: int,
    dr1: int,
    owner1: Player,
    s2: State,
    c2: int,
    r2: int,
    dc2: int,
    dr2: int,
    owner2: Player,
    flip: bool,
)
    requires
        forall|t: int|
            #[trigger] s1.owns_along(c1, r1, dc1, dr1, owner1, t) == s2.owns_along(
                c2,
                r2,
                dc2,
                dr2,
                owner2,
                if flip {
                    -t
                } else {
                    t
                },
            ),
    ensures
        s1.line_through(c1, r1, dc1, dr1, owner1) == s2.line_through(c2, r2, dc2, dr2, owner2),
{
    assert forall|t: int|
        #[trigger] s2.owns_along(c2, r2, dc2, dr2, owner2, t) == s1.owns_along(
            c1,
            r1,
            dc1,
            dr1,
            owner1,
            if flip {
                -t
            } else {
                t
            },
        ) by {
        let t1 = if flip {
            -t
        } else {
            t
        };
        assert(s1.owns_along(c1, r1, dc1, dr1, owner1, t1) == s2.owns_along(
            c2,
            r2,
            dc2,
            dr2,
            owner2,
            if flip {
                -t1
            } else {
                t1
            },
        ));
    }
    if s1.line_through(c1, r1, dc1, dr1, owner1) {
        lemma_line_carries_over(s1, c1, r1, dc1, dr1, owner1, s2, c2, r2, dc2, dr2, owner2, flip);
    }
    if s2.line_through(c2, r2, dc2, dr2, owner2) {
        lemma_line_carries_over(s2, c2, r2, dc2, dr2, owner2, s1, c1, r1, dc1, dr1, owner1, flip);
    }
}

/// `b` is `a` seen in a mirror: columns are reversed, and the same player is to move.
pub open spec fn is_mirror_image(a: State, b: State) -> bool {
    &&& b.1 == a.1
    &&& forall|x: int, y: int|
        0 <= x < COLUMNS && 0 <= y < ROWS ==> #[trigger] b.cell(x, y) == a.cell(
            COLUMNS - 1 - x,
            y,
        )
}

/// A piece falls to the same row in a column and in its mirror image.
proof fn lemma_fall_mirrored(a: State, b: State, c: int, r: int)
    requires
        is_mirror_image(a, b),
        0 <= c < COLUMNS,
        0 <= r < ROWS,
    ensures
        a.fall_from(c, r) == b.fall_from(COLUMNS - 1 - c, r),
    decreases ROWS - r,
{
    if r + 1 < ROWS {
        assert(b.cell(COLUMNS - 1 - c, r + 1) == a.cell(c, r + 1));
        lemma_fall_mirrored(a, b, c, r + 1);
    }
}

/// Win detection does not depend on the side the board is seen from: in the
/// mirror image of a board, the mirrored column is refused, or wins, exactly
/// where the column is refused, or wins, on the board.
pub proof fn lemma_win_mirror_symmetric(a: State, b: State, c: int)
    requires
        is_mirror_image(a, b),
        0 <= c < COLUMNS,
    ensures
        a.outcome(c) is Impossible <==> b.outcome(COLUMNS - 1 - c) is Impossible,
        a.outcome(c) is Victory <==> b.outcome(COLUMNS - 1 - c) is Victory,
{
    let m = COLUMNS - 1 - c;
    assert(b.cell(m, 0) == a.cell(c, 0));
    lemma_fall_mirrored(a, b, c, 0);
    let row = a.landing_row(c);
    let p = a.1;
    assert forall|x: int, y: int| #[trigger] b.owns(x, y, p) == a.owns(COLUMNS - 1 - x, y, p) by {
        if 0 <= x < COLUMNS && 0 <= y < ROWS {
            assert(b.cell(x, y) == a.cell(COLUMNS - 1 - x, y));
        }
    }
    assert forall|t: int| #[trigger]
        b.owns_along(m, row, 1, 0, p, t) == a.owns_along(c, row, 1, 0, p, -t) by {
        assert(b.owns(m + t, row, p) == a.owns(c - t, row, p));
    }
    lemma_line_same(b, m, row, 1, 0, p, a, c, row, 1, 0, p, true);
    assert forall|t: int| #[trigger]
        b.owns_along(m, row, 0, 1, p, t) == a.owns_along(c, row, 0, 1, p, t) by {
        assert(b.owns(m, row + t, p) == a.owns(c, row + t, p));
    }
    lemma_line_same(b, m, row, 0, 1, p, a, c, row, 0, 1, p, false);
    assert forall|t: int| #[trigger]
        b.owns_along(m, row, 1, -1, p, t) == a.owns_along(c, row, 1, 1, p, -t) by {
        assert(b.owns(m + t, row - t, p) == a.owns(c - t, row - t, p));
    }
    lemma_line_same(b, m, row, 1, -1, p, a, c, row, 1, 1, p, true);
    assert forall|t: int| #[trigger]
        b.owns_along(m, row, 1, 1, p, t) == a.owns_along(c, row, 1, -1, p, -t) by {
        assert(b.owns(m + t, row + t, p) == a.owns(c - t, row + t, p));
    }
    lemma_line_same(b, m, row, 1, 1, p, a, c, row, 1, -1, p, true);
}

/// The cell with the owner of its piece, if any, replaced by the opponent.
pub open spec fn swap_owner(cell: Cell) -> Cell {
    match cell {
        Cell::Empty => Cell::Empty,
        Cell::Occupied(p) => Cell::Occupied(p.opponent()),
    }
}

/// `b` is `a` with the two players' pieces exchanged, and the other player to move.
pub open spec fn is_players_swapped(a: State, b: State) -> bool {
    &&& b.1 == a.1.opponent()
    &&& forall|x: int, y: int|
        0 <= x < COLUMNS && 0 <= y < ROWS ==> #[trigger] b.cell(x, y) == swap_owner(a.cell(x, y))
}

/// A piece falls to the same row whichever player owns the pieces below.
proof fn lemma_fall_swapped(a: State, b: State, c: int, r: int)
    requires
        is_players_swapped(a, b),
        0 <= c < COLUMNS,
        0 <= r < ROWS,
    ensures
        a.fall_from(c, r) == b.fall_from(c, r),
    decreases ROWS - r,
{
    if r + 1 < ROWS {
        assert(b.cell(c, r + 1) == swap_owner(a.cell(c, r + 1)));
        lemma_fall_swapped(a, b, c, r + 1);
    }
}

/// Win detection does not depend on the players' labels: with the pieces of
/// the two players exchanged and the other player to move, a column is
/// refused, or wins, exactly where it is refused, or wins, on the board.
pub proof fn lemma_win_swap_symmetric(a: State, b: State, c: int)
    requires
        is_players_swapped(a, b),
        0 <= c < COLUMNS,
    ensures
        a.outcome(c) is Impossible <==> b.outcome(c) is Impossible,
        a.outcome(c) is Victory <==> b.outcome(c) is Victory,
{
    assert(b.cell(c, 0) == swap_owner(a.cell(c, 0)));
    lemma_fall_swapped(a, b, c, 0);
    let row = a.landing_row(c);
    assert forall|x: int, y: int| #[trigger] b.owns(x, y, b.1) == a.owns(x, y, a.1) by {
        if 0 <= x < COLUMNS && 0 <= y < ROWS {
            assert(b.cell(x, y) == swap_owner(a.cell(x, y)));
        }
    }
    assert forall|dc: int, dr: int, t: int| #[trigger]
        b.owns_along(c, row, dc, dr, b.1, t) == a.owns_along(c, row, dc, dr, a.1, t) by {
        assert(b.owns(c + along(dc, t), row + along(dr, t), b.1) == a.owns(
            c + along(dc, t),
            row + along(dr, t),
            a.1,
        ));
    }
    lemma_line_same(b, c, row, 1, 0, b.1, a, c, row, 1, 0, a.1, false);
    lemma_line_same(b, c, row, 0, 1, b.1, a, c, row, 0, 1, a.1, false);
    lemma_line_same(b, c, row, 1, -1, b.1, a, c, row, 1, -1, a.1, false);
    lemma_line_same(b, c, row, 1, 1, b.1, a, c, row, 1, 1, a.1, false);
}

} // verus!
