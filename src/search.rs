//! Depth-bounded exhaustive search: every legal move is tried, each reply is
//! judged from the opponent's side, and the position is classified as an
//! immediate win, a forced win, a forced loss or undetermined.
use crate::board::{MoveResult, State, COLUMNS};
use crate::move_list::{columns_of, empty_moves, push_move, NextMove};
use rayon::iter::{IndexedParallelIterator, IntoParallelRefIterator, ParallelIterator};
use vstd::prelude::*;

verus! {

/// How a position stands for the player to move.
#[derive(Clone, Copy, Debug, PartialEq, Eq, Structural)]
pub enum Eval {
    /// Some move wins at once.
    ImmediateVictory,
    /// Some move leaves the opponent in a forced loss.
    AssuredVictory,
    /// Every move lets the opponent win, at once or by force.
    AssuredLoss,
    /// None of the above within the search depth, or no move is left.
    Neutral,
}

/// The state after a move into column `c`, if the move neither is refused nor wins.
pub open spec fn successor(s: State, c: int) -> Option<State> {
    match s.outcome(c) {
        MoveResult::State(n) => Some(n),
        _ => None,
    }
}

/// The first column, from `c` on, whose move wins at once.
pub open spec fn first_win_from(s: State, c: int) -> Option<int>
    decreases COLUMNS - c,
{
    if c >= COLUMNS {
        None
    } else if s.outcome(c) is Victory {
        Some(c)
    } else {
        first_win_from(s, c + 1)
    }
}

/// The evaluation hands the player who holds it a win.
pub open spec fn hands_win(e: Option<Eval>) -> bool {
    e == Some(Eval::ImmediateVictory) || e == Some(Eval::AssuredVictory)
}

/// How a successor state stands for the opponent, with `depth` levels of
/// search left; `None` where there is no successor.
pub open spec fn judged(next: Option<State>, depth: nat) -> Option<Eval>
    decreases depth, 0nat,
{
    match next {
        Some(n) => Some(
            if depth == 0 {
                Eval::Neutral
            } else {
                evaluation(n, (depth - 1) as nat)
            },
        ),
        None => None,
    }
}

/// Every legal move into a column below `n` hands the opponent a win, at
/// once or by force.
pub open spec fn all_replies_lose_below(s: State, depth: nat, n: int) -> bool
    decreases depth, n,
{
    if n <= 0 {
        true
    } else {
        all_replies_lose_below(s, depth, n - 1) && (successor(s, n - 1) is None || hands_win(
            judged(successor(s, n - 1), depth),
        ))
    }
}

/// Some move into a column below `n` leaves the opponent in a forced loss.
pub open spec fn some_reply_wins_below(s: State, depth: nat, n: int) -> bool
    decreases depth, n,
{
    if n <= 0 {
        false
    } else {
        some_reply_wins_below(s, depth, n - 1) || judged(successor(s, n - 1), depth) == Some(
            Eval::AssuredLoss,
        )
    }
}

/// How `s` stands for the player to move, searching `depth` levels of replies.
pub open spec fn evaluation(s: State, depth: nat) -> Eval
    decreases depth, COLUMNS + 1,
{
    if first_win_from(s, 0) is Some {
        Eval::ImmediateVictory
    } else if forall|c: int| 0 <= c < COLUMNS ==> #[trigger] successor(s, c) is None {
        Eval::Neutral
    } else if all_replies_lose_below(s, depth, COLUMNS as int) {
        Eval::AssuredLoss
    } else if some_reply_wins_below(s, depth, COLUMNS as int) {
        Eval::AssuredVictory
    } else {
        Eval::Neutral
    }
}

/// Column `c` is among the moves recommended in `s`: it is legal, and it
/// forces the win where one can be forced; else, where some move does not
/// let the opponent win, it is one of those.
pub open spec fn recommended(s: State, depth: nat, c: int) -> bool {
    let e = judged(successor(s, c), depth);
    successor(s, c) is Some && match evaluation(s, depth) {
        Eval::AssuredVictory => e == Some(Eval::AssuredLoss),
        Eval::AssuredLoss => true,
        _ => !hands_win(e),
    }
}

/// The recommended columns below `n`, in ascending order.
pub open spec fn recommended_below(s: State, depth: nat, n: int) -> Seq<u8>
    decreases n,
{
    if n <= 0 {
        Seq::empty()
    } else if recommended(s, depth, n - 1) {
        recommended_below(s, depth, n - 1).push((n - 1) as u8)
    } else {
        recommended_below(s, depth, n - 1)
    }
}

/// The columns that the search recommends in `s`: the first winning column
/// alone where one exists, else the recommended legal columns.
pub open spec fn best_moves(s: State, depth: nat) -> Seq<u8> {
    match first_win_from(s, 0) {
        Some(c) => seq![c as u8],
        None => recommended_below(s, depth, COLUMNS as int),
    }
}

/// How a successor stands for the opponent: searched `depth - 1` levels
/// further, or undetermined at depth 0.
fn judge(next: &Option<State>, depth: u8) -> (r: Option<Eval>)
    ensures
        r == judged(*next, depth as nat),
    decreases depth, 0nat,
{
    match next {
        Some(n) => Some(
            if depth > 0 {
                find_next_move(n, depth - 1, false).1
            } else {
                Eval::Neutral
            },
        ),
        None => None,
    }
}

/// Relies on rayon's `par_iter`, `map` and `collect_into_vec`: each entry is
/// judged by `judge`, and the results come back in the order of the entries.
#[verifier::external_body]
fn judge_all_in_parallel(successors: &Vec<Option<State>>, depth: u8) -> (r: Vec<Option<Eval>>)
    ensures
        r@.len() == successors@.len(),
        forall|i: int| 0 <= i < r@.len() ==> r@[i] == judged(successors@[i], depth as nat),
{
    let mut out = Vec::new();
    successors.par_iter().map(|next| judge(next, depth)).collect_into_vec(&mut out);
    out
}

/// Searches `depth` levels of replies from `state` and returns the columns
/// worth playing with the evaluation of the position. With `parallelize`,
/// the replies of the first level are judged in parallel; the result is the
/// same either way.
pub fn find_next_move(state: &State, depth: u8, parallelize: bool) -> (r: (NextMove, Eval))
    ensures
        r.1 == evaluation(*state, depth as nat),
        columns_of(r.0) == best_moves(*state, depth as nat),
    decreases depth, 1nat,
{
    let ghost s = *state;
    let mut successors: Vec<Option<State>> = Vec::new();
    let mut column: u8 = 0;
    while column < COLUMNS
        invariant
            s == *state,
            column <= COLUMNS,
            successors@.len() == column,
            forall|j: int| 0 <= j < column ==> successors@[j] == successor(s, j),
            first_win_from(s, 0) == first_win_from(s, column as int),
        decreases COLUMNS - column,
    {
        let result = state.try_move(column);
        proof {
            assert(first_win_from(s, column as int) == if result is Victory {
                Some(column as int)
            } else {
                first_win_from(s, column + 1)
            });
        }
        match result {
            MoveResult::Victory => {
                let mut moves = empty_moves();
                push_move(&mut moves, column);
                proof {
                    assert(columns_of(moves) =~= seq![column]);
                }
                return (moves, Eval::ImmediateVictory);
            },
            MoveResult::Impossible => successors.push(None),
            MoveResult::State(next) => successors.push(Some(next)),
        }
        column += 1;
    }
    let evals: Vec<Option<Eval>> = if parallelize {
        judge_all_in_parallel(&successors, depth)
    } else {
        let mut evals: Vec<Option<Eval>> = Vec::new();
        let mut i: usize = 0;
        while i < successors.len()
            invariant
                i <= successors@.len(),
                evals@.len() == i,
                forall|j: int| 0 <= j < i ==> evals@[j] == judged(successors@[j], depth as nat),
            decreases successors@.len() - i,
        {
            evals.push(judge(&successors[i], depth));
            i += 1;
        }
        evals
    };
    let mut any_legal = false;
    let mut all_lose = true;
    let mut some_win = false;
    let mut c: usize = 0;
    while c < COLUMNS as usize
        invariant
            s == *state,
            c <= COLUMNS,
            evals@.len() == COLUMNS,
            forall|j: int| 0 <= j < COLUMNS ==> evals@[j] == judged(successor(s, j), depth as nat),
            any_legal == exists|j: int| 0 <= j < c && #[trigger] successor(s, j) is Some,
            all_lose == all_replies_lose_below(s, depth as nat, c as int),
            some_win == some_reply_wins_below(s, depth as nat, c as int),
        decreases COLUMNS - c,
    {
        proof {
            assert(evals@[c as int] == judged(successor(s, c as int), depth as nat));
        }
        if let Some(e) = evals[c] {
            any_legal = true;
            if !matches!(e, Eval::ImmediateVictory | Eval::AssuredVictory) {
                all_lose = false;
            }
            if let Eval::AssuredLoss = e {
                some_win = true;
            }
        }
        c += 1;
    }
    let eval = if !any_legal {
        Eval::Neutral
    } else if all_lose {
        Eval::AssuredLoss
    } else if some_win {
        Eval::AssuredVictory
    } else {
        Eval::Neutral
    };
    proof {
        if any_legal {
            let j = choose|j: int| 0 <= j < COLUMNS && #[trigger] successor(s, j) is Some;
            assert(!(forall|c: int| 0 <= c < COLUMNS ==> #[trigger] successor(s, c) is None));
        }
    }
    assert(eval == evaluation(s, depth as nat));
    let mut moves = empty_moves();
    let mut c: u8 = 0;
    while c < COLUMNS
        invariant
            s == *state,
            c <= COLUMNS,
            evals@.len() == COLUMNS,
            forall|j: int| 0 <= j < COLUMNS ==> evals@[j] == judged(successor(s, j), depth as nat),
            eval == evaluation(s, depth as nat),
            columns_of(moves) == recommended_below(s, depth as nat, c as int),
        decreases COLUMNS - c,
    {
        let keep = match evals[c as usize] {
            None => false,
            Some(e) => match eval {
                Eval::AssuredVictory => matches!(e, Eval::AssuredLoss),
                Eval::AssuredLoss => true,
                _ => !matches!(e, Eval::ImmediateVictory | Eval::AssuredVictory),
            },
        };
        proof {
            assert(evals@[c as int] == judged(successor(s, c as int), depth as nat));
        }
        if keep {
            push_move(&mut moves, c);
        }
        c += 1;
    }
    (moves, eval)
}

} // verus!
