//! The cost of a search: how many leaves it scores.
//!
//! Alpha-beta search never scores more leaves than minimax does from the same
//! position to the same depth, and every leaf it scores is one that minimax
//! scores.

use vstd::prelude::*;
use crate::board::{Move, Position, PositionView, Status};
use crate::eval::{MAX_VAL, MIN_VAL, heuristic};
use crate::rules::{apply_legal, legal_moves, legal_moves_of, position_after, status};
use crate::search::{
    alphabeta_from,
    alphabeta_value,
    better,
    is_leaf,
    minimax_over,
    minimax_value,
    worst,
};

verus! {

/// The number of leaves that minimax scores.
pub open spec fn minimax_leaves(v: PositionView, depth: nat) -> nat
    decreases depth, 1nat, 0nat,
{
    if is_leaf(v, depth) {
        1
    } else {
        minimax_leaves_over(v, legal_moves_of(v), depth)
    }
}

/// The number of leaves that minimax scores below the given moves of a node.
pub open spec fn minimax_leaves_over(v: PositionView, moves: Seq<Move>, depth: nat) -> nat
    decreases depth, 0nat, moves.len(),
{
    if depth == 0 || moves.len() == 0 {
        0
    } else {
        minimax_leaves_over(v, moves.drop_last(), depth) + minimax_leaves(
            position_after(v, moves.last()),
            (depth - 1) as nat,
        )
    }
}

/// The number of leaves that alpha-beta search scores with the given window.
pub open spec fn alphabeta_leaves(
    v: PositionView,
    depth: nat,
    alpha: int,
    beta: int,
    maximizing: bool,
) -> nat
    decreases depth, 1nat, 0nat,
{
    if is_leaf(v, depth) {
        1
    } else {
        alphabeta_leaves_from(
            v,
            legal_moves_of(v),
            0,
            depth,
            worst(maximizing),
            alpha,
            beta,
            maximizing,
        )
    }
}

/// The number of leaves that a walk scores from its `i`-th move on: those
/// below each move it looks at, up to and including the move at which the
/// window becomes empty.
pub open spec fn alphabeta_leaves_from(
    v: PositionView,
    moves: Seq<Move>,
    i: int,
    depth: nat,
    value: int,
    alpha: int,
    beta: int,
    maximizing: bool,
) -> nat
    decreases depth, 0nat, moves.len() - i,
{
    if depth == 0 || i < 0 || i >= moves.len() {
        0
    } else {
        let next = position_after(v, moves[i]);
        let below = alphabeta_leaves(next, (depth - 1) as nat, alpha, beta, !maximizing);
        let child = alphabeta_value(next, (depth - 1) as nat, alpha, beta, !maximizing);
        let value2 = better(maximizing, value, child);
        if maximizing {
            let alpha2 = better(true, alpha, value2);
            if alpha2 >= beta {
                below
            } else {
                below + alphabeta_leaves_from(v, moves, i + 1, depth, value2, alpha2, beta, true)
            }
        } else {
            let beta2 = better(false, beta, value2);
            if beta2 <= alpha {
                below
            } else {
                below + alphabeta_leaves_from(v, moves, i + 1, depth, value2, alpha, beta2, false)
            }
        }
    }
}

/// Whether minimax scores the leaf at the end of a line of play: each move
/// of the line is legal where it is made, and the line ends exactly where the
/// search does.
pub open spec fn minimax_scores(v: PositionView, depth: nat, line: Seq<Move>) -> bool
    decreases depth,
{
    if is_leaf(v, depth) {
        line.len() == 0
    } else {
        &&& line.len() > 0
        &&& legal_moves_of(v).contains(line[0])
        &&& minimax_scores(position_after(v, line[0]), (depth - 1) as nat, line.skip(1))
    }
}

/// Whether alpha-beta search with the given window scores the leaf at the end
/// of a line of play.
pub open spec fn alphabeta_scores(
    v: PositionView,
    depth: nat,
    alpha: int,
    beta: int,
    maximizing: bool,
    line: Seq<Move>,
) -> bool
    decreases depth, 1nat, 0nat,
{
    if is_leaf(v, depth) {
        line.len() == 0
    } else {
        walk_scores(
            v,
            legal_moves_of(v),
            0,
            depth,
            worst(maximizing),
            alpha,
            beta,
            maximizing,
            line,
        )
    }
}

/// Whether a walk from its `i`-th move on scores the leaf at the end of a
/// line of play: the line starts with a move that the walk looks at, and the
/// search below that move, with the window as it then stands, scores the rest.
pub open spec fn walk_scores(
    v: PositionView,
    moves: Seq<Move>,
    i: int,
    depth: nat,
    value: int,
    alpha: int,
    beta: int,
    maximizing: bool,
    line: Seq<Move>,
) -> bool
    decreases depth, 0nat, moves.len() - i,
{
    if depth == 0 || i < 0 || i >= moves.len() {
        false
    } else {
        let next = position_after(v, moves[i]);
        let here = line.len() > 0 && line[0] == moves[i] && alphabeta_scores(
            next,
            (depth - 1) as nat,
            alpha,
            beta,
            !maximizing,
            line.skip(1),
        );
        let child = alphabeta_value(next, (depth - 1) as nat, alpha, beta, !maximizing);
        let value2 = better(maximizing, value, child);
        if maximizing {
            let alpha2 = better(true, alpha, value2);
            if alpha2 >= beta {
                here
            } else {
                here || walk_scores(v, moves, i + 1, depth, value2, alpha2, beta, true, line)
            }
        } else {
            let beta2 = better(false, beta, value2);
            if beta2 <= alpha {
                here
            } else {
                here || walk_scores(v, moves, i + 1, depth, value2, alpha, beta2, false, line)
            }
        }
    }
}

/// A count as a 64-bit counter holds it: the count itself, or the largest
/// number the counter can hold if the count is above it.
pub open spec fn capped(n: nat) -> int {
    if n > u64::MAX {
        u64::MAX as int
    } else {
        n as int
    }
}

/// Alpha-beta search scores no more leaves than minimax, whatever the window.
pub proof fn lemma_pruning_scores_no_more(
    v: PositionView,
    depth: nat,
    alpha: int,
    beta: int,
    maximizing: bool,
)
    ensures
        alphabeta_leaves(v, depth, alpha, beta, maximizing) <= minimax_leaves(v, depth),
    decreases depth, 1nat, 0nat,
{
    if !is_leaf(v, depth) {
        let moves = legal_moves_of(v);
        assert(moves.take(0) =~= Seq::<Move>::empty());
        lemma_walk_scores_no_more(v, moves, 0, depth, worst(maximizing), alpha, beta, maximizing);
    }
}

/// A walk from the `i`-th move on scores no more leaves than minimax scores
/// below the moves from the `i`-th on.
pub proof fn lemma_walk_scores_no_more(
    v: PositionView,
    moves: Seq<Move>,
    i: int,
    depth: nat,
    value: int,
    alpha: int,
    beta: int,
    maximizing: bool,
)
    requires
        depth > 0,
        0 <= i <= moves.len(),
    ensures
        alphabeta_leaves_from(v, moves, i, depth, value, alpha, beta, maximizing)
            + minimax_leaves_over(v, moves.take(i), depth) <= minimax_leaves_over(v, moves, depth),
    decreases depth, 0nat, moves.len() - i,
{
    if i == moves.len() {
        assert(moves.take(i) == moves);
    } else {
        let next = position_after(v, moves[i]);
        let d = (depth - 1) as nat;
        lemma_pruning_scores_no_more(next, d, alpha, beta, !maximizing);
        let s = moves.take(i + 1);
        assert(s.drop_last() == moves.take(i));
        assert(s.last() == moves[i]);
        let child = alphabeta_value(next, d, alpha, beta, !maximizing);
        let value2 = better(maximizing, value, child);
        if maximizing {
            let alpha2 = better(true, alpha, value2);
            lemma_walk_scores_no_more(v, moves, i + 1, depth, value2, alpha2, beta, true);
        } else {
            let beta2 = better(false, beta, value2);
            lemma_walk_scores_no_more(v, moves, i + 1, depth, value2, alpha, beta2, false);
        }
    }
}

/// Every leaf that alpha-beta search scores is a leaf that minimax scores,
/// whatever the window.
pub proof fn lemma_pruning_scores_only_minimax_leaves(
    v: PositionView,
    depth: nat,
    alpha: int,
    beta: int,
    maximizing: bool,
    line: Seq<Move>,
)
    requires
        alphabeta_scores(v, depth, alpha, beta, maximizing, line),
    ensures
        minimax_scores(v, depth, line),
    decreases depth, 1nat, 0nat,
{
    if !is_leaf(v, depth) {
        lemma_walk_scores_only_minimax_leaves(
            v,
            legal_moves_of(v),
            0,
            depth,
            worst(maximizing),
            alpha,
            beta,
            maximizing,
            line,
        );
    }
}

/// Every leaf that a walk over legal moves scores is a leaf that minimax
/// scores.
pub proof fn lemma_walk_scores_only_minimax_leaves(
    v: PositionView,
    moves: Seq<Move>,
    i: int,
    depth: nat,
    value: int,
    alpha: int,
    beta: int,
    maximizing: bool,
    line: Seq<Move>,
)
    requires
        depth > 0,
        0 <= i <= moves.len(),
        !is_leaf(v, depth),
        forall|j: int| 0 <= j < moves.len() ==> legal_moves_of(v).contains(#[trigger] moves[j]),
        walk_scores(v, moves, i, depth, value, alpha, beta, maximizing, line),
    ensures
        minimax_scores(v, depth, line),
    decreases depth, 0nat, moves.len() - i,
{
    if i < moves.len() {
        let next = position_after(v, moves[i]);
        let d = (depth - 1) as nat;
        let here = line.len() > 0 && line[0] == moves[i] && alphabeta_scores(
            next,
            d,
            alpha,
            beta,
            !maximizing,
            line.skip(1),
        );
        if here {
            lemma_pruning_scores_only_minimax_leaves(next, d, alpha, beta, !maximizing, line.skip(1));
        } else {
            let child = alphabeta_value(next, d, alpha, beta, !maximizing);
            let value2 = better(maximizing, value, child);
            if maximizing {
                let alpha2 = better(true, alpha, value2);
                lemma_walk_scores_only_minimax_leaves(
                    v,
                    moves,
                    i + 1,
                    depth,
                    value2,
                    alpha2,
                    beta,
                    true,
                    line,
                );
            } else {
                let beta2 = better(false, beta, value2);
                lemma_walk_scores_only_minimax_leaves(
                    v,
                    moves,
                    i + 1,
                    depth,
                    value2,
                    alpha,
                    beta2,
                    false,
                    line,
                );
            }
        }
    }
}

/// The sum of two counts as a 64-bit counter holds it.
fn add_capped(a: u64, b: u64, Ghost(x): Ghost<nat>, Ghost(y): Ghost<nat>) -> (sum: u64)
    requires
        a == capped(x),
        b == capped(y),
    ensures
        sum == capped(x + y),
{
    if a > u64::MAX - b {
        u64::MAX
    } else {
        a + b
    }
}

/// Minimax search that also counts the leaves it scores; the counter stops at
/// the largest number it can hold.
pub fn minimax_counted(position: &Position, depth: i32, maximizing_player: bool) -> (r: (i32, u64))
    requires
        depth >= 0,
    ensures
        r.0 == minimax_value(position@, depth as nat, maximizing_player),
        r.1 == capped(minimax_leaves(position@, depth as nat)),
    decreases depth,
{
    if depth == 0 || status(position) != Status::Ongoing {
        return (heuristic(position), 1);
    }
    let children: Vec<Move> = legal_moves(position);
    let mut value: i32 = if maximizing_player {
        MIN_VAL
    } else {
        MAX_VAL
    };
    let mut leaves: u64 = 0;
    let mut i: usize = 0;
    while i < children.len()
        invariant
            depth > 0,
            i <= children.len(),
            children@ == legal_moves_of(position@),
            value == minimax_over(position@, children@.take(i as int), depth as nat, maximizing_player),
            leaves == capped(minimax_leaves_over(position@, children@.take(i as int), depth as nat)),
        decreases children.len() - i,
    {
        let new_position: Position = apply_legal(position, children[i]);
        let (child, below): (i32, u64) = minimax_counted(&new_position, depth - 1, !maximizing_player);
        proof {
            let s = children@.take(i + 1);
            assert(s.drop_last() == children@.take(i as int));
            assert(s.last() == children@[i as int]);
        }
        if maximizing_player {
            if child > value {
                value = child;
            }
        } else {
            if child < value {
                value = child;
            }
        }
        leaves = add_capped(
            leaves,
            below,
            Ghost(minimax_leaves_over(position@, children@.take(i as int), depth as nat)),
            Ghost(minimax_leaves(new_position@, (depth - 1) as nat)),
        );
        i = i + 1;
    }
    assert(children@.take(i as int) == children@);
    (value, leaves)
}

/// Alpha-beta search that also counts the leaves it scores; the counter stops
/// at the largest number it can hold.
pub fn alphabeta_counted(
    position: &Position,
    depth: i32,
    alpha: i32,
    beta: i32,
    maximizing_player: bool,
) -> (r: (i32, u64))
    requires
        depth >= 0,
    ensures
        r.0 == alphabeta_value(
            position@,
            depth as nat,
            alpha as int,
            beta as int,
            maximizing_player,
        ),
        r.1 == capped(
            alphabeta_leaves(position@, depth as nat, alpha as int, beta as int, maximizing_player),
        ),
        r.1 <= capped(minimax_leaves(position@, depth as nat)),
    decreases depth,
{
    proof {
        lemma_pruning_scores_no_more(
            position@,
            depth as nat,
            alpha as int,
            beta as int,
            maximizing_player,
        );
    }
    if depth == 0 || status(position) != Status::Ongoing {
        return (heuristic(position), 1);
    }
    let moves: Vec<Move> = legal_moves(position);
    let mut new_alpha: i32 = alpha;
    let mut new_beta: i32 = beta;
    let mut value: i32 = if maximizing_player {
        MIN_VAL
    } else {
        MAX_VAL
    };
    let mut leaves: u64 = 0;
    let ghost target = alphabeta_from(
        position@,
        moves@,
        0,
        depth as nat,
        worst(maximizing_player),
        alpha as int,
        beta as int,
        maximizing_player,
    );
    let ghost total = alphabeta_leaves_from(
        position@,
        moves@,
        0,
        depth as nat,
        worst(maximizing_player),
        alpha as int,
        beta as int,
        maximizing_player,
    );
    let ghost mut seen: nat = 0;
    let mut i: usize = 0;
    while i < moves.len()
        invariant
            depth > 0,
            i <= moves.len(),
            moves@ == legal_moves_of(position@),
            leaves == capped(seen),
            alphabeta_from(
                position@,
                moves@,
                i as int,
                depth as nat,
                value as int,
                new_alpha as int,
                new_beta as int,
                maximizing_player,
            ) == target,
            seen + alphabeta_leaves_from(
                position@,
                moves@,
                i as int,
                depth as nat,
                value as int,
                new_alpha as int,
                new_beta as int,
                maximizing_player,
            ) == total,
            target == alphabeta_value(
                position@,
                depth as nat,
                alpha as int,
                beta as int,
                maximizing_player,
            ),
            total == alphabeta_leaves(
                position@,
                depth as nat,
                alpha as int,
                beta as int,
                maximizing_player,
            ),
            total <= minimax_leaves(position@, depth as nat),
        decreases moves.len() - i,
    {
        let new_position: Position = apply_legal(position, moves[i]);
        let (child, below): (i32, u64) = alphabeta_counted(
            &new_position,
            depth - 1,
            new_alpha,
            new_beta,
            !maximizing_player,
        );
        let ghost below_exact = alphabeta_leaves(
            new_position@,
            (depth - 1) as nat,
            new_alpha as int,
            new_beta as int,
            !maximizing_player,
        );
        leaves = add_capped(leaves, below, Ghost(seen), Ghost(below_exact));
        proof {
            seen = seen + below_exact;
        }
        if maximizing_player {
            if child > value {
                value = child;
            }
            if value > new_alpha {
                new_alpha = value;
            }
            if new_alpha >= new_beta {
                return (value, leaves);
            }
        } else {
            if child < value {
                value = child;
            }
            if value < new_beta {
                new_beta = value;
            }
            if new_beta <= new_alpha {
                return (value, leaves);
            }
        }
        i = i + 1;
    }
    (value, leaves)
}

} // verus!
