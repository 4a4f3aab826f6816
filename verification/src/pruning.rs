//! Why pruning is safe: alpha-beta search with the full window returns the
//! minimax value.

use vstd::prelude::*;
use crate::board::{Move, PositionView};
use crate::eval::{MAX_VAL, MIN_VAL, lemma_evaluate_in_range};
use crate::rules::position_after;
use crate::search::{alphabeta_from, alphabeta_value, better, is_leaf, minimax_over, minimax_value, worst};
use crate::rules::legal_moves_of;

verus! {

/// What a windowed value `r` tells of the true value `x`: at or below the
/// window it is an upper bound, at or above it a lower bound, and inside the
/// window it is exact.
pub open spec fn sound(r: int, x: int, alpha: int, beta: int) -> bool {
    &&& r <= alpha ==> x <= r
    &&& alpha < r < beta ==> x == r
    &&& r >= beta ==> x >= r
}

/// Every minimax value lies between the sentinels.
pub proof fn lemma_minimax_in_range(v: PositionView, depth: nat, maximizing: bool)
    ensures
        MIN_VAL <= minimax_value(v, depth, maximizing) <= MAX_VAL,
    decreases depth, 1nat, 0nat,
{
    if is_leaf(v, depth) {
        lemma_evaluate_in_range(v);
    } else {
        lemma_minimax_over_in_range(v, legal_moves_of(v), depth, maximizing);
    }
}

/// The best of a node's values lies between the sentinels.
pub proof fn lemma_minimax_over_in_range(
    v: PositionView,
    moves: Seq<Move>,
    depth: nat,
    maximizing: bool,
)
    ensures
        MIN_VAL <= minimax_over(v, moves, depth, maximizing) <= MAX_VAL,
    decreases depth, 0nat, moves.len(),
{
    if depth == 0 || moves.len() == 0 {
    } else {
        lemma_minimax_over_in_range(v, moves.drop_last(), depth, maximizing);
        lemma_minimax_in_range(
            position_after(v, moves.last()),
            (depth - 1) as nat,
            !maximizing,
        );
    }
}

/// Every alpha-beta value lies between the sentinels, whatever the window.
pub proof fn lemma_alphabeta_in_range(
    v: PositionView,
    depth: nat,
    alpha: int,
    beta: int,
    maximizing: bool,
)
    ensures
        MIN_VAL <= alphabeta_value(v, depth, alpha, beta, maximizing) <= MAX_VAL,
    decreases depth, 1nat, 0nat,
{
    if is_leaf(v, depth) {
        lemma_evaluate_in_range(v);
    } else {
        lemma_alphabeta_from_in_range(
            v,
            legal_moves_of(v),
            0,
            depth,
            worst(maximizing),
            alpha,
            beta,
            maximizing,
        );
    }
}

/// A walk that starts from a value between the sentinels ends with one.
pub proof fn lemma_alphabeta_from_in_range(
    v: PositionView,
    moves: Seq<Move>,
    i: int,
    depth: nat,
    value: int,
    alpha: int,
    beta: int,
    maximizing: bool,
)
    requires
        MIN_VAL <= value <= MAX_VAL,
    ensures
        MIN_VAL <= alphabeta_from(v, moves, i, depth, value, alpha, beta, maximizing) <= MAX_VAL,
    decreases depth, 0nat, moves.len() - i,
{
    if depth == 0 || i < 0 || i >= moves.len() {
    } else {
        let child = alphabeta_value(
            position_after(v, moves[i]),
            (depth - 1) as nat,
            alpha,
            beta,
            !maximizing,
        );
        lemma_alphabeta_in_range(
            position_after(v, moves[i]),
            (depth - 1) as nat,
            alpha,
            beta,
            !maximizing,
        );
        let value2 = better(maximizing, value, child);
        if maximizing {
            let alpha2 = better(true, alpha, value2);
            if alpha2 < beta {
                lemma_alphabeta_from_in_range(v, moves, i + 1, depth, value2, alpha2, beta, true);
            }
        } else {
            let beta2 = better(false, beta, value2);
            if beta2 > alpha {
                lemma_alphabeta_from_in_range(v, moves, i + 1, depth, value2, alpha, beta2, false);
            }
        }
    }
}

/// Looking at more moves never makes a node worse for its mover: the best
/// over the first `k` moves is no better than the best over all of them.
pub proof fn lemma_prefix_no_better(
    v: PositionView,
    moves: Seq<Move>,
    k: int,
    depth: nat,
    maximizing: bool,
)
    requires
        0 <= k <= moves.len(),
        depth > 0,
    ensures
        maximizing ==> minimax_over(v, moves.take(k), depth, true) <= minimax_over(
            v,
            moves,
            depth,
            true,
        ),
        !maximizing ==> minimax_over(v, moves.take(k), depth, false) >= minimax_over(
            v,
            moves,
            depth,
            false,
        ),
    decreases moves.len() - k,
{
    if k == moves.len() {
        assert(moves.take(k) == moves);
    } else {
        lemma_prefix_no_better(v, moves, k + 1, depth, maximizing);
        let s = moves.take(k + 1);
        assert(s.drop_last() == moves.take(k));
    }
}

/// The state of a walk before its `i`-th move agrees with the true best over
/// the moves already seen: a value that has entered the window is exact, one
/// that has not is a bound on the mover's side.
pub open spec fn walk_agrees(
    v: PositionView,
    moves: Seq<Move>,
    i: int,
    depth: nat,
    value: int,
    alpha: int,
    beta: int,
    maximizing: bool,
) -> bool {
    let seen = minimax_over(v, moves.take(i), depth, maximizing);
    if maximizing {
        &&& value < beta
        &&& value <= alpha ==> seen <= value
        &&& value > alpha ==> seen == value
    } else {
        &&& value > alpha
        &&& value >= beta ==> seen >= value
        &&& value < beta ==> seen == value
    }
}

/// A walk that agrees with the moves seen so far ends with a value that is
/// sound for the best over all the moves.
pub proof fn lemma_walk_sound(
    v: PositionView,
    moves: Seq<Move>,
    i: int,
    depth: nat,
    value: int,
    alpha: int,
    beta: int,
    maximizing: bool,
)
    requires
        depth > 0,
        0 <= i <= moves.len(),
        MIN_VAL <= alpha < beta <= MAX_VAL,
        MIN_VAL <= value <= MAX_VAL,
        walk_agrees(v, moves, i, depth, value, alpha, beta, maximizing),
    ensures
        sound(
            alphabeta_from(
                v,
                moves,
                i,
                depth,
                value,
                if maximizing {
                    better(true, alpha, value)
                } else {
                    alpha
                },
                if maximizing {
                    beta
                } else {
                    better(false, beta, value)
                },
                maximizing,
            ),
            minimax_over(v, moves, depth, maximizing),
            alpha,
            beta,
        ),
    decreases depth, 0nat, moves.len() - i,
{
    if i == moves.len() {
        assert(moves.take(i) == moves);
    } else {
        let a = if maximizing {
            better(true, alpha, value)
        } else {
            alpha
        };
        let b = if maximizing {
            beta
        } else {
            better(false, beta, value)
        };
        let next = position_after(v, moves[i]);
        let d = (depth - 1) as nat;
        let child = alphabeta_value(next, d, a, b, !maximizing);
        let exact = minimax_value(next, d, !maximizing);
        lemma_alphabeta_sound(next, d, a, b, !maximizing);
        lemma_alphabeta_in_range(next, d, a, b, !maximizing);
        lemma_minimax_in_range(next, d, !maximizing);
        let s = moves.take(i + 1);
        assert(s.drop_last() == moves.take(i));
        assert(s.last() == moves[i]);
        let seen = minimax_over(v, moves.take(i), depth, maximizing);
        let seen2 = minimax_over(v, s, depth, maximizing);
        assert(seen2 == better(maximizing, seen, exact));
        let value2 = better(maximizing, value, child);
        lemma_prefix_no_better(v, moves, i + 1, depth, maximizing);
        if maximizing {
            let alpha2 = better(true, a, value2);
            if alpha2 < beta {
                assert(walk_agrees(v, moves, i + 1, depth, value2, alpha, beta, true));
                lemma_walk_sound(v, moves, i + 1, depth, value2, alpha, beta, true);
                assert(better(true, alpha, value2) == alpha2);
            }
        } else {
            let beta2 = better(false, b, value2);
            if beta2 > alpha {
                assert(walk_agrees(v, moves, i + 1, depth, value2, alpha, beta, false));
                lemma_walk_sound(v, moves, i + 1, depth, value2, alpha, beta, false);
                assert(better(false, beta, value2) == beta2);
            }
        }
    }
}

/// Alpha-beta search with a window inside the range of scores is sound for
/// the minimax value.
pub proof fn lemma_alphabeta_sound(
    v: PositionView,
    depth: nat,
    alpha: int,
    beta: int,
    maximizing: bool,
)
    requires
        MIN_VAL <= alpha < beta <= MAX_VAL,
    ensures
        sound(
            alphabeta_value(v, depth, alpha, beta, maximizing),
            minimax_value(v, depth, maximizing),
            alpha,
            beta,
        ),
    decreases depth, 1nat, 0nat,
{
    if is_leaf(v, depth) {
    } else {
        let moves = legal_moves_of(v);
        assert(moves.take(0) =~= Seq::<Move>::empty());
        lemma_walk_sound(v, moves, 0, depth, worst(maximizing), alpha, beta, maximizing);
    }
}

/// A walk over any list of moves with the full window, from the worst value,
/// ends with the best of the values that the moves lead to.
pub proof fn lemma_full_window_walk(v: PositionView, moves: Seq<Move>, depth: nat, maximizing: bool)
    requires
        depth > 0,
    ensures
        alphabeta_from(
            v,
            moves,
            0,
            depth,
            worst(maximizing),
            MIN_VAL as int,
            MAX_VAL as int,
            maximizing,
        ) == minimax_over(v, moves, depth, maximizing),
{
    assert(moves.take(0) =~= Seq::<Move>::empty());
    lemma_walk_sound(
        v,
        moves,
        0,
        depth,
        worst(maximizing),
        MIN_VAL as int,
        MAX_VAL as int,
        maximizing,
    );
    lemma_alphabeta_from_in_range(
        v,
        moves,
        0,
        depth,
        worst(maximizing),
        MIN_VAL as int,
        MAX_VAL as int,
        maximizing,
    );
    lemma_minimax_over_in_range(v, moves, depth, maximizing);
}

/// Alpha-beta search with the full window returns the minimax value, for
/// every position, every depth and either mover.
pub proof fn lemma_alphabeta_is_minimax(v: PositionView, depth: nat, maximizing: bool)
    ensures
        alphabeta_value(v, depth, MIN_VAL as int, MAX_VAL as int, maximizing) == minimax_value(
            v,
            depth,
            maximizing,
        ),
{
    lemma_alphabeta_sound(v, depth, MIN_VAL as int, MAX_VAL as int, maximizing);
    lemma_alphabeta_in_range(v, depth, MIN_VAL as int, MAX_VAL as int, maximizing);
    lemma_minimax_in_range(v, depth, maximizing);
}

} // verus!
