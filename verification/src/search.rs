//! Minimax and alpha-beta search to a fixed depth.
//!
//! `maximizing` says whether the mover at a node wants the score high or low;
//! it alternates from ply to ply. A node is a leaf when the depth is used up
//! or the game is over there, and a leaf is worth its static score.

use vstd::prelude::*;
use crate::board::{Move, Position, PositionView, Status};
use crate::eval::{MAX_VAL, MIN_VAL, evaluate, heuristic};
use crate::pruning::{
    lemma_alphabeta_in_range,
    lemma_alphabeta_is_minimax,
    lemma_alphabeta_sound,
    lemma_minimax_in_range,
    sound,
};
use crate::rules::{apply_legal, legal_moves, legal_moves_of, position_after, status, status_of};

verus! {

/// The value a node starts from before any move is looked at: the worst for
/// its mover.
pub open spec fn worst(maximizing: bool) -> int {
    if maximizing {
        MIN_VAL as int
    } else {
        MAX_VAL as int
    }
}

/// The better of two values for the mover.
pub open spec fn better(maximizing: bool, a: int, b: int) -> int {
    if maximizing {
        if a >= b {
            a
        } else {
            b
        }
    } else {
        if a <= b {
            a
        } else {
            b
        }
    }
}

/// Whether a node is a leaf of the search.
pub open spec fn is_leaf(v: PositionView, depth: nat) -> bool {
    depth == 0 || status_of(v) != Status::Ongoing
}

/// The minimax value of a position searched `depth` plies deep.
pub open spec fn minimax_value(v: PositionView, depth: nat, maximizing: bool) -> int
    decreases depth, 1nat, 0nat,
{
    if is_leaf(v, depth) {
        evaluate(v)
    } else {
        minimax_over(v, legal_moves_of(v), depth, maximizing)
    }
}

/// The best, for the mover, of the values that the given moves lead to, each
/// searched one ply less deep for the other side; the worst value if there is
/// no move.
pub open spec fn minimax_over(v: PositionView, moves: Seq<Move>, depth: nat, maximizing: bool) -> int
    decreases depth, 0nat, moves.len(),
{
    if depth == 0 || moves.len() == 0 {
        worst(maximizing)
    } else {
        better(
            maximizing,
            minimax_over(v, moves.drop_last(), depth, maximizing),
            minimax_value(position_after(v, moves.last()), (depth - 1) as nat, !maximizing),
        )
    }
}

/// The value of alpha-beta search with the window from `alpha` to `beta`.
pub open spec fn alphabeta_value(
    v: PositionView,
    depth: nat,
    alpha: int,
    beta: int,
    maximizing: bool,
) -> int
    decreases depth, 1nat, 0nat,
{
    if is_leaf(v, depth) {
        evaluate(v)
    } else {
        alphabeta_from(v, legal_moves_of(v), 0, depth, worst(maximizing), alpha, beta, maximizing)
    }
}

/// The value that a node ends with when it walks its moves from the `i`-th on,
/// holding `value` as the best so far and the window from `alpha` to `beta`.
/// Each move's position is searched with the window as it stands; the value
/// then moves the mover's own end of the window, and the walk stops as soon
/// as the window is empty.
pub open spec fn alphabeta_from(
    v: PositionView,
    moves: Seq<Move>,
    i: int,
    depth: nat,
    value: int,
    alpha: int,
    beta: int,
    maximizing: bool,
) -> int
    decreases depth, 0nat, moves.len() - i,
{
    if depth == 0 || i < 0 || i >= moves.len() {
        value
    } else {
        let child = alphabeta_value(
            position_after(v, moves[i]),
            (depth - 1) as nat,
            alpha,
            beta,
            !maximizing,
        );
        let value2 = better(maximizing, value, child);
        if maximizing {
            let alpha2 = better(true, alpha, value2);
            if alpha2 >= beta {
                value2
            } else {
                alphabeta_from(v, moves, i + 1, depth, value2, alpha2, beta, true)
            }
        } else {
            let beta2 = better(false, beta, value2);
            if beta2 <= alpha {
                value2
            } else {
                alphabeta_from(v, moves, i + 1, depth, value2, alpha, beta2, false)
            }
        }
    }
}

/// Minimax search: every line of play to the given depth.
pub fn minimax(position: &Position, depth: i32, maximizing_player: bool) -> (value: i32)
    requires
        depth >= 0,
    ensures
        value == minimax_value(position@, depth as nat, maximizing_player),
        MIN_VAL <= value <= MAX_VAL,
    decreases depth,
{
    proof {
        lemma_minimax_in_range(position@, depth as nat, maximizing_player);
    }
    if depth == 0 || status(position) != Status::Ongoing {
        return heuristic(position);
    }
    let children: Vec<Move> = legal_moves(position);
    let mut value: i32 = if maximizing_player {
        MIN_VAL
    } else {
        MAX_VAL
    };
    let mut i: usize = 0;
    while i < children.len()
        invariant
            depth > 0,
            i <= children.len(),
            children@ == legal_moves_of(position@),
            value == minimax_over(position@, children@.take(i as int), depth as nat, maximizing_player),
        decreases children.len() - i,
    {
        let new_position: Position = apply_legal(position, children[i]);
        let child: i32 = minimax(&new_position, depth - 1, !maximizing_player);
        proof {
            let s = children@.take(i + 1);
            assert(s.drop_last() == children@.take(i as int));
            assert(s.last() == children@[i as int]);
        }
        if maximizing_player {
            if child > value {
                value = child;
            }
        } else {
            if child < value {
                value = child;
            }
        }
        i = i + 1;
    }
    assert(children@.take(i as int) == children@);
    value
}

/// Alpha-beta search with the full window. It returns the minimax value.
pub fn alphabetahelper(position: &Position, depth: i32, maximizing_player: bool) -> (value: i32)
    requires
        depth >= 0,
    ensures
        value == alphabeta_value(
            position@,
            depth as nat,
            MIN_VAL as int,
            MAX_VAL as int,
            maximizing_player,
        ),
        value == minimax_value(position@, depth as nat, maximizing_player),
{
    proof {
        lemma_alphabeta_is_minimax(position@, depth as nat, maximizing_player);
    }
    alphabeta(position, depth, MIN_VAL, MAX_VAL, maximizing_player)
}

/// Alpha-beta search: minimax that stops looking at a node's moves once the
/// window from `alpha` to `beta` is empty. With a window inside the range of
/// scores the result is the minimax value if it lies inside the window, and
/// a bound on the minimax value if it does not.
pub fn alphabeta(
    position: &Position,
    depth: i32,
    alpha: i32,
    beta: i32,
    maximizing_player: bool,
) -> (value: i32)
    requires
        depth >= 0,
    ensures
        value == alphabeta_value(
            position@,
            depth as nat,
            alpha as int,
            beta as int,
            maximizing_player,
        ),
        MIN_VAL <= value <= MAX_VAL,
        MIN_VAL <= alpha < beta <= MAX_VAL ==> sound(
            value as int,
            minimax_value(position@, depth as nat, maximizing_player),
            alpha as int,
            beta as int,
        ),
    decreases depth, 1nat,
{
    proof {
        lemma_alphabeta_in_range(
            position@,
            depth as nat,
            alpha as int,
            beta as int,
            maximizing_player,
        );
        if MIN_VAL <= alpha < beta <= MAX_VAL {
            lemma_alphabeta_sound(
                position@,
                depth as nat,
                alpha as int,
                beta as int,
                maximizing_player,
            );
        }
    }
    if depth == 0 || status(position) != Status::Ongoing {
        return heuristic(position);
    }
    let children: Vec<Move> = legal_moves(position);
    walk(position, &children, depth, alpha, beta, maximizing_player)
}

/// Walks the given moves of a node with alpha-beta, from the worst value and
/// the given window.
pub fn walk(
    position: &Position,
    moves: &Vec<Move>,
    depth: i32,
    alpha: i32,
    beta: i32,
    maximizing_player: bool,
) -> (value: i32)
    requires
        depth > 0,
        forall|j: int| 0 <= j < moves@.len() ==> legal_moves_of(position@).contains(#[trigger] moves@[j]),
    ensures
        value == alphabeta_from(
            position@,
            moves@,
            0,
            depth as nat,
            worst(maximizing_player),
            alpha as int,
            beta as int,
            maximizing_player,
        ),
    decreases depth, 0nat,
{
    let mut new_alpha: i32 = alpha;
    let mut new_beta: i32 = beta;
    let mut value: i32 = if maximizing_player {
        MIN_VAL
    } else {
        MAX_VAL
    };
    let ghost target = alphabeta_from(
        position@,
        moves@,
        0,
        depth as nat,
        worst(maximizing_player),
        alpha as int,
        beta as int,
        maximizing_player,
    );
    let mut i: usize = 0;
    while i < moves.len()
        invariant
            depth > 0,
            i <= moves.len(),
            forall|j: int| 0 <= j < moves@.len() ==> legal_moves_of(position@).contains(#[trigger] moves@[j]),
            alphabeta_from(
                position@,
                moves@,
                i as int,
                depth as nat,
                value as int,
                new_alpha as int,
                new_beta as int,
                maximizing_player,
            ) == target,
            target == alphabeta_from(
                position@,
                moves@,
                0,
                depth as nat,
                worst(maximizing_player),
                alpha as int,
                beta as int,
                maximizing_player,
            ),
        decreases moves.len() - i,
    {
        let new_position: Position = apply_legal(position, moves[i]);
        let child: i32 = alphabeta(&new_position, depth - 1, new_alpha, new_beta, !maximizing_player);
        if maximizing_player {
            if child > value {
                value = child;
            }
            if value > new_alpha {
                new_alpha = value;
            }
            if new_alpha >= new_beta {
                return value;
            }
        } else {
            if child < value {
                value = child;
            }
            if value < new_beta {
                new_beta = value;
            }
            if new_beta <= new_alpha {
                return value;
            }
        }
        i = i + 1;
    }
    value
}

} // verus!
