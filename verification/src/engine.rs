//! The engine: a position, a search depth and a search algorithm, and the
//! choice of a move.

use vstd::prelude::*;
use vstd::string::StringExecFns;
use crate::board::{Color, Move, Position, PositionView, Status};
use crate::eval::{MAX_VAL, MIN_VAL, evaluate};
use crate::ordering::{
    bestfirst,
    bestfirst_value,
    bstar,
    bstar_value,
    lemma_bestfirst_is_minimax,
    lemma_bstar_is_minimax,
};
use crate::pruning::{lemma_alphabeta_is_minimax, lemma_minimax_in_range};
use crate::rules::{apply_legal, apply_move, legal_moves, legal_moves_of, position_after, status_of};
use crate::search::{alphabeta_value, alphabetahelper, minimax, minimax_value};

verus! {

/// The search algorithms.
#[derive(Clone, Copy, PartialEq, Eq, Debug, Structural)]
pub enum Algorithm {
    Minimax,
    AlphaBeta,
    BestFirst,
    BStar,
}

/// The algorithm that a name selects: "m", "ab", "bf" or "bs"; any other name
/// selects alpha-beta.
pub open spec fn algorithm_named(name: Seq<char>) -> Algorithm {
    if name == "m"@ {
        Algorithm::Minimax
    } else if name == "ab"@ {
        Algorithm::AlphaBeta
    } else if name == "bf"@ {
        Algorithm::BestFirst
    } else if name == "bs"@ {
        Algorithm::BStar
    } else {
        Algorithm::AlphaBeta
    }
}

/// The value that an algorithm gives a position.
pub open spec fn search_value(
    algo: Algorithm,
    v: PositionView,
    depth: nat,
    maximizing: bool,
) -> int {
    match algo {
        Algorithm::Minimax => minimax_value(v, depth, maximizing),
        Algorithm::AlphaBeta => alphabeta_value(
            v,
            depth,
            MIN_VAL as int,
            MAX_VAL as int,
            maximizing,
        ),
        Algorithm::BestFirst => bestfirst_value(v, depth, maximizing),
        Algorithm::BStar => bstar_value(v, depth, maximizing),
    }
}

/// The value that the engine gives a move from a position: the value of the
/// position it leads to, searched as if its mover wanted the score high.
pub open spec fn move_value(algo: Algorithm, v: PositionView, depth: nat, m: Move) -> int {
    search_value(algo, position_after(v, m), depth, true)
}

/// The values that the engine gives the legal moves of a position, in their order.
pub open spec fn move_values(algo: Algorithm, v: PositionView, depth: nat) -> Seq<int> {
    Seq::new(
        legal_moves_of(v).len(),
        |i: int| move_value(algo, v, depth, legal_moves_of(v)[i]),
    )
}

/// The static scores of the positions that the legal moves lead to, in their order.
pub open spec fn static_values(v: PositionView) -> Seq<int> {
    Seq::new(legal_moves_of(v).len(), |i: int| evaluate(position_after(v, legal_moves_of(v)[i])))
}

/// The choice among the first `n` moves, with its value: a move replaces the
/// choice so far only if its value is higher, and no move is chosen while
/// none is above the lowest score.
pub open spec fn choice(moves: Seq<Move>, values: Seq<int>, n: int) -> (Option<Move>, int)
    decreases n,
{
    if n <= 0 {
        (None, MIN_VAL as int)
    } else {
        let before = choice(moves, values, n - 1);
        if values[n - 1] > before.1 {
            (Some(moves[n - 1]), values[n - 1])
        } else {
            before
        }
    }
}

/// The move that the engine proposes from a position.
pub open spec fn best_move(algo: Algorithm, v: PositionView, depth: nat) -> Option<Move> {
    choice(legal_moves_of(v), move_values(algo, v, depth), legal_moves_of(v).len() as int).0
}

/// Whether the `k`-th of the first `n` values is the first of the highest
/// among them, and above the lowest score.
pub open spec fn first_highest(values: Seq<int>, n: int, k: int) -> bool {
    &&& 0 <= k < n
    &&& values[k] > MIN_VAL
    &&& forall|j: int| 0 <= j < n ==> #[trigger] values[j] <= values[k]
    &&& forall|j: int| 0 <= j < k ==> #[trigger] values[j] < values[k]
}

/// An engine: the position it stands at, how deep it searches and with which
/// algorithm. The depth is never negative.
pub struct Engine {
    game_state: Position,
    depth: i32,
    algo: Algorithm,
}

/// Every algorithm returns the minimax value.
pub proof fn lemma_search_is_minimax(algo: Algorithm, v: PositionView, depth: nat, maximizing: bool)
    ensures
        search_value(algo, v, depth, maximizing) == minimax_value(v, depth, maximizing),
{
    lemma_alphabeta_is_minimax(v, depth, maximizing);
    lemma_bestfirst_is_minimax(v, depth, maximizing);
    lemma_bstar_is_minimax(v, depth, maximizing);
}

/// At depth 0 every algorithm returns the static score.
pub proof fn lemma_depth_zero_is_static(algo: Algorithm, v: PositionView, maximizing: bool)
    ensures
        search_value(algo, v, 0, maximizing) == evaluate(v),
{
}

/// What the choice among the first `n` moves is: none if no move has a value
/// above the lowest score, else the first move of the highest value, with
/// that value.
pub proof fn lemma_choice(moves: Seq<Move>, values: Seq<int>, n: int)
    requires
        0 <= n <= moves.len(),
        n <= values.len(),
    ensures
        match choice(moves, values, n).0 {
            Some(m) => exists|k: int|
                #[trigger] first_highest(values, n, k) && moves[k] == m && choice(moves, values, n).1
                    == values[k],
            None => choice(moves, values, n).1 == MIN_VAL && forall|j: int|
                0 <= j < n ==> #[trigger] values[j] <= MIN_VAL,
        },
    decreases n,
{
    if n > 0 {
        lemma_choice(moves, values, n - 1);
        let before = choice(moves, values, n - 1);
        if values[n - 1] > before.1 {
            match before.0 {
                Some(m) => {
                    let k = choose|k: int|
                        #[trigger] first_highest(values, n - 1, k) && moves[k] == m && before.1
                            == values[k];
                    assert(first_highest(values, n, n - 1));
                },
                None => {
                    assert(first_highest(values, n, n - 1));
                },
            }
        } else {
            match before.0 {
                Some(m) => {
                    let k = choose|k: int|
                        #[trigger] first_highest(values, n - 1, k) && moves[k] == m && before.1
                            == values[k];
                    assert(first_highest(values, n, k));
                },
                None => {},
            }
        }
    }
}

/// The engine proposes the first legal move of the highest value, if that
/// value is above the lowest score, and no move otherwise.
pub proof fn lemma_best_move_is_first_highest(algo: Algorithm, v: PositionView, depth: nat)
    ensures
        match best_move(algo, v, depth) {
            Some(m) => exists|k: int|
                #[trigger] first_highest(
                    move_values(algo, v, depth),
                    legal_moves_of(v).len() as int,
                    k,
                ) && legal_moves_of(v)[k] == m,
            None => forall|j: int|
                0 <= j < legal_moves_of(v).len() ==> #[trigger] move_values(algo, v, depth)[j]
                    <= MIN_VAL,
        },
{
    lemma_choice(legal_moves_of(v), move_values(algo, v, depth), legal_moves_of(v).len() as int);
}

/// Any two algorithms propose the same move from the same position at the
/// same depth.
pub proof fn lemma_algorithms_agree(a: Algorithm, b: Algorithm, v: PositionView, depth: nat)
    ensures
        move_values(a, v, depth) == move_values(b, v, depth),
        best_move(a, v, depth) == best_move(b, v, depth),
{
    let moves = legal_moves_of(v);
    assert forall|i: int| 0 <= i < moves.len() implies move_values(a, v, depth)[i] == move_values(
        b,
        v,
        depth,
    )[i] by {
        lemma_search_is_minimax(a, position_after(v, moves[i]), depth, true);
        lemma_search_is_minimax(b, position_after(v, moves[i]), depth, true);
    }
    assert(move_values(a, v, depth) =~= move_values(b, v, depth));
}

/// At depth 0 each move is worth the static score of the position it leads
/// to: the engine proposes the first legal move whose position has the
/// highest static score, if that score is above the lowest; otherwise none.
pub proof fn lemma_depth_zero_choice(algo: Algorithm, v: PositionView)
    ensures
        move_values(algo, v, 0) == static_values(v),
        match best_move(algo, v, 0) {
            Some(m) => exists|k: int|
                #[trigger] first_highest(static_values(v), legal_moves_of(v).len() as int, k)
                    && legal_moves_of(v)[k] == m,
            None => forall|j: int|
                0 <= j < legal_moves_of(v).len() ==> #[trigger] static_values(v)[j] <= MIN_VAL,
        },
{
    assert(move_values(algo, v, 0) =~= static_values(v));
    lemma_best_move_is_first_highest(algo, v, 0);
}

/// A name that is none of "m", "ab", "bf" and "bs" selects what "ab" selects.
pub proof fn lemma_unknown_name_is_alphabeta(name: Seq<char>)
    requires
        name != "m"@,
        name != "bf"@,
        name != "bs"@,
    ensures
        algorithm_named(name) == algorithm_named("ab"@),
        algorithm_named(name) == Algorithm::AlphaBeta,
{
    reveal_strlit("m");
    reveal_strlit("ab");
    reveal_strlit("bf");
    reveal_strlit("bs");
    assert("ab"@.len() == 2);
    assert("m"@.len() == 1);
}

/// From a position without a legal move the engine proposes none; if the side
/// to move is checkmated there, the static score is the sentinel of the side
/// that lost: the lowest score if White is to move, the highest if Black is.
pub proof fn lemma_terminal(algo: Algorithm, v: PositionView, depth: nat)
    requires
        legal_moves_of(v).len() == 0,
    ensures
        best_move(algo, v, depth).is_none(),
        status_of(v) == Status::Checkmate ==> evaluate(v) == (if v.side_to_move == Color::White {
            MIN_VAL as int
        } else {
            MAX_VAL as int
        }),
{
}

/// The algorithm that a name selects.
pub fn get_algo(algo: String) -> (r: Algorithm)
    ensures
        r == algorithm_named(algo@),
{
    if algo == String::from_str("m") {
        Algorithm::Minimax
    } else if algo == String::from_str("ab") {
        Algorithm::AlphaBeta
    } else if algo == String::from_str("bf") {
        Algorithm::BestFirst
    } else if algo == String::from_str("bs") {
        Algorithm::BStar
    } else {
        Algorithm::AlphaBeta
    }
}

/// Searches a position with the given algorithm.
pub fn search(algo: Algorithm, position: &Position, depth: i32, maximizing_player: bool) -> (value:
    i32)
    requires
        depth >= 0,
    ensures
        value == search_value(algo, position@, depth as nat, maximizing_player),
        value == minimax_value(position@, depth as nat, maximizing_player),
        MIN_VAL <= value <= MAX_VAL,
{
    proof {
        lemma_search_is_minimax(algo, position@, depth as nat, maximizing_player);
        lemma_minimax_in_range(position@, depth as nat, maximizing_player);
    }
    match algo {
        Algorithm::Minimax => minimax(position, depth, maximizing_player),
        Algorithm::AlphaBeta => alphabetahelper(position, depth, maximizing_player),
        Algorithm::BestFirst => bestfirst(position, depth, maximizing_player),
        Algorithm::BStar => bstar(position, depth, maximizing_player),
    }
}

impl Engine {
    #[verifier::type_invariant]
    spec fn depth_is_natural(&self) -> bool {
        self.depth >= 0
    }

    /// The position the engine stands at.
    pub closed spec fn position(&self) -> PositionView {
        self.game_state@
    }

    /// How many plies deep the engine searches below each of its moves.
    pub closed spec fn depth(&self) -> nat {
        self.depth as nat
    }

    /// The algorithm the engine searches with.
    pub closed spec fn algorithm(&self) -> Algorithm {
        self.algo
    }

    /// An engine at the given position. The depth must not be negative; a
    /// name that is not known selects alpha-beta.
    pub fn new(game_state: Position, depth: i32, algo: String) -> (engine: Engine)
        requires
            depth >= 0,
        ensures
            engine.position() == game_state@,
            engine.depth() == depth,
            engine.algorithm() == algorithm_named(algo@),
    {
        Engine { game_state, depth, algo: get_algo(algo) }
    }

    /// The position the engine stands at.
    pub fn game_state(&self) -> (position: &Position)
        ensures
            position@ == self.position(),
    {
        &self.game_state
    }

    /// Makes a move on the engine's position. A move that is not legal
    /// leaves the position as it is.
    pub fn play_move(&mut self, chess_move: Move)
        ensures
            final(self).position() == position_after(old(self).position(), chess_move),
            final(self).depth() == old(self).depth(),
            final(self).algorithm() == old(self).algorithm(),
    {
        proof {
            use_type_invariant(&*self);
        }
        self.game_state = apply_move(&self.game_state, chess_move);
    }

    /// The move the engine proposes: the first legal move of the highest
    /// value, each move valued by a search of the position it leads to; none
    /// if no move has a value above the lowest score, and so none where there
    /// is no legal move.
    pub fn get_best_move(&self) -> (r: Option<Move>)
        ensures
            r == best_move(self.algorithm(), self.position(), self.depth()),
            match r {
                Some(m) => exists|k: int|
                    #[trigger] first_highest(
                        move_values(self.algorithm(), self.position(), self.depth()),
                        legal_moves_of(self.position()).len() as int,
                        k,
                    ) && legal_moves_of(self.position())[k] == m,
                None => forall|j: int|
                    0 <= j < legal_moves_of(self.position()).len() ==> #[trigger] move_values(
                        self.algorithm(),
                        self.position(),
                        self.depth(),
                    )[j] <= MIN_VAL,
            },
            legal_moves_of(self.position()).len() == 0 ==> r.is_none(),
            r matches Some(m) ==> legal_moves_of(self.position()).contains(m),
    {
        proof {
            use_type_invariant(self);
            lemma_best_move_is_first_highest(self.algo, self.game_state@, self.depth as nat);
        }
        let moves: Vec<Move> = legal_moves(&self.game_state);
        let mut best_move: Option<Move> = None;
        let mut best_value: i32 = MIN_VAL;
        let mut i: usize = 0;
        while i < moves.len()
            invariant
                i <= moves.len(),
                self.depth >= 0,
                moves@ == legal_moves_of(self.game_state@),
                (best_move, best_value as int) == choice(
                    moves@,
                    move_values(self.algo, self.game_state@, self.depth as nat),
                    i as int,
                ),
            decreases moves.len() - i,
        {
            let a_move: Move = moves[i];
            let reached: Position = apply_legal(&self.game_state, a_move);
            let value: i32 = search(self.algo, &reached, self.depth, true);
            if value > best_value {
                best_move = Some(a_move);
                best_value = value;
            }
            i = i + 1;
        }
        best_move
    }
}

} // verus!
