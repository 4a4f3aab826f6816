//! Move ordering: alpha-beta search that looks at a node's moves in the order
//! of a cheap score, lowest first.
//!
//! `bestfirst` orders the moves of the root by the static score of the
//! position each leads to. `bstar` orders them by the best static score that
//! the side could reach with one more move if the opponent passed. Below the
//! root both search with plain alpha-beta.

use vstd::prelude::*;
use crate::board::{Move, Position, PositionView, Status};
use crate::eval::{MAX_VAL, MIN_VAL, evaluate, heuristic};
use crate::pruning::{lemma_full_window_walk, lemma_minimax_over_in_range};
use crate::rules::{
    apply_legal,
    legal_moves,
    legal_moves_of,
    null_move,
    null_moved,
    position_after,
    status,
};
use crate::search::{alphabeta_from, better, is_leaf, minimax_over, minimax_value, walk, worst};

verus! {

/// The list with `x` put behind the last entry whose score is not above its own.
pub open spec fn insert_by_score(s: Seq<(Move, i32)>, x: (Move, i32)) -> Seq<(Move, i32)>
    decreases s.len(),
{
    if s.len() == 0 {
        seq![x]
    } else if s.last().1 <= x.1 {
        s.push(x)
    } else {
        insert_by_score(s.drop_last(), x).push(s.last())
    }
}

/// The entries in ascending order of score; entries with the same score keep
/// the order they came in.
pub open spec fn sorted_by_score(s: Seq<(Move, i32)>) -> Seq<(Move, i32)>
    decreases s.len(),
{
    if s.len() == 0 {
        Seq::empty()
    } else {
        insert_by_score(sorted_by_score(s.drop_last()), s.last())
    }
}

/// The moves of a list of scored moves.
pub open spec fn moves_of(s: Seq<(Move, i32)>) -> Seq<Move> {
    Seq::new(s.len(), |i: int| s[i].0)
}

/// Each move with the static score of the position it leads to.
pub open spec fn scored(v: PositionView, moves: Seq<Move>) -> Seq<(Move, i32)> {
    Seq::new(moves.len(), |i: int| (moves[i], evaluate(position_after(v, moves[i])) as i32))
}

/// The highest static score among the positions that the given replies lead
/// to; 0 if there is no reply.
pub open spec fn best_reply(v: PositionView, replies: Seq<Move>) -> int
    decreases replies.len(),
{
    if replies.len() == 0 {
        0
    } else if replies.len() == 1 {
        evaluate(position_after(v, replies.last()))
    } else {
        better(
            true,
            best_reply(v, replies.drop_last()),
            evaluate(position_after(v, replies.last())),
        )
    }
}

/// The score by which `bstar` orders a move: make the move, let the opponent
/// pass, and take the best static score that one further move can reach. The
/// score is 0 where the opponent may not pass, and where no further move can
/// be made.
pub open spec fn reply_score(v: PositionView, m: Move) -> int {
    match null_moved(position_after(v, m)) {
        Some(quiet) => best_reply(quiet, legal_moves_of(quiet)),
        None => 0,
    }
}

/// Each move with the score by which `bstar` orders it.
pub open spec fn scored_by_reply(v: PositionView, moves: Seq<Move>) -> Seq<(Move, i32)> {
    Seq::new(moves.len(), |i: int| (moves[i], reply_score(v, moves[i]) as i32))
}

/// The value of `bestfirst`: a leaf's static score, else the alpha-beta walk
/// with the full window over the legal moves sorted by static score.
pub open spec fn bestfirst_value(v: PositionView, depth: nat, maximizing: bool) -> int {
    if is_leaf(v, depth) {
        evaluate(v)
    } else {
        alphabeta_from(
            v,
            moves_of(sorted_by_score(scored(v, legal_moves_of(v)))),
            0,
            depth,
            worst(maximizing),
            MIN_VAL as int,
            MAX_VAL as int,
            maximizing,
        )
    }
}

/// The value of `bstar`: a leaf's static score, else the alpha-beta walk with
/// the full window over the legal moves sorted by reply score.
pub open spec fn bstar_value(v: PositionView, depth: nat, maximizing: bool) -> int {
    if is_leaf(v, depth) {
        evaluate(v)
    } else {
        alphabeta_from(
            v,
            moves_of(sorted_by_score(scored_by_reply(v, legal_moves_of(v)))),
            0,
            depth,
            worst(maximizing),
            MIN_VAL as int,
            MAX_VAL as int,
            maximizing,
        )
    }
}

/// Inserting keeps what was there and adds the new entry, nothing else.
pub proof fn lemma_insert_keeps(s: Seq<(Move, i32)>, x: (Move, i32))
    ensures
        insert_by_score(s, x).len() == s.len() + 1,
        forall|y: (Move, i32)|
            #[trigger] insert_by_score(s, x).contains(y) <==> (s.contains(y) || y == x),
    decreases s.len(),
{
    let r = insert_by_score(s, x);
    if s.len() == 0 {
        assert(r[0] == x);
        assert forall|y: (Move, i32)| r.contains(y) <==> (s.contains(y) || y == x) by {
            if r.contains(y) {
                let j = choose|j: int| 0 <= j < r.len() && r[j] == y;
            }
        }
    } else if s.last().1 <= x.1 {
        assert forall|y: (Move, i32)| r.contains(y) <==> (s.contains(y) || y == x) by {
            if r.contains(y) {
                let j = choose|j: int| 0 <= j < r.len() && r[j] == y;
                if j < s.len() {
                    assert(s[j] == y);
                }
            }
            if s.contains(y) {
                let j = choose|j: int| 0 <= j < s.len() && s[j] == y;
                assert(r[j] == y);
            }
            if y == x {
                assert(r[s.len() as int] == y);
            }
        }
    } else {
        let t = insert_by_score(s.drop_last(), x);
        lemma_insert_keeps(s.drop_last(), x);
        assert forall|y: (Move, i32)| r.contains(y) <==> (s.contains(y) || y == x) by {
            if r.contains(y) {
                let j = choose|j: int| 0 <= j < r.len() && r[j] == y;
                if j < t.len() {
                    assert(t[j] == y);
                    assert(insert_by_score(s.drop_last(), x).contains(y));
                    if s.drop_last().contains(y) {
                        let k = choose|k: int| 0 <= k < s.drop_last().len() && s.drop_last()[k] == y;
                        assert(s[k] == y);
                    }
                } else {
                    assert(s[s.len() - 1] == y);
                }
            }
            if s.contains(y) {
                let j = choose|j: int| 0 <= j < s.len() && s[j] == y;
                if j < s.len() - 1 {
                    assert(s.drop_last()[j] == y);
                    assert(s.drop_last().contains(y));
                    assert(insert_by_score(s.drop_last(), x).contains(y));
                    let k = choose|k: int| 0 <= k < t.len() && t[k] == y;
                    assert(r[k] == y);
                } else {
                    assert(r[t.len() as int] == y);
                }
            }
            if y == x {
                assert(insert_by_score(s.drop_last(), x).contains(y));
                let k = choose|k: int| 0 <= k < t.len() && t[k] == y;
                assert(r[k] == y);
            }
        }
    }
}

/// Sorting keeps the length and the entries.
pub proof fn lemma_sorted_keeps(s: Seq<(Move, i32)>)
    ensures
        sorted_by_score(s).len() == s.len(),
        forall|y: (Move, i32)| #[trigger] sorted_by_score(s).contains(y) <==> s.contains(y),
    decreases s.len(),
{
    if s.len() > 0 {
        let t = sorted_by_score(s.drop_last());
        lemma_sorted_keeps(s.drop_last());
        lemma_insert_keeps(t, s.last());
        assert forall|y: (Move, i32)| sorted_by_score(s).contains(y) <==> s.contains(y) by {
            if s.contains(y) {
                let j = choose|j: int| 0 <= j < s.len() && s[j] == y;
                if j < s.len() - 1 {
                    assert(s.drop_last()[j] == y);
                }
            }
            if s.drop_last().contains(y) {
                let k = choose|k: int| 0 <= k < s.drop_last().len() && s.drop_last()[k] == y;
                assert(s[k] == y);
            }
            if y == s.last() {
                assert(s[s.len() - 1] == y);
            }
        }
    }
}

/// Whether a list of scored moves is in ascending order of score.
pub open spec fn ascending(s: Seq<(Move, i32)>) -> bool {
    forall|i: int, j: int| 0 <= i <= j < s.len() ==> s[i].1 <= s[j].1
}

/// Inserting into an ascending list leaves it ascending.
pub proof fn lemma_insert_ascending(s: Seq<(Move, i32)>, x: (Move, i32))
    requires
        ascending(s),
    ensures
        ascending(insert_by_score(s, x)),
    decreases s.len(),
{
    let r = insert_by_score(s, x);
    if s.len() == 0 {
    } else if s.last().1 <= x.1 {
    } else {
        let t = insert_by_score(s.drop_last(), x);
        assert(ascending(s.drop_last())) by {
            assert forall|i: int, j: int| 0 <= i <= j < s.drop_last().len() implies s.drop_last()[i].1
                <= s.drop_last()[j].1 by {
                assert(s[i].1 <= s[j].1);
            }
        }
        lemma_insert_ascending(s.drop_last(), x);
        lemma_insert_keeps(s.drop_last(), x);
        assert forall|i: int, j: int| 0 <= i <= j < r.len() implies r[i].1 <= r[j].1 by {
            if j < t.len() {
                assert(t[i].1 <= t[j].1);
            } else if i < t.len() {
                assert(t.contains(t[i]));
                if s.drop_last().contains(t[i]) {
                    let k = choose|k: int| 0 <= k < s.drop_last().len() && s.drop_last()[k] == t[i];
                    assert(s[k].1 <= s[s.len() - 1].1);
                }
            }
        }
    }
}

/// A sorted list is in ascending order of score.
pub proof fn lemma_sorted_ascending(s: Seq<(Move, i32)>)
    ensures
        ascending(sorted_by_score(s)),
    decreases s.len(),
{
    if s.len() > 0 {
        lemma_sorted_ascending(s.drop_last());
        lemma_insert_ascending(sorted_by_score(s.drop_last()), s.last());
    }
}

/// The entries with the given score, in their order.
pub open spec fn with_score(s: Seq<(Move, i32)>, score: i32) -> Seq<(Move, i32)>
    decreases s.len(),
{
    if s.len() == 0 {
        Seq::empty()
    } else if s.last().1 == score {
        with_score(s.drop_last(), score).push(s.last())
    } else {
        with_score(s.drop_last(), score)
    }
}

/// Inserting puts the new entry behind every entry of its own score and
/// leaves the entries of each score in their order.
pub proof fn lemma_insert_is_stable(s: Seq<(Move, i32)>, x: (Move, i32), score: i32)
    ensures
        with_score(insert_by_score(s, x), score) == (if x.1 == score {
            with_score(s, score).push(x)
        } else {
            with_score(s, score)
        }),
    decreases s.len(),
{
    if s.len() == 0 {
        assert(seq![x].drop_last() =~= s);
        assert(with_score(seq![x].drop_last(), score) == Seq::<(Move, i32)>::empty());
    } else if s.last().1 <= x.1 {
        assert(s.push(x).drop_last() == s);
    } else {
        let t = insert_by_score(s.drop_last(), x);
        lemma_insert_is_stable(s.drop_last(), x, score);
        assert(t.push(s.last()).drop_last() == t);
    }
}

/// Sorting is stable: the entries of each score keep the order they came in.
pub proof fn lemma_sort_is_stable(s: Seq<(Move, i32)>, score: i32)
    ensures
        with_score(sorted_by_score(s), score) == with_score(s, score),
    decreases s.len(),
{
    if s.len() > 0 {
        lemma_sort_is_stable(s.drop_last(), score);
        lemma_insert_is_stable(sorted_by_score(s.drop_last()), s.last(), score);
    }
}

/// Puts an entry into a list behind the last entry whose score is not above
/// its own.
pub fn insert_scored(list: &mut Vec<(Move, i32)>, x: (Move, i32))
    ensures
        final(list)@ == insert_by_score(old(list)@, x),
{
    let ghost before = list@;
    let mut j: usize = list.len();
    proof {
        assert(before.take(j as int) == before);
        assert(insert_by_score(before, x) + before.skip(j as int) =~= insert_by_score(before, x));
    }
    while j > 0 && list[j - 1].1 > x.1
        invariant
            j <= list.len(),
            list@ == before,
            insert_by_score(before, x) == insert_by_score(before.take(j as int), x) + before.skip(
                j as int,
            ),
        decreases j,
    {
        proof {
            let head = before.take(j as int);
            assert(head.last() == before[j - 1]);
            assert(head.drop_last() == before.take(j - 1));
            assert(insert_by_score(head, x) == insert_by_score(before.take(j - 1), x).push(
                before[j - 1],
            ));
            assert(insert_by_score(before.take(j - 1), x).push(before[j - 1]) + before.skip(
                j as int,
            ) =~= insert_by_score(before.take(j - 1), x) + before.skip(j - 1));
        }
        j = j - 1;
    }
    proof {
        let head = before.take(j as int);
        if j > 0 {
            assert(head.last() == before[j - 1]);
        }
        assert(insert_by_score(head, x) == head.push(x));
        assert(head.push(x) + before.skip(j as int) =~= before.insert(j as int, x));
    }
    list.insert(j, x);
}

/// Sorts scored moves in ascending order of score; moves with the same score
/// keep their order.
pub fn sort_by_score(items: &Vec<(Move, i32)>) -> (sorted: Vec<(Move, i32)>)
    ensures
        sorted@ == sorted_by_score(items@),
{
    let mut sorted: Vec<(Move, i32)> = Vec::new();
    let mut k: usize = 0;
    while k < items.len()
        invariant
            k <= items.len(),
            sorted@ == sorted_by_score(items@.take(k as int)),
        decreases items.len() - k,
    {
        proof {
            let s = items@.take(k + 1);
            assert(s.drop_last() == items@.take(k as int));
            assert(s.last() == items@[k as int]);
        }
        insert_scored(&mut sorted, items[k]);
        k = k + 1;
    }
    assert(items@.take(k as int) == items@);
    sorted
}

/// The moves of a list of scored moves, in its order.
pub fn moves_only(list: &Vec<(Move, i32)>) -> (moves: Vec<Move>)
    ensures
        moves@ == moves_of(list@),
{
    let mut moves: Vec<Move> = Vec::new();
    let mut i: usize = 0;
    while i < list.len()
        invariant
            i <= list.len(),
            moves@.len() == i,
            forall|j: int| 0 <= j < i ==> moves@[j] == list@[j].0,
        decreases list.len() - i,
    {
        moves.push(list[i].0);
        i = i + 1;
    }
    assert(moves@ =~= moves_of(list@));
    moves
}

/// Sorting scored moves gives back moves that were scored.
proof fn lemma_order_within(pairs: Seq<(Move, i32)>, moves: Seq<Move>)
    requires
        pairs.len() == moves.len(),
        forall|i: int| 0 <= i < pairs.len() ==> (#[trigger] pairs[i]).0 == moves[i],
    ensures
        forall|j: int|
            0 <= j < moves_of(sorted_by_score(pairs)).len() ==> moves.contains(
                #[trigger] moves_of(sorted_by_score(pairs))[j],
            ),
        forall|i: int|
            0 <= i < moves.len() ==> moves_of(sorted_by_score(pairs)).contains(#[trigger] moves[i]),
{
    let sorted = sorted_by_score(pairs);
    let order = moves_of(sorted);
    lemma_sorted_keeps(pairs);
    assert forall|j: int| 0 <= j < order.len() implies moves.contains(#[trigger] order[j]) by {
        assert(sorted_by_score(pairs).contains(sorted[j]));
        assert(pairs.contains(sorted[j]));
        let k = choose|k: int| 0 <= k < pairs.len() && pairs[k] == sorted[j];
        assert(moves[k] == order[j]);
    }
    assert forall|i: int| 0 <= i < moves.len() implies order.contains(#[trigger] moves[i]) by {
        assert(pairs.contains(pairs[i]));
        assert(sorted_by_score(pairs).contains(pairs[i]));
        let k = choose|k: int| 0 <= k < sorted.len() && sorted[k] == pairs[i];
        assert(order[k] == moves[i]);
    }
}

/// The value that a move leads to, searched one ply less deep for the other side.
pub open spec fn value_after(v: PositionView, m: Move, depth: nat, maximizing: bool) -> int {
    minimax_value(position_after(v, m), (depth - 1) as nat, !maximizing)
}

/// The best of a node's values is no worse for the mover than the worst value
/// and than the value of each of its moves, and it is one of these.
pub proof fn lemma_best_is_extreme(v: PositionView, moves: Seq<Move>, depth: nat, maximizing: bool)
    requires
        depth > 0,
    ensures
        better(maximizing, minimax_over(v, moves, depth, maximizing), worst(maximizing))
            == minimax_over(v, moves, depth, maximizing),
        forall|j: int|
            0 <= j < moves.len() ==> better(
                maximizing,
                minimax_over(v, moves, depth, maximizing),
                #[trigger] value_after(v, moves[j], depth, maximizing),
            ) == minimax_over(v, moves, depth, maximizing),
        minimax_over(v, moves, depth, maximizing) == worst(maximizing) || exists|j: int|
            0 <= j < moves.len() && minimax_over(v, moves, depth, maximizing) == #[trigger] value_after(
                v,
                moves[j],
                depth,
                maximizing,
            ),
    decreases moves.len(),
{
    lemma_minimax_over_in_range(v, moves, depth, maximizing);
    if moves.len() > 0 {
        let rest = moves.drop_last();
        lemma_best_is_extreme(v, rest, depth, maximizing);
        let x = minimax_over(v, moves, depth, maximizing);
        let last = value_after(v, moves.last(), depth, maximizing);
        assert(x == better(maximizing, minimax_over(v, rest, depth, maximizing), last));
        assert forall|j: int| 0 <= j < moves.len() implies better(
            maximizing,
            x,
            #[trigger] value_after(v, moves[j], depth, maximizing),
        ) == x by {
            if j < rest.len() {
                assert(rest[j] == moves[j]);
            }
        }
        if x == last {
            assert(value_after(v, moves[moves.len() - 1], depth, maximizing) == x);
        } else if x != worst(maximizing) {
            let j = choose|j: int|
                0 <= j < rest.len() && minimax_over(v, rest, depth, maximizing) == #[trigger] value_after(
                    v,
                    rest[j],
                    depth,
                    maximizing,
                );
            assert(rest[j] == moves[j]);
            assert(value_after(v, moves[j], depth, maximizing) == x);
        }
    }
}

/// The best of a node's values does not depend on the order of its moves, nor
/// on how often a move is listed: two lists with the same moves have the same
/// best value.
pub proof fn lemma_best_ignores_order(
    v: PositionView,
    a: Seq<Move>,
    b: Seq<Move>,
    depth: nat,
    maximizing: bool,
)
    requires
        depth > 0,
        forall|i: int| 0 <= i < a.len() ==> b.contains(#[trigger] a[i]),
        forall|i: int| 0 <= i < b.len() ==> a.contains(#[trigger] b[i]),
    ensures
        minimax_over(v, a, depth, maximizing) == minimax_over(v, b, depth, maximizing),
{
    lemma_best_is_extreme(v, a, depth, maximizing);
    lemma_best_is_extreme(v, b, depth, maximizing);
    let xa = minimax_over(v, a, depth, maximizing);
    let xb = minimax_over(v, b, depth, maximizing);
    assert(better(maximizing, xb, xa) == xb) by {
        if xa != worst(maximizing) {
            let j = choose|j: int|
                0 <= j < a.len() && xa == #[trigger] value_after(v, a[j], depth, maximizing);
            assert(b.contains(a[j]));
            let k = choose|k: int| 0 <= k < b.len() && b[k] == a[j];
            assert(better(maximizing, xb, value_after(v, b[k], depth, maximizing)) == xb);
        }
    }
    assert(better(maximizing, xa, xb) == xa) by {
        if xb != worst(maximizing) {
            let j = choose|j: int|
                0 <= j < b.len() && xb == #[trigger] value_after(v, b[j], depth, maximizing);
            assert(a.contains(b[j]));
            let k = choose|k: int| 0 <= k < a.len() && a[k] == b[j];
            assert(better(maximizing, xa, value_after(v, a[k], depth, maximizing)) == xa);
        }
    }
}

/// Ordering the moves does not change the result: `bestfirst` returns the
/// minimax value.
pub proof fn lemma_bestfirst_is_minimax(v: PositionView, depth: nat, maximizing: bool)
    ensures
        bestfirst_value(v, depth, maximizing) == minimax_value(v, depth, maximizing),
{
    if !is_leaf(v, depth) {
        let moves = legal_moves_of(v);
        let order = moves_of(sorted_by_score(scored(v, moves)));
        lemma_order_within(scored(v, moves), moves);
        lemma_full_window_walk(v, order, depth, maximizing);
        lemma_best_ignores_order(v, order, moves, depth, maximizing);
    }
}

/// Ordering the moves does not change the result: `bstar` returns the minimax
/// value.
pub proof fn lemma_bstar_is_minimax(v: PositionView, depth: nat, maximizing: bool)
    ensures
        bstar_value(v, depth, maximizing) == minimax_value(v, depth, maximizing),
{
    if !is_leaf(v, depth) {
        let moves = legal_moves_of(v);
        let order = moves_of(sorted_by_score(scored_by_reply(v, moves)));
        lemma_order_within(scored_by_reply(v, moves), moves);
        lemma_full_window_walk(v, order, depth, maximizing);
        lemma_best_ignores_order(v, order, moves, depth, maximizing);
    }
}

/// Alpha-beta search over the moves in ascending order of the static score of
/// the position each leads to.
pub fn bestfirst(position: &Position, depth: i32, maximizing_player: bool) -> (value: i32)
    requires
        depth >= 0,
    ensures
        value == bestfirst_value(position@, depth as nat, maximizing_player),
        value == minimax_value(position@, depth as nat, maximizing_player),
{
    proof {
        lemma_bestfirst_is_minimax(position@, depth as nat, maximizing_player);
    }
    if depth == 0 || status(position) != Status::Ongoing {
        return heuristic(position);
    }
    let moves: Vec<Move> = legal_moves(position);
    let mut moves_and_values: Vec<(Move, i32)> = Vec::new();
    let mut i: usize = 0;
    while i < moves.len()
        invariant
            i <= moves.len(),
            moves@ == legal_moves_of(position@),
            moves_and_values@.len() == i,
            forall|j: int|
                0 <= j < i ==> moves_and_values@[j] == (
                    moves@[j],
                    evaluate(position_after(position@, moves@[j])) as i32,
                ),
        decreases moves.len() - i,
    {
        let mv: Move = moves[i];
        let reached: Position = apply_legal(position, mv);
        moves_and_values.push((mv, heuristic(&reached)));
        i = i + 1;
    }
    assert(moves_and_values@ =~= scored(position@, moves@));
    let sorted: Vec<(Move, i32)> = sort_by_score(&moves_and_values);
    let order: Vec<Move> = moves_only(&sorted);
    proof {
        lemma_order_within(moves_and_values@, moves@);
    }
    walk(position, &order, depth, MIN_VAL, MAX_VAL, maximizing_player)
}

/// The score by which `bstar` orders a move.
pub fn score_by_reply(position: &Position, mv: Move) -> (score: i32)
    requires
        legal_moves_of(position@).contains(mv),
    ensures
        score == reply_score(position@, mv),
{
    let pos_after_first: Position = apply_legal(position, mv);
    let pos_after_null: Position = match null_move(&pos_after_first) {
        Some(p) => p,
        None => {
            return 0;
        },
    };
    let next_moves: Vec<Move> = legal_moves(&pos_after_null);
    let mut best: i32 = 0;
    let mut k: usize = 0;
    while k < next_moves.len()
        invariant
            k <= next_moves.len(),
            next_moves@ == legal_moves_of(pos_after_null@),
            best == best_reply(pos_after_null@, next_moves@.take(k as int)),
        decreases next_moves.len() - k,
    {
        let reached: Position = apply_legal(&pos_after_null, next_moves[k]);
        let value: i32 = heuristic(&reached);
        proof {
            let s = next_moves@.take(k + 1);
            assert(s.drop_last() == next_moves@.take(k as int));
            assert(s.last() == next_moves@[k as int]);
        }
        if k == 0 || value > best {
            best = value;
        }
        k = k + 1;
    }
    assert(next_moves@.take(k as int) == next_moves@);
    best
}

/// Alpha-beta search over the moves in ascending order of reply score.
pub fn bstar(position: &Position, depth: i32, maximizing_player: bool) -> (value: i32)
    requires
        depth >= 0,
    ensures
        value == bstar_value(position@, depth as nat, maximizing_player),
        value == minimax_value(position@, depth as nat, maximizing_player),
{
    proof {
        lemma_bstar_is_minimax(position@, depth as nat, maximizing_player);
    }
    if depth == 0 || status(position) != Status::Ongoing {
        return heuristic(position);
    }
    let moves: Vec<Move> = legal_moves(position);
    let mut moves_and_values: Vec<(Move, i32)> = Vec::new();
    let mut i: usize = 0;
    while i < moves.len()
        invariant
            i <= moves.len(),
            moves@ == legal_moves_of(position@),
            moves_and_values@.len() == i,
            forall|j: int|
                0 <= j < i ==> moves_and_values@[j] == (
                    moves@[j],
                    reply_score(position@, moves@[j]) as i32,
                ),
        decreases moves.len() - i,
    {
        let mv: Move = moves[i];
        moves_and_values.push((mv, score_by_reply(position, mv)));
        i = i + 1;
    }
    assert(moves_and_values@ =~= scored_by_reply(position@, moves@));
    let sorted: Vec<(Move, i32)> = sort_by_score(&moves_and_values);
    let order: Vec<Move> = moves_only(&sorted);
    proof {
        lemma_order_within(moves_and_values@, moves@);
    }
    walk(position, &order, depth, MIN_VAL, MAX_VAL, maximizing_player)
}

} // verus!
