//! Static evaluation: the score of a position without looking ahead.
//!
//! Scores are seen from Black's material: a black piece counts up, a white
//! piece counts down. A checkmate is worth one of the two sentinels, which
//! no count of material can reach.

use vstd::prelude::*;
use crate::board::{Color, Piece, Position, PositionView, Status, mirror_square, mirror_view, swap_color};
use crate::rules::{status, status_of};

verus! {

/// The highest score: Black is checkmated. Also the upper end of the search window.
pub const MAX_VAL: i32 = 1001;

/// The lowest score: White is checkmated. Also the lower end of the search window.
pub const MIN_VAL: i32 = -1001;

/// The material value of a piece.
pub open spec fn piece_weight(piece: Piece) -> int {
    match piece {
        Piece::King => 0,
        Piece::Queen => 9,
        Piece::Rook => 5,
        Piece::Bishop => 3,
        Piece::Knight => 3,
        Piece::Pawn => 1,
    }
}

/// The value of what a square holds, without its sign: nothing counts 0.
pub open spec fn occupant_weight(piece: Option<Piece>) -> int {
    match piece {
        Some(p) => piece_weight(p),
        None => 0,
    }
}

/// What a square adds to the material score: the weight of its piece, counted
/// down for White and up for Black.
pub open spec fn square_score(s: Option<(Piece, Color)>) -> int {
    match s {
        Some((p, Color::White)) => -piece_weight(p),
        Some((p, Color::Black)) => piece_weight(p),
        None => 0,
    }
}

/// The sum of the scores of the first `n` squares.
pub open spec fn material_upto(squares: Seq<Option<(Piece, Color)>>, n: int) -> int
    decreases n,
{
    if n <= 0 {
        0
    } else {
        material_upto(squares, n - 1) + square_score(squares[n - 1])
    }
}

/// The material score of a position: the sum over its 64 squares.
pub open spec fn material(v: PositionView) -> int {
    material_upto(v.squares, 64)
}

/// The static score of a position. A checkmate is lost by the side to move:
/// the lowest score if that is White, the highest if it is Black. A stalemate
/// scores 0. Any other position scores its material.
pub open spec fn evaluate(v: PositionView) -> int {
    match status_of(v) {
        Status::Checkmate => if v.side_to_move == Color::White {
            MIN_VAL as int
        } else {
            MAX_VAL as int
        },
        Status::Stalemate => 0,
        _ => material(v),
    }
}

/// A sum over squares stays within 9 points a square.
pub proof fn lemma_material_upto_bounded(squares: Seq<Option<(Piece, Color)>>, n: int)
    requires
        0 <= n,
    ensures
        -9 * n <= material_upto(squares, n) <= 9 * n,
    decreases n,
{
    if n > 0 {
        lemma_material_upto_bounded(squares, n - 1);
    }
}

/// No material score reaches a sentinel.
pub proof fn lemma_material_inside(v: PositionView)
    ensures
        MIN_VAL < material(v) < MAX_VAL,
{
    lemma_material_upto_bounded(v.squares, 64);
}

/// Every static score lies between the sentinels.
pub proof fn lemma_evaluate_in_range(v: PositionView)
    ensures
        MIN_VAL <= evaluate(v) <= MAX_VAL,
{
    lemma_material_inside(v);
}

/// A square of the mirrored position scores the opposite of the square it
/// mirrors.
pub proof fn lemma_swap_negates(s: Option<(Piece, Color)>)
    ensures
        square_score(swap_color(s)) == -square_score(s),
{
}

/// The sum of the scores of the eight squares of a rank.
spec fn rank_score(squares: Seq<Option<(Piece, Color)>>, rank: int) -> int {
    square_score(squares[rank * 8]) + square_score(squares[rank * 8 + 1]) + square_score(
        squares[rank * 8 + 2],
    ) + square_score(squares[rank * 8 + 3]) + square_score(squares[rank * 8 + 4]) + square_score(
        squares[rank * 8 + 5],
    ) + square_score(squares[rank * 8 + 6]) + square_score(squares[rank * 8 + 7])
}

proof fn lemma_rank_step(squares: Seq<Option<(Piece, Color)>>, rank: int)
    requires
        0 <= rank,
    ensures
        material_upto(squares, rank * 8 + 8) == material_upto(squares, rank * 8) + rank_score(
            squares,
            rank,
        ),
{
    reveal_with_fuel(material_upto, 9);
}

proof fn lemma_material_by_ranks(squares: Seq<Option<(Piece, Color)>>)
    ensures
        material_upto(squares, 64) == rank_score(squares, 0) + rank_score(squares, 1) + rank_score(
            squares,
            2,
        ) + rank_score(squares, 3) + rank_score(squares, 4) + rank_score(squares, 5) + rank_score(
            squares,
            6,
        ) + rank_score(squares, 7),
{
    lemma_rank_step(squares, 0);
    lemma_rank_step(squares, 1);
    lemma_rank_step(squares, 2);
    lemma_rank_step(squares, 3);
    lemma_rank_step(squares, 4);
    lemma_rank_step(squares, 5);
    lemma_rank_step(squares, 6);
    lemma_rank_step(squares, 7);
}

proof fn lemma_mirrored_rank(v: PositionView, rank: int)
    requires
        0 <= rank < 8,
    ensures
        rank_score(mirror_view(v).squares, rank) == -rank_score(v.squares, 7 - rank),
{
    let m = mirror_view(v).squares;
    assert forall|file: int| 0 <= file < 8 implies square_score(#[trigger] m[rank * 8 + file])
        == -square_score(v.squares[(7 - rank) * 8 + file]) by {
        let sq = rank * 8 + file;
        assert(sq / 8 == rank && sq % 8 == file);
        assert(mirror_square(sq) == (7 - rank) * 8 + file);
        lemma_swap_negates(v.squares[mirror_square(sq)]);
    }
    assert(square_score(m[rank * 8 + 0]) == -square_score(v.squares[(7 - rank) * 8 + 0]));
}

/// Material is antisymmetric: the mirrored position, with ranks flipped and
/// colours swapped, has the opposite material score.
pub proof fn lemma_material_mirrored(v: PositionView)
    ensures
        material(mirror_view(v)) == -material(v),
{
    lemma_material_by_ranks(v.squares);
    lemma_material_by_ranks(mirror_view(v).squares);
    lemma_mirrored_rank(v, 0);
    lemma_mirrored_rank(v, 1);
    lemma_mirrored_rank(v, 2);
    lemma_mirrored_rank(v, 3);
    lemma_mirrored_rank(v, 4);
    lemma_mirrored_rank(v, 5);
    lemma_mirrored_rank(v, 6);
    lemma_mirrored_rank(v, 7);
}

/// The static score is antisymmetric wherever it is a material score: if
/// neither a position nor its mirror image is a checkmate or a stalemate, the
/// mirror image scores the opposite.
pub proof fn lemma_evaluate_mirrored(v: PositionView)
    requires
        status_of(v) != Status::Checkmate,
        status_of(v) != Status::Stalemate,
        status_of(mirror_view(v)) != Status::Checkmate,
        status_of(mirror_view(v)) != Status::Stalemate,
    ensures
        evaluate(mirror_view(v)) == -evaluate(v),
{
    lemma_material_mirrored(v);
}

/// The material value of a piece.
pub fn get_piece_weight(piece: Piece) -> (weight: i32)
    ensures
        weight == piece_weight(piece),
{
    match piece {
        Piece::King => 0,
        Piece::Queen => 9,
        Piece::Rook => 5,
        Piece::Bishop => 3,
        Piece::Knight => 3,
        Piece::Pawn => 1,
    }
}

/// The value of what a square holds, without its sign.
pub fn score_square(square: Option<Piece>) -> (value: i32)
    ensures
        value == occupant_weight(square),
{
    match square {
        None => 0,
        Some(piece) => get_piece_weight(piece),
    }
}

/// The material score of a position.
pub fn score_material(position: &Position) -> (score: i32)
    ensures
        score == material(position@),
        MIN_VAL < score < MAX_VAL,
{
    let mut score: i32 = 0;
    let mut sq: u8 = 0;
    while sq < 64
        invariant
            sq <= 64,
            score == material_upto(position@.squares, sq as int),
            -9 * sq <= score <= 9 * sq,
        decreases 64 - sq,
    {
        let (piece, color): (Option<Piece>, Color) = match position.piece_at(sq) {
            Some((p, c)) => (Some(p), c),
            None => (None, Color::White),
        };
        let value: i32 = score_square(piece);
        let multiplier: i32 = if color == Color::White {
            -1
        } else {
            1
        };
        score = score + multiplier * value;
        sq = sq + 1;
    }
    score
}

/// The static score of a position.
pub fn heuristic(position: &Position) -> (score: i32)
    ensures
        score == evaluate(position@),
        MIN_VAL <= score <= MAX_VAL,
{
    let s: Status = status(position);
    let to_move: Color = position.side_to_move();
    if s == Status::Checkmate {
        if to_move == Color::White {
            MIN_VAL
        } else {
            MAX_VAL
        }
    } else if s == Status::Stalemate {
        0
    } else {
        score_material(position)
    }
}

} // verus!
