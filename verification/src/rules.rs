//! The rules of chess, as the `chess` crate plays them.
//!
//! Legal moves, the position after a move, the game status, the null move and
//! the reading of FEN come from the `chess` crate. Each call into it stands in
//! one small function of this module whose contract is taken on trust; what
//! the crate returns is named by a function without a body. The functions
//! that the rest of the library uses are verified against those contracts.

use vstd::prelude::*;
use crate::board::{Castling, Color, Move, Piece, Position, PositionView, Status};

verus! {

#[verifier::external_type_specification]
#[verifier::external_body]
pub struct ExOutsideBoard(chess::Board);

/// What a board of the `chess` crate holds: the piece on each square, the
/// side to move, the castling rights and the en passant file.
pub uninterp spec fn placed(board: chess::Board) -> PositionView;

/// The position that the `chess` crate makes of a placement with both kings:
/// none where it turns the placement down, else what its board then holds.
pub uninterp spec fn settled(v: PositionView) -> Option<PositionView>;

/// The legal moves that the `chess` crate generates, in its order.
pub uninterp spec fn generated_moves(v: PositionView) -> Seq<Move>;

/// What the `chess` crate's board holds after a legal move.
pub uninterp spec fn moved(v: PositionView, m: Move) -> PositionView;

/// The status that the `chess` crate gives a board.
pub uninterp spec fn judged(v: PositionView) -> Status;

/// What the `chess` crate's board holds after the side to move has passed;
/// none where the crate does not let it pass.
pub uninterp spec fn passed(v: PositionView) -> Option<PositionView>;

/// The placement that the `chess` crate reads from a FEN string, if it reads
/// one; the rules have not been asked about it yet.
pub uninterp spec fn parsed(fen: Seq<char>) -> Option<PositionView>;

/// The move that the `chess` crate reads from a text in standard algebraic
/// notation, for the board that it is to be played on; none where it reads no
/// legal move.
pub uninterp spec fn read_move(v: PositionView, text: Seq<char>) -> Option<Move>;

/// Both sides have a king on the board.
pub open spec fn has_kings(v: PositionView) -> bool {
    &&& exists|sq: int| 0 <= sq < 64 && #[trigger] v.squares[sq] == Some((Piece::King, Color::White))
    &&& exists|sq: int| 0 <= sq < 64 && #[trigger] v.squares[sq] == Some((Piece::King, Color::Black))
}

/// The number of pieces of a colour on the first `n` squares.
pub open spec fn pieces_upto(squares: Seq<Option<(Piece, Color)>>, color: Color, n: int) -> int
    decreases n,
{
    if n <= 0 {
        0
    } else {
        pieces_upto(squares, color, n - 1) + (if squares[n - 1] matches Some((_, c)) && c == color {
            1int
        } else {
            0int
        })
    }
}

/// The number of pieces of a colour on the board.
pub open spec fn pieces_of(v: PositionView, color: Color) -> int {
    pieces_upto(v.squares, color, 64)
}

/// Neither side has more pieces than a game of chess gives it: 16.
pub open spec fn armies_fit(v: PositionView) -> bool {
    pieces_of(v, Color::White) <= 16 && pieces_of(v, Color::Black) <= 16
}

/// The position as the rules play it, if they can: a placement must have
/// both kings, no more than 16 pieces a side, and be accepted by the `chess`
/// crate.
pub open spec fn playable(v: PositionView) -> Option<PositionView> {
    if has_kings(v) && armies_fit(v) {
        settled(v)
    } else {
        None
    }
}

/// The legal moves from a position, in a fixed order; none from a position
/// that cannot be played.
pub open spec fn legal_moves_of(v: PositionView) -> Seq<Move> {
    match playable(v) {
        Some(p) => generated_moves(p),
        None => Seq::empty(),
    }
}

/// The status of a position.
pub open spec fn status_of(v: PositionView) -> Status {
    match playable(v) {
        Some(p) => judged(p),
        None => Status::Invalid,
    }
}

/// The position after a move; the position itself where the move is not legal.
pub open spec fn position_after(v: PositionView, m: Move) -> PositionView {
    if legal_moves_of(v).contains(m) {
        moved(playable(v).unwrap(), m)
    } else {
        v
    }
}

/// The position that a FEN string describes: the placement read from it, as
/// the rules play it; none where the string cannot be read or the placement
/// cannot be played.
pub open spec fn position_of_fen(fen: Seq<char>) -> Option<PositionView> {
    match parsed(fen) {
        Some(raw) => playable(raw),
        None => None,
    }
}

/// The move that a text in standard algebraic notation stands for in a
/// position.
pub open spec fn move_of_san(v: PositionView, text: Seq<char>) -> Option<Move> {
    match playable(v) {
        Some(p) => read_move(p, text),
        None => None,
    }
}

/// The position after the side to move has passed, where the rules allow it.
pub open spec fn null_moved(v: PositionView) -> Option<PositionView> {
    match playable(v) {
        Some(p) => passed(p),
        None => None,
    }
}

/// `chess::Board::try_from(&chess::BoardBuilder)`: fills a builder with the
/// placement, square by square, and asks the crate for a board. The crate's
/// answer is a function of the placement; it is named `settled`. The crate
/// puts each piece of the builder on its square of the board, so the board
/// holds the squares it was given. The crate looks up the king's square
/// without a check, so both kings must be there; the boards it hands out go
/// on to its move generator, so neither side may have more than 16 pieces.
#[verifier::external_body]
fn outside_board(pos: &Position) -> (r: Option<chess::Board>)
    requires
        has_kings(pos@),
        armies_fit(pos@),
    ensures
        match r {
            Some(b) => settled(pos@) == Some(placed(b)) && placed(b).squares == pos@.squares,
            None => settled(pos@).is_none(),
        },
{
    let mut bb = chess::BoardBuilder::new();
    for (i, s) in pos.squares.iter().enumerate() {
        bb[chess::ALL_SQUARES[i]] =
            s.map(|(p, c)| (chess::ALL_PIECES[p.index()], chess::ALL_COLORS[c.index()]));
    }
    bb.side_to_move(chess::ALL_COLORS[pos.side_to_move.index()]);
    bb.castle_rights(chess::Color::White, chess::ALL_CASTLE_RIGHTS[pos.white_castling.index()]);
    bb.castle_rights(chess::Color::Black, chess::ALL_CASTLE_RIGHTS[pos.black_castling.index()]);
    bb.en_passant(pos.en_passant.map(|f| chess::ALL_FILES[f as usize]));
    chess::Board::try_from(&bb).ok()
}

/// `chess::BoardBuilder::from(&chess::Board)`: reads the board out into a
/// builder, and the builder into a position, square by square. What comes out
/// is what the board holds, which `placed` names. A builder has 64 squares and
/// files from 0 to 7, as every position must.
#[verifier::external_body]
fn board_position(board: &chess::Board) -> (r: Position)
    ensures
        r@ == placed(*board),
{
    let bb = chess::BoardBuilder::from(board);
    Position {
        squares: chess::ALL_SQUARES.iter().map(|s| bb[*s].map(|(p, c)|
            (Piece::from_index(p.to_index()), Color::from_index(c.to_index())))).collect(),
        side_to_move: Color::from_index(bb.get_side_to_move().to_index()),
        white_castling: Castling::from_index(bb.get_castle_rights(chess::Color::White).to_index()),
        black_castling: Castling::from_index(bb.get_castle_rights(chess::Color::Black).to_index()),
        en_passant: bb.get_en_passant().map(|s| s.get_file().to_index() as u8),
    }
}

/// `chess::MoveGen::new_legal`: the legal moves of the board, in the order in
/// which the generator hands them out. They are a function of what the board
/// holds, named `generated_moves`. The generator keeps one entry for each
/// piece of the side to move, and up to two more for captures en passant, in
/// a list of 18 that it fills without a check: neither side may have more
/// than 16 pieces. On a placement that no game reaches, the generator may
/// hand out a capture en passant that leaves the king in check; the crate
/// then turns down what the board holds after it.
#[verifier::external_body]
fn board_moves(board: &chess::Board) -> (moves: Vec<Move>)
    requires
        armies_fit(placed(*board)),
    ensures
        moves@ == generated_moves(placed(*board)),
{
    chess::MoveGen::new_legal(board).map(|m| Move {
        from: m.get_source().to_int(),
        to: m.get_dest().to_int(),
        promotion: m.get_promotion().map(|p| Piece::from_index(p.to_index())),
    }).collect()
}

/// `chess::Board::make_move_new`: the board after a move. The crate panics or
/// misbehaves on a move that is not legal, so the move must be one that the
/// generator gave for this board. The result is named `moved`.
#[verifier::external_body]
fn board_after(board: &chess::Board, m: Move) -> (r: chess::Board)
    requires
        generated_moves(placed(*board)).contains(m),
    ensures
        placed(r) == moved(placed(*board), m),
{
    board.make_move_new(chess::ChessMove::new(
        chess::ALL_SQUARES[m.from as usize],
        chess::ALL_SQUARES[m.to as usize],
        m.promotion.map(|p| chess::ALL_PIECES[p.index()]),
    ))
}

/// `chess::Board::status`: ongoing exactly where the generator gives a move;
/// else checkmate or stalemate, by whether the side to move is in check. The
/// crate never answers with anything else. The result is named `judged`. The
/// crate runs its move generator, so neither side may have more than 16
/// pieces.
#[verifier::external_body]
fn board_status(board: &chess::Board) -> (s: Status)
    requires
        armies_fit(placed(*board)),
    ensures
        s == judged(placed(*board)),
        (s == Status::Ongoing) == (generated_moves(placed(*board)).len() > 0),
        s != Status::Invalid,
{
    match board.status() {
        chess::BoardStatus::Ongoing => Status::Ongoing,
        chess::BoardStatus::Stalemate => Status::Stalemate,
        chess::BoardStatus::Checkmate => Status::Checkmate,
    }
}

/// `chess::Board::null_move`: the board with the other side to move and no
/// en passant file, or none where the side to move is in check. The result is
/// named `passed`.
#[verifier::external_body]
fn board_null_move(board: &chess::Board) -> (r: Option<chess::Board>)
    ensures
        match r {
            Some(b) => passed(placed(*board)) == Some(placed(b)),
            None => passed(placed(*board)).is_none(),
        },
{
    board.null_move()
}

/// `<chess::BoardBuilder as FromStr>::from_str`: the placement that the crate
/// reads from a FEN string, before the rules are asked about it, or none
/// where it cannot read the string. The builder is read out into a position,
/// square by square. The result is named `parsed`.
#[verifier::external_body]
fn read_fen(fen: &str) -> (r: Option<Position>)
    ensures
        match r {
            Some(p) => parsed(fen@) == Some(p@),
            None => parsed(fen@).is_none(),
        },
{
    <chess::BoardBuilder as std::str::FromStr>::from_str(fen).ok().map(|bb| Position {
        squares: chess::ALL_SQUARES.iter().map(|s| bb[*s].map(|(p, c)|
            (Piece::from_index(p.to_index()), Color::from_index(c.to_index())))).collect(),
        side_to_move: Color::from_index(bb.get_side_to_move().to_index()),
        white_castling: Castling::from_index(bb.get_castle_rights(chess::Color::White).to_index()),
        black_castling: Castling::from_index(bb.get_castle_rights(chess::Color::Black).to_index()),
        en_passant: bb.get_en_passant().map(|s| s.get_file().to_index() as u8),
    })
}

/// `chess::ChessMove::from_san`: the move that a text in standard algebraic
/// notation stands for on the board. The crate picks it among the moves that
/// its generator gives for the board, so it is a legal one. The result is
/// named `read_move`. The crate runs its move generator, so neither side may
/// have more than 16 pieces.
#[verifier::external_body]
fn board_san(board: &chess::Board, text: &str) -> (r: Option<Move>)
    requires
        armies_fit(placed(*board)),
    ensures
        r == read_move(placed(*board), text@),
        r matches Some(m) ==> generated_moves(placed(*board)).contains(m),
{
    chess::ChessMove::from_san(board, text).ok().map(|m| Move {
        from: m.get_source().to_int(),
        to: m.get_dest().to_int(),
        promotion: m.get_promotion().map(|p| Piece::from_index(p.to_index())),
    })
}

/// Whether both sides have a king on the board.
pub fn kings_present(pos: &Position) -> (r: bool)
    ensures
        r == has_kings(pos@),
{
    let mut white: bool = false;
    let mut black: bool = false;
    let mut sq: u8 = 0;
    while sq < 64
        invariant
            sq <= 64,
            white == exists|i: int| 0 <= i < sq && #[trigger] pos@.squares[i] == Some((Piece::King, Color::White)),
            black == exists|i: int| 0 <= i < sq && #[trigger] pos@.squares[i] == Some((Piece::King, Color::Black)),
        decreases 64 - sq,
    {
        match pos.piece_at(sq) {
            Some((p, c)) => {
                if p == Piece::King {
                    if c == Color::White {
                        white = true;
                    } else {
                        black = true;
                    }
                }
            },
            None => {},
        }
        sq = sq + 1;
    }
    white && black
}

/// The number of pieces of a colour on the board.
pub fn count_pieces(pos: &Position, color: Color) -> (n: u8)
    ensures
        n == pieces_of(pos@, color),
        n <= 64,
{
    let mut n: u8 = 0;
    let mut sq: u8 = 0;
    while sq < 64
        invariant
            sq <= 64,
            n == pieces_upto(pos@.squares, color, sq as int),
            n <= sq,
        decreases 64 - sq,
    {
        match pos.piece_at(sq) {
            Some((_, c)) => {
                if c == color {
                    n = n + 1;
                }
            },
            None => {},
        }
        sq = sq + 1;
    }
    n
}

/// Whether neither side has more than 16 pieces.
pub fn armies_in_bounds(pos: &Position) -> (r: bool)
    ensures
        r == armies_fit(pos@),
{
    count_pieces(pos, Color::White) <= 16 && count_pieces(pos, Color::Black) <= 16
}

/// The board of the `chess` crate for a position, where the position can be
/// played. The board holds no more than 16 pieces a side.
fn to_outside(pos: &Position) -> (r: Option<chess::Board>)
    ensures
        match r {
            Some(b) => playable(pos@) == Some(placed(b)) && armies_fit(placed(b)),
            None => playable(pos@).is_none(),
        },
{
    if kings_present(pos) && armies_in_bounds(pos) {
        outside_board(pos)
    } else {
        None
    }
}

/// The legal moves from a position.
pub fn legal_moves(pos: &Position) -> (moves: Vec<Move>)
    ensures
        moves@ == legal_moves_of(pos@),
{
    match to_outside(pos) {
        Some(b) => board_moves(&b),
        None => Vec::new(),
    }
}

/// The status of a position.
pub fn status(pos: &Position) -> (s: Status)
    ensures
        s == status_of(pos@),
        (s == Status::Ongoing) == (legal_moves_of(pos@).len() > 0),
{
    match to_outside(pos) {
        Some(b) => board_status(&b),
        None => Status::Invalid,
    }
}

/// Whether a move is among the given moves.
pub fn contains_move(moves: &Vec<Move>, m: Move) -> (r: bool)
    ensures
        r == moves@.contains(m),
{
    let mut i: usize = 0;
    while i < moves.len()
        invariant
            i <= moves.len(),
            forall|j: int| 0 <= j < i ==> moves@[j] != m,
        decreases moves.len() - i,
    {
        if moves[i] == m {
            return true;
        }
        i = i + 1;
    }
    false
}

/// The position after a legal move.
pub fn apply_legal(pos: &Position, m: Move) -> (r: Position)
    requires
        legal_moves_of(pos@).contains(m),
    ensures
        r@ == position_after(pos@, m),
{
    match to_outside(pos) {
        Some(b) => {
            let next = board_after(&b, m);
            board_position(&next)
        },
        None => pos.copy(),
    }
}

/// The position after a move; a copy of the position where the move is not
/// legal.
pub fn apply_move(pos: &Position, m: Move) -> (r: Position)
    ensures
        r@ == position_after(pos@, m),
{
    match to_outside(pos) {
        Some(b) => {
            let moves = board_moves(&b);
            if contains_move(&moves, m) {
                let next = board_after(&b, m);
                board_position(&next)
            } else {
                pos.copy()
            }
        },
        None => pos.copy(),
    }
}

/// The position after the side to move has passed, where the rules allow it.
pub fn null_move(pos: &Position) -> (r: Option<Position>)
    ensures
        match r {
            Some(p) => null_moved(pos@) == Some(p@),
            None => null_moved(pos@).is_none(),
        },
{
    match to_outside(pos) {
        Some(b) => match board_null_move(&b) {
            Some(n) => Some(board_position(&n)),
            None => None,
        },
        None => None,
    }
}

/// The legal move that a text in standard algebraic notation stands for in a
/// position, if it stands for one.
pub fn move_from_san(pos: &Position, text: &str) -> (r: Option<Move>)
    ensures
        r == move_of_san(pos@, text@),
        r matches Some(m) ==> legal_moves_of(pos@).contains(m),
{
    match to_outside(pos) {
        Some(b) => board_san(&b, text),
        None => None,
    }
}

/// The position that a FEN string describes, where the rules accept it.
pub fn from_fen(fen: &str) -> (r: Option<Position>)
    ensures
        match r {
            Some(p) => position_of_fen(fen@) == Some(p@),
            None => position_of_fen(fen@).is_none(),
        },
{
    match read_fen(fen) {
        Some(raw) => match to_outside(&raw) {
            Some(b) => Some(board_position(&b)),
            None => None,
        },
        None => None,
    }
}

} // verus!
