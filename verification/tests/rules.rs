use chess_search::board::{Castling, Color, Move, Piece, Position, Status};
use chess_search::rules::{
    apply_legal, apply_move, armies_in_bounds, contains_move, count_pieces, from_fen,
    kings_present, legal_moves, move_from_san, null_move, status,
};

const START: &str = "rnbqkbnr/pppppppp/8/8/8/8/PPPPPPPP/RNBQKBNR w KQkq - 0 1";
const FOOLS_MATE: &str = "rnb1kbnr/pppp1ppp/8/4p3/6Pq/5P2/PPPPP2P/RNBQKBNR w KQkq - 1 3";
const STALEMATE: &str = "7k/5Q2/6K1/8/8/8/8/8 b - - 0 1";

fn mv(from: u8, to: u8) -> Move {
    Move { from, to, promotion: None }
}

#[test]
fn initial_position_has_twenty_moves() {
    let pos = Position::initial();
    assert_eq!(legal_moves(&pos).len(), 20);
    assert_eq!(status(&pos), Status::Ongoing);
    assert!(kings_present(&pos));
}

#[test]
fn initial_position_matches_its_fen() {
    let pos = from_fen(START).unwrap();
    assert!(pos.same(&Position::initial()));
    assert_eq!(pos.side_to_move(), Color::White);
    assert_eq!(pos.castling(Color::White), Castling::Both);
    assert_eq!(pos.castling(Color::Black), Castling::Both);
    assert_eq!(pos.en_passant(), None);
}

#[test]
fn initial_position_squares() {
    let pos = Position::initial();
    assert_eq!(pos.piece_at(0), Some((Piece::Rook, Color::White)));
    assert_eq!(pos.piece_at(1), Some((Piece::Knight, Color::White)));
    assert_eq!(pos.piece_at(2), Some((Piece::Bishop, Color::White)));
    assert_eq!(pos.piece_at(3), Some((Piece::Queen, Color::White)));
    assert_eq!(pos.piece_at(4), Some((Piece::King, Color::White)));
    assert_eq!(pos.piece_at(12), Some((Piece::Pawn, Color::White)));
    assert_eq!(pos.piece_at(28), None);
    assert_eq!(pos.piece_at(52), Some((Piece::Pawn, Color::Black)));
    assert_eq!(pos.piece_at(59), Some((Piece::Queen, Color::Black)));
    assert_eq!(pos.piece_at(60), Some((Piece::King, Color::Black)));
    assert_eq!(pos.piece_at(63), Some((Piece::Rook, Color::Black)));
}

#[test]
fn malformed_fen_is_rejected() {
    assert!(from_fen("not a position").is_none());
    assert!(from_fen("").is_none());
    // No kings on the board.
    assert!(from_fen("8/8/8/8/8/8/8/8 w - - 0 1").is_none());
}

#[test]
fn a_move_changes_the_position() {
    let pos = Position::initial();
    let e4 = mv(12, 28);
    assert!(contains_move(&legal_moves(&pos), e4));
    let after = apply_move(&pos, e4);
    assert!(!after.same(&pos));
    assert_eq!(after.piece_at(12), None);
    assert_eq!(after.piece_at(28), Some((Piece::Pawn, Color::White)));
    assert_eq!(after.side_to_move(), Color::Black);
    let again = apply_legal(&pos, e4);
    assert!(again.same(&after));
    assert!(after.same(&from_fen("rnbqkbnr/pppppppp/8/8/4P3/8/PPPP1PPP/RNBQKBNR b KQkq - 0 1").unwrap()));
}

#[test]
fn an_illegal_move_changes_nothing() {
    let pos = Position::initial();
    let e5 = mv(12, 36);
    assert!(!contains_move(&legal_moves(&pos), e5));
    assert!(apply_move(&pos, e5).same(&pos));
    // Squares off the board are no move either.
    assert!(apply_move(&pos, mv(200, 201)).same(&pos));
}

#[test]
fn en_passant_file_is_kept() {
    let pos = from_fen("rnbqkbnr/pppp1ppp/8/8/3Pp3/8/PPP1PPPP/RNBQKBNR b KQkq d3 0 2").unwrap();
    assert_eq!(pos.en_passant(), Some(3));
    let moves = legal_moves(&pos);
    // The pawn on e4 may take the pawn on d4 in passing, landing on d3.
    assert!(contains_move(&moves, mv(28, 19)));
    let after = apply_legal(&pos, mv(28, 19));
    assert_eq!(after.piece_at(27), None);
    assert_eq!(after.piece_at(19), Some((Piece::Pawn, Color::Black)));
}

#[test]
fn promotion_moves_name_their_piece() {
    let pos = from_fen("8/P6k/8/8/8/8/8/K7 w - - 0 1").unwrap();
    let moves = legal_moves(&pos);
    let queen = Move { from: 48, to: 56, promotion: Some(Piece::Queen) };
    let knight = Move { from: 48, to: 56, promotion: Some(Piece::Knight) };
    assert!(contains_move(&moves, queen));
    assert!(contains_move(&moves, knight));
    assert!(!contains_move(&moves, mv(48, 56)));
    let after = apply_legal(&pos, knight);
    assert_eq!(after.piece_at(56), Some((Piece::Knight, Color::White)));
}

#[test]
fn checkmate_and_stalemate_are_told_apart() {
    let mated = from_fen(FOOLS_MATE).unwrap();
    assert_eq!(status(&mated), Status::Checkmate);
    assert_eq!(legal_moves(&mated).len(), 0);
    let stale = from_fen(STALEMATE).unwrap();
    assert_eq!(status(&stale), Status::Stalemate);
    assert_eq!(legal_moves(&stale).len(), 0);
}

#[test]
fn a_placement_without_kings_cannot_be_played() {
    let mut squares: Vec<Option<(Piece, Color)>> = vec![None; 64];
    squares[0] = Some((Piece::Rook, Color::White));
    let pos = Position::new(squares, Color::White, Castling::NoRights, Castling::NoRights, None)
        .unwrap();
    assert!(!kings_present(&pos));
    assert_eq!(status(&pos), Status::Invalid);
    assert_eq!(legal_moves(&pos).len(), 0);
    assert!(null_move(&pos).is_none());
    assert!(apply_move(&pos, mv(0, 8)).same(&pos));
}

#[test]
fn a_placement_the_rules_reject_cannot_be_played() {
    // Both kings are there, but the side that is not to move is in check.
    let mut squares: Vec<Option<(Piece, Color)>> = vec![None; 64];
    squares[0] = Some((Piece::King, Color::White));
    squares[56] = Some((Piece::King, Color::Black));
    squares[7] = Some((Piece::Rook, Color::Black));
    let pos = Position::new(squares, Color::Black, Castling::NoRights, Castling::NoRights, None)
        .unwrap();
    assert!(kings_present(&pos));
    assert_eq!(status(&pos), Status::Invalid);
    assert_eq!(legal_moves(&pos).len(), 0);
}

#[test]
fn position_from_parts_checks_its_shape() {
    let short: Vec<Option<(Piece, Color)>> = vec![None; 63];
    assert!(Position::new(short, Color::White, Castling::NoRights, Castling::NoRights, None).is_none());
    let full: Vec<Option<(Piece, Color)>> = vec![None; 64];
    assert!(Position::new(full.clone(), Color::White, Castling::NoRights, Castling::NoRights, Some(8)).is_none());
    assert!(Position::new(full, Color::White, Castling::NoRights, Castling::NoRights, Some(7)).is_some());
}

#[test]
fn position_built_by_hand_plays_like_the_parsed_one() {
    let mut squares: Vec<Option<(Piece, Color)>> = vec![None; 64];
    squares[0] = Some((Piece::King, Color::White));
    squares[48] = Some((Piece::Pawn, Color::White));
    squares[55] = Some((Piece::King, Color::Black));
    let built = Position::new(squares, Color::White, Castling::NoRights, Castling::NoRights, None)
        .unwrap();
    let parsed = from_fen("8/P6k/8/8/8/8/8/K7 w - - 0 1").unwrap();
    assert!(built.same(&parsed));
    assert_eq!(legal_moves(&built), legal_moves(&parsed));
    assert_eq!(status(&built), Status::Ongoing);
}

#[test]
fn passing_hands_the_turn_over() {
    let pos = Position::initial();
    let passed = null_move(&pos).unwrap();
    assert_eq!(passed.side_to_move(), Color::Black);
    assert_eq!(passed.piece_at(12), pos.piece_at(12));
    // A side in check may not pass.
    let checked = from_fen("4k3/8/8/8/8/8/8/4R2K b - - 0 1").unwrap();
    assert!(null_move(&checked).is_none());
}

#[test]
fn mirror_flips_ranks_and_colours() {
    let pos = from_fen("rnbqkbnr/pppppppp/8/8/4P3/8/PPPP1PPP/RNBQKBNR b KQkq - 0 1").unwrap();
    let m = pos.mirror();
    assert_eq!(m.side_to_move(), Color::White);
    assert_eq!(m.piece_at(36), Some((Piece::Pawn, Color::Black)));
    assert_eq!(m.piece_at(52), None);
    assert_eq!(m.piece_at(4), Some((Piece::King, Color::White)));
    assert!(m.mirror().same(&pos));
    assert!(m.same(&from_fen("rnbqkbnr/pppp1ppp/8/4p3/8/8/PPPPPPPP/RNBQKBNR w KQkq - 0 1").unwrap()));
}

#[test]
fn copy_is_the_same_position() {
    let pos = from_fen(FOOLS_MATE).unwrap();
    assert!(pos.copy().same(&pos));
}

#[test]
fn indices_round_trip() {
    for i in 0..6 {
        assert_eq!(Piece::from_index(i).index(), i);
    }
    assert_eq!(Piece::from_index(9), Piece::King);
    assert_eq!(Color::from_index(0), Color::White);
    assert_eq!(Color::from_index(1), Color::Black);
    assert_eq!(Color::White.index(), 0);
    assert_eq!(Color::Black.index(), 1);
    for i in 0..4 {
        assert_eq!(Castling::from_index(i).index(), i);
    }
    assert_eq!(Castling::from_index(7), Castling::Both);
}

#[test]
fn moves_are_read_from_algebraic_notation() {
    let pos = Position::initial();
    assert_eq!(move_from_san(&pos, "e4"), Some(mv(12, 28)));
    assert_eq!(move_from_san(&pos, "Nf3"), Some(mv(6, 21)));
    assert_eq!(move_from_san(&pos, "e5"), None);
    assert_eq!(move_from_san(&pos, "O-O"), None);
    assert_eq!(move_from_san(&pos, ""), None);
    let pos = from_fen("8/P6k/8/8/8/8/8/K7 w - - 0 1").unwrap();
    assert_eq!(
        move_from_san(&pos, "a8Q"),
        Some(Move { from: 48, to: 56, promotion: Some(Piece::Queen) })
    );
    let castle = from_fen("r3k2r/8/8/8/8/8/8/R3K2R w KQkq - 0 1").unwrap();
    assert_eq!(move_from_san(&castle, "O-O"), Some(mv(4, 6)));
    assert_eq!(move_from_san(&castle, "O-O-O"), Some(mv(4, 2)));
}

const CROWDED: &str = "k7/8/8/8/NNNNNNNN/NNNNNNNN/NNNNNNNN/7K w - - 0 1";
const SEVENTEEN: &str = "k7/8/8/8/NNNNNNNN/NNNNNNNN/8/7K w - - 0 1";
const SIXTEEN: &str = "k7/8/8/8/NNNNNNNN/NNNNNNN1/8/7K w - - 0 1";

fn crowded_position(knights: usize, side: Color) -> Position {
    let mut squares: Vec<Option<(Piece, Color)>> = vec![None; 64];
    squares[7] = Some((Piece::King, Color::White));
    squares[56] = Some((Piece::King, Color::Black));
    for sq in 8..(8 + knights) {
        squares[sq] = Some((Piece::Knight, Color::White));
    }
    Position::new(squares, side, Castling::NoRights, Castling::NoRights, None).unwrap()
}

#[test]
fn pieces_are_counted_by_colour() {
    let pos = Position::initial();
    assert_eq!(count_pieces(&pos, Color::White), 16);
    assert_eq!(count_pieces(&pos, Color::Black), 16);
    assert!(armies_in_bounds(&pos));
    let pos = from_fen("6k1/5ppp/8/8/8/8/8/R6K w - - 0 1").unwrap();
    assert_eq!(count_pieces(&pos, Color::White), 2);
    assert_eq!(count_pieces(&pos, Color::Black), 4);
    let pos = crowded_position(24, Color::White);
    assert_eq!(count_pieces(&pos, Color::White), 25);
    assert_eq!(count_pieces(&pos, Color::Black), 1);
    assert!(!armies_in_bounds(&pos));
    assert!(armies_in_bounds(&crowded_position(15, Color::White)));
    assert!(!armies_in_bounds(&crowded_position(16, Color::White)));
}

#[test]
fn a_side_with_more_than_sixteen_pieces_cannot_be_played() {
    assert!(from_fen(CROWDED).is_none());
    assert!(from_fen(SEVENTEEN).is_none());
    for side in [Color::White, Color::Black] {
        for knights in [16, 17, 24, 40] {
            let pos = crowded_position(knights, side);
            assert!(kings_present(&pos));
            assert_eq!(status(&pos), Status::Invalid);
            assert_eq!(legal_moves(&pos).len(), 0);
            assert!(null_move(&pos).is_none());
            assert_eq!(move_from_san(&pos, "Nc3"), None);
            assert!(apply_move(&pos, mv(8, 25)).same(&pos));
        }
    }
}

#[test]
fn a_side_with_sixteen_pieces_can_be_played() {
    let pos = from_fen(SIXTEEN).unwrap();
    assert_eq!(count_pieces(&pos, Color::White), 16);
    assert_eq!(status(&pos), Status::Ongoing);
    let moves = legal_moves(&pos);
    // Every one of the sixteen white pieces has a move.
    for sq in [7u8, 16, 17, 18, 19, 20, 21, 22, 24, 25, 26, 27, 28, 29, 30, 31] {
        assert!(moves.iter().any(|m| m.from == sq));
    }
    assert!(pos.same(&crowded_position_of_sixteen()));
    assert_eq!(move_from_san(&pos, "Kg1"), Some(mv(7, 6)));
}

fn crowded_position_of_sixteen() -> Position {
    let mut squares: Vec<Option<(Piece, Color)>> = vec![None; 64];
    squares[7] = Some((Piece::King, Color::White));
    squares[56] = Some((Piece::King, Color::Black));
    for sq in (16..23).chain(24..32) {
        squares[sq] = Some((Piece::Knight, Color::White));
    }
    Position::new(squares, Color::White, Castling::NoRights, Castling::NoRights, None).unwrap()
}

#[test]
fn a_full_army_and_two_captures_in_passing_fit() {
    // Black has sixteen pieces, every one of them can move, and both pawns can
    // take the pawn on d4 in passing: the move generator's list is full.
    let pos = from_fen("k7/8/nnnnnnn1/nnnnnn2/2pPp3/8/8/7K b - d3 0 1").unwrap();
    assert_eq!(count_pieces(&pos, Color::Black), 16);
    assert_eq!(pos.en_passant(), Some(3));
    assert_eq!(status(&pos), Status::Ongoing);
    let moves = legal_moves(&pos);
    assert!(contains_move(&moves, mv(26, 19)));
    assert!(contains_move(&moves, mv(28, 19)));
    assert!(contains_move(&moves, mv(26, 18)));
    assert!(contains_move(&moves, mv(28, 20)));
    for sq in 0..64u8 {
        if let Some((_, Color::Black)) = pos.piece_at(sq) {
            assert!(moves.iter().any(|m| m.from == sq));
        }
    }
    let after = apply_legal(&pos, mv(26, 19));
    assert_eq!(after.piece_at(27), None);
    assert_eq!(count_pieces(&after, Color::White), 1);
}

#[test]
fn a_capture_in_passing_out_of_a_knight_check_leads_to_a_dead_end() {
    // No game reaches this placement: Black is in check by the knight while
    // the pawn on c4 may be taken in passing. The generator gives the capture
    // although it leaves the king in check; the position after it cannot be
    // played, and a search takes it for a leaf.
    let pos = from_fen("4k3/8/3N4/8/1pP5/8/8/7K b - c3 0 1").unwrap();
    let capture = mv(25, 18);
    assert!(contains_move(&legal_moves(&pos), capture));
    let after = apply_legal(&pos, capture);
    assert_eq!(after.piece_at(26), None);
    assert_eq!(after.piece_at(18), Some((Piece::Pawn, Color::Black)));
    assert_eq!(status(&after), Status::Invalid);
    assert_eq!(legal_moves(&after).len(), 0);
    assert!(null_move(&after).is_none());
}
