use chess_search::board::{Color, Piece, Position};
use chess_search::game_printer::{board_to_string, make_file, make_rank, piece_to_string, to_square};
use chess_search::rules::from_fen;

#[test]
fn pieces_are_three_characters() {
    assert_eq!(piece_to_string(Piece::Bishop, Color::White), " B ");
    assert_eq!(piece_to_string(Piece::King, Color::White), " K ");
    assert_eq!(piece_to_string(Piece::Knight, Color::White), " N ");
    assert_eq!(piece_to_string(Piece::Pawn, Color::Black), " P*");
    assert_eq!(piece_to_string(Piece::Queen, Color::Black), " Q*");
    assert_eq!(piece_to_string(Piece::Rook, Color::Black), " R*");
}

#[test]
fn squares_are_numbered_rank_by_rank() {
    assert_eq!(to_square(0, 0), 0);
    assert_eq!(to_square(0, 7), 7);
    assert_eq!(to_square(1, 0), 8);
    assert_eq!(to_square(3, 4), 28);
    assert_eq!(to_square(7, 7), 63);
    assert_eq!(make_rank(5), 5);
    assert_eq!(make_file(2), 2);
}

#[test]
fn ranks_and_files_wrap_around() {
    assert_eq!(make_rank(8), 0);
    assert_eq!(make_rank(9), 1);
    assert_eq!(make_file(15), 7);
    assert_eq!(make_rank(-1), 7);
    assert_eq!(make_file(-8), 0);
    assert_eq!(make_file(-9), 7);
    assert_eq!(make_rank(i32::MIN), 0);
    assert_eq!(make_rank(i32::MAX), 7);
    assert_eq!(to_square(8, 8), 0);
    assert_eq!(to_square(-1, -1), 63);
    // Rows 1 to 8 and columns 1 to 8 still name every square once.
    let mut seen = [false; 64];
    for row in 1..=8 {
        for col in 1..=8 {
            seen[usize::from(to_square(row, col))] = true;
        }
    }
    assert!(seen.iter().all(|s| *s));
}

#[test]
fn initial_board_as_white_sees_it() {
    let expected = "    A  B  C  D  E  F  G  H    \n\n\
8   R* N* B* Q* K* B* N* R*\n\
7   P* P* P* P* P* P* P* P*\n\
6   _  _  _  _  _  _  _  _ \n\
5   _  _  _  _  _  _  _  _ \n\
4   _  _  _  _  _  _  _  _ \n\
3   _  _  _  _  _  _  _  _ \n\
2   P  P  P  P  P  P  P  P \n\
1   R  N  B  Q  K  B  N  R \n";
    assert_eq!(board_to_string(&Position::initial(), Color::White), expected);
}

#[test]
fn initial_board_as_black_sees_it() {
    let expected = "    H  G  F  E  D  C  B  A    \n\n\
1   R  N  B  K  Q  B  N  R \n\
2   P  P  P  P  P  P  P  P \n\
3   _  _  _  _  _  _  _  _ \n\
4   _  _  _  _  _  _  _  _ \n\
5   _  _  _  _  _  _  _  _ \n\
6   _  _  _  _  _  _  _  _ \n\
7   P* P* P* P* P* P* P* P*\n\
8   R* N* B* K* Q* B* N* R*\n";
    assert_eq!(board_to_string(&Position::initial(), Color::Black), expected);
}

#[test]
fn a_sparse_board() {
    let pos = from_fen("6k1/5ppp/8/8/8/8/8/R6K w - - 0 1").unwrap();
    let expected = "    A  B  C  D  E  F  G  H    \n\n\
8   _  _  _  _  _  _  K* _ \n\
7   _  _  _  _  _  P* P* P*\n\
6   _  _  _  _  _  _  _  _ \n\
5   _  _  _  _  _  _  _  _ \n\
4   _  _  _  _  _  _  _  _ \n\
3   _  _  _  _  _  _  _  _ \n\
2   _  _  _  _  _  _  _  _ \n\
1   R  _  _  _  _  _  _  K \n";
    assert_eq!(board_to_string(&pos, Color::White), expected);
}
