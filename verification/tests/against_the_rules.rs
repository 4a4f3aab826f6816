use chess::{Board, BoardStatus, MoveGen};
use chess_search::board::{Color, Move, Piece, Position, Status};
use chess_search::rules::{apply_legal, from_fen, legal_moves, null_move, status};

struct Dice(u64);

impl Dice {
    fn roll(&mut self, n: usize) -> usize {
        self.0 = self.0.wrapping_mul(6364136223846793005).wrapping_add(1442695040888963407);
        ((self.0 >> 33) % (n as u64)) as usize
    }
}

fn plain(m: chess::ChessMove) -> Move {
    Move {
        from: m.get_source().to_int(),
        to: m.get_dest().to_int(),
        promotion: m.get_promotion().map(|p| Piece::from_index(p.to_index())),
    }
}

fn same_placement(board: &Board, pos: &Position) -> bool {
    for sq in chess::ALL_SQUARES.iter() {
        let there = match (board.piece_on(*sq), board.color_on(*sq)) {
            (Some(p), Some(c)) => {
                Some((Piece::from_index(p.to_index()), Color::from_index(c.to_index())))
            }
            _ => None,
        };
        if pos.piece_at(sq.to_int()) != there {
            return false;
        }
    }
    let side = Color::from_index(board.side_to_move().to_index());
    let white = board.castle_rights(chess::Color::White).to_index();
    let black = board.castle_rights(chess::Color::Black).to_index();
    pos.side_to_move() == side
        && pos.castling(Color::White).index() == white
        && pos.castling(Color::Black).index() == black
        && pos.en_passant() == board.en_passant().map(|s| s.get_file().to_index() as u8)
}

fn follow_random_games(seed: u64, games: usize) {
    let mut dice = Dice(seed);
    for _ in 0..games {
        let mut board = Board::default();
        let mut pos = Position::initial();
        for _ in 0..120 {
            assert!(same_placement(&board, &pos));
            let theirs: Vec<Move> = MoveGen::new_legal(&board).map(plain).collect();
            let ours = legal_moves(&pos);
            assert_eq!(ours, theirs);
            let expected = match board.status() {
                BoardStatus::Ongoing => Status::Ongoing,
                BoardStatus::Stalemate => Status::Stalemate,
                BoardStatus::Checkmate => Status::Checkmate,
            };
            assert_eq!(status(&pos), expected);
            match (board.null_move(), null_move(&pos)) {
                (Some(b), Some(p)) => assert!(same_placement(&b, &p)),
                (None, None) => {}
                _ => panic!("the null move differs"),
            }
            if ours.is_empty() {
                break;
            }
            let pick = dice.roll(ours.len());
            let their_move = MoveGen::new_legal(&board).nth(pick).unwrap();
            board = board.make_move_new(their_move);
            pos = apply_legal(&pos, ours[pick]);
        }
    }
}

#[test]
fn positions_play_as_the_boards_they_stand_for() {
    follow_random_games(1, 150);
}

#[test]
fn positions_play_as_the_boards_they_stand_for_again() {
    follow_random_games(987654321, 150);
}

#[test]
fn parsed_positions_are_the_boards_they_stand_for() {
    let fens = [
        "rnbqkbnr/pppp1ppp/8/8/3Pp3/8/PPP1PPPP/RNBQKBNR b KQkq d3 0 2",
        "r3k2r/pppq1ppp/2npbn2/2b1p3/2B1P3/2NPBN2/PPPQ1PPP/R3K2R w KQkq - 0 8",
        "8/P6k/8/8/8/8/8/K7 w - - 0 1",
        "r3k2r/8/8/8/8/8/8/R3K2R b Kq - 0 1",
    ];
    for fen in fens {
        let board: Board = fen.parse().unwrap();
        let pos = from_fen(fen).unwrap();
        assert!(same_placement(&board, &pos));
        let theirs: Vec<Move> = MoveGen::new_legal(&board).map(plain).collect();
        assert_eq!(legal_moves(&pos), theirs);
    }
}
