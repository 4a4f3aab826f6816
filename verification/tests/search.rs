use chess_search::board::{Move, Position};
use chess_search::eval::{heuristic, MAX_VAL, MIN_VAL};
use chess_search::ordering::{bestfirst, bstar, insert_scored, moves_only, score_by_reply, sort_by_score};
use chess_search::rules::{from_fen, legal_moves};
use chess_search::search::{alphabeta, alphabetahelper, minimax, walk};

const POSITIONS: [&str; 6] = [
    "rnbqkbnr/pppppppp/8/8/8/8/PPPPPPPP/RNBQKBNR w KQkq - 0 1",
    "r1bqkbnr/pppp1ppp/2n5/4p3/2B1P3/5Q2/PPPP1PPP/RNB1K1NR w KQkq - 0 4",
    "6k1/5ppp/8/8/8/8/8/R6K w - - 0 1",
    "3rkr2/3p1p2/8/8/8/8/1P3PPP/q3R1K1 b - - 0 1",
    "8/P6k/8/8/8/8/8/K7 w - - 0 1",
    "r3k2r/pppq1ppp/2npbn2/2b1p3/2B1P3/2NPBN2/PPPQ1PPP/R3K2R w KQkq - 0 8",
];

fn mv(from: u8, to: u8) -> Move {
    Move { from, to, promotion: None }
}

#[test]
fn depth_zero_is_the_static_score() {
    for fen in POSITIONS {
        let pos = from_fen(fen).unwrap();
        let h = heuristic(&pos);
        for maximizing in [true, false] {
            assert_eq!(minimax(&pos, 0, maximizing), h);
            assert_eq!(alphabetahelper(&pos, 0, maximizing), h);
            assert_eq!(alphabeta(&pos, 0, -5, 5, maximizing), h);
            assert_eq!(bestfirst(&pos, 0, maximizing), h);
            assert_eq!(bstar(&pos, 0, maximizing), h);
        }
    }
}

#[test]
fn finished_games_are_leaves() {
    let mated = from_fen("rnb1kbnr/pppp1ppp/8/4p3/6Pq/5P2/PPPPP2P/RNBQKBNR w KQkq - 1 3").unwrap();
    let stale = from_fen("7k/5Q2/6K1/8/8/8/8/8 b - - 0 1").unwrap();
    for maximizing in [true, false] {
        assert_eq!(minimax(&mated, 3, maximizing), MIN_VAL);
        assert_eq!(alphabetahelper(&mated, 3, maximizing), MIN_VAL);
        assert_eq!(bestfirst(&mated, 3, maximizing), MIN_VAL);
        assert_eq!(bstar(&mated, 3, maximizing), MIN_VAL);
        assert_eq!(minimax(&stale, 3, maximizing), 0);
        assert_eq!(alphabetahelper(&stale, 3, maximizing), 0);
        assert_eq!(bestfirst(&stale, 3, maximizing), 0);
        assert_eq!(bstar(&stale, 3, maximizing), 0);
    }
}

#[test]
fn one_ply_takes_the_best_child() {
    // White to move can mate with the rook; every other move leaves the material at -2.
    let pos = from_fen("6k1/5ppp/8/8/8/8/8/R6K w - - 0 1").unwrap();
    assert_eq!(minimax(&pos, 1, true), MAX_VAL);
    assert_eq!(minimax(&pos, 1, false), -2);
    // Black to move can take the rook's pawn-less king side nothing; the queen can be won.
    let pos = from_fen("3qk3/8/8/8/8/8/8/3RK3 w - - 0 1").unwrap();
    // White takes the queen: material goes from 4 to -5.
    assert_eq!(minimax(&pos, 1, false), -5);
    assert_eq!(minimax(&pos, 1, true), 4);
}

#[test]
fn alphabeta_agrees_with_minimax() {
    for fen in POSITIONS {
        let pos = from_fen(fen).unwrap();
        for depth in 0..3 {
            for maximizing in [true, false] {
                let exact = minimax(&pos, depth, maximizing);
                assert_eq!(alphabetahelper(&pos, depth, maximizing), exact);
                assert_eq!(alphabeta(&pos, depth, MIN_VAL, MAX_VAL, maximizing), exact);
            }
        }
    }
}

#[test]
fn ordered_searches_agree_with_minimax() {
    for fen in POSITIONS {
        let pos = from_fen(fen).unwrap();
        for depth in 0..3 {
            for maximizing in [true, false] {
                let exact = minimax(&pos, depth, maximizing);
                assert_eq!(bestfirst(&pos, depth, maximizing), exact);
                assert_eq!(bstar(&pos, depth, maximizing), exact);
            }
        }
    }
}

#[test]
fn narrow_window_bounds_the_value() {
    for fen in POSITIONS {
        let pos = from_fen(fen).unwrap();
        for maximizing in [true, false] {
            let exact = minimax(&pos, 2, maximizing);
            for (alpha, beta) in [(-3, 3), (-1, 0), (0, 1), (-1001, 0), (0, 1001), (4, 9)] {
                let r = alphabeta(&pos, 2, alpha, beta, maximizing);
                if r <= alpha {
                    assert!(exact <= r);
                } else if r >= beta {
                    assert!(exact >= r);
                } else {
                    assert_eq!(exact, r);
                }
            }
        }
    }
}

#[test]
fn walk_over_all_moves_is_alphabeta() {
    let pos = from_fen(POSITIONS[1]).unwrap();
    let moves = legal_moves(&pos);
    assert_eq!(walk(&pos, &moves, 2, MIN_VAL, MAX_VAL, true), alphabetahelper(&pos, 2, true));
    assert_eq!(walk(&pos, &moves, 2, -2, 2, false), alphabeta(&pos, 2, -2, 2, false));
    let none: Vec<Move> = Vec::new();
    assert_eq!(walk(&pos, &none, 2, MIN_VAL, MAX_VAL, true), MIN_VAL);
    assert_eq!(walk(&pos, &none, 2, MIN_VAL, MAX_VAL, false), MAX_VAL);
}

#[test]
fn sort_is_ascending_and_stable() {
    let items = vec![
        (mv(1, 1), 5),
        (mv(2, 2), -3),
        (mv(3, 3), 5),
        (mv(4, 4), 0),
        (mv(5, 5), -3),
        (mv(6, 6), 7),
    ];
    let sorted = sort_by_score(&items);
    let expected = vec![
        (mv(2, 2), -3),
        (mv(5, 5), -3),
        (mv(4, 4), 0),
        (mv(1, 1), 5),
        (mv(3, 3), 5),
        (mv(6, 6), 7),
    ];
    assert_eq!(sorted, expected);
    assert_eq!(moves_only(&sorted), vec![mv(2, 2), mv(5, 5), mv(4, 4), mv(1, 1), mv(3, 3), mv(6, 6)]);
    let mut reference = items.clone();
    reference.sort_by(|a, b| a.1.cmp(&b.1));
    assert_eq!(sorted, reference);
    assert_eq!(sort_by_score(&Vec::new()), Vec::new());
}

#[test]
fn insert_goes_behind_equal_scores() {
    let mut list = vec![(mv(1, 1), 1), (mv(2, 2), 2), (mv(3, 3), 2), (mv(4, 4), 9)];
    insert_scored(&mut list, (mv(9, 9), 2));
    assert_eq!(
        list,
        vec![(mv(1, 1), 1), (mv(2, 2), 2), (mv(3, 3), 2), (mv(9, 9), 2), (mv(4, 4), 9)]
    );
    insert_scored(&mut list, (mv(8, 8), -4));
    assert_eq!(list[0], (mv(8, 8), -4));
    insert_scored(&mut list, (mv(7, 7), 100));
    assert_eq!(list[6], (mv(7, 7), 100));
}

#[test]
fn reply_score_is_the_best_follow_up() {
    // After Ra1-a7 and a pass by Black, White's best follow-up takes a pawn or mates.
    let pos = from_fen("6k1/5ppp/8/8/8/8/8/R6K w - - 0 1").unwrap();
    // Ra1-a8 mates: Black is in check and cannot pass, and has no reply: the score is 0.
    assert_eq!(score_by_reply(&pos, mv(0, 56)), 0);
    // Ra1-a7: after the pass White can play Ra8 mate, worth the highest score.
    assert_eq!(score_by_reply(&pos, mv(0, 48)), MAX_VAL);
    // From the start no follow-up wins material.
    assert_eq!(score_by_reply(&Position::initial(), mv(12, 28)), 0);
    // A check leaves the opponent no pass: the score is 0, whatever could follow.
    let pos = from_fen("4k3/8/8/8/8/8/8/R3K3 w - - 0 1").unwrap();
    assert_eq!(score_by_reply(&pos, mv(0, 56)), 0);
    // A quiet rook move keeps the material at -5 after any follow-up.
    assert_eq!(score_by_reply(&pos, mv(0, 8)), -5);
}

#[test]
fn a_dead_end_below_the_root_is_a_leaf() {
    let pos = from_fen("4k3/8/3N4/8/1pP5/8/8/7K b - c3 0 1").unwrap();
    for depth in 0..3 {
        for maximizing in [true, false] {
            let exact = minimax(&pos, depth, maximizing);
            assert_eq!(alphabetahelper(&pos, depth, maximizing), exact);
            assert_eq!(bestfirst(&pos, depth, maximizing), exact);
            assert_eq!(bstar(&pos, depth, maximizing), exact);
        }
    }
    // The capture wins a pawn: a knight against a pawn is left, and the search
    // stops there. Any king move leaves the material at -3.
    assert_eq!(minimax(&pos, 1, true), -2);
    assert_eq!(minimax(&pos, 1, false), -3);
}
