//! A game between the engine and a player, or between two players: whose turn
//! it is, what a turn does to the game, and how the game ends. Reading the
//! player's move and showing the board are left to the caller.

use vstd::prelude::*;
use vstd::string::StringExecFns;
use crate::board::{Color, Move, Position, PositionView, Status, initial_view};
use crate::engine::{Algorithm, Engine, algorithm_named, best_move};
use crate::game_printer::{board_text, board_to_string};
use crate::rules::{
    from_fen,
    legal_moves_of,
    move_from_san,
    move_of_san,
    position_after,
    position_of_fen,
    status,
    status_of,
};

verus! {

/// The depth the engine searches to when none is given.
pub const DEPTH: i32 = 3;

/// How a game has ended.
#[derive(Clone, Copy, PartialEq, Eq, Debug, Structural)]
pub enum GameResult {
    WhiteCheckmates,
    WhiteResigns,
    BlackCheckmates,
    BlackResigns,
    Stalemate,
    DrawAccepted,
    DrawDeclared,
}

/// What happens next in a game.
#[derive(Clone, Copy, PartialEq, Eq, Debug, Structural)]
pub enum Turn {
    /// The game has ended.
    Over(GameResult),
    /// The engine is to move.
    Engine,
    /// A player is to move.
    Human,
}

/// A game: the engine with the position the game stands at, and the side the
/// engine plays, if it plays one.
pub struct GameLogic {
    engine_color: Option<Color>,
    engine: Engine,
}

/// The sentence that tells how a game has ended.
pub open spec fn result_text(game_result: GameResult) -> Seq<char> {
    match game_result {
        GameResult::WhiteCheckmates => "White wins by checkmate"@,
        GameResult::BlackCheckmates => "Black wins by checkmate"@,
        GameResult::WhiteResigns => "White wins by resignation"@,
        GameResult::BlackResigns => "Black wins by resignation"@,
        GameResult::DrawAccepted => "The draw was accepted"@,
        GameResult::DrawDeclared => "A draw has been offered"@,
        GameResult::Stalemate => "The game is drawn by stalemate"@,
    }
}

/// How the game has ended at a position, if it has: a checkmate is won by
/// the side that is not to move, a stalemate is a draw.
pub open spec fn result_of(v: PositionView) -> Option<GameResult> {
    match status_of(v) {
        Status::Checkmate => if v.side_to_move == Color::White {
            Some(GameResult::BlackCheckmates)
        } else {
            Some(GameResult::WhiteCheckmates)
        },
        Status::Stalemate => Some(GameResult::Stalemate),
        _ => None,
    }
}

/// What happens next at a position: nothing if the game has ended; else the
/// engine moves if it plays the side to move, and a player moves if not.
pub open spec fn turn_of(v: PositionView, engine_color: Option<Color>) -> Turn {
    match result_of(v) {
        Some(r) => Turn::Over(r),
        None => if engine_color == Some(v.side_to_move) {
            Turn::Engine
        } else {
            Turn::Human
        },
    }
}

/// The sentence that tells how a game has ended.
pub fn res_to_string(game_result: GameResult) -> (text: String)
    ensures
        text@ == result_text(game_result),
{
    let string: &str = match game_result {
        GameResult::WhiteCheckmates => "White wins by checkmate",
        GameResult::BlackCheckmates => "Black wins by checkmate",
        GameResult::WhiteResigns => "White wins by resignation",
        GameResult::BlackResigns => "Black wins by resignation",
        GameResult::DrawAccepted => "The draw was accepted",
        GameResult::DrawDeclared => "A draw has been offered",
        GameResult::Stalemate => "The game is drawn by stalemate",
    };
    String::from_str(string)
}

/// The other side.
pub fn opp_color(color: Color) -> (other: Color)
    ensures
        other == color.opposite(),
{
    match color {
        Color::Black => Color::White,
        Color::White => Color::Black,
    }
}

impl GameLogic {
    /// The position the game stands at.
    pub closed spec fn position(&self) -> PositionView {
        self.engine.position()
    }

    /// The side the engine plays, if it plays one.
    pub closed spec fn engine_color(&self) -> Option<Color> {
        self.engine_color
    }

    /// How deep the engine searches.
    pub closed spec fn depth(&self) -> nat {
        self.engine.depth()
    }

    /// The algorithm the engine searches with.
    pub closed spec fn algorithm(&self) -> Algorithm {
        self.engine.algorithm()
    }

    /// A game. Without a depth the engine searches `DEPTH` plies deep;
    /// without a FEN string the game starts from the initial position;
    /// without a name, or with one that is not known, the engine searches
    /// with alpha-beta. There is no game for a negative depth, nor for a FEN
    /// string that describes no position.
    pub fn new(
        engine_color: Option<Color>,
        depth: Option<i32>,
        fen: Option<String>,
        algo: Option<String>,
    ) -> (game: Option<GameLogic>)
        ensures
            game.is_some() == ((depth matches Some(d) ==> d >= 0) && (fen matches Some(f)
                ==> position_of_fen(f@).is_some())),
            game matches Some(g) ==> {
                &&& g.engine_color() == engine_color
                &&& g.depth() == (match depth {
                    Some(d) => d,
                    None => DEPTH,
                })
                &&& g.position() == (match fen {
                    Some(f) => position_of_fen(f@).unwrap(),
                    None => initial_view(),
                })
                &&& g.algorithm() == (match algo {
                    Some(a) => algorithm_named(a@),
                    None => algorithm_named(""@),
                })
            },
    {
        let depth: i32 = match depth {
            Some(d) => d,
            None => DEPTH,
        };
        if depth < 0 {
            return None;
        }
        let position: Position = match fen {
            Some(f) => match from_fen(f.as_str()) {
                Some(p) => p,
                None => {
                    return None;
                },
            },
            None => Position::initial(),
        };
        let algo: String = match algo {
            Some(a) => a,
            None => String::from_str(""),
        };
        Some(GameLogic { engine_color, engine: Engine::new(position, depth, algo) })
    }

    /// How the game has ended, if it has.
    pub fn result(&self) -> (r: Option<GameResult>)
        ensures
            r == result_of(self.position()),
    {
        let position: &Position = self.engine.game_state();
        match status(position) {
            Status::Checkmate => match position.side_to_move() {
                Color::White => Some(GameResult::BlackCheckmates),
                Color::Black => Some(GameResult::WhiteCheckmates),
            },
            Status::Stalemate => Some(GameResult::Stalemate),
            _ => None,
        }
    }

    /// What happens next.
    pub fn turn(&self) -> (t: Turn)
        ensures
            t == turn_of(self.position(), self.engine_color()),
    {
        match self.result() {
            Some(r) => Turn::Over(r),
            None => {
                let to_move: Color = self.engine.game_state().side_to_move();
                let engine_to_move: bool = match self.engine_color {
                    Some(c) => c == to_move,
                    None => false,
                };
                if engine_to_move {
                    Turn::Engine
                } else {
                    Turn::Human
                }
            },
        }
    }

    /// The board as text, seen from the side to move.
    pub fn board(&self) -> (text: String)
        ensures
            text@ == board_text(self.position(), self.position().side_to_move),
    {
        let position: &Position = self.engine.game_state();
        board_to_string(position, position.side_to_move())
    }

    /// The engine's turn: the engine proposes a move and the move is made.
    /// Where the engine proposes none, the game stays as it is.
    pub fn engine_turn(&mut self) -> (played: Option<Move>)
        ensures
            played == best_move(old(self).algorithm(), old(self).position(), old(self).depth()),
            final(self).position() == (match played {
                Some(m) => position_after(old(self).position(), m),
                None => old(self).position(),
            }),
            final(self).engine_color() == old(self).engine_color(),
            final(self).depth() == old(self).depth(),
            final(self).algorithm() == old(self).algorithm(),
    {
        let engine_move: Option<Move> = self.engine.get_best_move();
        match engine_move {
            Some(m) => {
                self.engine.play_move(m);
            },
            None => {},
        }
        engine_move
    }

    /// A player's turn: the move that the text stands for, in standard
    /// algebraic notation, is made. Where the text stands for no legal move,
    /// the game stays as it is.
    pub fn human_turn(&mut self, raw_move: &str) -> (played: Option<Move>)
        ensures
            played == move_of_san(old(self).position(), raw_move@),
            played matches Some(m) ==> legal_moves_of(old(self).position()).contains(m),
            final(self).position() == (match played {
                Some(m) => position_after(old(self).position(), m),
                None => old(self).position(),
            }),
            final(self).engine_color() == old(self).engine_color(),
            final(self).depth() == old(self).depth(),
            final(self).algorithm() == old(self).algorithm(),
    {
        let maybe_move: Option<Move> = move_from_san(self.engine.game_state(), raw_move);
        match maybe_move {
            Some(m) => {
                self.engine.play_move(m);
            },
            None => {},
        }
        maybe_move
    }
}

} // verus!
