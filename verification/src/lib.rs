//! Bounded-depth game-tree search for chess.
//!
//! The library picks a move by exploring the game tree to a fixed depth and
//! scoring the positions it reaches by material. Legal moves, the position
//! after a move and the game status come from the `chess` crate; everything
//! built on top of them is verified.
//!
//! - `board`: pieces, moves and positions as plain data.
//! - `rules`: the boundary to the `chess` crate.
//! - `eval`: the static score of a position.
//! - `search`: minimax and alpha-beta search.
//! - `pruning`: the proof that alpha-beta search returns the minimax value.
//! - `ordering`: alpha-beta search over sorted moves.
//! - `visits`: the number of leaves a search scores.
//! - `engine`: the choice of a move.
//! - `game_printer`: the board as text.
//! - `game_logic`: the turns of a game.

pub mod board;
pub mod rules;
pub mod eval;
pub mod search;
pub mod pruning;
pub mod ordering;
pub mod visits;
pub mod engine;
pub mod game_printer;
pub mod game_logic;
