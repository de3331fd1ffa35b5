//! The values shared by every part of the engine: squares, pieces, moves,
//! sides and game results.

use vstd::prelude::*;
use vstd::std_specs::cmp::PartialEqSpecImpl;

verus! {

/// Number of rows, and of columns, of the board.
pub const BOARD_SIZE: usize = 8;

/// A red man. Red pieces are positive, and red men walk towards row 7.
pub const WHITE_PAWN: i8 = 1;

/// A black man. Black pieces are negative, and black men walk towards row 0.
pub const BLACK_PAWN: i8 = -1;

/// A red king.
pub const WHITE_QUEEN: i8 = 2;

/// A black king.
pub const BLACK_QUEEN: i8 = -2;

/// An empty square.
pub const EMPTY: i8 = 0;

/// A square of the board, by row and column.
#[derive(Clone, Copy, Debug, PartialEq, Eq, Hash, Structural)]
pub struct Square {
    pub row: usize,
    pub col: usize,
}

impl Default for Square {
    fn default() -> (square: Self)
        ensures
            square == (Square { row: 0, col: 0 }),
    {
        Square { row: 0, col: 0 }
    }
}

/// The side that is to move.
#[derive(Clone, Copy, Debug, PartialEq, Eq, Hash, Structural)]
pub enum Turn {
    Red,
    Black,
}

impl Default for Turn {
    fn default() -> (turn: Self)
        ensures
            turn == Turn::Red,
    {
        Turn::Red
    }
}

/// One move of one piece.
///
/// `eat` holds the square of the captured piece and the piece that stood
/// there, so that the move can be taken back. `promotion` is set when a man
/// lands on its farthest row.
#[derive(Clone, Copy, Debug, Eq, Hash)]
pub struct Move {
    pub turn: Turn,
    pub from: Square,
    pub to: Square,
    pub eat: Option<(Square, i8)>,
    pub promotion: bool,
}

impl PartialEq for Move {
    fn eq(&self, other: &Self) -> (same: bool) {
        let same_capture = match (self.eat, other.eat) {
            (None, None) => true,
            (Some(a), Some(b)) => a.0 == b.0 && a.1 == b.1,
            _ => false,
        };
        self.turn == other.turn && self.from == other.from && self.to == other.to && same_capture
            && self.promotion == other.promotion
    }
}

impl PartialEqSpecImpl for Move {
    open spec fn obeys_eq_spec() -> bool {
        true
    }

    open spec fn eq_spec(&self, other: &Self) -> bool {
        *self == *other
    }
}

/// How a game stands.
#[derive(Clone, Copy, Debug, Eq)]
pub enum GameStatus {
    Playing,
    RedWins,
    BlackWins,
    Draw,
}

impl Default for GameStatus {
    fn default() -> (status: Self)
        ensures
            status == GameStatus::Playing,
    {
        GameStatus::Playing
    }
}

impl PartialEq for GameStatus {
    fn eq(&self, other: &Self) -> (same: bool) {
        match (self, other) {
            (GameStatus::Playing, GameStatus::Playing) => true,
            (GameStatus::RedWins, GameStatus::RedWins) => true,
            (GameStatus::BlackWins, GameStatus::BlackWins) => true,
            (GameStatus::Draw, GameStatus::Draw) => true,
            _ => false,
        }
    }
}

impl PartialEqSpecImpl for GameStatus {
    open spec fn obeys_eq_spec() -> bool {
        true
    }

    open spec fn eq_spec(&self, other: &Self) -> bool {
        *self == *other
    }
}

/// Who plays a side.
#[derive(Clone, Copy, Debug, Eq)]
pub enum GamePlayer {
    Human,
    Computer,
}

impl Default for GamePlayer {
    fn default() -> (player: Self)
        ensures
            player == GamePlayer::Human,
    {
        GamePlayer::Human
    }
}

impl PartialEq for GamePlayer {
    fn eq(&self, other: &Self) -> (same: bool) {
        match (self, other) {
            (GamePlayer::Human, GamePlayer::Human) => true,
            (GamePlayer::Computer, GamePlayer::Computer) => true,
            _ => false,
        }
    }
}

impl PartialEqSpecImpl for GamePlayer {
    open spec fn obeys_eq_spec() -> bool {
        true
    }

    open spec fn eq_spec(&self, other: &Self) -> bool {
        *self == *other
    }
}

/// Who plays red and who plays black.
#[derive(Clone, Copy, Debug)]
pub struct BandPlayer {
    pub red: GamePlayer,
    pub black: GamePlayer,
}

impl Default for BandPlayer {
    fn default() -> (players: Self)
        ensures
            players == (BandPlayer { red: GamePlayer::Human, black: GamePlayer::Human }),
    {
        BandPlayer { red: GamePlayer::Human, black: GamePlayer::Human }
    }
}

} // verus!
