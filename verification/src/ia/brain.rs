//! What a player that chooses moves by itself has to offer.

use crate::comun::{GameStatus, Move, Square, Turn};
use crate::game_manager::GameManager;
use crate::rules::GameState;
use vstd::prelude::*;

verus! {

/// What a game won by red is worth.
pub const REDVALUE: i32 = 1;

/// What a game won by black is worth.
pub const BLACKVALUE: i32 = -1;

/// What a drawn game is worth.
pub const DRAWVALUE: i32 = 0;

/// What a game that is over is worth: 1 if red has won, -1 if black has, 0
/// else.
pub open spec fn value_of(status: GameStatus) -> int {
    match status {
        GameStatus::RedWins => 1,
        GameStatus::BlackWins => -1,
        _ => 0,
    }
}

/// The answer of a player that was asked for a move where there is none.
pub open spec fn no_move(turn: Turn) -> Move {
    Move {
        turn,
        from: Square { row: 0, col: 0 },
        to: Square { row: 0, col: 0 },
        eat: None,
        promotion: false,
    }
}

/// Some move may be played in `game`.
pub open spec fn can_move(game: GameState) -> bool {
    exists|m: Move| #[trigger] game.admits(m)
}

/// A player that chooses moves by itself.
pub trait Brain: Send + Sync {
    /// A move that the side to move may play in `game_manager`; where
    /// there is one such move only, that move; where there is none,
    /// `no_move`.
    fn get_best_move(&mut self, game_manager: GameManager) -> (best: Move)
        requires
            game_manager.wf(),
            game_manager@.quiet_moves < i8::MAX,
        ensures
            can_move(game_manager@) ==> game_manager@.admits(best),
            !can_move(game_manager@) ==> best == no_move(game_manager@.turn),
            forall|only: Move|
                game_manager@.admits(only) && (forall|m: Move| #[trigger]
                    game_manager@.admits(m) ==> m == only) ==> best == only,
    ;
}

} // verus!
