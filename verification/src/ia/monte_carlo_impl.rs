//! A player that tries each move in many games played at random.

use crate::comun::{GameStatus, Move, Turn};
use crate::game_manager::GameManager;
use crate::ia::brain::{can_move, value_of, Brain, BLACKVALUE, DRAWVALUE, REDVALUE};
use crate::laws::{
    is_playout, lemma_apply_undo, lemma_moves_left, lemma_playout_wf, moves_left, play,
};
use crate::rules::{has_legal_move, legal, ranked, GameState};
use rand::rngs::ThreadRng;
use rand::seq::SliceRandom;
use vstd::prelude::*;

verus! {

/// The number of games played at random for each move, unless another is
/// asked for.
pub const MAX_ITERATIONS: u16 = 800;

/// `rand::rngs::ThreadRng`, the random number generator of the running
/// thread. Nothing is known of what it holds.
#[verifier::external_type_specification]
#[verifier::external_body]
pub struct ExThreadRng(ThreadRng);

/// `rand::thread_rng` hands out the generator of the running thread.
/// Nothing is claimed of it.
pub assume_specification[ rand::thread_rng ]() -> (rng: ThreadRng)
;

/// `rand::seq::SliceRandom::choose` on the moves of `moves`: `None` where
/// there is no move, and else one of the moves, whichever the generator
/// picks.
#[verifier::external_body]
fn choose_move(moves: &Vec<Move>, rng: &mut ThreadRng) -> (picked: Option<Move>)
    ensures
        picked is None <==> moves@.len() == 0,
        picked matches Some(m) ==> moves@.contains(m),
{
    moves.choose(rng).copied()
}

/// `value` is what a game is worth that starts from `game`, is played by
/// moves that the rules admit, and is over.
pub open spec fn playout_value(game: GameState, value: int) -> bool {
    exists|line: Seq<Move>|
        is_playout(game, line) && (#[trigger] play(game, line)).status != GameStatus::Playing
            && value == value_of(play(game, line).status)
}

/// The sum of `values`.
pub open spec fn sum_of(values: Seq<int>) -> int
    decreases values.len(),
{
    if values.len() == 0 {
        0
    } else {
        sum_of(values.drop_last()) + values.last()
    }
}

/// What `count` games are worth together that have ended as `status` says:
/// `count` times `value_of(status)`.
pub open spec fn worth(count: int, status: GameStatus) -> int {
    match status {
        GameStatus::RedWins => count,
        GameStatus::BlackWins => -count,
        _ => 0,
    }
}

/// `total` is what `count` games are worth together that start from `game`,
/// are played by moves that the rules admit, and are over.
pub open spec fn playout_total(game: GameState, count: int, total: int) -> bool {
    exists|values: Seq<int>|
        values.len() == count && (forall|i: int|
            0 <= i < count ==> playout_value(game, #[trigger] values[i])) && total
            == #[trigger] sum_of(values)
}

/// What `total`, the worth of some games, is worth to `turn`: as much if
/// `turn` is red, the opposite if it is black.
pub open spec fn score_for(turn: Turn, total: int) -> int {
    match turn {
        Turn::Red => total,
        Turn::Black => -total,
    }
}

/// `score` is what `count` games are worth to the side to move in `game`
/// that start with `m`, are played on by moves that the rules admit, and are
/// over.
pub open spec fn scored(game: GameState, m: Move, count: int, score: int) -> bool {
    exists|total: int| #[trigger]
        playout_total(game.apply(m), count, total) && score == score_for(game.turn, total)
}

/// `moves` are the moves that may be played in `game`, in the order of
/// `move_rank`, and each of `scores` is what `count` games are worth to the
/// side to move that start with the move at the same place in `moves`, are
/// played on by moves that the rules admit, and are over.
pub open spec fn evaluation(
    game: GameState,
    count: int,
    moves: Seq<Move>,
    scores: Seq<i32>,
) -> bool {
    &&& forall|m: Move| moves.contains(m) <==> game.admits(m)
    &&& ranked(game.board, moves)
    &&& scores.len() == moves.len()
    &&& forall|i: int|
        0 <= i < moves.len() ==> #[trigger] scored(game, moves[i], count, scores[i] as int)
}

/// `best` is the first place in `scores` that holds their highest value.
pub open spec fn first_best(scores: Seq<i32>, best: int) -> bool {
    &&& 0 <= best < scores.len()
    &&& forall|i: int| 0 <= i < scores.len() ==> scores[i] <= scores[best]
    &&& forall|i: int| 0 <= i < best ==> scores[i] < scores[best]
}

/// The first place in `scores` that holds their highest value.
pub fn best_index(scores: &Vec<i32>) -> (best: usize)
    requires
        scores@.len() > 0,
    ensures
        first_best(scores@, best as int),
{
    let mut best: usize = 0;
    let mut i: usize = 1;
    while i < scores.len()
        invariant
            1 <= i <= scores.len(),
            best < i,
            forall|k: int| 0 <= k < i ==> scores[k] <= scores[best as int],
            forall|k: int| 0 <= k < best ==> scores[k] < scores[best as int],
        decreases scores.len() - i,
    {
        if scores[i] > scores[best] {
            best = i;
        }
        i += 1;
    }
    best
}

/// A player that tries each move in many games played at random and chooses
/// the move after which its side fared best.
#[derive(Clone, Copy, Debug)]
pub struct MonteCarlo {
    iterations_for_movement: u16,
}

impl MonteCarlo {
/// A player that plays `MAX_ITERATIONS` games at random for each move.
    pub fn new() -> (player: Self)
        ensures
            player.playouts() == MAX_ITERATIONS,
    {
        MonteCarlo { iterations_for_movement: MAX_ITERATIONS }
    }

    /// A player that plays `iterations` games at random for each move.
    pub fn with_iterations(iterations: u16) -> (player: Self)
        ensures
            player.playouts() == iterations,
    {
        MonteCarlo { iterations_for_movement: iterations }
    }

    /// The number of games that this player plays at random for each move.
    pub closed spec fn playouts(&self) -> u16 {
        self.iterations_for_movement
    }

/// The number of games that this player plays at random for each move.
    pub fn get_iterations(&self) -> (iterations: u16)
        ensures
            iterations == self.playouts(),
    {
        self.iterations_for_movement
    }

    /// Plays the game to its end by moves picked at random, takes the moves
    /// back, and says what the finished game was worth: 1 if red won it, -1
    /// if black did, 0 if it was drawn.
    fn play_random_game(&self, game_manager: &mut GameManager) -> (value: i32)
        requires
            old(game_manager).wf(),
        ensures
            final(game_manager)@ == old(game_manager)@,
            final(game_manager).players() == old(game_manager).players(),
            final(game_manager).engine() == old(game_manager).engine(),
            playout_value(old(game_manager)@, value as int),
            old(game_manager)@.status != GameStatus::Playing ==> value == value_of(
                old(game_manager)@.status,
            ),
    {
        let ghost start = game_manager@;
        let mut rng = rand::thread_rng();
        let mut played: Vec<Move> = Vec::new();
        let mut status = game_manager.get_game_status();
        while status == GameStatus::Playing
            invariant
                start.wf(),
                game_manager.wf(),
                game_manager.players() == old(game_manager).players(),
                game_manager.engine() == old(game_manager).engine(),
                is_playout(start, played@),
                game_manager@ == play(start, played@),
                status == game_manager@.status,
                start.status != GameStatus::Playing ==> played@.len() == 0,
            decreases moves_left(game_manager@),
        {
            let ghost before = game_manager@;
            let ghost line = played@;
            let moves = game_manager.get_legal_moves();
            match choose_move(moves, &mut rng) {
                Some(random_move) => {
                    proof {
                        lemma_moves_left(before, random_move);
                    }
                    game_manager.do_move(random_move);
                    played.push(random_move);
                    proof {
                        assert(played@.drop_last() =~= line);
                    }
                    status = game_manager.get_game_status();
                },
                None => {
                    // a game that is being played has a move
                    proof {
                        assert(has_legal_move(before.board, before.turn));
                        let m = choose|m: Move| #[trigger] legal(before.board, before.turn, m);
                        assert(before.admits(m));
                        assert(moves@.contains(m));
                    }
                    status = match game_manager.get_turn() {
                        Turn::Red => GameStatus::BlackWins,
                        Turn::Black => GameStatus::RedWins,
                    };
                },
            }
        }
        let value = match status {
            GameStatus::RedWins => REDVALUE,
            GameStatus::BlackWins => BLACKVALUE,
            _ => DRAWVALUE,
        };
        proof {
            assert(play(start, played@).status != GameStatus::Playing);
        }
        while played.len() > 0
            invariant
                start.wf(),
                game_manager.wf(),
                game_manager.players() == old(game_manager).players(),
                game_manager.engine() == old(game_manager).engine(),
                is_playout(start, played@),
                game_manager@ == play(start, played@),
            decreases played.len(),
        {
            let ghost line = played@;
            let m = played.pop().unwrap();
            proof {
                assert(played@ =~= line.drop_last());
                lemma_playout_wf(start, line.drop_last());
                lemma_apply_undo(play(start, line.drop_last()), m);
            }
            game_manager.undo_move(m);
        }
        value
    }

    /// What `iterations_opt` games played at random from `game_manager` are
    /// worth together, each as `play_random_game` says; `MAX_ITERATIONS`
    /// games where no number is given.
    fn monte_carlo_value(
        &self,
        game_manager: &mut GameManager,
        iterations_opt: Option<u16>,
    ) -> (total: i32)
        requires
            old(game_manager).wf(),
        ensures
            final(game_manager)@ == old(game_manager)@,
            final(game_manager).players() == old(game_manager).players(),
            final(game_manager).engine() == old(game_manager).engine(),
            playout_total(
                old(game_manager)@,
                match iterations_opt {
                    Some(count) => count as int,
                    None => MAX_ITERATIONS as int,
                },
                total as int,
            ),
            -65535 <= total <= 65535,
            old(game_manager)@.status != GameStatus::Playing ==> total == worth(
                match iterations_opt {
                    Some(count) => count as int,
                    None => MAX_ITERATIONS as int,
                },
                old(game_manager)@.status,
            ),
    {
        let mut iterations: u16 = MAX_ITERATIONS;
        if let Some(i) = iterations_opt {
            iterations = i;
        }
        let ghost start = game_manager@;
        let ghost mut values: Seq<int> = Seq::empty();
        let mut total: i32 = 0;
        let mut done: u16 = 0;
        while done < iterations
            invariant
                done <= iterations,
                game_manager.wf(),
                game_manager@ == start,
                game_manager.players() == old(game_manager).players(),
                game_manager.engine() == old(game_manager).engine(),
                values.len() == done,
                forall|i: int| 0 <= i < done ==> playout_value(start, #[trigger] values[i]),
                total == sum_of(values),
                -done <= total <= done,
                start.status != GameStatus::Playing ==> total == worth(done as int, start.status),
            decreases iterations - done,
        {
            let value = self.play_random_game(game_manager);
            proof {
                let longer = values.push(value as int);
                assert(longer.drop_last() =~= values);
                values = longer;
            }
            total = total + value;
            done += 1;
        }
        total
    }
}

impl Brain for MonteCarlo {
    /// The move after which the games played at random were worth most to
    /// the side to move; of several such moves, the one that
    /// `get_legal_moves` lists first. The player stays as it was.
    fn get_best_move(&mut self, game_manager: GameManager) -> (best: Move)
        ensures
            *final(self) == *old(self),
            can_move(game_manager@) ==> exists|moves: Seq<Move>, scores: Seq<i32>, place: int|
                #![trigger
                    evaluation(game_manager@, old(self).playouts() as int, moves, scores),
                    first_best(scores, place),
                ]
                evaluation(game_manager@, old(self).playouts() as int, moves, scores)
                    && first_best(scores, place) && best == moves[place],
    {
        let ghost start = game_manager@;
        let mut game = game_manager;
        let turn = game.get_turn();
        let moves = game.get_legal_moves().clone();

        let mut scores: Vec<i32> = Vec::new();
        let mut i: usize = 0;
        while i < moves.len()
            invariant
                i <= moves.len(),
                scores@.len() == i,
                game.wf(),
                game@ == start,
                start.quiet_moves < i8::MAX,
                forall|m: Move| moves@.contains(m) <==> start.admits(m),
                ranked(start.board, moves@),
                turn == start.turn,
                *self == *old(self),
                forall|k: int|
                    0 <= k < i ==> #[trigger] scored(
                        start,
                        moves@[k],
                        self.iterations_for_movement as int,
                        scores@[k] as int,
                    ),
            decreases moves.len() - i,
        {
            let m = moves[i];
            proof {
                assert(moves@.contains(m));
            }
            game.do_move(m);
            let total = self.monte_carlo_value(&mut game, Some(self.iterations_for_movement));
            game.undo_move(m);
            let score = match turn {
                Turn::Red => total,
                Turn::Black => -total,
            };
            let ghost before = scores@;
            scores.push(score);
            proof {
                assert(playout_total(
                    start.apply(moves@[i as int]),
                    self.iterations_for_movement as int,
                    total as int,
                ) && score == score_for(start.turn, total as int));
                assert forall|k: int| 0 <= k < i + 1 implies #[trigger] scored(
                    start,
                    moves@[k],
                    self.iterations_for_movement as int,
                    scores@[k] as int,
                ) by {
                    if k < i {
                        assert(scores@[k] == before[k]);
                        assert(scored(
                            start,
                            moves@[k],
                            self.iterations_for_movement as int,
                            before[k] as int,
                        ));
                    }
                }
            }
            i += 1;
        }

        if moves.len() == 0 {
            proof {
                assert forall|m: Move| !start.admits(m) by {
                    assert(!moves@.contains(m));
                }
            }
            Move {
                turn,
                from: Default::default(),
                to: Default::default(),
                eat: None,
                promotion: false,
            }
        } else {
            let place = best_index(&scores);
            let best = moves[place];
            proof {
                assert(moves@.contains(best));
                assert(evaluation(start, old(self).playouts() as int, moves@, scores@));
            }
            best
        }
    }
}

} // verus!
