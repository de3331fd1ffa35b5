//! The game as it is played: the board, the side to move, and the moves that
//! are made and taken back.

use crate::comun::{
    BandPlayer, GamePlayer, GameStatus, Move, Square, Turn, BLACK_PAWN, BLACK_QUEEN, BOARD_SIZE,
    EMPTY, WHITE_PAWN, WHITE_QUEEN,
};
use crate::ia::brain::{can_move, no_move, Brain};
use crate::ia::monte_carlo_impl::{evaluation, first_best, MonteCarlo, MAX_ITERATIONS};
use crate::laws::lemma_apply_undo;
use crate::rules::{
    board_after, board_before, board_ok, can_capture_from, capture_available, flying_move,
    increasing, is_king, king_rank, legal, lemma_board_after, lemma_board_before,
    lemma_increasing_concat, lemma_increasing_no_duplicates, lemma_mover_has_piece,
    lemma_path_squares, lemma_put, lemma_rank_bounds, lemma_same_board, lemma_side_seen_all,
    lemma_side_seen_next, lemma_starting_status, man_of, man_rank, move_rank, on_board, opposing,
    other_side, owned_by, pawn_move, piece_at, pseudo_legal, put, ranked, ray_move, ray_piece,
    side_seen, span, square_index, starting_board, status_of, step, turn_after, Board, GameState,
    DRAW_LIMIT,
};
use vstd::prelude::*;

verus! {

const INITIAL_BOARD: [[i8; BOARD_SIZE]; BOARD_SIZE] = [
    [WHITE_PAWN, EMPTY, WHITE_PAWN, EMPTY, WHITE_PAWN, EMPTY, WHITE_PAWN, EMPTY],
    [EMPTY, WHITE_PAWN, EMPTY, WHITE_PAWN, EMPTY, WHITE_PAWN, EMPTY, WHITE_PAWN],
    [WHITE_PAWN, EMPTY, WHITE_PAWN, EMPTY, WHITE_PAWN, EMPTY, WHITE_PAWN, EMPTY],
    [EMPTY, EMPTY, EMPTY, EMPTY, EMPTY, EMPTY, EMPTY, EMPTY],
    [EMPTY, EMPTY, EMPTY, EMPTY, EMPTY, EMPTY, EMPTY, EMPTY],
    [EMPTY, BLACK_PAWN, EMPTY, BLACK_PAWN, EMPTY, BLACK_PAWN, EMPTY, BLACK_PAWN],
    [BLACK_PAWN, EMPTY, BLACK_PAWN, EMPTY, BLACK_PAWN, EMPTY, BLACK_PAWN, EMPTY],
    [EMPTY, BLACK_PAWN, EMPTY, BLACK_PAWN, EMPTY, BLACK_PAWN, EMPTY, BLACK_PAWN],
];

/// A game of checkers in progress.
pub struct GameManager {
    board: Board,
    moves: Vec<Move>,
    moves_with_no_capture: i8,
    moves_with_no_capture_history: Vec<i8>,
    turn: Turn,
    band_player: BandPlayer,
    game_status: GameStatus,
    brain: MonteCarlo,
}

impl Default for GameManager {
    fn default() -> (game: Self)
        ensures
            game.wf(),
            starting_board(game@.board),
            game@.turn == Turn::Red,
            game@.quiet_moves == 0,
            game@.history.len() == 0,
            game@.status == GameStatus::Playing,
            game.players() == (BandPlayer { red: GamePlayer::Human, black: GamePlayer::Computer }),
            game.engine().playouts() == MAX_ITERATIONS,
    {
        Self::new()
    }
}

impl Clone for GameManager {
    fn clone(&self) -> (copy: Self)
        ensures
            copy@ == self@,
            copy.players() == self.players(),
            copy.engine() == self.engine(),
    {
        GameManager {
            board: self.board,
            moves: self.moves.clone(),
            moves_with_no_capture: self.moves_with_no_capture,
            moves_with_no_capture_history: self.moves_with_no_capture_history.clone(),
            turn: self.turn,
            band_player: self.band_player,
            game_status: self.game_status,
            brain: self.brain,
        }
    }
}

impl View for GameManager {
    type V = GameState;

    closed spec fn view(&self) -> GameState {
        GameState {
            board: self.board,
            turn: self.turn,
            quiet_moves: self.moves_with_no_capture as int,
            history: self.moves_with_no_capture_history@.map_values(|quiet: i8| quiet as int),
            status: self.game_status,
        }
    }
}

/// The coordinate `k` steps from `start`, if it is on the board.
fn walk(start: usize, forward: bool, k: usize) -> (landed: Option<usize>)
    requires
        start < BOARD_SIZE,
        k < BOARD_SIZE,
    ensures
        landed matches Some(at) ==> at == step(start as int, forward, k as int) && at < BOARD_SIZE,
        landed is None ==> !(0 <= step(start as int, forward, k as int) < 8),
{
    if forward {
        if start + k < BOARD_SIZE {
            Some(start + k)
        } else {
            None
        }
    } else {
        if start >= k {
            Some(start - k)
        } else {
            None
        }
    }
}

impl GameManager {
    /// The game is one that play can reach: every square holds a piece value,
    /// and the status is that of the position.
    pub open spec fn wf(&self) -> bool {
        self@.wf()
    }

    /// Who plays each side.
    pub closed spec fn players(&self) -> BandPlayer {
        self.band_player
    }

    /// The player that chooses the computer's moves.
    pub closed spec fn engine(&self) -> MonteCarlo {
        self.brain
    }

    /// A game at its beginning: the men on their starting squares, red to
    /// move, a human playing red and the computer playing black.
    pub fn new() -> (game: GameManager)
        ensures
            game.wf(),
            starting_board(game@.board),
            game@.turn == Turn::Red,
            game@.quiet_moves == 0,
            game@.history.len() == 0,
            game@.status == GameStatus::Playing,
            game.players() == (BandPlayer { red: GamePlayer::Human, black: GamePlayer::Computer }),
            game.engine().playouts() == MAX_ITERATIONS,
    {
        let game = GameManager {
            board: INITIAL_BOARD,
            moves: Vec::new(),
            moves_with_no_capture: 0,
            moves_with_no_capture_history: Vec::new(),
            turn: Turn::Red,
            band_player: BandPlayer { red: GamePlayer::Human, black: GamePlayer::Computer },
            game_status: GameStatus::Playing,
            brain: MonteCarlo::new(),
        };
        proof {
            lemma_starting_status(game.board);
        }
        game
    }

    /// A game that begins on `board` with `turn` to move, or `None` where
    /// a square of `board` holds something other than a piece value. A human
    /// plays red and the computer plays black.
    pub fn from_position(board: [[i8; BOARD_SIZE]; BOARD_SIZE], turn: Turn) -> (game: Option<
        GameManager,
    >)
        ensures
            game is Some <==> board_ok(board),
            game matches Some(g) ==> {
                &&& g.wf()
                &&& g@.board == board
                &&& g@.turn == turn
                &&& g@.quiet_moves == 0
                &&& g@.history.len() == 0
                &&& g.players() == (BandPlayer {
                    red: GamePlayer::Human,
                    black: GamePlayer::Computer,
                })
                &&& g.engine().playouts() == MAX_ITERATIONS
            },
    {
        let mut row: usize = 0;
        while row < BOARD_SIZE
            invariant
                row <= BOARD_SIZE,
                forall|r: int, c: int|
                    0 <= r < row && 0 <= c < 8 ==> -2 <= #[trigger] piece_at(board, r, c) <= 2,
            decreases BOARD_SIZE - row,
        {
            let mut col: usize = 0;
            while col < BOARD_SIZE
                invariant
                    row < BOARD_SIZE,
                    col <= BOARD_SIZE,
                    forall|r: int, c: int|
                        0 <= r < row && 0 <= c < 8 ==> -2 <= #[trigger] piece_at(board, r, c) <= 2,
                    forall|c: int|
                        0 <= c < col ==> -2 <= #[trigger] piece_at(board, row as int, c) <= 2,
                decreases BOARD_SIZE - col,
            {
                let piece = board[row][col];
                if piece < BLACK_QUEEN || piece > WHITE_QUEEN {
                    proof {
                        assert(!(-2 <= piece_at(board, row as int, col as int) <= 2));
                    }
                    return None;
                }
                col += 1;
            }
            row += 1;
        }
        let mut game = GameManager {
            board,
            moves: Vec::new(),
            moves_with_no_capture: 0,
            moves_with_no_capture_history: Vec::new(),
            turn,
            band_player: BandPlayer { red: GamePlayer::Human, black: GamePlayer::Computer },
            game_status: GameStatus::Playing,
            brain: MonteCarlo::new(),
        };
        game.game_status = game.calculate_game_status();
        Some(game)
    }

    /// Who plays the side that is to move.
    pub fn current_player(&self) -> (player: GamePlayer)
        ensures
            player == (match self@.turn {
                Turn::Red => self.players().red,
                Turn::Black => self.players().black,
            }),
    {
        match self.turn {
            Turn::Red => self.band_player.red,
            Turn::Black => self.band_player.black,
        }
    }

    /// Plays `m` if the side to move may play it and the count of moves
    /// without a capture has room for one more; else leaves the game as it
    /// is. Says whether `m` was played.
    pub fn try_move(&mut self, m: Move) -> (played: bool)
        requires
            old(self).wf(),
        ensures
            played <==> old(self)@.admits(m) && old(self)@.quiet_moves < i8::MAX,
            played ==> final(self)@ == old(self)@.apply(m),
            !played ==> final(self)@ == old(self)@,
            final(self).wf(),
            final(self).players() == old(self).players(),
            final(self).engine() == old(self).engine(),
    {
        if self.moves_with_no_capture == i8::MAX {
            return false;
        }
        let moves = self.get_legal_moves();
        let mut found = false;
        let mut i: usize = 0;
        while i < moves.len() && !found
            invariant
                i <= moves.len(),
                found ==> moves@.contains(m),
                !found ==> forall|k: int| 0 <= k < i ==> moves[k] != m,
            decreases moves.len() - i + (if found { 0int } else { 1int }),
        {
            if moves[i] == m {
                found = true;
            } else {
                i += 1;
            }
        }
        proof {
            if !found {
                assert forall|k: int| 0 <= k < moves@.len() implies moves@[k] != m by {}
                assert(!moves@.contains(m));
            }
        }
        if found {
            self.do_move(m);
        }
        found
    }

/// Who plays each side.
    pub fn get_band_player(&self) -> (players: &BandPlayer)
        ensures
            *players == self.players(),
    {
        &self.band_player
    }

/// The board, row by row.
    pub fn get_board(&self) -> (board: &[[i8; BOARD_SIZE]; BOARD_SIZE])
        ensures
            *board == self@.board,
    {
        &self.board
    }

    /// The moves that the side to move may play, each once, in the order
    /// of `move_rank`. Where one of them captures, all of them do.
    pub fn get_legal_moves(&mut self) -> (moves: &Vec<Move>)
        ensures
            final(self)@ == old(self)@,
            final(self).players() == old(self).players(),
            final(self).engine() == old(self).engine(),
            forall|m: Move| moves@.contains(m) <==> old(self)@.admits(m),
            ranked(old(self)@.board, moves@),
            moves@.no_duplicates(),
            capture_available(old(self)@.board, old(self)@.turn) ==> forall|i: int|
                0 <= i < moves.len() ==> (#[trigger] moves[i]).eat is Some,
    {
        self.moves.clear();
        let mut raw_moves: Vec<Move> = Vec::new();
        let ghost key = |m: Move| move_rank(self.board, m);

        let mut row: usize = 0;
        while row < BOARD_SIZE
            invariant
                row <= BOARD_SIZE,
                self@ == old(self)@,
                self.band_player == old(self).band_player,
                self.brain == old(self).brain,
                self.moves@.len() == 0,
                key == (|m: Move| move_rank(self.board, m)),
                forall|m: Move|
                    raw_moves@.contains(m) <==> pseudo_legal(self.board, self.turn, m)
                        && square_index(m.from) < row * 8,
                increasing(raw_moves@, key),
            decreases BOARD_SIZE - row,
        {
            let mut col: usize = 0;
            while col < BOARD_SIZE
                invariant
                    row < BOARD_SIZE,
                    col <= BOARD_SIZE,
                    self@ == old(self)@,
                    self.band_player == old(self).band_player,
                    self.brain == old(self).brain,
                    self.moves@.len() == 0,
                    key == (|m: Move| move_rank(self.board, m)),
                    forall|m: Move|
                        raw_moves@.contains(m) <==> pseudo_legal(self.board, self.turn, m)
                            && square_index(m.from) < row * 8 + col,
                    increasing(raw_moves@, key),
                decreases BOARD_SIZE - col,
            {
                let mut l_moves = self.get_legal_moves_for_piece(row, col);
                proof {
                    let before = raw_moves@;
                    let added = l_moves@;
                    let bound = (row * 8 + col) * 64;
                    assert forall|i: int| 0 <= i < before.len() implies key(#[trigger] before[i])
                        < bound by {
                        assert(before.contains(before[i]));
                        lemma_rank_bounds(self.board, before[i]);
                    }
                    assert forall|i: int| 0 <= i < added.len() implies key(#[trigger] added[i])
                        >= bound by {
                        assert(added.contains(added[i]));
                        lemma_rank_bounds(self.board, added[i]);
                    }
                    lemma_increasing_concat(before, added, key, bound);
                    assert forall|m: Move|
                        (before + added).contains(m) <==> pseudo_legal(self.board, self.turn, m)
                            && square_index(m.from) < row * 8 + col + 1 by {
                        vstd::seq_lib::lemma_seq_concat_contains_all_elements(before, added, m);
                    }
                }
                raw_moves.append(&mut l_moves);
                col += 1;
            }
            row += 1;
        }

        // if there is a capture, only captures may be played
        let mut has_eat = false;
        let mut i: usize = 0;
        while i < raw_moves.len() && !has_eat
            invariant
                i <= raw_moves.len(),
                has_eat ==> exists|k: int|
                    0 <= k < raw_moves.len() && (#[trigger] raw_moves[k]).eat is Some,
                !has_eat ==> forall|k: int| 0 <= k < i ==> (#[trigger] raw_moves[k]).eat is None,
            decreases raw_moves.len() - i + (if has_eat { 0int } else { 1int }),
        {
            if raw_moves[i].eat.is_some() {
                has_eat = true;
            } else {
                i += 1;
            }
        }
        proof {
            assert forall|m: Move|
                raw_moves@.contains(m) <==> pseudo_legal(self.board, self.turn, m) by {}
            if has_eat {
                let k = choose|k: int|
                    0 <= k < raw_moves.len() && (#[trigger] raw_moves[k]).eat is Some;
                assert(raw_moves@.contains(raw_moves[k]));
            } else {
                assert forall|m: Move|
                    pseudo_legal(self.board, self.turn, m) implies m.eat is None by {
                    assert(raw_moves@.contains(m));
                }
            }
            assert(has_eat == capture_available(self.board, self.turn));
        }

        if has_eat {
            let mut j: usize = 0;
            while j < raw_moves.len()
                invariant
                    j <= raw_moves.len(),
                    self@ == old(self)@,
                    self.band_player == old(self).band_player,
                    self.brain == old(self).brain,
                    key == (|m: Move| move_rank(self.board, m)),
                    increasing(raw_moves@, key),
                    increasing(self.moves@, key),
                    forall|a: int|
                        0 <= a < self.moves@.len() ==> raw_moves@.contains(
                            #[trigger] self.moves@[a],
                        ) && self.moves@[a].eat is Some,
                    forall|k: int|
                        0 <= k < j && (#[trigger] raw_moves[k]).eat is Some
                            ==> self.moves@.contains(raw_moves[k]),
                    j < raw_moves.len() ==> forall|a: int|
                        0 <= a < self.moves@.len() ==> key(#[trigger] self.moves@[a]) < key(
                            raw_moves[j as int],
                        ),
                decreases raw_moves.len() - j,
            {
                let m = raw_moves[j];
                let ghost kept = self.moves@;
                if m.eat.is_some() {
                    self.moves.push(m);
                    proof {
                        assert forall|x: Move| kept.contains(x) implies self.moves@.contains(x) by {
                            vstd::seq_lib::lemma_seq_contains_after_push(kept, m, x);
                        }
                        vstd::seq_lib::lemma_seq_contains_after_push(kept, m, m);
                    }
                }
                j += 1;
            }
            proof {
                assert forall|m: Move|
                    self.moves@.contains(m) <==> legal(self.board, self.turn, m) by {
                    if legal(self.board, self.turn, m) {
                        assert(raw_moves@.contains(m));
                    }
                }
            }
        } else {
            self.moves = raw_moves;
        }
        proof {
            lemma_increasing_no_duplicates(self.moves@, key);
        }
        &self.moves
    }

    /// How the game stands: drawn after 16 moves in a row without a
    /// capture; else lost by the side to move if it has no move; else won by
    /// it if the other side has no piece left; else still being played.
    pub fn calculate_game_status(&mut self) -> (status: GameStatus)
        ensures
            final(self)@ == old(self)@,
            final(self).players() == old(self).players(),
            final(self).engine() == old(self).engine(),
            status == status_of(old(self)@.board, old(self)@.turn, old(self)@.quiet_moves),
    {
        if self.moves_with_no_capture >= DRAW_LIMIT {
            return GameStatus::Draw;
        }
        let moves = self.get_legal_moves();
        let no_moves = moves.len() == 0;
        proof {
            if no_moves {
                assert forall|m: Move| !legal(old(self)@.board, old(self)@.turn, m) by {
                    vstd::seq_lib::lemma_seq_empty_contains_nothing(m);
                    assert(moves@ =~= Seq::<Move>::empty());
                }
            } else {
                assert(moves@.contains(moves@[0]));
                lemma_mover_has_piece(old(self)@.board, old(self)@.turn);
            }
        }
        if no_moves {
            if self.turn == Turn::Red {
                return GameStatus::BlackWins;
            } else {
                return GameStatus::RedWins;
            }
        }
        let mut white_pieces: u32 = 0;
        let mut black_pieces: u32 = 0;

        let mut row: usize = 0;
        while row < BOARD_SIZE
            invariant
                row <= BOARD_SIZE,
                white_pieces <= row * 8,
                black_pieces <= row * 8,
                white_pieces > 0 <==> side_seen(self.board, Turn::Red, row * 8),
                black_pieces > 0 <==> side_seen(self.board, Turn::Black, row * 8),
            decreases BOARD_SIZE - row,
        {
            let mut col: usize = 0;
            while col < BOARD_SIZE
                invariant
                    row < BOARD_SIZE,
                    col <= BOARD_SIZE,
                    white_pieces <= row * 8 + col,
                    black_pieces <= row * 8 + col,
                    white_pieces > 0 <==> side_seen(self.board, Turn::Red, row * 8 + col),
                    black_pieces > 0 <==> side_seen(self.board, Turn::Black, row * 8 + col),
                decreases BOARD_SIZE - col,
            {
                proof {
                    lemma_side_seen_next(self.board, Turn::Red, row as int, col as int);
                    lemma_side_seen_next(self.board, Turn::Black, row as int, col as int);
                }
                if self.is_white_piece(self.board[row][col]) {
                    white_pieces += 1;
                } else if self.is_black_piece(self.board[row][col]) {
                    black_pieces += 1;
                }
                col += 1;
            }
            row += 1;
        }
        proof {
            lemma_side_seen_all(self.board, Turn::Red);
            lemma_side_seen_all(self.board, Turn::Black);
        }

        if white_pieces == 0 {
            return GameStatus::BlackWins;
        } else if black_pieces == 0 {
            return GameStatus::RedWins;
        }
        GameStatus::Playing
    }

    /// Plays `m`, a move that the side to move may play: the piece goes to
    /// its new square and becomes a king where the move promotes, what it
    /// captured leaves the board, and the other side is to move, unless the
    /// move captured and the same piece can capture again.
    pub fn do_move(&mut self, m: Move)
        requires
            old(self).wf(),
            old(self)@.admits(m),
            old(self)@.quiet_moves < i8::MAX,
        ensures
            final(self)@ == old(self)@.apply(m),
            final(self)@.ends_with(m),
            final(self)@.undo(m) == old(self)@,
            final(self).wf(),
            final(self).players() == old(self).players(),
            final(self).engine() == old(self).engine(),
    {
        let from = m.from;
        let to = m.to;
        let eat = m.eat;
        let ghost start = self@;
        proof {
            lemma_path_squares(start.board, m);
            lemma_board_after(start.board, m);
            lemma_apply_undo(start, m);
        }

        let piece = self.get_piece_at(from.row, from.col);
        self.set_piece(to.row, to.col, piece);
        self.set_piece(from.row, from.col, EMPTY);

        self.moves_with_no_capture_history.push(self.moves_with_no_capture);

        if let Some(eat) = eat {
            self.set_piece(eat.0.row, eat.0.col, EMPTY);
            self.moves_with_no_capture = 0;
        } else {
            self.moves_with_no_capture += 1;
        }

        if m.promotion && self.get_piece_at(to.row, to.col) == WHITE_PAWN {
            self.set_piece(to.row, to.col, WHITE_QUEEN);
        } else if m.promotion && self.get_piece_at(to.row, to.col) == BLACK_PAWN {
            self.set_piece(to.row, to.col, BLACK_QUEEN);
        }
        proof {
            lemma_same_board(self.board, board_after(start.board, m));
        }

        // check if the piece can capture again
        let mut can_eat = false;
        if eat.is_some() {
            let moves = self.get_legal_moves_for_piece(to.row, to.col);
            let mut i: usize = 0;
            while i < moves.len() && !can_eat
                invariant
                    i <= moves.len(),
                    can_eat ==> exists|k: int|
                        0 <= k < moves.len() && (#[trigger] moves[k]).eat is Some,
                    !can_eat ==> forall|k: int| 0 <= k < i ==> (#[trigger] moves[k]).eat is None,
                decreases moves.len() - i + (if can_eat { 0int } else { 1int }),
            {
                if moves[i].eat.is_some() {
                    can_eat = true;
                } else {
                    i += 1;
                }
            }
            proof {
                if can_eat {
                    let k = choose|k: int|
                        0 <= k < moves.len() && (#[trigger] moves[k]).eat is Some;
                    assert(moves@.contains(moves[k]));
                } else {
                    assert forall|x: Move|
                        #[trigger] pseudo_legal(self.board, self.turn, x) && x.from
                            == to implies x.eat is None by {
                        assert(moves@.contains(x));
                    }
                }
                assert(can_eat == can_capture_from(self.board, self.turn, to));
            }
        }
        if !can_eat {
            self.switch_turn();
        }

        self.game_status = self.calculate_game_status();
        proof {
            assert(self@.history =~= start.history.push(start.quiet_moves));
        }
    }

    /// Takes back `m`, the last move played: the piece returns to the square
    /// it came from, as a man where the move promoted it, what it captured
    /// stands on the board again, and the side that played `m` is to move.
    pub fn undo_move(&mut self, m: Move)
        requires
            old(self).wf(),
            old(self)@.ends_with(m),
        ensures
            final(self)@ == old(self)@.undo(m),
            final(self).wf(),
            final(self).players() == old(self).players(),
            final(self).engine() == old(self).engine(),
    {
        let from = m.from;
        let to = m.to;
        let eat = m.eat;
        let ghost start = self@;
        proof {
            lemma_path_squares(start.undo(m).board, m);
            lemma_board_before(start.board, m);
        }

        let piece = self.get_piece_at(to.row, to.col);
        self.set_piece(from.row, from.col, piece);
        self.set_piece(to.row, to.col, EMPTY);

        if let Some(eat) = eat {
            self.set_piece(eat.0.row, eat.0.col, eat.1);
        }

        if m.promotion {
            if self.get_piece_at(from.row, from.col) == WHITE_QUEEN {
                self.set_piece(from.row, from.col, WHITE_PAWN);
            } else if self.get_piece_at(from.row, from.col) == BLACK_QUEEN {
                self.set_piece(from.row, from.col, BLACK_PAWN);
            }
        }
        proof {
            lemma_same_board(self.board, board_before(start.board, m));
        }
        self.turn = m.turn;

        self.moves_with_no_capture = self.moves_with_no_capture_history.pop().unwrap();

        self.game_status = self.calculate_game_status();
        proof {
            assert(self@.history =~= start.history.drop_last());
        }
    }

/// The side that is to move.
    pub fn get_turn(&self) -> (turn: Turn)
        ensures
            turn == self@.turn,
    {
        self.turn
    }

/// How the game stands, as it was found after the last move.
    pub fn get_game_status(&self) -> (status: GameStatus)
        ensures
            status == self@.status,
    {
        self.game_status
    }

    /// The number of moves played in a row without a capture.
    pub fn get_moves_with_no_capture(&self) -> (quiet_moves: i8)
        ensures
            quiet_moves == self@.quiet_moves,
    {
        self.moves_with_no_capture
    }

    /// The number of moves that were played and not taken back.
    pub fn get_moves_played(&self) -> (played: usize)
        ensures
            played == self@.history.len(),
    {
        self.moves_with_no_capture_history.len()
    }

    /// The move that the computer chooses for the side to move. The game
    /// stays as it is: the move is not played.
    pub fn computer_plays(&mut self) -> (best: Move)
        requires
            old(self).wf(),
            old(self)@.quiet_moves < i8::MAX,
        ensures
            final(self)@ == old(self)@,
            final(self).players() == old(self).players(),
            final(self).engine() == old(self).engine(),
            can_move(old(self)@) ==> old(self)@.admits(best),
            !can_move(old(self)@) ==> best == no_move(old(self)@.turn),
            forall|only: Move|
                old(self)@.admits(only) && (forall|m: Move| #[trigger]
                    old(self)@.admits(m) ==> m == only) ==> best == only,
            can_move(old(self)@) ==> exists|moves: Seq<Move>, scores: Seq<i32>, place: int|
                #![trigger
                    evaluation(old(self)@, old(self).engine().playouts() as int, moves, scores),
                    first_best(scores, place),
                ]
                evaluation(old(self)@, old(self).engine().playouts() as int, moves, scores)
                    && first_best(scores, place) && best == moves[place],
    {
        let copy = self.clone();
        self.brain.get_best_move(copy)
    }

/// Whether `piece` is a piece of black.
    fn is_black_piece(&self, piece: i8) -> (black: bool)
        ensures
            black == owned_by(piece, Turn::Black),
    {
        piece < 0
    }

/// Whether `piece` is a piece of red.
    fn is_white_piece(&self, piece: i8) -> (white: bool)
        ensures
            white == owned_by(piece, Turn::Red),
    {
        piece > 0
    }

/// What stands on the square at `row` and `col`.
    fn get_piece_at(&self, row: usize, col: usize) -> (piece: i8)
        requires
            row < BOARD_SIZE,
            col < BOARD_SIZE,
        ensures
            piece == piece_at(self.board, row as int, col as int),
    {
        self.board[row][col]
    }

    /// Puts `piece` on the square at `row` and `col`.
    fn set_piece(&mut self, row: usize, col: usize, piece: i8)
        requires
            row < BOARD_SIZE,
            col < BOARD_SIZE,
        ensures
            final(self).board == put(old(self).board, row as int, col as int, piece),
            final(self).moves == old(self).moves,
            final(self).moves_with_no_capture == old(self).moves_with_no_capture,
            final(self).moves_with_no_capture_history == old(self).moves_with_no_capture_history,
            final(self).turn == old(self).turn,
            final(self).band_player == old(self).band_player,
            final(self).game_status == old(self).game_status,
            final(self).brain == old(self).brain,
    {
        self.board[row][col] = piece;
        proof {
            lemma_put(old(self).board, row as int, col as int, piece);
            lemma_same_board(self.board, put(old(self).board, row as int, col as int, piece));
        }
    }

/// Passes the move to the other side.
    fn switch_turn(&mut self)
        ensures
            final(self).turn == other_side(old(self).turn),
            final(self).board == old(self).board,
            final(self).moves == old(self).moves,
            final(self).moves_with_no_capture == old(self).moves_with_no_capture,
            final(self).moves_with_no_capture_history == old(self).moves_with_no_capture_history,
            final(self).band_player == old(self).band_player,
            final(self).game_status == old(self).game_status,
            final(self).brain == old(self).brain,
    {
        if self.turn == Turn::Red {
            self.turn = Turn::Black;
        } else {
            self.turn = Turn::Red;
        }
    }

    /// The moves of the piece at `row` and `col` along one diagonal, nearest
    /// first: onto each empty square up to the first piece, and, where that
    /// piece is of the other side, onto each empty square between it and the
    /// next piece, capturing it.
    fn ray_moves(&self, row: usize, col: usize, up: bool, right: bool) -> (found: Vec<Move>)
        requires
            row < BOARD_SIZE,
            col < BOARD_SIZE,
        ensures
            forall|m: Move|
                found@.contains(m) <==> ray_move(
                    self.board,
                    self.turn,
                    Square { row, col },
                    up,
                    right,
                    m,
                ),
            forall|i: int, j: int|
                0 <= i < j < found.len() ==> span(#[trigger] found[i]) < span(#[trigger] found[j]),
    {
        let from = Square { row, col };
        let mut found: Vec<Move> = Vec::new();
        let mut eated_square: Option<(Square, i8)> = None;
        let mut open = true;
        let ghost mut taken: int = 0;
        let mut i: usize = 1;
        while i < BOARD_SIZE && open
            invariant
                1 <= i <= BOARD_SIZE,
                row < BOARD_SIZE,
                col < BOARD_SIZE,
                from == (Square { row, col }),
                0 <= taken < i,
                taken == 0 <==> eated_square is None,
                open ==> forall|k: int|
                    1 <= k < i ==> on_board(
                        #[trigger] step(row as int, up, k),
                        step(col as int, right, k),
                    ),
                open ==> forall|k: int|
                    1 <= k < i && k != taken ==> #[trigger] ray_piece(
                        self.board,
                        from,
                        up,
                        right,
                        k,
                    ) == EMPTY,
                open && taken != 0 ==> eated_square == Some(
                    (
                        Square {
                            row: step(row as int, up, taken) as usize,
                            col: step(col as int, right, taken) as usize,
                        },
                        ray_piece(self.board, from, up, right, taken),
                    ),
                ) && opposing(
                    ray_piece(self.board, from, up, right, taken),
                    piece_at(self.board, row as int, col as int),
                ),
                forall|m: Move|
                    found@.contains(m) <==> ray_move(self.board, self.turn, from, up, right, m)
                        && span(m) < i,
                !open ==> forall|m: Move|
                    ray_move(self.board, self.turn, from, up, right, m) ==> span(m) < i,
                forall|a: int, b: int|
                    0 <= a < b < found.len() ==> span(#[trigger] found[a]) < span(
                        #[trigger] found[b],
                    ),
            decreases BOARD_SIZE - i,
        {
            let ghost before = found@;
            match (walk(row, up, i), walk(col, right, i)) {
                (Some(r), Some(c)) => {
                    let cell = self.board[r][c];
                    if cell == EMPTY {
                        let m = Move {
                            from,
                            to: Square { row: r, col: c },
                            turn: self.turn,
                            eat: eated_square,
                            promotion: false,
                        };
                        found.push(m);
                        proof {
                            // no other move ends here: what a move along
                            // this diagonal captures is the one piece that
                            // stands in its way
                            assert forall|x: Move|
                                ray_move(self.board, self.turn, from, up, right, x) && span(x)
                                    == i implies x == m by {
                                if let Some((square, piece)) = x.eat {
                                    let k = if square.row >= row {
                                        square.row - row
                                    } else {
                                        row - square.row
                                    };
                                    assert(ray_piece(self.board, from, up, right, k) == piece);
                                }
                            }
                            assert forall|a: int| 0 <= a < before.len() implies span(
                                #[trigger] before[a],
                            ) < i by {
                                assert(before.contains(before[a]));
                            }
                            assert forall|x: Move|
                                found@.contains(x) <==> ray_move(
                                    self.board,
                                    self.turn,
                                    from,
                                    up,
                                    right,
                                    x,
                                ) && span(x) < i + 1 by {
                                vstd::seq_lib::lemma_seq_contains_after_push(before, m, x);
                            }
                        }
                    } else if Self::is_opposing(cell, self.board[row][col])
                        && eated_square.is_none() {
                        eated_square = Some((Square { row: r, col: c }, cell));
                        proof {
                            taken = i as int;
                        }
                    } else {
                        open = false;
                        proof {
                            // no move passes this piece: it is of the same
                            // side, or the second piece in the way
                            assert forall|x: Move|
                                ray_move(
                                    self.board,
                                    self.turn,
                                    from,
                                    up,
                                    right,
                                    x,
                                ) implies span(x) < i by {
                                if span(x) > i {
                                    assert(ray_piece(self.board, from, up, right, i as int)
                                        != EMPTY);
                                }
                            }
                        }
                    }
                },
                _ => {
                    open = false;
                },
            }
            i += 1;
        }
        found
    }

    /// The moves of the piece at `row` and `col` as a king makes them, along
    /// the four diagonals in turn.
    fn get_queen_moves(&self, row: usize, col: usize) -> (moves: Vec<Move>)
        requires
            row < BOARD_SIZE,
            col < BOARD_SIZE,
        ensures
            forall|m: Move|
                moves@.contains(m) <==> flying_move(self.board, self.turn, Square { row, col }, m),
            increasing(moves@, |m: Move| king_rank(m)),
    {
        let ghost from = Square { row, col };
        let ghost key = |m: Move| king_rank(m);
        let mut moves = self.ray_moves(row, col, true, true);
        let mut up_left = self.ray_moves(row, col, true, false);
        let mut down_right = self.ray_moves(row, col, false, true);
        let mut down_left = self.ray_moves(row, col, false, false);
        let ghost first = moves@;
        let ghost second = up_left@;
        let ghost third = down_right@;
        let ghost fourth = down_left@;
        proof {
            self.lemma_ray_ranks(row, col, true, true, first);
            self.lemma_ray_ranks(row, col, true, false, second);
            self.lemma_ray_ranks(row, col, false, true, third);
            self.lemma_ray_ranks(row, col, false, false, fourth);
            lemma_increasing_concat(first, second, key, 8);
            lemma_increasing_concat(first + second, third, key, 16);
            lemma_increasing_concat(first + second + third, fourth, key, 24);
        }
        moves.append(&mut up_left);
        moves.append(&mut down_right);
        moves.append(&mut down_left);
        assert forall|m: Move|
            moves@.contains(m) <==> flying_move(self.board, self.turn, from, m) by {
            vstd::seq_lib::lemma_seq_concat_contains_all_elements(first, second, m);
            vstd::seq_lib::lemma_seq_concat_contains_all_elements(first + second, third, m);
            vstd::seq_lib::lemma_seq_concat_contains_all_elements(
                first + second + third,
                fourth,
                m,
            );
        }
        moves
    }

    /// The ranks of the moves along one diagonal lie in the eight numbers
    /// of that diagonal and grow with the distance.
    proof fn lemma_ray_ranks(&self, row: usize, col: usize, up: bool, right: bool, found: Seq<Move>)
        requires
            row < BOARD_SIZE,
            col < BOARD_SIZE,
            forall|m: Move|
                found.contains(m) <==> ray_move(
                    self.board,
                    self.turn,
                    Square { row, col },
                    up,
                    right,
                    m,
                ),
            forall|i: int, j: int|
                0 <= i < j < found.len() ==> span(#[trigger] found[i]) < span(#[trigger] found[j]),
        ensures
            increasing(found, |m: Move| king_rank(m)),
            forall|i: int|
                0 <= i < found.len() ==> {
                    let base = ((if up {
                        0int
                    } else {
                        2int
                    }) + (if right {
                        0int
                    } else {
                        1int
                    })) * 8;
                    base < king_rank(#[trigger] found[i]) < base + 8
                },
    {
        assert forall|i: int| 0 <= i < found.len() implies ray_move(
            self.board,
            self.turn,
            Square { row, col },
            up,
            right,
            #[trigger] found[i],
        ) by {
            assert(found.contains(found[i]));
        }
        let key = |m: Move| king_rank(m);
        assert forall|i: int, j: int| 0 <= i < j < found.len() implies key(#[trigger] found[i])
            < key(#[trigger] found[j]) by {
            assert(span(found[i]) < span(found[j]));
        }
    }

    /// The step of the man at `row` and `col` to the left or to the right,
    /// if the square it leads to is on the board and empty.
    fn pawn_step(&self, row: usize, col: usize, right: bool) -> (found: Option<Move>)
        requires
            row < BOARD_SIZE,
            col < BOARD_SIZE,
            self.board[row as int][col as int] == man_of(self.turn),
        ensures
            forall|m: Move|
                found == Some(m) <==> #[trigger] pawn_move(
                    self.board,
                    self.turn,
                    Square { row, col },
                    1,
                    right,
                    m,
                ),
    {
        let from = Square { row, col };
        let up = match self.turn {
            Turn::Red => true,
            Turn::Black => false,
        };
        let far: usize = if up {
            BOARD_SIZE - 1
        } else {
            0
        };
        match (walk(row, up, 1), walk(col, right, 1)) {
            (Some(r), Some(c)) => {
                if self.board[r][c] == EMPTY {
                    let m = Move {
                        from,
                        to: Square { row: r, col: c },
                        turn: self.turn,
                        eat: None,
                        promotion: r == far,
                    };
                    Some(m)
                } else {
                    None
                }
            },
            _ => None,
        }
    }

    /// The jump of the man at `row` and `col` to the left or to the right,
    /// if it passes over a piece of the other side and the square it leads to
    /// is on the board and empty.
    fn pawn_jump(&self, row: usize, col: usize, right: bool) -> (found: Option<Move>)
        requires
            row < BOARD_SIZE,
            col < BOARD_SIZE,
            self.board[row as int][col as int] == man_of(self.turn),
        ensures
            forall|m: Move|
                found == Some(m) <==> #[trigger] pawn_move(
                    self.board,
                    self.turn,
                    Square { row, col },
                    2,
                    right,
                    m,
                ),
    {
        let from = Square { row, col };
        let up = match self.turn {
            Turn::Red => true,
            Turn::Black => false,
        };
        let far: usize = if up {
            BOARD_SIZE - 1
        } else {
            0
        };
        match (walk(row, up, 2), walk(col, right, 2)) {
            (Some(r), Some(c)) => {
                let over_row: usize = if up {
                    row + 1
                } else {
                    row - 1
                };
                let over_col: usize = if right {
                    col + 1
                } else {
                    col - 1
                };
                let over = self.board[over_row][over_col];
                if Self::is_opposing(over, self.board[row][col]) && self.board[r][c] == EMPTY {
                    let m = Move {
                        from,
                        to: Square { row: r, col: c },
                        turn: self.turn,
                        eat: Some((Square { row: over_row, col: over_col }, over)),
                        promotion: r == far,
                    };
                    Some(m)
                } else {
                    None
                }
            },
            _ => None,
        }
    }

    /// The moves of the man at `row` and `col`: the two steps, then the two
    /// jumps, left before right.
    fn get_pawn_moves(&self, row: usize, col: usize) -> (moves: Vec<Move>)
        requires
            row < BOARD_SIZE,
            col < BOARD_SIZE,
            self.board[row as int][col as int] == man_of(self.turn),
        ensures
            forall|m: Move|
                moves@.contains(m) <==> m.from == (Square { row, col }) && pseudo_legal(
                    self.board,
                    self.turn,
                    m,
                ),
            increasing(moves@, |m: Move| man_rank(m)),
    {
        let mut moves: Vec<Move> = Vec::new();
        let ghost from = Square { row, col };
        let step_left = self.pawn_step(row, col, false);
        let step_right = self.pawn_step(row, col, true);
        let jump_left = self.pawn_jump(row, col, false);
        let jump_right = self.pawn_jump(row, col, true);
        if let Some(m) = step_left {
            moves.push(m);
        }
        let ghost one = moves@;
        if let Some(m) = step_right {
            moves.push(m);
        }
        let ghost two = moves@;
        if let Some(m) = jump_left {
            moves.push(m);
        }
        let ghost three = moves@;
        if let Some(m) = jump_right {
            moves.push(m);
        }
        proof {
            // what each answer says of the move it holds
            if let Some(x) = step_left {
                assert(pawn_move(self.board, self.turn, from, 1, false, x));
            }
            if let Some(x) = step_right {
                assert(pawn_move(self.board, self.turn, from, 1, true, x));
            }
            if let Some(x) = jump_left {
                assert(pawn_move(self.board, self.turn, from, 2, false, x));
            }
            if let Some(x) = jump_right {
                assert(pawn_move(self.board, self.turn, from, 2, true, x));
            }
            assert forall|m: Move|
                moves@.contains(m) <==> m.from == from && pseudo_legal(
                    self.board,
                    self.turn,
                    m,
                ) by {
                vstd::seq_lib::lemma_seq_empty_contains_nothing(m);
                if let Some(x) = step_left {
                    vstd::seq_lib::lemma_seq_contains_after_push(Seq::<Move>::empty(), x, m);
                }
                if let Some(x) = step_right {
                    vstd::seq_lib::lemma_seq_contains_after_push(one, x, m);
                }
                if let Some(x) = jump_left {
                    vstd::seq_lib::lemma_seq_contains_after_push(two, x, m);
                }
                if let Some(x) = jump_right {
                    vstd::seq_lib::lemma_seq_contains_after_push(three, x, m);
                }
                // each move of the man is one of the four
                assert(m.from == from && pseudo_legal(self.board, self.turn, m) <==> pawn_move(
                    self.board,
                    self.turn,
                    from,
                    1,
                    false,
                    m,
                ) || pawn_move(self.board, self.turn, from, 1, true, m) || pawn_move(
                    self.board,
                    self.turn,
                    from,
                    2,
                    false,
                    m,
                ) || pawn_move(self.board, self.turn, from, 2, true, m));
            }
            let key = |m: Move| man_rank(m);
            assert forall|i: int, j: int| 0 <= i < j < moves.len() implies key(#[trigger] moves[i])
                < key(#[trigger] moves[j]) by {}
        }
        moves
    }

    /// The moves that the piece at `row` and `col` can make, whether or not
    /// the rules force another one; none where the square is empty or holds
    /// a piece of the side that is not to move.
    fn get_legal_moves_for_piece(&self, row: usize, col: usize) -> (moves: Vec<Move>)
        requires
            row < BOARD_SIZE,
            col < BOARD_SIZE,
        ensures
            forall|m: Move|
                moves@.contains(m) <==> m.from == (Square { row, col }) && pseudo_legal(
                    self.board,
                    self.turn,
                    m,
                ),
            ranked(self.board, moves@),
    {
        let piece = self.board[row][col];
        let mut moves: Vec<Move> = Vec::new();
        let ghost from = Square { row, col };
        match piece {
            WHITE_PAWN => {
                if self.turn == Turn::Red {
                    moves = self.get_pawn_moves(row, col);
                }
            },
            WHITE_QUEEN => {
                if self.turn == Turn::Red {
                    moves = self.get_queen_moves(row, col);
                }
            },
            BLACK_PAWN => {
                if self.turn == Turn::Black {
                    moves = self.get_pawn_moves(row, col);
                }
            },
            BLACK_QUEEN => {
                if self.turn == Turn::Black {
                    moves = self.get_queen_moves(row, col);
                }
            },
            _ => {},
        }
        proof {
            assert forall|m: Move|
                moves@.contains(m) <==> m.from == from && pseudo_legal(
                    self.board,
                    self.turn,
                    m,
                ) by {
                vstd::seq_lib::lemma_seq_empty_contains_nothing(m);
            }
            let key = |m: Move| move_rank(self.board, m);
            assert forall|i: int, j: int| 0 <= i < j < moves.len() implies key(#[trigger] moves[i])
                < key(#[trigger] moves[j]) by {
                assert(moves@.contains(moves[i]));
                assert(moves@.contains(moves[j]));
                if is_king(piece) {
                    let by_king = |m: Move| king_rank(m);
                    assert(by_king(moves[i]) < by_king(moves[j]));
                } else {
                    let by_man = |m: Move| man_rank(m);
                    assert(by_man(moves[i]) < by_man(moves[j]));
                }
            }
        }
        moves
    }

    /// Whether `a` and `b` are pieces of different sides.
    fn is_opposing(a: i8, b: i8) -> (different: bool)
        ensures
            different == opposing(a, b),
    {
        (a > 0 && b < 0) || (a < 0 && b > 0)
    }
}

} // verus!
