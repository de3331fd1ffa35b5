//! The rules of the game, stated over mathematical values: which moves a
//! position admits, what a move does to a game, and when a game is over.
//!
//! Nothing here is executable. `game_manager` holds the code that is proved
//! against these definitions.

use crate::comun::{
    GameStatus, Move, Square, Turn, BLACK_PAWN, BLACK_QUEEN, BOARD_SIZE, EMPTY, WHITE_PAWN,
    WHITE_QUEEN,
};
use vstd::prelude::*;

verus! {

/// The 64 squares, by row and then by column.
pub type Board = [[i8; BOARD_SIZE]; BOARD_SIZE];

/// The number of moves without a capture at which a game is drawn.
pub const DRAW_LIMIT: i8 = 16;

/// The square at `row` and `col` is one of the 64.
pub open spec fn on_board(row: int, col: int) -> bool {
    0 <= row < 8 && 0 <= col < 8
}

/// What stands on the square at `row` and `col`.
pub open spec fn piece_at(board: Board, row: int, col: int) -> i8 {
    board[row][col]
}

/// Every square holds one of the five piece values.
pub open spec fn board_ok(board: Board) -> bool {
    forall|row: int, col: int|
        on_board(row, col) ==> -2 <= #[trigger] piece_at(board, row, col) <= 2
}

/// `board` with `piece` on the square at `row` and `col`.
pub open spec fn put(board: Board, row: int, col: int, piece: i8) -> Board {
    vstd::array::spec_array_update(
        board,
        row,
        vstd::array::spec_array_update(board[row], col, piece),
    )
}

/// `a` and `b` are pieces of different sides.
pub open spec fn opposing(a: i8, b: i8) -> bool {
    (a > 0 && b < 0) || (a < 0 && b > 0)
}

/// `piece` is a piece of `turn`: red pieces are positive, black ones negative.
pub open spec fn owned_by(piece: i8, turn: Turn) -> bool {
    match turn {
        Turn::Red => piece > 0,
        Turn::Black => piece < 0,
    }
}

/// The man of `turn`.
pub open spec fn man_of(turn: Turn) -> i8 {
    match turn {
        Turn::Red => WHITE_PAWN,
        Turn::Black => BLACK_PAWN,
    }
}

/// The king of `turn`.
pub open spec fn king_of(turn: Turn) -> i8 {
    match turn {
        Turn::Red => WHITE_QUEEN,
        Turn::Black => BLACK_QUEEN,
    }
}

/// `piece` is a king of either side.
pub open spec fn is_king(piece: i8) -> bool {
    piece == WHITE_QUEEN || piece == BLACK_QUEEN
}

/// The row on which a man of `turn` becomes a king.
pub open spec fn far_row(turn: Turn) -> int {
    match turn {
        Turn::Red => 7,
        Turn::Black => 0,
    }
}

/// The side that plays against `turn`.
pub open spec fn other_side(turn: Turn) -> Turn {
    match turn {
        Turn::Red => Turn::Black,
        Turn::Black => Turn::Red,
    }
}

/// `piece` as it stands after a promotion: a man becomes the king of its side.
pub open spec fn promoted(piece: i8) -> i8 {
    if piece == WHITE_PAWN {
        WHITE_QUEEN
    } else if piece == BLACK_PAWN {
        BLACK_QUEEN
    } else {
        piece
    }
}

/// `piece` as it stood before a promotion: a king becomes the man of its side.
pub open spec fn demoted(piece: i8) -> i8 {
    if piece == WHITE_QUEEN {
        WHITE_PAWN
    } else if piece == BLACK_QUEEN {
        BLACK_PAWN
    } else {
        piece
    }
}

/// The coordinate `k` steps away from `start`, upwards if `forward`.
pub open spec fn step(start: int, forward: bool, k: int) -> int {
    if forward {
        start + k
    } else {
        start - k
    }
}

/// The piece `k` diagonal steps away from `from`, towards higher rows if
/// `up` and towards higher columns if `right`.
pub open spec fn ray_piece(board: Board, from: Square, up: bool, right: bool, k: int) -> i8 {
    piece_at(board, step(from.row as int, up, k), step(from.col as int, right, k))
}

/// `m` goes towards higher rows.
pub open spec fn heads_up(m: Move) -> bool {
    m.to.row > m.from.row
}

/// `m` goes towards higher columns.
pub open spec fn heads_right(m: Move) -> bool {
    m.to.col > m.from.col
}

/// The number of rows that `m` crosses.
pub open spec fn span(m: Move) -> int {
    if m.to.row >= m.from.row {
        m.to.row - m.from.row
    } else {
        m.from.row - m.to.row
    }
}

/// `m` leaves a square of the board along a diagonal and ends on another.
pub open spec fn diagonal(m: Move) -> bool {
    &&& on_board(m.from.row as int, m.from.col as int)
    &&& on_board(m.to.row as int, m.to.col as int)
    &&& span(m) >= 1
    &&& m.to.col == step(m.from.col as int, heads_right(m), span(m))
}

/// The squares that `m` passes over are empty, but for the one `skip` steps
/// from its start.
pub open spec fn path_empty_but(board: Board, m: Move, skip: int) -> bool {
    forall|k: int|
        1 <= k < span(m) && k != skip ==> #[trigger] ray_piece(
            board,
            m.from,
            heads_up(m),
            heads_right(m),
            k,
        ) == EMPTY
}

/// `m` runs along a diagonal to an empty square and passes over empty
/// squares only, but for at most one piece of the other side. `m.eat` is that
/// piece and its square, or `None` where there is no such piece.
pub open spec fn flying_path(board: Board, m: Move) -> bool {
    &&& diagonal(m)
    &&& piece_at(board, m.to.row as int, m.to.col as int) == EMPTY
    &&& match m.eat {
        None => path_empty_but(board, m, 0),
        Some((square, piece)) => {
            let k = if square.row >= m.from.row {
                square.row - m.from.row
            } else {
                m.from.row - square.row
            };
            &&& 1 <= k < span(m)
            &&& square.row == step(m.from.row as int, heads_up(m), k)
            &&& square.col == step(m.from.col as int, heads_right(m), k)
            &&& piece == piece_at(board, square.row as int, square.col as int)
            &&& opposing(piece, piece_at(board, m.from.row as int, m.from.col as int))
            &&& path_empty_but(board, m, k)
        },
    }
}

/// `m` is a move of the piece on `from` along the diagonal that `up` and
/// `right` name, as a king makes it.
pub open spec fn ray_move(board: Board, turn: Turn, from: Square, up: bool, right: bool, m: Move)
    -> bool {
    &&& m.turn == turn
    &&& m.from == from
    &&& !m.promotion
    &&& heads_up(m) == up
    &&& heads_right(m) == right
    &&& flying_path(board, m)
}

/// `m` is a move of the piece on `from` along any diagonal, as a king makes
/// it.
pub open spec fn flying_move(board: Board, turn: Turn, from: Square, m: Move) -> bool {
    &&& m.turn == turn
    &&& m.from == from
    &&& !m.promotion
    &&& flying_path(board, m)
}

/// `m` goes towards the far row of `turn`.
pub open spec fn forward(turn: Turn, m: Move) -> bool {
    match turn {
        Turn::Red => m.to.row > m.from.row,
        Turn::Black => m.to.row < m.from.row,
    }
}

/// A man of `turn` stands on the first square of `m`, and `m` is one step
/// forward, or a jump of two steps forward over a piece of the other side.
/// The move promotes exactly when it ends on the far row.
pub open spec fn man_move(board: Board, turn: Turn, m: Move) -> bool {
    &&& piece_at(board, m.from.row as int, m.from.col as int) == man_of(turn)
    &&& forward(turn, m)
    &&& (span(m) == 1 || (span(m) == 2 && m.eat is Some))
    &&& m.promotion == (m.to.row == far_row(turn))
}

/// `m` is the move of the man on `from` over `rows` rows, to the right or
/// to the left.
pub open spec fn pawn_move(
    board: Board,
    turn: Turn,
    from: Square,
    rows: int,
    right: bool,
    m: Move,
) -> bool {
    &&& m.from == from
    &&& m.turn == turn
    &&& flying_path(board, m)
    &&& man_move(board, turn, m)
    &&& span(m) == rows
    &&& heads_right(m) == right
}

/// A king of `turn` stands on the first square of `m`.
pub open spec fn king_move(board: Board, turn: Turn, m: Move) -> bool {
    &&& piece_at(board, m.from.row as int, m.from.col as int) == king_of(turn)
    &&& !m.promotion
}

/// `m` is a move that a piece of `turn` can make on `board`, whether or not
/// the rules force another one.
pub open spec fn pseudo_legal(board: Board, turn: Turn, m: Move) -> bool {
    &&& m.turn == turn
    &&& flying_path(board, m)
    &&& (man_move(board, turn, m) || king_move(board, turn, m))
}

/// Some piece of `turn` can capture.
pub open spec fn capture_available(board: Board, turn: Turn) -> bool {
    exists|m: Move| #[trigger] pseudo_legal(board, turn, m) && m.eat is Some
}

/// The piece of `turn` on `square` can capture.
pub open spec fn can_capture_from(board: Board, turn: Turn, square: Square) -> bool {
    exists|m: Move| #[trigger] pseudo_legal(board, turn, m) && m.from == square && m.eat is Some
}

/// `m` is a move that `turn` may play on `board`: where a capture can be
/// made, only captures are.
pub open spec fn legal(board: Board, turn: Turn, m: Move) -> bool {
    &&& pseudo_legal(board, turn, m)
    &&& capture_available(board, turn) ==> m.eat is Some
}

/// `turn` has a move that it may play.
pub open spec fn has_legal_move(board: Board, turn: Turn) -> bool {
    exists|m: Move| #[trigger] legal(board, turn, m)
}

/// `turn` has a piece on the board.
pub open spec fn has_piece(board: Board, turn: Turn) -> bool {
    exists|row: int, col: int|
        on_board(row, col) && owned_by(#[trigger] piece_at(board, row, col), turn)
}

/// The place of a square in the order in which moves are listed.
pub open spec fn square_index(square: Square) -> int {
    square.row * 8 + square.col
}

/// The place of a king's move among the moves of that king: up before down,
/// right before left, near before far.
pub open spec fn king_rank(m: Move) -> int {
    ((if heads_up(m) {
        0int
    } else {
        2int
    }) + (if heads_right(m) {
        0int
    } else {
        1int
    })) * 8 + span(m)
}

/// The place of a man's move among the moves of that man: steps before
/// jumps, left before right.
pub open spec fn man_rank(m: Move) -> int {
    (span(m) - 1) * 2 + (if heads_right(m) {
        1int
    } else {
        0int
    })
}

/// The place of a move in the order in which moves are listed: by the square
/// it starts from, row by row, then by its place among the moves of the
/// piece that stands there.
pub open spec fn move_rank(board: Board, m: Move) -> int {
    square_index(m.from) * 64 + (if is_king(
        piece_at(board, m.from.row as int, m.from.col as int),
    ) {
        king_rank(m)
    } else {
        man_rank(m)
    })
}

/// `key` grows along `moves`.
pub open spec fn increasing(moves: Seq<Move>, key: spec_fn(Move) -> int) -> bool {
    forall|i: int, j: int|
        0 <= i < j < moves.len() ==> key(#[trigger] moves[i]) < key(#[trigger] moves[j])
}

/// `moves` is in the order of `move_rank`, with no move twice.
pub open spec fn ranked(board: Board, moves: Seq<Move>) -> bool {
    increasing(moves, |m: Move| move_rank(board, m))
}

/// The board after `m` is played on `board`.
pub open spec fn board_after(board: Board, m: Move) -> Board {
    let piece = piece_at(board, m.from.row as int, m.from.col as int);
    let landed = if m.promotion {
        promoted(piece)
    } else {
        piece
    };
    let lifted = put(board, m.from.row as int, m.from.col as int, EMPTY);
    let cleared = match m.eat {
        Some((square, _)) => put(lifted, square.row as int, square.col as int, EMPTY),
        None => lifted,
    };
    put(cleared, m.to.row as int, m.to.col as int, landed)
}

/// The board on which `m` was played to give `board`.
pub open spec fn board_before(board: Board, m: Move) -> Board {
    let piece = piece_at(board, m.to.row as int, m.to.col as int);
    let back = if m.promotion {
        demoted(piece)
    } else {
        piece
    };
    let lifted = put(board, m.to.row as int, m.to.col as int, EMPTY);
    let restored = match m.eat {
        Some((square, captured)) => put(lifted, square.row as int, square.col as int, captured),
        None => lifted,
    };
    put(restored, m.from.row as int, m.from.col as int, back)
}

/// The side to move after `turn` has played `m` on `board`: `turn` again
/// where `m` captured and the piece that moved can capture once more from the
/// square it landed on, the other side else.
pub open spec fn turn_after(board: Board, turn: Turn, m: Move) -> Turn {
    if m.eat is Some && can_capture_from(board_after(board, m), turn, m.to) {
        turn
    } else {
        other_side(turn)
    }
}

/// How the game stands with `turn` to move on `board` after `quiet_moves`
/// moves in a row without a capture.
pub open spec fn status_of(board: Board, turn: Turn, quiet_moves: int) -> GameStatus {
    if quiet_moves >= DRAW_LIMIT {
        GameStatus::Draw
    } else if !has_legal_move(board, turn) {
        match turn {
            Turn::Red => GameStatus::BlackWins,
            Turn::Black => GameStatus::RedWins,
        }
    } else if !has_piece(board, other_side(turn)) {
        match turn {
            Turn::Red => GameStatus::RedWins,
            Turn::Black => GameStatus::BlackWins,
        }
    } else {
        GameStatus::Playing
    }
}

/// A game: the board, the side to move, the number of moves played in a row
/// without a capture, the values that this number had before each move that
/// can still be taken back, and how the game stands.
pub struct GameState {
    pub board: Board,
    pub turn: Turn,
    pub quiet_moves: int,
    pub history: Seq<int>,
    pub status: GameStatus,
}

impl GameState {
    /// The game is one that play can reach: every square holds a piece
    /// value, the count of moves without a capture is not negative, and the
    /// status is that of the position.
    pub open spec fn wf(self) -> bool {
        &&& board_ok(self.board)
        &&& 0 <= self.quiet_moves
        &&& self.status == status_of(self.board, self.turn, self.quiet_moves)
    }

    /// `m` may be played in this game.
    pub open spec fn admits(self, m: Move) -> bool {
        legal(self.board, self.turn, m)
    }

    /// The game after `m` is played.
    pub open spec fn apply(self, m: Move) -> GameState {
        let board = board_after(self.board, m);
        let turn = turn_after(self.board, self.turn, m);
        let quiet_moves = if m.eat is Some {
            0
        } else {
            self.quiet_moves + 1
        };
        GameState {
            board,
            turn,
            quiet_moves,
            history: self.history.push(self.quiet_moves),
            status: status_of(board, turn, quiet_moves),
        }
    }

    /// The game before `m`, the last move played, was played.
    pub open spec fn undo(self, m: Move) -> GameState {
        let board = board_before(self.board, m);
        let quiet_moves = self.history.last();
        GameState {
            board,
            turn: m.turn,
            quiet_moves,
            history: self.history.drop_last(),
            status: status_of(board, m.turn, quiet_moves),
        }
    }

    /// `m` is the last move played in this game: taking it back gives a game
    /// in which `m` may be played and leads here.
    pub open spec fn ends_with(self, m: Move) -> bool {
        &&& self.history.len() > 0
        &&& self.undo(m).wf()
        &&& self.undo(m).admits(m)
        &&& self.undo(m).apply(m) == self
    }
}

/// The piece that stands at `row` and `col` when a game begins: men on the
/// squares whose row and column add up to an even number, red ones on the
/// three lowest rows and black ones on the three highest.
pub open spec fn starting_piece(row: int, col: int) -> i8 {
    if (row + col) % 2 != 0 {
        EMPTY
    } else if row < 3 {
        WHITE_PAWN
    } else if row >= 5 {
        BLACK_PAWN
    } else {
        EMPTY
    }
}

/// `board` is the board on which a game begins.
pub open spec fn starting_board(board: Board) -> bool {
    forall|row: int, col: int|
        on_board(row, col) ==> #[trigger] piece_at(board, row, col) == starting_piece(row, col)
}

/// On the board on which a game begins, with red to move, nothing can be
/// captured and the game is being played.
pub proof fn lemma_starting_status(board: Board)
    requires
        starting_board(board),
    ensures
        board_ok(board),
        !capture_available(board, Turn::Red),
        status_of(board, Turn::Red, 0) == GameStatus::Playing,
{
    assert forall|m: Move| #[trigger] pseudo_legal(board, Turn::Red, m) implies m.eat is None by {
        if m.eat is Some {
            assert(piece_at(board, m.from.row as int, m.from.col as int) == WHITE_PAWN);
            assert(span(m) == 2);
            let square = captured_square(m);
            assert(piece_at(board, square.row as int, square.col as int) >= 0);
        }
    }
    let first = Move {
        turn: Turn::Red,
        from: Square { row: 2, col: 0 },
        to: Square { row: 3, col: 1 },
        eat: None,
        promotion: false,
    };
    assert(piece_at(board, 2, 0) == WHITE_PAWN);
    assert(piece_at(board, 3, 1) == EMPTY);
    assert(legal(board, Turn::Red, first));
    assert(owned_by(piece_at(board, 7, 7), Turn::Black));
}

/// A move within the board has a rank among the moves from its square that
/// is below 64.
pub proof fn lemma_rank_bounds(board: Board, m: Move)
    requires
        diagonal(m),
    ensures
        square_index(m.from) * 64 <= move_rank(board, m) < (square_index(m.from) + 1) * 64,
{
}

/// A side that has a move has a piece.
pub proof fn lemma_mover_has_piece(board: Board, turn: Turn)
    requires
        has_legal_move(board, turn),
    ensures
        has_piece(board, turn),
{
    let m = choose|m: Move| #[trigger] legal(board, turn, m);
    assert(owned_by(piece_at(board, m.from.row as int, m.from.col as int), turn));
}

/// Whether a piece of `turn` stands on one of the first `upto` squares of
/// `board`, counted row by row.
pub open spec fn side_seen(board: Board, turn: Turn, upto: int) -> bool {
    exists|row: int, col: int|
        on_board(row, col) && row * 8 + col < upto && owned_by(
            #[trigger] piece_at(board, row, col),
            turn,
        )
}

/// Looking at one more square finds a piece of `turn` if it was found
/// before or stands there.
pub proof fn lemma_side_seen_next(board: Board, turn: Turn, row: int, col: int)
    requires
        on_board(row, col),
    ensures
        side_seen(board, turn, row * 8 + col + 1) <==> side_seen(board, turn, row * 8 + col)
            || owned_by(piece_at(board, row, col), turn),
{
    if side_seen(board, turn, row * 8 + col + 1) {
        let (r, c) = choose|r: int, c: int|
            on_board(r, c) && r * 8 + c < row * 8 + col + 1 && owned_by(
                #[trigger] piece_at(board, r, c),
                turn,
            );
        if r * 8 + c < row * 8 + col {
            assert(side_seen(board, turn, row * 8 + col));
        } else {
            assert(r == row && c == col);
        }
    }
    if side_seen(board, turn, row * 8 + col) {
        let (r, c) = choose|r: int, c: int|
            on_board(r, c) && r * 8 + c < row * 8 + col && owned_by(
                #[trigger] piece_at(board, r, c),
                turn,
            );
        assert(on_board(r, c) && r * 8 + c < row * 8 + col + 1 && owned_by(
            piece_at(board, r, c),
            turn,
        ));
    }
    if owned_by(piece_at(board, row, col), turn) {
        assert(side_seen(board, turn, row * 8 + col + 1));
    }
}

/// A piece of `turn` is seen on the whole board exactly when `turn` has a
/// piece.
pub proof fn lemma_side_seen_all(board: Board, turn: Turn)
    ensures
        side_seen(board, turn, 64) <==> has_piece(board, turn),
{
    if side_seen(board, turn, 64) {
        let (r, c) = choose|r: int, c: int|
            on_board(r, c) && r * 8 + c < 64 && owned_by(#[trigger] piece_at(board, r, c), turn);
        assert(on_board(r, c) && owned_by(piece_at(board, r, c), turn));
    }
    if has_piece(board, turn) {
        let (r, c) = choose|r: int, c: int|
            on_board(r, c) && owned_by(#[trigger] piece_at(board, r, c), turn);
        assert(on_board(r, c) && r * 8 + c < 64 && owned_by(piece_at(board, r, c), turn));
    }
}

/// The square that `m` captures on, where it captures.
pub open spec fn captured_square(m: Move) -> Square {
    match m.eat {
        Some((square, _)) => square,
        None => m.from,
    }
}

/// The piece that `m` captures, where it captures.
pub open spec fn captured_piece(m: Move) -> i8 {
    match m.eat {
        Some((_, piece)) => piece,
        None => EMPTY,
    }
}

/// The squares that a move along a clear path touches are on the board and
/// differ from each other.
pub proof fn lemma_path_squares(board: Board, m: Move)
    requires
        flying_path(board, m),
    ensures
        m.from.row < 8 && m.from.col < 8 && m.to.row < 8 && m.to.col < 8,
        m.from != m.to,
        m.eat is Some ==> {
            let square = captured_square(m);
            &&& square.row < 8 && square.col < 8
            &&& square != m.from
            &&& square != m.to
            &&& captured_piece(m) == piece_at(board, square.row as int, square.col as int)
            &&& captured_piece(m) != EMPTY
        },
{
}

/// What stands on each square after a move.
pub proof fn lemma_board_after(board: Board, m: Move)
    requires
        flying_path(board, m),
    ensures
        forall|r: int, c: int|
            on_board(r, c) ==> #[trigger] piece_at(board_after(board, m), r, c) == (if r
                == m.to.row && c == m.to.col {
                if m.promotion {
                    promoted(piece_at(board, m.from.row as int, m.from.col as int))
                } else {
                    piece_at(board, m.from.row as int, m.from.col as int)
                }
            } else if r == m.from.row && c == m.from.col {
                EMPTY
            } else if m.eat is Some && r == captured_square(m).row && c == captured_square(m).col {
                EMPTY
            } else {
                piece_at(board, r, c)
            }),
{
    lemma_path_squares(board, m);
    let lifted = put(board, m.from.row as int, m.from.col as int, EMPTY);
    lemma_put(board, m.from.row as int, m.from.col as int, EMPTY);
    let cleared = match m.eat {
        Some((square, _)) => put(lifted, square.row as int, square.col as int, EMPTY),
        None => lifted,
    };
    if let Some((square, _)) = m.eat {
        lemma_put(lifted, square.row as int, square.col as int, EMPTY);
    }
    let piece = piece_at(board, m.from.row as int, m.from.col as int);
    let landed = if m.promotion {
        promoted(piece)
    } else {
        piece
    };
    lemma_put(cleared, m.to.row as int, m.to.col as int, landed);
}

/// What stood on each square before a move, given the squares it touched.
pub proof fn lemma_board_before(board: Board, m: Move)
    requires
        m.from.row < 8 && m.from.col < 8 && m.to.row < 8 && m.to.col < 8,
        m.eat is Some ==> captured_square(m).row < 8 && captured_square(m).col < 8,
    ensures
        forall|r: int, c: int|
            on_board(r, c) ==> #[trigger] piece_at(board_before(board, m), r, c) == (if r
                == m.from.row && c == m.from.col {
                if m.promotion {
                    demoted(piece_at(board, m.to.row as int, m.to.col as int))
                } else {
                    piece_at(board, m.to.row as int, m.to.col as int)
                }
            } else if m.eat is Some && r == captured_square(m).row && c == captured_square(m).col {
                captured_piece(m)
            } else if r == m.to.row && c == m.to.col {
                EMPTY
            } else {
                piece_at(board, r, c)
            }),
{
    let lifted = put(board, m.to.row as int, m.to.col as int, EMPTY);
    lemma_put(board, m.to.row as int, m.to.col as int, EMPTY);
    let restored = match m.eat {
        Some((square, captured)) => put(lifted, square.row as int, square.col as int, captured),
        None => lifted,
    };
    if let Some((square, captured)) = m.eat {
        lemma_put(lifted, square.row as int, square.col as int, captured);
    }
    let piece = piece_at(board, m.to.row as int, m.to.col as int);
    let back = if m.promotion {
        demoted(piece)
    } else {
        piece
    };
    lemma_put(restored, m.from.row as int, m.from.col as int, back);
}

/// What `put` leaves on each square.
pub proof fn lemma_put(board: Board, row: int, col: int, piece: i8)
    requires
        on_board(row, col),
    ensures
        forall|r: int, c: int|
            on_board(r, c) ==> #[trigger] piece_at(put(board, row, col, piece), r, c) == (if r
                == row && c == col {
                piece
            } else {
                piece_at(board, r, c)
            }),
{
}

/// Two boards that hold the same piece on every square are the same board.
pub proof fn lemma_same_board(a: Board, b: Board)
    requires
        forall|r: int, c: int|
            on_board(r, c) ==> #[trigger] piece_at(a, r, c) == piece_at(b, r, c),
    ensures
        a == b,
{
    assert forall|r: int| 0 <= r < 8 implies a[r] == b[r] by {
        assert forall|c: int| 0 <= c < 8 implies a[r][c] == b[r][c] by {
            assert(piece_at(a, r, c) == piece_at(b, r, c));
        }
        assert(a[r] =~= b[r]);
    }
    assert(a =~= b);
}

/// Two lists in growing order, the first below `bound` and the second from
/// `bound` on, make one list in growing order.
pub proof fn lemma_increasing_concat(
    first: Seq<Move>,
    second: Seq<Move>,
    key: spec_fn(Move) -> int,
    bound: int,
)
    requires
        increasing(first, key),
        increasing(second, key),
        forall|i: int| 0 <= i < first.len() ==> key(#[trigger] first[i]) < bound,
        forall|i: int| 0 <= i < second.len() ==> key(#[trigger] second[i]) >= bound,
    ensures
        increasing(first + second, key),
{
    let both = first + second;
    assert forall|i: int, j: int| 0 <= i < j < both.len() implies key(#[trigger] both[i]) < key(
        #[trigger] both[j],
    ) by {
        if j < first.len() {
            assert(both[i] == first[i] && both[j] == first[j]);
        } else if i < first.len() {
            assert(both[i] == first[i] && both[j] == second[j - first.len()]);
        } else {
            assert(both[i] == second[i - first.len()] && both[j] == second[j - first.len()]);
        }
    }
}

/// A list in growing order holds no move twice.
pub proof fn lemma_increasing_no_duplicates(moves: Seq<Move>, key: spec_fn(Move) -> int)
    requires
        increasing(moves, key),
    ensures
        moves.no_duplicates(),
{
    assert forall|i: int, j: int|
        0 <= i < moves.len() && 0 <= j < moves.len() && i != j implies moves[i] != moves[j] by {
        if i < j {
            assert(key(moves[i]) < key(moves[j]));
        } else {
            assert(key(moves[j]) < key(moves[i]));
        }
    }
}

} // verus!
