//! What holds of every game, proved from the rules.

use crate::comun::{GameStatus, Move, Square, Turn, EMPTY};
use crate::rules::{
    board_after, capture_available, captured_square, far_row, heads_right, heads_up, king_of,
    legal, lemma_board_after, lemma_board_before, lemma_path_squares, lemma_put, lemma_same_board,
    man_of, on_board, opposing, piece_at, promoted, pseudo_legal, put, ray_piece, span, step,
    Board, GameState,
};
use vstd::prelude::*;

verus! {

/// The game after the moves of `line` are played one after the other.
pub open spec fn play(game: GameState, line: Seq<Move>) -> GameState
    decreases line.len(),
{
    if line.len() == 0 {
        game
    } else {
        play(game, line.drop_last()).apply(line.last())
    }
}

/// Each move of `line` may be played in the game that the moves before it
/// lead to.
pub open spec fn is_line(game: GameState, line: Seq<Move>) -> bool
    decreases line.len(),
{
    line.len() == 0 || (is_line(game, line.drop_last()) && play(game, line.drop_last()).admits(
        line.last(),
    ))
}

/// Playing a move that the game admits gives a game that play can reach.
pub proof fn lemma_apply_wf(game: GameState, m: Move)
    requires
        game.wf(),
        game.admits(m),
    ensures
        game.apply(m).wf(),
{
    lemma_board_after(game.board, m);
    assert forall|row: int, col: int| on_board(row, col) implies -2 <= #[trigger] piece_at(
        game.apply(m).board,
        row,
        col,
    ) <= 2 by {
        assert(-2 <= piece_at(game.board, row, col) <= 2);
        assert(-2 <= piece_at(game.board, m.from.row as int, m.from.col as int) <= 2);
    }
}

/// Playing a move and taking it back restores the game: the board, the side
/// to move, the count of moves without a capture and the values it had, and
/// the status.
pub proof fn lemma_apply_undo(game: GameState, m: Move)
    requires
        game.wf(),
        game.admits(m),
    ensures
        game.apply(m).undo(m) == game,
        game.apply(m).ends_with(m),
{
    let after = game.apply(m);
    let back = after.undo(m);
    lemma_path_squares(game.board, m);
    lemma_board_after(game.board, m);
    lemma_board_before(after.board, m);
    assert forall|r: int, c: int| on_board(r, c) implies #[trigger] piece_at(back.board, r, c)
        == piece_at(game.board, r, c) by {}
    lemma_same_board(back.board, game.board);
    assert(back.history =~= game.history);
}

/// After the moves of `line`, as many moves more can be taken back as
/// `line` holds.
pub proof fn lemma_history_depth(game: GameState, line: Seq<Move>)
    ensures
        play(game, line).history.len() == game.history.len() + line.len(),
    decreases line.len(),
{
    if line.len() > 0 {
        lemma_history_depth(game, line.drop_last());
    }
}

/// Where a capture can be made, every move that may be played captures.
pub proof fn lemma_forced_capture(board: Board, turn: Turn, m: Move)
    requires
        capture_available(board, turn),
        legal(board, turn, m),
    ensures
        m.eat is Some,
{
}

/// A man that reaches its farthest row stands there as a king, and as a man
/// on the square it came from once the move is taken back.
pub proof fn lemma_promotion(game: GameState, m: Move)
    requires
        game.wf(),
        game.admits(m),
        piece_at(game.board, m.from.row as int, m.from.col as int) == man_of(game.turn),
        m.to.row == far_row(game.turn),
    ensures
        m.promotion,
        piece_at(game.apply(m).board, m.to.row as int, m.to.col as int) == king_of(game.turn),
        piece_at(game.apply(m).undo(m).board, m.from.row as int, m.from.col as int) == man_of(
            game.turn,
        ),
{
    lemma_path_squares(game.board, m);
    lemma_board_after(game.board, m);
    lemma_apply_undo(game, m);
}

/// After `count` moves without a capture, the count of such moves is at
/// least `count`.
proof fn lemma_quiet_moves(game: GameState, line: Seq<Move>, count: int)
    requires
        0 <= game.quiet_moves,
        0 <= count <= line.len(),
        forall|i: int| line.len() - count <= i < line.len() ==> (#[trigger] line[i]).eat is None,
    ensures
        play(game, line).quiet_moves >= count,
    decreases line.len(),
{
    if line.len() == 0 {
    } else {
        let shorter = line.drop_last();
        if count == 0 {
            lemma_quiet_moves(game, shorter, 0);
        } else {
            assert forall|i: int| shorter.len() - (count - 1) <= i < shorter.len() implies (
            #[trigger] shorter[i]).eat is None by {
                assert(shorter[i] == line[i]);
            }
            lemma_quiet_moves(game, shorter, count - 1);
            assert(line.last() == line[line.len() - 1]);
        }
    }
}

/// After 16 moves in a row without a capture the game is drawn, whatever
/// pieces and moves are left.
pub proof fn lemma_draw_by_attrition(game: GameState, line: Seq<Move>)
    requires
        game.wf(),
        is_line(game, line),
        line.len() >= 16,
        forall|i: int| line.len() - 16 <= i < line.len() ==> (#[trigger] line[i]).eat is None,
    ensures
        play(game, line).status == GameStatus::Draw,
{
    lemma_quiet_moves(game, line, 16);
    let before = play(game, line.drop_last());
    assert(play(game, line) == before.apply(line.last()));
}

/// The capture by the king on `from` of the piece `at` steps away along a
/// diagonal, landing `land` steps away.
pub open spec fn flying_capture(
    board: Board,
    turn: Turn,
    from: Square,
    up: bool,
    right: bool,
    at: int,
    land: int,
) -> Move {
    Move {
        turn,
        from,
        to: Square {
            row: step(from.row as int, up, land) as usize,
            col: step(from.col as int, right, land) as usize,
        },
        eat: Some(
            (
                Square {
                    row: step(from.row as int, up, at) as usize,
                    col: step(from.col as int, right, at) as usize,
                },
                ray_piece(board, from, up, right, at),
            ),
        ),
        promotion: false,
    }
}

/// A king of the side to move looks along a diagonal that is empty but for
/// one piece of the other side, `at` steps away. Then for each square of the
/// board beyond that piece, the capture that lands there may be played, and
/// it is the only move of the king that lands there; and no move of the king
/// along this diagonal lands on the square of that piece or before it.
pub proof fn lemma_flying_capture(
    board: Board,
    turn: Turn,
    from: Square,
    up: bool,
    right: bool,
    at: int,
    land: int,
)
    requires
        on_board(from.row as int, from.col as int),
        piece_at(board, from.row as int, from.col as int) == king_of(turn),
        1 <= at < land,
        on_board(step(from.row as int, up, land), step(from.col as int, right, land)),
        opposing(ray_piece(board, from, up, right, at), king_of(turn)),
        forall|k: int|
            1 <= k && k != at && on_board(
                step(from.row as int, up, k),
                step(from.col as int, right, k),
            ) ==> #[trigger] ray_piece(board, from, up, right, k) == EMPTY,
    ensures
        legal(board, turn, flying_capture(board, turn, from, up, right, at, land)),
        forall|m: Move|
            #[trigger] legal(board, turn, m) && m.from == from && m.to == flying_capture(
                board,
                turn,
                from,
                up,
                right,
                at,
                land,
            ).to ==> m == flying_capture(board, turn, from, up, right, at, land),
        forall|m: Move|
            #[trigger] legal(board, turn, m) && m.from == from && heads_up(m) == up && heads_right(
                m,
            ) == right ==> span(m) > at,
{
    let capture = flying_capture(board, turn, from, up, right, at, land);
    assert(span(capture) == land);
    assert forall|k: int| 1 <= k < land && k != at implies #[trigger] ray_piece(
        board,
        from,
        up,
        right,
        k,
    ) == EMPTY by {
        assert(on_board(step(from.row as int, up, k), step(from.col as int, right, k)));
    }
    assert(ray_piece(board, from, up, right, land) == EMPTY);
    assert(heads_up(capture) == up && heads_right(capture) == right);
    assert(captured_square(capture).row == step(from.row as int, up, at));
    assert(pseudo_legal(board, turn, capture));
    assert(capture_available(board, turn));
    assert forall|m: Move|
        #[trigger] legal(board, turn, m) && m.from == from && heads_up(m) == up && heads_right(m)
            == right implies span(m) > at && (m.to == capture.to ==> m == capture) by {
        let square = captured_square(m);
        let k = if square.row >= from.row {
            square.row - from.row
        } else {
            from.row - square.row
        };
        assert(ray_piece(board, from, up, right, k) != EMPTY);
        assert(on_board(step(from.row as int, up, k), step(from.col as int, right, k)));
    }
}

/// Each move of `line` may be played in the game that the moves before it
/// lead to, and that game is still being played.
pub open spec fn is_playout(game: GameState, line: Seq<Move>) -> bool
    decreases line.len(),
{
    line.len() == 0 || (is_playout(game, line.drop_last()) && play(
        game,
        line.drop_last(),
    ).status == GameStatus::Playing && play(game, line.drop_last()).admits(line.last()))
}

/// The moves of a playout lead to a game that play can reach.
pub proof fn lemma_playout_wf(game: GameState, line: Seq<Move>)
    requires
        game.wf(),
        is_playout(game, line),
    ensures
        play(game, line).wf(),
    decreases line.len(),
{
    if line.len() > 0 {
        lemma_playout_wf(game, line.drop_last());
        lemma_apply_wf(play(game, line.drop_last()), line.last());
    }
}

/// The number of pieces on the first `upto` squares of `board`, counted row
/// by row.
pub open spec fn pieces_upto(board: Board, upto: int) -> int
    decreases upto,
{
    if upto <= 0 {
        0
    } else {
        pieces_upto(board, upto - 1) + (if piece_at(board, (upto - 1) / 8, (upto - 1) % 8) != EMPTY {
            1int
        } else {
            0int
        })
    }
}

/// The number of pieces on `board`.
pub open spec fn pieces(board: Board) -> int {
    pieces_upto(board, 64)
}

/// An upper bound on the number of moves that can still be played: each
/// move either captures a piece or brings the draw by attrition one move
/// nearer.
pub open spec fn moves_left(game: GameState) -> int {
    pieces(game.board) * 17 + 16 - game.quiet_moves
}

/// There are at most as many pieces as squares.
proof fn lemma_pieces_bounds(board: Board, upto: int)
    requires
        0 <= upto,
    ensures
        0 <= pieces_upto(board, upto) <= upto,
    decreases upto,
{
    if upto > 0 {
        lemma_pieces_bounds(board, upto - 1);
    }
}

/// Putting a piece on a square changes the number of pieces by what the
/// square gains or loses.
proof fn lemma_pieces_put(board: Board, row: int, col: int, piece: i8, upto: int)
    requires
        on_board(row, col),
        0 <= upto <= 64,
    ensures
        pieces_upto(put(board, row, col, piece), upto) == pieces_upto(board, upto) + (if row * 8
            + col < upto {
            (if piece != EMPTY {
                1int
            } else {
                0int
            }) - (if piece_at(board, row, col) != EMPTY {
                1int
            } else {
                0int
            })
        } else {
            0int
        }),
    decreases upto,
{
    if upto > 0 {
        lemma_pieces_put(board, row, col, piece, upto - 1);
        lemma_put(board, row, col, piece);
        let r = (upto - 1) / 8;
        let c = (upto - 1) % 8;
        assert(on_board(r, c));
        assert(r == row && c == col <==> row * 8 + col == upto - 1);
    }
}

/// A move takes one piece off the board if it captures, and none else.
pub proof fn lemma_pieces_after(board: Board, turn: Turn, m: Move)
    requires
        pseudo_legal(board, turn, m),
    ensures
        pieces(board_after(board, m)) == pieces(board) - (if m.eat is Some {
            1int
        } else {
            0int
        }),
{
    lemma_path_squares(board, m);
    let piece = piece_at(board, m.from.row as int, m.from.col as int);
    let landed = if m.promotion {
        promoted(piece)
    } else {
        piece
    };
    let lifted = put(board, m.from.row as int, m.from.col as int, EMPTY);
    lemma_pieces_put(board, m.from.row as int, m.from.col as int, EMPTY, 64);
    lemma_put(board, m.from.row as int, m.from.col as int, EMPTY);
    let cleared = match m.eat {
        Some((square, _)) => put(lifted, square.row as int, square.col as int, EMPTY),
        None => lifted,
    };
    if let Some((square, _)) = m.eat {
        lemma_pieces_put(lifted, square.row as int, square.col as int, EMPTY, 64);
        lemma_put(lifted, square.row as int, square.col as int, EMPTY);
    }
    lemma_pieces_put(cleared, m.to.row as int, m.to.col as int, landed, 64);
}

/// A move made in a game that is being played leaves fewer moves to play.
pub proof fn lemma_moves_left(game: GameState, m: Move)
    requires
        game.wf(),
        game.status == GameStatus::Playing,
        game.admits(m),
    ensures
        0 <= moves_left(game.apply(m)) < moves_left(game),
{
    lemma_pieces_after(game.board, game.turn, m);
    lemma_pieces_bounds(game.apply(m).board, 64);
}

} // verus!
