//! What the player at the board has picked, and what the board shows next:
//! the piece that was clicked, the squares it can go to, and the move that a
//! click on one of them chooses.

use crate::comun::{GamePlayer, GameStatus, Move, Square, Turn};
use crate::comun::{BLACK_PAWN, BLACK_QUEEN, EMPTY, WHITE_PAWN, WHITE_QUEEN};
use crate::game_manager::GameManager;
use crate::rules::{increasing, move_rank, ranked};
use vstd::prelude::*;

verus! {

/// The squares that the piece that was clicked can go to.
pub struct HighlightedSquare {
    squares: Vec<Square>,
}

/// A piece as the board shows it: what it is, and a number that tells it
/// from the others.
#[derive(Clone, Copy, Debug, PartialEq, Eq, Structural)]
pub struct Piece {
    pub piece_type: i8,
    pub id: usize,
}

/// The piece that was clicked last, and whether it is still picked.
pub struct PieceClicked {
    clicked: bool,
    square: Square,
    piece: Piece,
}

/// The moves that the piece that was clicked can make.
pub struct LegalMovesForPieceResource {
    pub moves: Vec<Move>,
}

/// What the board does next.
#[derive(Clone, Copy, Debug, PartialEq, Eq, Structural)]
pub enum FlowStep {
    /// The game is over: the board says how it ended.
    ShowResult,
    /// The computer chooses a move and plays it.
    ComputerMoves,
    /// The board waits for the human to click.
    HumanMoves,
}

impl Default for HighlightedSquare {
    fn default() -> (highlighted: Self)
        ensures
            highlighted.squares()@.len() == 0,
    {
        HighlightedSquare { squares: Vec::new() }
    }
}

impl Default for Piece {
    fn default() -> (piece: Self)
        ensures
            piece == (Piece { piece_type: 0, id: 0 }),
    {
        Piece { piece_type: 0, id: 0 }
    }
}

impl Default for PieceClicked {
    fn default() -> (picked: Self)
        ensures
            !picked.clicked(),
            picked.square() == (Square { row: 0, col: 0 }),
            picked.piece() == (Piece { piece_type: 0, id: 0 }),
    {
        PieceClicked {
            clicked: false,
            square: Square { row: 0, col: 0 },
            piece: Piece { piece_type: 0, id: 0 },
        }
    }
}

impl Default for LegalMovesForPieceResource {
    fn default() -> (legal_moves: Self)
        ensures
            legal_moves.moves@.len() == 0,
    {
        LegalMovesForPieceResource { moves: Vec::new() }
    }
}

impl HighlightedSquare {
/// The squares that are highlighted, in the order of the moves that lead
/// to them.
    pub closed spec fn squares(&self) -> Vec<Square> {
        self.squares
    }

/// The squares that are highlighted.
    pub fn get_squares(&self) -> (squares: &Vec<Square>)
        ensures
            *squares == self.squares(),
    {
        &self.squares
    }
}

impl PieceClicked {
/// Whether a piece is picked.
    pub closed spec fn clicked(&self) -> bool {
        self.clicked
    }

/// The square of the piece that was clicked last.
    pub closed spec fn square(&self) -> Square {
        self.square
    }

/// The piece that was clicked last.
    pub closed spec fn piece(&self) -> Piece {
        self.piece
    }

/// Whether a piece is picked.
    pub fn is_clicked(&self) -> (clicked: bool)
        ensures
            clicked == self.clicked(),
    {
        self.clicked
    }

/// The square of the piece that was clicked last.
    pub fn get_square(&self) -> (square: Square)
        ensures
            square == self.square(),
    {
        self.square
    }

/// The piece that was clicked last.
    pub fn get_piece(&self) -> (piece: Piece)
        ensures
            piece == self.piece(),
    {
        self.piece
    }
}

/// The squares that `moves` end on, in the order of `moves`.
pub open spec fn targets(moves: Seq<Move>) -> Seq<Square> {
    moves.map_values(|m: Move| m.to)
}

/// `place` is the first place in `moves` that holds a move to `square`.
pub open spec fn first_to(moves: Seq<Move>, square: Square, place: int) -> bool {
    &&& 0 <= place < moves.len()
    &&& moves[place].to == square
    &&& forall|i: int| 0 <= i < place ==> (#[trigger] moves[i]).to != square
}

/// A click on the piece of kind `piece_type` on `square`: the piece is
/// picked, `legal_moves` holds the moves that it may make, in the order of
/// `move_rank`, and `highlighted` the squares that they end on. The game
/// stays as it is.
pub fn click_piece(
    game_manager: &mut GameManager,
    square: Square,
    piece_type: i8,
    piece_clicked: &mut PieceClicked,
    highlighted: &mut HighlightedSquare,
    legal_moves: &mut LegalMovesForPieceResource,
)
    ensures
        final(game_manager)@ == old(game_manager)@,
        final(game_manager).players() == old(game_manager).players(),
        final(game_manager).engine() == old(game_manager).engine(),
        final(piece_clicked).clicked(),
        final(piece_clicked).square() == square,
        final(piece_clicked).piece() == (Piece { piece_type, id: old(piece_clicked).piece().id }),
        forall|m: Move|
            final(legal_moves).moves@.contains(m) <==> old(game_manager)@.admits(m) && m.from
                == square,
        ranked(old(game_manager)@.board, final(legal_moves).moves@),
        final(highlighted).squares()@ == targets(final(legal_moves).moves@),
{
    piece_clicked.clicked = true;
    piece_clicked.square.col = square.col;
    piece_clicked.square.row = square.row;
    piece_clicked.piece.piece_type = piece_type;

    highlighted.squares.clear();
    legal_moves.moves.clear();

    let ghost key = |m: Move| move_rank(old(game_manager)@.board, m);
    let all_moves = game_manager.get_legal_moves();
    let mut i: usize = 0;
    while i < all_moves.len()
        invariant
            i <= all_moves.len(),
            key == (|m: Move| move_rank(old(game_manager)@.board, m)),
            increasing(all_moves@, key),
            increasing(legal_moves.moves@, key),
            forall|a: int|
                0 <= a < legal_moves.moves@.len() ==> all_moves@.contains(
                    #[trigger] legal_moves.moves@[a],
                ) && legal_moves.moves@[a].from == square,
            forall|k: int|
                0 <= k < i && (#[trigger] all_moves[k]).from == square
                    ==> legal_moves.moves@.contains(all_moves[k]),
            i < all_moves.len() ==> forall|a: int|
                0 <= a < legal_moves.moves@.len() ==> key(#[trigger] legal_moves.moves@[a]) < key(
                    all_moves[i as int],
                ),
            highlighted.squares@ =~= targets(legal_moves.moves@),
        decreases all_moves.len() - i,
    {
        let legal_move = all_moves[i];
        let ghost kept = legal_moves.moves@;
        if legal_move.from.row == square.row && legal_move.from.col == square.col {
            highlighted.squares.push(legal_move.to);
            legal_moves.moves.push(legal_move);
            proof {
                assert forall|x: Move| kept.contains(x) implies legal_moves.moves@.contains(x) by {
                    vstd::seq_lib::lemma_seq_contains_after_push(kept, legal_move, x);
                }
                vstd::seq_lib::lemma_seq_contains_after_push(kept, legal_move, legal_move);
                assert(all_moves@.contains(legal_move));
            }
        }
        proof {
            if i + 1 < all_moves.len() {
                assert(key(all_moves[i as int]) < key(all_moves[i + 1]));
            }
        }
        i += 1;
    }
    proof {
        assert forall|m: Move|
            legal_moves.moves@.contains(m) <==> old(game_manager)@.admits(m) && m.from
                == square by {
            if legal_moves.moves@.contains(m) {
                let a = choose|a: int|
                    0 <= a < legal_moves.moves@.len() && legal_moves.moves@[a] == m;
                assert(all_moves@.contains(legal_moves.moves@[a]));
            }
            if old(game_manager)@.admits(m) && m.from == square {
                assert(all_moves@.contains(m));
                let k = choose|k: int| 0 <= k < all_moves.len() && all_moves[k] == m;
                assert(legal_moves.moves@.contains(all_moves[k]));
            }
        }
    }
}

/// A click on the empty square `square`. Where a piece is picked and
/// `square` is one of the squares it can go to, the piece is no longer
/// picked, no square is highlighted, and the answer is the first of
/// `legal_moves` that ends on `square`. Else nothing changes and the answer
/// is `None`.
pub fn click_square(
    square: Square,
    piece_clicked: &mut PieceClicked,
    highlighted: &mut HighlightedSquare,
    legal_moves: &LegalMovesForPieceResource,
) -> (chosen: Option<Move>)
    ensures
        final(piece_clicked).square() == old(piece_clicked).square(),
        final(piece_clicked).piece() == old(piece_clicked).piece(),
        old(piece_clicked).clicked() && old(highlighted).squares()@.contains(square) ==> {
            &&& !final(piece_clicked).clicked()
            &&& final(highlighted).squares()@.len() == 0
            &&& chosen matches Some(m) ==> exists|place: int|
                first_to(legal_moves.moves@, square, place) && #[trigger] legal_moves.moves@[place]
                    == m
            &&& chosen is None ==> forall|i: int|
                0 <= i < legal_moves.moves@.len() ==> (#[trigger] legal_moves.moves@[i]).to
                    != square
        },
        !(old(piece_clicked).clicked() && old(highlighted).squares()@.contains(square)) ==> {
            &&& chosen is None
            &&& final(piece_clicked).clicked() == old(piece_clicked).clicked()
            &&& final(highlighted).squares() == old(highlighted).squares()
        },
{
    let mut lit = false;
    let mut i: usize = 0;
    while i < highlighted.squares.len() && !lit
        invariant
            i <= highlighted.squares.len(),
            *highlighted == *old(highlighted),
            lit ==> highlighted.squares@.contains(square),
            !lit ==> forall|k: int| 0 <= k < i ==> highlighted.squares@[k] != square,
        decreases highlighted.squares.len() - i + (if lit { 0int } else { 1int }),
    {
        if highlighted.squares[i].row == square.row && highlighted.squares[i].col == square.col {
            lit = true;
        } else {
            i += 1;
        }
    }
    if !(lit && piece_clicked.clicked) {
        return None;
    }
    piece_clicked.clicked = false;
    highlighted.squares.clear();

    let mut j: usize = 0;
    while j < legal_moves.moves.len()
        invariant
            j <= legal_moves.moves.len(),
            forall|k: int| 0 <= k < j ==> (#[trigger] legal_moves.moves@[k]).to != square,
            old(piece_clicked).clicked() && old(highlighted).squares()@.contains(square),
            !piece_clicked.clicked,
            piece_clicked.square == old(piece_clicked).square,
            piece_clicked.piece == old(piece_clicked).piece,
            highlighted.squares@.len() == 0,
        decreases legal_moves.moves.len() - j,
    {
        let m = legal_moves.moves[j];
        if m.to.row == square.row && m.to.col == square.col {
            proof {
                assert(first_to(legal_moves.moves@, square, j as int));
            }
            return Some(m);
        }
        j += 1;
    }
    None
}

/// What the board does next: it shows the result where the game is over;
/// else the computer moves where it plays the side to move; else the board
/// waits for the human.
pub fn next_step(game_manager: &GameManager) -> (step: FlowStep)
    ensures
        step == (if game_manager@.status != GameStatus::Playing {
            FlowStep::ShowResult
        } else if (match game_manager@.turn {
            Turn::Red => game_manager.players().red,
            Turn::Black => game_manager.players().black,
        }) == GamePlayer::Computer {
            FlowStep::ComputerMoves
        } else {
            FlowStep::HumanMoves
        }),
{
    if game_manager.get_game_status() != GameStatus::Playing {
        FlowStep::ShowResult
    } else if game_manager.current_player() == GamePlayer::Computer {
        FlowStep::ComputerMoves
    } else {
        FlowStep::HumanMoves
    }
}

/// How the board words the end of a game.
pub fn winner_name(status: GameStatus) -> (name: &'static str)
    ensures
        name@ == (match status {
            GameStatus::RedWins => "Red wins!!"@,
            GameStatus::BlackWins => "Black wins!!"@,
            _ => "Draw!!"@,
        }),
{
    match status {
        GameStatus::RedWins => "Red wins!!",
        GameStatus::BlackWins => "Black wins!!",
        _ => "Draw!!",
    }
}

/// The sign that stands for `piece` where a board is printed.
pub fn piece_symbol(piece: i8) -> (symbol: &'static str)
    ensures
        symbol@ == (if piece == WHITE_PAWN {
            "●"@
        } else if piece == BLACK_PAWN {
            "○"@
        } else if piece == WHITE_QUEEN {
            "◉"@
        } else if piece == BLACK_QUEEN {
            "◎"@
        } else if piece == EMPTY {
            "·"@
        } else {
            "?"@
        }),
{
    match piece {
        WHITE_PAWN => "●",
        BLACK_PAWN => "○",
        WHITE_QUEEN => "◉",
        BLACK_QUEEN => "◎",
        EMPTY => "·",
        _ => "?",
    }
}

} // verus!
