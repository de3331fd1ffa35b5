use checkers_engine::comun::{
    GameStatus, Move, Square, Turn, BLACK_PAWN, BLACK_QUEEN, EMPTY, WHITE_PAWN, WHITE_QUEEN,
};
use checkers_engine::game_manager::GameManager;

fn empty_board() -> [[i8; 8]; 8] {
    [[EMPTY; 8]; 8]
}

fn sq(row: usize, col: usize) -> Square {
    Square { row, col }
}

fn quiet(turn: Turn, from: Square, to: Square) -> Move {
    Move { turn, from, to, eat: None, promotion: false }
}

fn capture(turn: Turn, from: Square, to: Square, over: Square, piece: i8) -> Move {
    Move { turn, from, to, eat: Some((over, piece)), promotion: false }
}

fn position(board: [[i8; 8]; 8], turn: Turn) -> GameManager {
    GameManager::from_position(board, turn).unwrap()
}

#[test]
fn start_has_seven_moves_and_no_capture() {
    let mut game = GameManager::new();
    assert!(game.get_turn() == Turn::Red);
    assert!(game.get_game_status() == GameStatus::Playing);
    let moves = game.get_legal_moves().clone();
    assert_eq!(moves.len(), 7);
    assert!(moves.iter().all(|m| m.eat.is_none()));
    assert!(moves.iter().all(|m| !m.promotion));
    assert!(moves.iter().all(|m| m.turn == Turn::Red));
}

#[test]
fn start_moves_come_in_their_order() {
    let mut game = GameManager::new();
    let moves = game.get_legal_moves().clone();
    let expected = vec![
        quiet(Turn::Red, sq(2, 0), sq(3, 1)),
        quiet(Turn::Red, sq(2, 2), sq(3, 1)),
        quiet(Turn::Red, sq(2, 2), sq(3, 3)),
        quiet(Turn::Red, sq(2, 4), sq(3, 3)),
        quiet(Turn::Red, sq(2, 4), sq(3, 5)),
        quiet(Turn::Red, sq(2, 6), sq(3, 5)),
        quiet(Turn::Red, sq(2, 6), sq(3, 7)),
    ];
    assert_eq!(moves, expected);
}

#[test]
fn start_board_is_the_standard_one() {
    let game = GameManager::new();
    let board = game.get_board();
    for row in 0..8 {
        for col in 0..8 {
            let expected = if (row + col) % 2 != 0 {
                EMPTY
            } else if row < 3 {
                WHITE_PAWN
            } else if row >= 5 {
                BLACK_PAWN
            } else {
                EMPTY
            };
            assert_eq!(board[row][col], expected);
        }
    }
}

#[test]
fn black_men_walk_down() {
    let mut game = GameManager::new();
    game.do_move(quiet(Turn::Red, sq(2, 0), sq(3, 1)));
    assert!(game.get_turn() == Turn::Black);
    let moves = game.get_legal_moves().clone();
    let expected = vec![
        quiet(Turn::Black, sq(5, 1), sq(4, 0)),
        quiet(Turn::Black, sq(5, 1), sq(4, 2)),
        quiet(Turn::Black, sq(5, 3), sq(4, 2)),
        quiet(Turn::Black, sq(5, 3), sq(4, 4)),
        quiet(Turn::Black, sq(5, 5), sq(4, 4)),
        quiet(Turn::Black, sq(5, 5), sq(4, 6)),
        quiet(Turn::Black, sq(5, 7), sq(4, 6)),
    ];
    assert_eq!(moves, expected);
}

#[test]
fn capture_is_forced() {
    let mut board = empty_board();
    board[2][2] = WHITE_PAWN;
    board[3][3] = BLACK_PAWN;
    board[0][6] = WHITE_PAWN;
    board[7][7] = BLACK_PAWN;
    let mut game = position(board, Turn::Red);
    let moves = game.get_legal_moves().clone();
    assert_eq!(moves, vec![capture(Turn::Red, sq(2, 2), sq(4, 4), sq(3, 3), BLACK_PAWN)]);
}

#[test]
fn black_capture_is_forced_too() {
    let mut board = empty_board();
    board[5][5] = BLACK_PAWN;
    board[4][4] = WHITE_QUEEN;
    board[7][1] = BLACK_PAWN;
    board[0][0] = WHITE_PAWN;
    let mut game = position(board, Turn::Black);
    let moves = game.get_legal_moves().clone();
    assert_eq!(moves, vec![capture(Turn::Black, sq(5, 5), sq(3, 3), sq(4, 4), WHITE_QUEEN)]);
}

#[test]
fn man_does_not_jump_its_own_side_or_onto_a_piece() {
    let mut board = empty_board();
    board[2][2] = WHITE_PAWN;
    board[3][3] = WHITE_PAWN;
    board[3][1] = BLACK_PAWN;
    board[4][0] = BLACK_PAWN;
    let mut game = position(board, Turn::Red);
    let moves = game.get_legal_moves().clone();
    let expected = vec![
        quiet(Turn::Red, sq(3, 3), sq(4, 2)),
        quiet(Turn::Red, sq(3, 3), sq(4, 4)),
    ];
    assert_eq!(moves, expected);
}

#[test]
fn man_at_the_edge_stays_on_the_board() {
    let mut board = empty_board();
    board[3][7] = WHITE_PAWN;
    board[4][6] = BLACK_PAWN;
    board[5][5] = BLACK_PAWN;
    board[3][0] = WHITE_PAWN;
    let mut game = position(board, Turn::Red);
    let moves = game.get_legal_moves().clone();
    assert_eq!(moves, vec![quiet(Turn::Red, sq(3, 0), sq(4, 1))]);
}

#[test]
fn man_steps_then_jumps_left_before_right() {
    let mut board = empty_board();
    board[2][2] = WHITE_PAWN;
    let mut game = position(board, Turn::Red);
    let moves = game.get_legal_moves().clone();
    let expected = vec![
        quiet(Turn::Red, sq(2, 2), sq(3, 1)),
        quiet(Turn::Red, sq(2, 2), sq(3, 3)),
    ];
    assert_eq!(moves, expected);

    let mut board = empty_board();
    board[2][2] = WHITE_PAWN;
    board[3][1] = BLACK_PAWN;
    board[3][3] = BLACK_QUEEN;
    let mut game = position(board, Turn::Red);
    let moves = game.get_legal_moves().clone();
    let expected = vec![
        capture(Turn::Red, sq(2, 2), sq(4, 0), sq(3, 1), BLACK_PAWN),
        capture(Turn::Red, sq(2, 2), sq(4, 4), sq(3, 3), BLACK_QUEEN),
    ];
    assert_eq!(moves, expected);
}

#[test]
fn promotion_flag_is_set_on_the_far_row() {
    let mut board = empty_board();
    board[6][2] = WHITE_PAWN;
    board[0][0] = BLACK_QUEEN;
    let mut game = position(board, Turn::Red);
    let moves = game.get_legal_moves().clone();
    let expected = vec![
        Move { turn: Turn::Red, from: sq(6, 2), to: sq(7, 1), eat: None, promotion: true },
        Move { turn: Turn::Red, from: sq(6, 2), to: sq(7, 3), eat: None, promotion: true },
    ];
    assert_eq!(moves, expected);

    let mut board = empty_board();
    board[2][2] = BLACK_PAWN;
    board[1][1] = WHITE_PAWN;
    let mut game = position(board, Turn::Black);
    let moves = game.get_legal_moves().clone();
    let expected = vec![Move {
        turn: Turn::Black,
        from: sq(2, 2),
        to: sq(0, 0),
        eat: Some((sq(1, 1), WHITE_PAWN)),
        promotion: true,
    }];
    assert_eq!(moves, expected);
}

#[test]
fn king_slides_along_the_four_diagonals() {
    let mut board = empty_board();
    board[3][3] = WHITE_QUEEN;
    let mut game = position(board, Turn::Red);
    let moves = game.get_legal_moves().clone();
    let targets: Vec<(usize, usize)> = moves.iter().map(|m| (m.to.row, m.to.col)).collect();
    let expected = vec![
        (4, 4),
        (5, 5),
        (6, 6),
        (7, 7),
        (4, 2),
        (5, 1),
        (6, 0),
        (2, 4),
        (1, 5),
        (0, 6),
        (2, 2),
        (1, 1),
        (0, 0),
    ];
    assert_eq!(targets, expected);
    assert!(moves.iter().all(|m| m.eat.is_none() && !m.promotion && m.from == sq(3, 3)));
}

#[test]
fn king_captures_onto_each_square_beyond() {
    let mut board = empty_board();
    board[0][0] = WHITE_QUEEN;
    board[3][3] = BLACK_PAWN;
    let mut game = position(board, Turn::Red);
    let moves = game.get_legal_moves().clone();
    let expected = vec![
        capture(Turn::Red, sq(0, 0), sq(4, 4), sq(3, 3), BLACK_PAWN),
        capture(Turn::Red, sq(0, 0), sq(5, 5), sq(3, 3), BLACK_PAWN),
        capture(Turn::Red, sq(0, 0), sq(6, 6), sq(3, 3), BLACK_PAWN),
        capture(Turn::Red, sq(0, 0), sq(7, 7), sq(3, 3), BLACK_PAWN),
    ];
    assert_eq!(moves, expected);
}

#[test]
fn king_stops_at_its_own_side_and_at_two_pieces() {
    let mut board = empty_board();
    board[3][3] = BLACK_QUEEN;
    // up and to the right: a piece of its own side two steps away
    board[5][5] = BLACK_PAWN;
    // up and to the left: two red pieces in a row
    board[4][2] = WHITE_PAWN;
    board[5][1] = WHITE_PAWN;
    // down and to the right: a red piece with an empty square behind it
    board[1][5] = WHITE_PAWN;
    // down and to the left: a red piece on the edge
    board[0][0] = WHITE_QUEEN;
    let mut game = position(board, Turn::Black);
    let moves = game.get_legal_moves().clone();
    assert_eq!(moves, vec![capture(Turn::Black, sq(3, 3), sq(0, 6), sq(1, 5), WHITE_PAWN)]);
}

#[test]
fn king_slides_up_to_the_pieces_in_its_way() {
    let mut board = empty_board();
    board[3][3] = BLACK_QUEEN;
    board[5][5] = BLACK_PAWN;
    board[4][2] = WHITE_PAWN;
    board[5][1] = WHITE_PAWN;
    board[1][5] = WHITE_PAWN;
    board[0][6] = WHITE_PAWN;
    board[0][0] = WHITE_QUEEN;
    let mut game = position(board, Turn::Black);
    let moves = game.get_legal_moves().clone();
    let expected = vec![
        quiet(Turn::Black, sq(3, 3), sq(4, 4)),
        quiet(Turn::Black, sq(3, 3), sq(2, 4)),
        quiet(Turn::Black, sq(3, 3), sq(2, 2)),
        quiet(Turn::Black, sq(3, 3), sq(1, 1)),
        quiet(Turn::Black, sq(5, 5), sq(4, 4)),
        quiet(Turn::Black, sq(5, 5), sq(4, 6)),
    ];
    assert_eq!(moves, expected);
}

#[test]
fn king_takes_one_piece_only_on_a_diagonal() {
    let mut board = empty_board();
    board[0][0] = WHITE_QUEEN;
    board[2][2] = BLACK_PAWN;
    board[5][5] = BLACK_PAWN;
    let mut game = position(board, Turn::Red);
    let moves = game.get_legal_moves().clone();
    let expected = vec![
        capture(Turn::Red, sq(0, 0), sq(3, 3), sq(2, 2), BLACK_PAWN),
        capture(Turn::Red, sq(0, 0), sq(4, 4), sq(2, 2), BLACK_PAWN),
    ];
    assert_eq!(moves, expected);
}

#[test]
fn pieces_of_the_side_not_to_move_stay() {
    let mut board = empty_board();
    board[3][3] = WHITE_QUEEN;
    board[5][1] = BLACK_PAWN;
    let mut game = position(board, Turn::Black);
    let moves = game.get_legal_moves().clone();
    let expected = vec![
        quiet(Turn::Black, sq(5, 1), sq(4, 0)),
        quiet(Turn::Black, sq(5, 1), sq(4, 2)),
    ];
    assert_eq!(moves, expected);
}

#[test]
fn listing_moves_leaves_the_game_as_it_is() {
    let mut game = GameManager::new();
    let board = *game.get_board();
    let first = game.get_legal_moves().clone();
    let second = game.get_legal_moves().clone();
    assert_eq!(first, second);
    assert_eq!(*game.get_board(), board);
    assert!(game.get_turn() == Turn::Red);
    assert!(game.get_game_status() == GameStatus::Playing);
}
