use checkers_engine::comun::{
    BandPlayer, GamePlayer, GameStatus, Move, Square, Turn, BLACK_PAWN, BLACK_QUEEN, EMPTY,
    WHITE_PAWN, WHITE_QUEEN,
};
use checkers_engine::game_manager::GameManager;

fn bare_board() -> [[i8; 8]; 8] {
    [[EMPTY; 8]; 8]
}

fn at(row: usize, col: usize) -> Square {
    Square { row, col }
}

fn step(turn: Turn, from: Square, to: Square) -> Move {
    Move { turn, from, to, eat: None, promotion: false }
}

fn game_on(board: [[i8; 8]; 8], turn: Turn) -> GameManager {
    GameManager::from_position(board, turn).unwrap()
}

#[test]
fn new_game_is_as_the_rules_say() {
    let game = GameManager::new();
    assert!(game.get_turn() == Turn::Red);
    assert!(game.get_game_status() == GameStatus::Playing);
    assert!(game.get_band_player().red == GamePlayer::Human);
    assert!(game.get_band_player().black == GamePlayer::Computer);
    assert!(game.current_player() == GamePlayer::Human);
    assert_eq!(game.get_moves_with_no_capture(), 0);
    assert_eq!(game.get_moves_played(), 0);
    let other = GameManager::default();
    assert_eq!(*other.get_board(), *game.get_board());
    assert!(other.get_turn() == Turn::Red);
}

#[test]
fn defaults_of_the_plain_values() {
    assert_eq!(Square::default(), Square { row: 0, col: 0 });
    assert!(Turn::default() == Turn::Red);
    assert!(GameStatus::default() == GameStatus::Playing);
    assert!(GamePlayer::default() == GamePlayer::Human);
    let players = BandPlayer::default();
    assert!(players.red == GamePlayer::Human && players.black == GamePlayer::Human);
    assert!(GameStatus::RedWins != GameStatus::BlackWins);
    assert!(GameStatus::Draw == GameStatus::Draw);
    assert!(GamePlayer::Computer != GamePlayer::Human);
}

#[test]
fn moves_compare_by_their_fields() {
    let a = Move {
        turn: Turn::Red,
        from: at(2, 2),
        to: at(4, 4),
        eat: Some((at(3, 3), BLACK_PAWN)),
        promotion: false,
    };
    let mut b = a;
    assert!(a == b);
    b.eat = Some((at(3, 3), BLACK_QUEEN));
    assert!(a != b);
    b.eat = None;
    assert!(a != b);
    b = a;
    b.promotion = true;
    assert!(a != b);
    b = a;
    b.turn = Turn::Black;
    assert!(a != b);
    b = a;
    b.to = at(4, 0);
    assert!(a != b);
}

#[test]
fn position_with_a_strange_value_is_refused() {
    let mut board = bare_board();
    board[4][4] = 3;
    assert!(GameManager::from_position(board, Turn::Red).is_none());
    board[4][4] = -3;
    assert!(GameManager::from_position(board, Turn::Black).is_none());
    board[4][4] = -2;
    assert!(GameManager::from_position(board, Turn::Black).is_some());
}

#[test]
fn do_then_undo_restores_everything() {
    let mut game = GameManager::new();
    let moves = game.get_legal_moves().clone();
    for m in moves {
        let board = *game.get_board();
        game.do_move(m);
        assert!(game.get_turn() == Turn::Black);
        assert_eq!(game.get_board()[m.from.row][m.from.col], EMPTY);
        assert_eq!(game.get_board()[m.to.row][m.to.col], WHITE_PAWN);
        assert_eq!(game.get_moves_with_no_capture(), 1);
        assert_eq!(game.get_moves_played(), 1);
        game.undo_move(m);
        assert_eq!(*game.get_board(), board);
        assert!(game.get_turn() == Turn::Red);
        assert!(game.get_game_status() == GameStatus::Playing);
        assert_eq!(game.get_moves_with_no_capture(), 0);
        assert_eq!(game.get_moves_played(), 0);
    }
}

#[test]
fn undo_restores_the_count_of_quiet_moves() {
    let mut board = bare_board();
    board[0][0] = WHITE_QUEEN;
    board[7][1] = BLACK_QUEEN;
    board[3][7] = WHITE_PAWN;
    board[5][7] = BLACK_PAWN;
    let mut game = game_on(board, Turn::Red);
    // fifteen moves without a capture
    for i in 0..15 {
        let m = match i % 4 {
            0 => step(Turn::Red, at(0, 0), at(1, 1)),
            1 => step(Turn::Black, at(7, 1), at(6, 0)),
            2 => step(Turn::Red, at(1, 1), at(0, 0)),
            _ => step(Turn::Black, at(6, 0), at(7, 1)),
        };
        assert!(game.try_move(m));
    }
    assert!(game.get_game_status() == GameStatus::Playing);
    assert!(game.get_turn() == Turn::Black);
    assert_eq!(game.get_moves_with_no_capture(), 15);
    let before = *game.get_board();
    let sixteenth = step(Turn::Black, at(5, 7), at(4, 6));
    assert!(game.try_move(sixteenth));
    assert!(game.get_game_status() == GameStatus::Draw);
    assert_eq!(game.get_moves_with_no_capture(), 16);
    assert_eq!(game.get_moves_played(), 16);
    game.undo_move(sixteenth);
    assert_eq!(game.get_moves_with_no_capture(), 15);
    assert_eq!(game.get_moves_played(), 15);
    assert!(game.get_game_status() == GameStatus::Playing);
    assert_eq!(*game.get_board(), before);
    assert!(game.get_turn() == Turn::Black);
}

#[test]
fn capture_resets_the_count_of_quiet_moves() {
    let mut board = bare_board();
    board[0][0] = WHITE_QUEEN;
    board[7][1] = BLACK_QUEEN;
    board[3][7] = WHITE_PAWN;
    board[5][7] = BLACK_PAWN;
    let mut game = game_on(board, Turn::Red);
    for i in 0..14 {
        let m = match i % 4 {
            0 => step(Turn::Red, at(0, 0), at(1, 1)),
            1 => step(Turn::Black, at(7, 1), at(6, 0)),
            2 => step(Turn::Red, at(1, 1), at(0, 0)),
            _ => step(Turn::Black, at(6, 0), at(7, 1)),
        };
        assert!(game.try_move(m));
    }
    // the red king stands on (1, 1) and the black one on (6, 0)
    assert!(game.get_turn() == Turn::Red);
    assert!(game.try_move(step(Turn::Red, at(3, 7), at(4, 6))));
    // fifteen quiet moves so far; black must capture now
    let take = Move {
        turn: Turn::Black,
        from: at(5, 7),
        to: at(3, 5),
        eat: Some((at(4, 6), WHITE_PAWN)),
        promotion: false,
    };
    assert_eq!(game.get_legal_moves().clone(), vec![take]);
    assert_eq!(game.get_moves_with_no_capture(), 15);
    game.do_move(take);
    assert_eq!(game.get_moves_with_no_capture(), 0);
    assert_eq!(game.get_moves_played(), 16);
    assert!(game.get_game_status() == GameStatus::Playing);
    assert!(game.get_turn() == Turn::Red);
    game.undo_move(take);
    assert_eq!(game.get_moves_with_no_capture(), 15);
    assert_eq!(game.get_board()[4][6], WHITE_PAWN);
    assert_eq!(game.get_board()[5][7], BLACK_PAWN);
    assert_eq!(game.get_board()[3][5], EMPTY);
    assert!(game.get_turn() == Turn::Black);
    game.do_move(take);
    // fifteen more quiet moves do not end the game, the sixteenth does
    for i in 0..15 {
        let m = match i % 4 {
            0 => step(Turn::Red, at(1, 1), at(0, 0)),
            1 => step(Turn::Black, at(6, 0), at(7, 1)),
            2 => step(Turn::Red, at(0, 0), at(1, 1)),
            _ => step(Turn::Black, at(7, 1), at(6, 0)),
        };
        assert!(game.try_move(m));
        assert!(game.get_game_status() == GameStatus::Playing);
    }
    assert!(game.try_move(step(Turn::Black, at(7, 1), at(6, 0))));
    assert!(game.get_game_status() == GameStatus::Draw);
}

#[test]
fn sixteen_quiet_moves_draw_the_game() {
    let mut board = bare_board();
    board[0][0] = WHITE_QUEEN;
    board[7][1] = BLACK_QUEEN;
    let mut game = game_on(board, Turn::Red);
    for i in 0..16 {
        assert!(game.get_game_status() == GameStatus::Playing);
        let m = match i % 4 {
            0 => step(Turn::Red, at(0, 0), at(1, 1)),
            1 => step(Turn::Black, at(7, 1), at(6, 0)),
            2 => step(Turn::Red, at(1, 1), at(0, 0)),
            _ => step(Turn::Black, at(6, 0), at(7, 1)),
        };
        game.do_move(m);
    }
    assert!(game.get_game_status() == GameStatus::Draw);
    assert!(game.calculate_game_status() == GameStatus::Draw);
    // both sides still have pieces and moves
    assert!(!game.get_legal_moves().is_empty());
    assert_eq!(game.get_board()[0][0], WHITE_QUEEN);
    assert_eq!(game.get_board()[7][1], BLACK_QUEEN);
}

#[test]
fn man_is_promoted_and_demoted_again() {
    let mut board = bare_board();
    board[6][0] = WHITE_PAWN;
    board[0][6] = BLACK_PAWN;
    let mut game = game_on(board, Turn::Red);
    let m = Move { turn: Turn::Red, from: at(6, 0), to: at(7, 1), eat: None, promotion: true };
    assert_eq!(game.get_legal_moves().clone(), vec![m]);
    game.do_move(m);
    assert_eq!(game.get_board()[7][1], WHITE_QUEEN);
    assert_eq!(game.get_board()[6][0], EMPTY);
    assert!(game.get_turn() == Turn::Black);
    game.undo_move(m);
    assert_eq!(game.get_board()[6][0], WHITE_PAWN);
    assert_eq!(game.get_board()[7][1], EMPTY);
    assert!(game.get_turn() == Turn::Red);
}

#[test]
fn black_man_is_promoted_on_row_zero() {
    let mut board = bare_board();
    board[1][1] = BLACK_PAWN;
    board[7][7] = WHITE_PAWN;
    board[5][5] = WHITE_PAWN;
    let mut game = game_on(board, Turn::Black);
    let m = Move { turn: Turn::Black, from: at(1, 1), to: at(0, 2), eat: None, promotion: true };
    assert!(game.try_move(m));
    assert_eq!(game.get_board()[0][2], BLACK_QUEEN);
    game.undo_move(m);
    assert_eq!(game.get_board()[1][1], BLACK_PAWN);
    assert_eq!(game.get_board()[0][2], EMPTY);
}

#[test]
fn side_keeps_the_move_while_its_piece_can_capture_again() {
    let mut board = bare_board();
    board[2][2] = WHITE_PAWN;
    board[3][3] = BLACK_PAWN;
    board[5][5] = BLACK_PAWN;
    board[7][1] = BLACK_PAWN;
    let mut game = game_on(board, Turn::Red);
    let first = Move {
        turn: Turn::Red,
        from: at(2, 2),
        to: at(4, 4),
        eat: Some((at(3, 3), BLACK_PAWN)),
        promotion: false,
    };
    game.do_move(first);
    assert_eq!(game.get_board()[3][3], EMPTY);
    assert_eq!(game.get_board()[4][4], WHITE_PAWN);
    assert!(game.get_turn() == Turn::Red);
    let second = Move {
        turn: Turn::Red,
        from: at(4, 4),
        to: at(6, 6),
        eat: Some((at(5, 5), BLACK_PAWN)),
        promotion: false,
    };
    assert_eq!(game.get_legal_moves().clone(), vec![second]);
    game.do_move(second);
    assert!(game.get_turn() == Turn::Black);
    assert!(game.get_game_status() == GameStatus::Playing);
    game.undo_move(second);
    assert!(game.get_turn() == Turn::Red);
    assert_eq!(game.get_board()[5][5], BLACK_PAWN);
    game.undo_move(first);
    assert!(game.get_turn() == Turn::Red);
    assert_eq!(*game.get_board(), board);
}

#[test]
fn man_that_becomes_a_king_by_a_capture_may_capture_on() {
    let mut board = bare_board();
    board[5][1] = WHITE_PAWN;
    board[6][2] = BLACK_PAWN;
    board[6][4] = BLACK_PAWN;
    board[0][6] = BLACK_PAWN;
    let mut game = game_on(board, Turn::Red);
    let m = Move {
        turn: Turn::Red,
        from: at(5, 1),
        to: at(7, 3),
        eat: Some((at(6, 2), BLACK_PAWN)),
        promotion: true,
    };
    assert_eq!(game.get_legal_moves().clone(), vec![m]);
    game.do_move(m);
    assert_eq!(game.get_board()[7][3], WHITE_QUEEN);
    // the new king can take the man on (6, 4)
    assert!(game.get_turn() == Turn::Red);
    let targets: Vec<(usize, usize)> =
        game.get_legal_moves().iter().map(|x| (x.to.row, x.to.col)).collect();
    assert_eq!(targets, vec![(5, 5), (4, 6), (3, 7)]);
    game.undo_move(m);
    assert_eq!(*game.get_board(), board);
    assert!(game.get_turn() == Turn::Red);
}

#[test]
fn capture_without_a_further_one_passes_the_move() {
    let mut board = bare_board();
    board[2][2] = WHITE_PAWN;
    board[3][3] = BLACK_PAWN;
    board[7][7] = BLACK_PAWN;
    let mut game = game_on(board, Turn::Red);
    let m = Move {
        turn: Turn::Red,
        from: at(2, 2),
        to: at(4, 4),
        eat: Some((at(3, 3), BLACK_PAWN)),
        promotion: false,
    };
    game.do_move(m);
    assert!(game.get_turn() == Turn::Black);
}

#[test]
fn side_without_a_move_has_lost() {
    let mut board = bare_board();
    board[7][0] = WHITE_PAWN;
    board[0][6] = BLACK_PAWN;
    let mut game = game_on(board, Turn::Red);
    assert!(game.get_legal_moves().is_empty());
    assert!(game.get_game_status() == GameStatus::BlackWins);

    let mut board = bare_board();
    board[0][1] = BLACK_PAWN;
    board[7][1] = WHITE_PAWN;
    let mut game = game_on(board, Turn::Black);
    assert!(game.get_legal_moves().is_empty());
    assert!(game.get_game_status() == GameStatus::RedWins);
}

#[test]
fn side_without_a_piece_has_lost() {
    let mut board = bare_board();
    board[3][3] = WHITE_QUEEN;
    let game = game_on(board, Turn::Red);
    assert!(game.get_game_status() == GameStatus::RedWins);
    let game = game_on(board, Turn::Black);
    assert!(game.get_game_status() == GameStatus::RedWins);

    let mut board = bare_board();
    board[3][3] = BLACK_PAWN;
    let game = game_on(board, Turn::Black);
    assert!(game.get_game_status() == GameStatus::BlackWins);
    let game = game_on(board, Turn::Red);
    assert!(game.get_game_status() == GameStatus::BlackWins);
}

#[test]
fn last_capture_wins_the_game() {
    let mut board = bare_board();
    board[2][2] = WHITE_PAWN;
    board[3][3] = BLACK_PAWN;
    let mut game = game_on(board, Turn::Red);
    assert!(game.get_game_status() == GameStatus::Playing);
    let m = Move {
        turn: Turn::Red,
        from: at(2, 2),
        to: at(4, 4),
        eat: Some((at(3, 3), BLACK_PAWN)),
        promotion: false,
    };
    game.do_move(m);
    assert!(game.get_game_status() == GameStatus::RedWins);
    game.undo_move(m);
    assert!(game.get_game_status() == GameStatus::Playing);
}

#[test]
fn try_move_refuses_what_the_rules_do_not_admit() {
    let mut game = GameManager::new();
    let board = *game.get_board();
    // backwards
    assert!(!game.try_move(step(Turn::Red, at(2, 2), at(1, 1))));
    // a piece of the side that is not to move
    assert!(!game.try_move(step(Turn::Black, at(5, 1), at(4, 0))));
    // the wrong side named in the move
    assert!(!game.try_move(step(Turn::Black, at(2, 2), at(3, 3))));
    // a promotion that is none
    assert!(!game.try_move(Move {
        turn: Turn::Red,
        from: at(2, 2),
        to: at(3, 3),
        eat: None,
        promotion: true,
    }));
    // off the board
    assert!(!game.try_move(step(Turn::Red, at(2, 6), at(3, 8))));
    assert_eq!(*game.get_board(), board);
    assert!(game.get_turn() == Turn::Red);
    assert!(game.try_move(step(Turn::Red, at(2, 2), at(3, 3))));
    assert!(game.get_turn() == Turn::Black);
    assert!(game.current_player() == GamePlayer::Computer);
}

#[test]
fn try_move_refuses_a_quiet_move_where_a_capture_is_forced() {
    let mut board = bare_board();
    board[2][2] = WHITE_PAWN;
    board[3][3] = BLACK_PAWN;
    board[0][6] = WHITE_PAWN;
    let mut game = game_on(board, Turn::Red);
    assert!(!game.try_move(step(Turn::Red, at(0, 6), at(1, 7))));
    assert!(!game.try_move(step(Turn::Red, at(2, 2), at(3, 1))));
    assert_eq!(*game.get_board(), board);
}

#[test]
fn clone_is_a_game_of_its_own() {
    let mut game = GameManager::new();
    let copy = game.clone();
    game.do_move(step(Turn::Red, at(2, 2), at(3, 3)));
    assert!(copy.get_turn() == Turn::Red);
    assert_eq!(copy.get_board()[2][2], WHITE_PAWN);
    assert_eq!(game.get_board()[2][2], EMPTY);
}
