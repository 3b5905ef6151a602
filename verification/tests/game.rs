use connect_n::Cell;
use connect_n::Game;
use connect_n::GameError;
use connect_n::Player;

/// Plays the given columns in order, expecting every move to be accepted.
fn play(game: &mut Game, columns: &[usize]) {
    for &column in columns {
        assert_eq!(game.make_move(column), Ok(()));
    }
}

#[test]
fn fresh_game_state() {
    for (w, h, n) in [(5, 5, 3), (7, 6, 4), (12, 9, 5)] {
        let game = Game::new(w, h, n).unwrap();
        assert_eq!(game.width(), w);
        assert_eq!(game.height(), h);
        assert_eq!(game.win_length(), n);
        assert!(!game.is_full());
        assert!(!game.check_win());
        assert_eq!(game.get_player(), Player::PlayerA);
    }
}

#[test]
fn new_game_refuses_zero_dimension() {
    assert!(matches!(Game::new(0, 5, 3), Err(GameError::InvalidDimensions)));
    assert!(matches!(Game::new(5, 0, 3), Err(GameError::InvalidDimensions)));
}

#[test]
fn drop_lands_in_bottom_row() {
    let mut game = Game::new(5, 5, 3).unwrap();
    assert_eq!(game.make_move(2), Ok(()));
    assert_eq!(game.board().get(4, 2), Cell::PlayerA);
    assert_eq!(game.board().get(3, 2), Cell::Empty);
    assert_eq!(game.board().get(4, 1), Cell::Empty);
}

#[test]
fn column_fills_bottom_to_top() {
    let mut game = Game::new(5, 5, 3).unwrap();
    play(&mut game, &[0, 0, 0, 0, 0]);
    assert_eq!(game.board().get(4, 0), Cell::PlayerA);
    assert_eq!(game.board().get(3, 0), Cell::PlayerB);
    assert_eq!(game.board().get(2, 0), Cell::PlayerA);
    assert_eq!(game.board().get(1, 0), Cell::PlayerB);
    assert_eq!(game.board().get(0, 0), Cell::PlayerA);
}

#[test]
fn full_column_is_refused_without_change() {
    let mut game = Game::new(5, 5, 4).unwrap();
    play(&mut game, &[0, 0, 0, 0, 0]);
    let before_player = game.get_player();
    assert_eq!(game.make_move(0), Err(GameError::ColumnFull));
    assert_eq!(game.get_player(), before_player);
    assert_eq!(game.board().get(0, 0), Cell::PlayerA);
    assert_eq!(game.board().get(1, 0), Cell::PlayerB);
    assert_eq!(game.board().get(4, 1), Cell::Empty);
}

#[test]
fn out_of_range_column_is_refused() {
    let mut game = Game::new(5, 5, 3).unwrap();
    assert_eq!(game.make_move(5), Err(GameError::ColumnOutOfRange));
    assert_eq!(game.make_move(17), Err(GameError::ColumnOutOfRange));
    assert_eq!(game.get_player(), Player::PlayerA);
}

#[test]
fn turns_alternate_strictly() {
    let mut game = Game::new(7, 6, 4).unwrap();
    assert_eq!(game.get_player(), Player::PlayerA);
    assert_eq!(game.make_move(3), Ok(()));
    assert_eq!(game.get_player(), Player::PlayerB);
    assert_eq!(game.make_move(3), Ok(()));
    assert_eq!(game.get_player(), Player::PlayerA);
    assert_eq!(game.make_move(9), Err(GameError::ColumnOutOfRange));
    assert_eq!(game.get_player(), Player::PlayerA);
    assert_eq!(game.make_move(0), Ok(()));
    assert_eq!(game.get_player(), Player::PlayerB);
}

#[test]
fn horizontal_win_in_bottom_row() {
    let mut game = Game::new(5, 5, 3).unwrap();
    play(&mut game, &[0, 0, 1, 1]);
    assert!(!game.check_win());
    assert_eq!(game.make_move(2), Ok(()));
    assert!(game.check_win());
}

#[test]
fn vertical_win_in_one_column() {
    let mut game = Game::new(5, 5, 3).unwrap();
    play(&mut game, &[0, 1, 0, 1]);
    assert!(!game.check_win());
    assert_eq!(game.make_move(0), Ok(()));
    assert!(game.check_win());
}

#[test]
fn diagonal_win_down_to_the_right() {
    let mut game = Game::new(3, 3, 3).unwrap();
    play(&mut game, &[2, 1, 1, 0, 0, 2]);
    assert!(!game.check_win());
    assert_eq!(game.make_move(0), Ok(()));
    assert_eq!(game.board().get(0, 0), Cell::PlayerA);
    assert_eq!(game.board().get(1, 1), Cell::PlayerA);
    assert_eq!(game.board().get(2, 2), Cell::PlayerA);
    assert!(game.check_win());
}

#[test]
fn diagonal_win_up_to_the_right() {
    let mut game = Game::new(3, 3, 3).unwrap();
    play(&mut game, &[0, 1, 1, 2, 2, 0]);
    assert!(!game.check_win());
    assert_eq!(game.make_move(2), Ok(()));
    assert_eq!(game.board().get(2, 0), Cell::PlayerA);
    assert_eq!(game.board().get(1, 1), Cell::PlayerA);
    assert_eq!(game.board().get(0, 2), Cell::PlayerA);
    assert!(game.check_win());
}

#[test]
fn no_diagonal_win_on_short_board() {
    let mut game = Game::new(5, 2, 3).unwrap();
    play(&mut game, &[0, 1, 1, 0, 3]);
    assert_eq!(game.board().get(1, 0), Cell::PlayerA);
    assert_eq!(game.board().get(0, 1), Cell::PlayerA);
    assert!(!game.check_win());
}

#[test]
fn filled_board_without_run_is_a_draw() {
    let mut game = Game::new(3, 3, 3).unwrap();
    play(&mut game, &[0, 2, 1, 0, 2, 1, 0, 2]);
    assert!(!game.is_full());
    assert_eq!(game.make_move(1), Ok(()));
    assert!(game.is_full());
    assert!(!game.check_win());
    assert_eq!(game.make_move(1), Err(GameError::ColumnFull));
}

#[test]
fn win_flush_against_right_edge() {
    let mut game = Game::new(5, 5, 3).unwrap();
    play(&mut game, &[2, 2, 3, 3]);
    assert!(!game.check_win());
    assert_eq!(game.make_move(4), Ok(()));
    assert!(game.check_win());
}

#[test]
fn win_spanning_the_whole_width() {
    let mut game = Game::new(3, 3, 3).unwrap();
    play(&mut game, &[0, 0, 1, 1]);
    assert!(!game.check_win());
    assert_eq!(game.make_move(2), Ok(()));
    assert!(game.check_win());
}

#[test]
fn win_spanning_the_whole_height() {
    let mut game = Game::new(3, 3, 3).unwrap();
    play(&mut game, &[0, 1, 0, 1]);
    assert!(!game.check_win());
    assert_eq!(game.make_move(0), Ok(()));
    assert!(game.check_win());
}
