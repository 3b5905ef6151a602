use connect_n::Board;
use connect_n::Cell;
use connect_n::GameError;

#[test]
fn new_board_is_empty() {
    let board = Board::new(3, 2).unwrap();
    assert_eq!(board.width(), 3);
    assert_eq!(board.height(), 2);
    for r in 0..2 {
        for c in 0..3 {
            assert_eq!(board.get(r, c), Cell::Empty);
        }
    }
}

#[test]
fn new_board_refuses_zero_dimension() {
    assert!(matches!(Board::new(0, 4), Err(GameError::InvalidDimensions)));
    assert!(matches!(Board::new(4, 0), Err(GameError::InvalidDimensions)));
    assert!(matches!(Board::new(0, 0), Err(GameError::InvalidDimensions)));
}

#[test]
fn set_changes_only_the_named_cell() {
    let mut board = Board::new(3, 2).unwrap();
    board.set(1, 2, Cell::PlayerA);
    assert_eq!(board.get(1, 2), Cell::PlayerA);
    assert_eq!(board.get(0, 2), Cell::Empty);
    assert_eq!(board.get(1, 1), Cell::Empty);
    board.set(1, 2, Cell::PlayerB);
    assert_eq!(board.get(1, 2), Cell::PlayerB);
}
