use quarto::board::{empty_row, Board};
use quarto::coordinate::Coordinate;
use quarto::error::QuartoError;

fn at(row: usize, column: usize) -> Coordinate {
    Coordinate { row, column }
}

#[test]
fn fresh_board_is_empty_everywhere() {
    let board = Board::new();
    for row in 0..4 {
        for column in 0..4 {
            assert_eq!(board.get(at(row, column)), Ok(None));
        }
    }
}

#[test]
fn put_then_get_returns_the_piece() {
    let piece = [true, false, true, false];
    for row in 0..4 {
        for column in 0..4 {
            let mut board = Board::new();
            assert_eq!(board.put(piece, at(row, column)), Ok(()));
            assert_eq!(board.get(at(row, column)), Ok(Some(piece)));
        }
    }
}

#[test]
fn second_put_on_same_cell_is_occupied() {
    let mut board = Board::new();
    let first = [false, false, false, true];
    let second = [true, true, true, true];
    assert_eq!(board.put(first, at(1, 2)), Ok(()));
    assert_eq!(board.put(second, at(1, 2)), Err(QuartoError::Occupied(first)));
    assert_eq!(board.get(at(1, 2)), Ok(Some(first)));
}

#[test]
fn out_of_bounds_is_refused() {
    let mut board = Board::new();
    let piece = [false, true, false, true];
    assert_eq!(board.get(at(4, 0)), Err(QuartoError::OutOfBounds));
    assert_eq!(board.get(at(0, 4)), Err(QuartoError::OutOfBounds));
    assert_eq!(board.put(piece, at(4, 4)), Err(QuartoError::OutOfBounds));
    assert_eq!(board.put(piece, at(0, 7)), Err(QuartoError::OutOfBounds));
    assert_eq!(board.remove(at(9, 1)), Err(QuartoError::OutOfBounds));
    assert_eq!(board.get_row(4), Err(QuartoError::OutOfBounds));
    assert_eq!(board.get_column(4), Err(QuartoError::OutOfBounds));
    assert_eq!(board.empty_spaces().len(), 16);
}

#[test]
fn remove_takes_the_piece_off() {
    let mut board = Board::new();
    let piece = [true, true, false, false];
    assert_eq!(board.remove(at(2, 2)), Err(QuartoError::EmptyCell));
    assert_eq!(board.put(piece, at(2, 2)), Ok(()));
    assert_eq!(board.remove(at(2, 2)), Ok(piece));
    assert_eq!(board.get(at(2, 2)), Ok(None));
    assert_eq!(board.remove(at(2, 2)), Err(QuartoError::EmptyCell));
}

#[test]
fn fresh_board_has_sixteen_empty_spaces_in_row_major_order() {
    let board = Board::new();
    let spaces = board.empty_spaces();
    assert_eq!(spaces.len(), 16);
    for (i, c) in spaces.iter().enumerate() {
        assert_eq!(*c, at(i / 4, i % 4));
    }
}

#[test]
fn empty_spaces_shrink_with_each_placement() {
    let mut board = Board::new();
    let cells = [at(0, 1), at(3, 3), at(2, 0), at(1, 1), at(0, 0)];
    for (k, c) in cells.iter().enumerate() {
        let piece = [k % 2 == 1, k % 3 == 1, false, true];
        assert_eq!(board.put(piece, *c), Ok(()));
        let spaces = board.empty_spaces();
        assert_eq!(spaces.len(), 16 - (k + 1));
        for placed in &cells[..=k] {
            assert!(!spaces.contains(placed));
        }
        for s in &spaces {
            assert_eq!(board.get(*s), Ok(None));
        }
    }
    assert_eq!(
        board.empty_spaces()[..3].to_vec(),
        vec![at(0, 2), at(0, 3), at(1, 0)]
    );
}

#[test]
fn rows_columns_and_diagonal() {
    let mut board = Board::new();
    let a = [true, false, false, false];
    let b = [false, true, false, false];
    let c = [false, false, true, false];
    assert_eq!(board.put(a, at(1, 1)), Ok(()));
    assert_eq!(board.put(b, at(1, 3)), Ok(()));
    assert_eq!(board.put(c, at(3, 1)), Ok(()));
    assert_eq!(board.get_row(1), Ok(vec![None, Some(a), None, Some(b)]));
    assert_eq!(board.get_column(1), Ok(vec![None, Some(a), None, Some(c)]));
    assert_eq!(board.get_diagonal(), vec![None, Some(a), None, None]);
}

#[test]
fn empty_row_has_no_pieces() {
    let row: [Option<u8>; 4] = empty_row();
    assert!(row.iter().all(|x| x.is_none()));
}
