use quarto::coordinate::Coordinate;
use quarto::error::QuartoError;
use quarto::game::{Game, GameResult, Player, Stage};
use quarto::piece::piece_from_index;

fn at(row: usize, column: usize) -> Coordinate {
    Coordinate { row, column }
}

const DRAWN_GAME: [(usize, (usize, usize)); 16] = [
    (4, (2, 2)),
    (12, (0, 2)),
    (7, (1, 3)),
    (8, (2, 1)),
    (5, (1, 2)),
    (10, (3, 2)),
    (9, (0, 1)),
    (2, (3, 0)),
    (13, (3, 1)),
    (11, (1, 0)),
    (3, (0, 0)),
    (14, (3, 3)),
    (6, (1, 1)),
    (0, (0, 3)),
    (1, (2, 3)),
    (15, (2, 0)),
];

#[test]
fn fresh_game_starts_with_first_player_choosing() {
    let game = Game::new();
    assert_eq!(game.game_state.player_turn, Player::Player1);
    assert_eq!(game.game_state.stage, Stage::ChoosingPieceForOpponent);
    assert_eq!(game.game_state.result, GameResult::InProgress);
    assert_eq!(game.get_pieces_left().len(), 16);
    assert_eq!(game.get_empty_places().len(), 16);
}

#[test]
fn put_before_choose_is_wrong_stage() {
    let mut game = Game::new();
    assert_eq!(game.put(at(0, 0)), Err(QuartoError::WrongStage));
    assert_eq!(game.game_state.player_turn, Player::Player1);
}

#[test]
fn choosing_a_piece_no_longer_available_is_refused() {
    let mut game = Game::new();
    let piece = [false, false, true, true];
    assert_eq!(game.choose_piece(piece), Ok(()));
    assert_eq!(game.put(at(0, 0)), Ok(()));
    assert_eq!(game.choose_piece(piece), Err(QuartoError::PieceUnavailable));
    assert_eq!(game.get_pieces_left().len(), 15);
    assert!(!game.get_pieces_left().contains(&piece));
}

#[test]
fn choose_twice_is_wrong_stage() {
    let mut game = Game::new();
    assert_eq!(game.choose_piece([true, true, false, false]), Ok(()));
    assert_eq!(game.choose_piece([false, true, false, false]), Err(QuartoError::WrongStage));
    assert_eq!(
        game.game_state.stage,
        Stage::PlacingPieceGivenOpponentChoice([true, true, false, false])
    );
}

#[test]
fn choose_flips_the_turn_and_put_keeps_it() {
    let mut game = Game::new();
    assert_eq!(game.choose_piece([true, false, false, true]), Ok(()));
    assert_eq!(game.game_state.player_turn, Player::Player2);
    assert_eq!(game.put(at(3, 0)), Ok(()));
    assert_eq!(game.game_state.player_turn, Player::Player2);
    assert_eq!(game.game_state.stage, Stage::ChoosingPieceForOpponent);
    assert_eq!(game.choose_piece([false, false, false, true]), Ok(()));
    assert_eq!(game.game_state.player_turn, Player::Player1);
    assert_eq!(game.put(at(2, 1)), Ok(()));
    assert_eq!(game.game_state.player_turn, Player::Player1);
}

#[test]
fn opening_of_seven_moves_is_in_progress() {
    let mut game = Game::new();
    let moves = [
        ([false, false, false, true], (0, 1)),
        ([false, false, true, false], (0, 2)),
        ([false, true, false, false], (1, 0)),
        ([false, true, false, true], (1, 1)),
        ([false, true, true, false], (1, 2)),
        ([true, true, false, false], (2, 0)),
        ([true, true, false, true], (2, 1)),
    ];
    for (piece, (row, column)) in moves {
        assert_eq!(game.choose_piece(piece), Ok(()));
        assert_eq!(game.put(at(row, column)), Ok(()));
        assert_eq!(game.game_state.result, GameResult::InProgress);
    }
    assert_eq!(game.game_state.result, GameResult::InProgress);
    assert_eq!(game.game_state.player_turn, Player::Player2);
    assert_eq!(game.get_pieces_left().len(), 9);
    assert_eq!(game.get_empty_places().len(), 9);
}

#[test]
fn full_board_without_a_line_is_a_draw() {
    let mut game = Game::new();
    for (k, (piece, (row, column))) in DRAWN_GAME.iter().enumerate() {
        assert_eq!(game.game_state.result, GameResult::InProgress);
        assert_eq!(game.choose_piece(piece_from_index(*piece)), Ok(()));
        assert_eq!(game.put(at(*row, *column)), Ok(()));
        assert_eq!(game.get_pieces_left().len(), 15 - k);
    }
    assert_eq!(game.game_state.result, GameResult::Draw);
    assert_eq!(game.get_empty_places().len(), 0);
    assert_eq!(game.put(at(0, 0)), Err(QuartoError::GameOver(GameResult::Draw)));
}

#[test]
fn completing_a_matching_row_wins_for_the_placer() {
    let mut game = Game::new();
    for column in 0..4 {
        assert_eq!(game.game_state.result, GameResult::InProgress);
        assert_eq!(game.choose_piece(piece_from_index(column)), Ok(()));
        assert_eq!(game.put(at(0, column)), Ok(()));
    }
    assert_eq!(game.game_state.result, GameResult::PlayerWon(Player::Player1));
    assert_eq!(
        game.put(at(1, 0)),
        Err(QuartoError::GameOver(GameResult::PlayerWon(Player::Player1)))
    );
    assert_eq!(game.choose_piece(piece_from_index(9)), Err(QuartoError::WrongStage));
}

#[test]
fn completing_a_matching_anti_diagonal_wins() {
    let mut game = Game::new();
    let cells = [(0, 3), (1, 2), (2, 1), (3, 0)];
    let pieces = [1, 3, 5, 7];
    for k in 0..4 {
        assert_eq!(game.choose_piece(piece_from_index(pieces[k])), Ok(()));
        assert_eq!(game.put(at(cells[k].0, cells[k].1)), Ok(()));
    }
    assert_eq!(game.game_state.result, GameResult::PlayerWon(Player::Player1));
}

#[test]
fn full_line_without_a_shared_attribute_does_not_win() {
    let mut game = Game::new();
    let pieces = [0, 15, 5, 10];
    for k in 0..4 {
        assert_eq!(game.choose_piece(piece_from_index(pieces[k])), Ok(()));
        assert_eq!(game.put(at(k, 0)), Ok(()));
    }
    assert_eq!(game.game_state.result, GameResult::InProgress);
    assert!(!game.check_column_match(0));
}

#[test]
fn placing_on_occupied_or_outside_cell_is_refused() {
    let mut game = Game::new();
    let first = [false, false, false, false];
    assert_eq!(game.choose_piece(first), Ok(()));
    assert_eq!(game.put(at(1, 1)), Ok(()));
    assert_eq!(game.choose_piece([true, true, true, true]), Ok(()));
    assert_eq!(game.put(at(1, 1)), Err(QuartoError::Occupied(first)));
    assert_eq!(game.put(at(4, 1)), Err(QuartoError::OutOfBounds));
    assert_eq!(game.put(at(1, 2)), Ok(()));
}

#[test]
fn pieces_left_come_in_increasing_order() {
    let mut game = Game::new();
    assert_eq!(game.choose_piece(piece_from_index(2)), Ok(()));
    let left = game.get_pieces_left();
    assert_eq!(left.len(), 15);
    assert_eq!(left[0], piece_from_index(0));
    assert_eq!(left[1], piece_from_index(1));
    assert_eq!(left[2], piece_from_index(3));
    assert_eq!(left[14], piece_from_index(15));
}

#[test]
fn clone_game_is_independent() {
    let mut game = Game::new();
    let copy = game.clone_game();
    assert_eq!(game.choose_piece(piece_from_index(0)), Ok(()));
    assert_eq!(copy.get_pieces_left().len(), 16);
    assert_eq!(copy.game_state.player_turn, Player::Player1);
}
