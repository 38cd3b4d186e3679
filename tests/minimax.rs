use std::collections::HashMap;

use quarto::coordinate::Coordinate;
use quarto::game::{Game, GameResult, Player};
use quarto::minimax::{state_key, QuartoAction, QuartoMinimax};
use quarto::piece::piece_from_index;

const DRAWN_GAME: [(usize, (usize, usize)); 16] = [
    (4, (2, 2)),
    (12, (0, 2)),
    (7, (1, 3)),
    (8, (2, 1)),
    (5, (1, 2)),
    (10, (3, 2)),
    (9, (0, 1)),
    (2, (3, 0)),
    (13, (3, 1)),
    (11, (1, 0)),
    (3, (0, 0)),
    (14, (3, 3)),
    (6, (1, 1)),
    (0, (0, 3)),
    (1, (2, 3)),
    (15, (2, 0)),
];

fn after_moves(k: usize) -> Game {
    let mut game = Game::new();
    for (piece, (row, column)) in DRAWN_GAME.iter().take(k) {
        game.choose_piece(piece_from_index(*piece)).unwrap();
        game.put(Coordinate { row: *row, column: *column }).unwrap();
    }
    game
}

fn value(engine: &mut QuartoMinimax, game: &Game) -> i32 {
    match game.game_state.player_turn {
        Player::Player1 => engine.max_value(game),
        Player::Player2 => engine.min_value(game),
    }
}

#[test]
fn utility_scores_finished_games() {
    let engine = QuartoMinimax::new(HashMap::new());
    let drawn = after_moves(16);
    assert_eq!(drawn.game_state.result, GameResult::Draw);
    assert!(engine.terminal(&drawn));
    assert_eq!(engine.utility(&drawn), 0);

    let mut won = Game::new();
    for column in 0..4 {
        won.choose_piece(piece_from_index(column)).unwrap();
        won.put(Coordinate { row: 0, column }).unwrap();
    }
    assert!(engine.terminal(&won));
    assert_eq!(engine.utility(&won), 1);

    let mut lost = Game::new();
    for column in 0..3 {
        lost.choose_piece(piece_from_index(column)).unwrap();
        lost.put(Coordinate { row: 0, column }).unwrap();
    }
    lost.choose_piece(piece_from_index(9)).unwrap();
    lost.put(Coordinate { row: 3, column: 3 }).unwrap();
    lost.choose_piece(piece_from_index(3)).unwrap();
    lost.put(Coordinate { row: 0, column: 3 }).unwrap();
    assert_eq!(lost.game_state.result, GameResult::PlayerWon(Player::Player2));
    assert_eq!(engine.utility(&lost), -1);
}

#[test]
fn game_in_progress_is_not_terminal() {
    let engine = QuartoMinimax::new(HashMap::new());
    assert!(!engine.terminal(&Game::new()));
    assert!(!engine.terminal(&after_moves(7)));
}

#[test]
fn actions_follow_the_stage() {
    let engine = QuartoMinimax::new(HashMap::new());
    let game = after_moves(13);
    let actions = engine.actions(&game);
    assert_eq!(
        actions,
        vec![
            QuartoAction::Choose(piece_from_index(0)),
            QuartoAction::Choose(piece_from_index(1)),
            QuartoAction::Choose(piece_from_index(15)),
        ]
    );
    let next = engine.result(&game, actions[0]);
    assert_eq!(next.game_state.player_turn, Player::Player1);
    assert_eq!(
        engine.actions(&next),
        vec![
            QuartoAction::Put(Coordinate { row: 0, column: 3 }),
            QuartoAction::Put(Coordinate { row: 2, column: 0 }),
            QuartoAction::Put(Coordinate { row: 2, column: 3 }),
        ]
    );
    assert_eq!(game.get_pieces_left().len(), 3);
    assert_eq!(next.get_pieces_left().len(), 2);
}

#[test]
fn endgame_values_match_exhaustive_play() {
    let expected = [(10, -1), (11, 1), (12, -1), (13, 1), (14, -1), (15, 0)];
    for (k, v) in expected {
        let mut engine = QuartoMinimax::new(HashMap::new());
        let game = after_moves(k);
        assert_eq!(value(&mut engine, &game), v, "after {} moves", k);
    }
}

#[test]
fn values_after_a_choice() {
    let mut engine = QuartoMinimax::new(HashMap::new());
    let mut game = after_moves(14);
    game.choose_piece(piece_from_index(1)).unwrap();
    assert_eq!(engine.min_value(&game), -1);
    let actions = engine.actions(&game);
    let put_at_2_3 = engine.result(&game, actions[1]);
    assert_eq!(value(&mut engine, &put_at_2_3), 0);
}

#[test]
fn second_valuation_is_a_pure_lookup() {
    let mut engine = QuartoMinimax::new(HashMap::new());
    let game = after_moves(11);
    let first = engine.min_value(&game);
    let stored = engine.state_to_value.len();
    assert!(stored > 0);
    assert_eq!(engine.state_to_value.get(&state_key(&game)), Some(&first));
    let second = engine.min_value(&game);
    assert_eq!(first, second);
    assert_eq!(engine.state_to_value.len(), stored);
}

#[test]
fn stored_value_is_returned_as_is() {
    let game = after_moves(13);
    let mut memory = HashMap::new();
    memory.insert(state_key(&game), -1);
    let mut engine = QuartoMinimax::new(memory);
    assert_eq!(engine.min_value(&game), -1);
    assert_eq!(engine.state_to_value.len(), 1);
}

#[test]
fn finished_games_are_scored_and_not_stored() {
    let mut engine = QuartoMinimax::new(HashMap::new());
    let drawn = after_moves(16);
    assert_eq!(value(&mut engine, &drawn), 0);
    assert_eq!(engine.state_to_value.len(), 0);
}

#[test]
fn keys_tell_states_apart() {
    let a = after_moves(5);
    let b = after_moves(6);
    let mut c = after_moves(5);
    c.choose_piece(piece_from_index(10)).unwrap();
    assert_ne!(state_key(&a), state_key(&b));
    assert_ne!(state_key(&a), state_key(&c));
    assert_eq!(state_key(&a), state_key(&after_moves(5)));
    assert_eq!(state_key(&Game::new()), 0);
}
