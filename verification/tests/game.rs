use chess::board::{DrawType, GameState, TurnError};
use chess::parser::parse_move;
use chess::utils::Counter;
use chess::{ChessGame, ChessGameBuilder, RotateBoard};

fn play(game: &mut ChessGame, text: &str) {
    let turn = parse_move(text).unwrap();
    game.make_move(&turn).unwrap();
}

#[test]
fn threefold_repetition_on_the_third_occurrence() {
    let mut game = ChessGame::default();
    let shuffle = ["Nf3", "Nf6", "Ng1", "Ng8"];
    for text in shuffle {
        play(&mut game, text);
    }
    assert_eq!(game.game_state, GameState::Continue);
    for text in shuffle {
        play(&mut game, text);
    }
    // the starting position has now been seen twice and is on the board a
    // third time, but no key has been counted three times yet
    assert_eq!(game.game_state, GameState::Continue);
    play(&mut game, "Nf3");
    assert_eq!(game.game_state, GameState::Draw(DrawType::ThreefoldRepitition));
}

#[test]
fn make_move_rejects_illegal_moves_without_changing_state() {
    let mut game = ChessGame::default();
    let fen_before = game.gen_fen();
    let turn = parse_move("Qh5").unwrap();
    assert_eq!(game.make_move(&turn).unwrap_err(), TurnError::NoTarget);
    assert_eq!(game.gen_fen(), fen_before);
    assert_eq!(game.game_hist().len(), 0);
}

#[test]
fn generated_flags_replace_missing_ones() {
    let mut game = ChessGameBuilder::new().enforce_flags(false).build();
    for text in ["e4", "e5", "Bc4", "Nc6", "Qh5", "Nf6", "Qf7"] {
        play(&mut game, text);
    }
    // the last move was entered without its capture and checkmate marks,
    // yet the record carries them
    assert_eq!(
        game.gen_pgn(),
        String::from("1. e4 e5 2. Bc4 Nc6 3. Qh5 Nf6 4. Qxf7# 1-0")
    );
    assert!(matches!(game.game_state, GameState::Win(_)));
}

#[test]
fn undo_replays_the_shortened_history() {
    let mut game = ChessGameBuilder::new().allow_undo(true).build();
    play(&mut game, "e4");
    let fen_after_first = game.gen_fen();
    play(&mut game, "e5");
    assert!(game.undo_move().is_some());
    assert_eq!(game.gen_fen(), fen_after_first);
    assert_eq!(game.game_hist().len(), 1);
}

#[test]
fn undo_needs_permission() {
    let mut game = ChessGame::default();
    play(&mut game, "e4");
    assert!(game.undo_move().is_none());
    assert_eq!(game.game_hist().len(), 1);
}

#[test]
fn reset_keeps_the_configuration() {
    let mut game = ChessGameBuilder::new().rotate_board(RotateBoard::Black).allow_undo(
        true,
    ).players((String::from("Ann"), String::from("Ben"))).build();
    play(&mut game, "e4");
    game.reset();
    assert_eq!(game.game_hist().len(), 0);
    assert_eq!(game.gen_fen(), ChessGame::default().gen_fen());
    assert!(game.allow_undo);
    assert_eq!(game.rotate_board, RotateBoard::Black);
    assert_eq!(game.players.0, String::from("Ann"));
}

#[test]
fn pgn_numbers_the_moves() {
    let mut game = ChessGame::default();
    for text in ["e4", "e5", "Nf3"] {
        play(&mut game, text);
    }
    assert_eq!(game.gen_pgn(), String::from("1. e4 e5 2. Nf3 *"));
}

#[test]
fn player_strings_follow_the_turn() {
    let mut game = ChessGame::default();
    assert_eq!(game.player_string(), String::from("White's turn"));
    assert!(game.is_white());
    play(&mut game, "e4");
    assert_eq!(game.player_string(), String::from("Black's turn"));
    assert!(!game.is_white());
}

#[test]
fn board_strings_follow_the_perspective() {
    let game = ChessGame::default();
    let from_white = game.board_string();
    assert!(from_white.contains("a b c d e f g h"));
    let mut rotated = ChessGameBuilder::new().rotate_board(RotateBoard::Black).build();
    let from_black = rotated.board_string();
    assert!(from_black.contains("h g f e d c b a"));
    rotated.rotate_board = RotateBoard::Rotate;
    assert!(rotated.board_string().contains("a b c d e f g h"));
}

#[test]
fn counter_counts_repeats() {
    let mut counter = Counter::new();
    counter.add(String::from("one"));
    counter.add(String::from("two"));
    counter.add(String::from("one"));
    assert_eq!(counter.get(&String::from("one")), 2);
    assert_eq!(counter.get(&String::from("two")), 1);
    assert_eq!(counter.get(&String::from("three")), 0);
    let counts = counter.counts();
    assert_eq!(counts.len(), 2);
    assert_eq!(counts[0] + counts[1], 3);
}

#[test]
fn counter_from_collection() {
    let counter = Counter::from(vec![
        String::from("a"),
        String::from("b"),
        String::from("a"),
        String::from("a"),
    ]);
    assert_eq!(counter.get(&String::from("a")), 3);
    assert_eq!(counter.get(&String::from("b")), 1);
}
