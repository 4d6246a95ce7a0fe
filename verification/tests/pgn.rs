use chess::board::GameState;
use chess::pgn::{get_game_result, read_pgn, read_pgn_list, scan_between, split_pgn_list};
use chess::play_from_pgn;
use chess::ChessGame;

#[test]
fn reads_tags_and_moves() {
    let record = "[Event \"Casual\"]\n[Result \"1-0\"]\n\n1. e4 e5 {a comment} 2. Nf3 1-0";
    let (info, moves) = read_pgn(record);
    assert_eq!(info.len(), 2);
    assert_eq!(info[0].0, String::from("Event"));
    assert_eq!(info[0].1, String::from("Casual"));
    assert_eq!(info[1].0, String::from("Result"));
    assert_eq!(info[1].1, String::from("1-0"));
    assert_eq!(moves.len(), 3);
    assert_eq!(moves[0].notation(), String::from("e4"));
    assert_eq!(moves[1].notation(), String::from("e5"));
    assert_eq!(moves[2].notation(), String::from("Nf3"));
}

#[test]
fn comments_are_stripped() {
    let text: Vec<char> = "a {b c} d".chars().collect();
    let stripped: String = scan_between(&text, '{', '}', false).into_iter().collect();
    assert_eq!(stripped, String::from("a  d"));
    let kept: String = scan_between(&text, '{', '}', true).into_iter().collect();
    assert_eq!(kept, String::from("b c"));
}

#[test]
fn result_token_is_the_last_word() {
    assert_eq!(get_game_result("1. e4 e5 1/2-1/2"), Some(String::from("1/2-1/2")));
    assert_eq!(get_game_result("1. e4\ne5\n*"), Some(String::from("*")));
    assert_eq!(get_game_result(""), None);
}

#[test]
fn record_lists_split_on_blank_lines() {
    let list = "[A \"1\"]\n\n1. e4 *\n\n[B \"2\"]\n\n1. d4 *";
    let records = split_pgn_list(list);
    assert_eq!(records.len(), 2);
    assert_eq!(records[0], String::from("[A \"1\"]\n1. e4 *"));
    assert_eq!(records[1], String::from("[B \"2\"]\n1. d4 *"));
    let parsed = read_pgn_list(list);
    assert_eq!(parsed.len(), 2);
    assert_eq!(parsed[0].1.len(), 1);
    assert_eq!(parsed[0].1[0].notation(), String::from("e4"));
    assert_eq!(parsed[1].1[0].notation(), String::from("d4"));
}

#[test]
fn playing_a_record_takes_its_result() {
    let mut game = ChessGame::default();
    let record = "[Result \"0-1\"]\n\n1. e4 e5 0-1";
    play_from_pgn(&mut game, String::from(record));
    assert_eq!(game.game_hist().len(), 2);
    assert!(matches!(game.game_state, GameState::Win(w) if !w.is_white));
}

#[test]
fn playing_a_mating_record_keeps_the_mate() {
    let mut game = ChessGame::default();
    let record = "1. e4 e5 2. Bc4 Nc6 3. Qh5 Nf6 4. Qxf7# 1-0";
    play_from_pgn(&mut game, String::from(record));
    assert_eq!(game.game_hist().len(), 7);
    assert!(matches!(game.game_state, GameState::Win(w) if w.is_white));
}
