use chess::board::{ChessBoard, DrawType, FenError, GameState, Source, Square, TurnError, Win, WinType};
use chess::parser::parse_move;
use chess::pieces::PieceType;
use chess::turn::{Move, Turn};
use chess::utils::Counter;

#[test]
fn parse_fen() {
    let test = "rnbqkbnr/pp1ppppp/8/2p5/4P3/5N2/PPPP1PPP/RNBQKB1R b KQkq - 1 2";
    assert!(ChessBoard::from_fen(test).is_ok());
    let test = "lsefw sefwoe fjwofnwf weefwlkfn wlefkwlkfn sdf";
    assert!(ChessBoard::from_fen(test).is_err());
}

#[test]
fn starting_fen() {
    let board = ChessBoard::default();
    assert_eq!(
        board.gen_fen(),
        String::from("rnbqkbnr/pppppppp/8/8/8/8/PPPPPPPP/RNBQKBNR w KQkq - 0 1")
    );
}

#[test]
fn fen_round_trip() {
    let texts = [
        "rnbqkbnr/pppppppp/8/8/8/8/PPPPPPPP/RNBQKBNR w KQkq - 0 1",
        "rnbqkbnr/pp1ppppp/8/2p5/4P3/5N2/PPPP1PPP/RNBQKB1R b KQkq - 1 2",
        "rnbqkbnr/pppppppp/8/8/4P3/8/PPPP1PPP/RNBQKBNR b KQkq e3 0 1",
        "8/8/8/8/8/8/k7/7K w - - 99 120",
        "r3k2r/8/8/8/8/8/8/R3K2R w Kq - 12 44",
    ];
    for text in texts {
        let board = ChessBoard::from_fen(text).unwrap();
        assert_eq!(board.gen_fen(), String::from(text));
    }
}

#[test]
fn fen_errors() {
    assert_eq!(ChessBoard::from_fen("x").unwrap_err(), FenError::FieldCount);
    assert_eq!(
        ChessBoard::from_fen("8/8/8/8/8/8/8 w - - 0 1").unwrap_err(),
        FenError::BadRanks
    );
    assert_eq!(
        ChessBoard::from_fen("T7/8/8/8/8/8/8/8 w - - 0 1").unwrap_err(),
        FenError::BadPiece
    );
    assert_eq!(
        ChessBoard::from_fen("ppp6/8/8/8/8/8/8/8 w - - 0 1").unwrap_err(),
        FenError::RankCount
    );
    assert_eq!(
        ChessBoard::from_fen("8/8/8/8/8/8/8/8 x - - 0 1").unwrap_err(),
        FenError::BadPlayer
    );
    assert_eq!(
        ChessBoard::from_fen("8/8/8/8/8/8/8/8 w QK - 0 1").unwrap_err(),
        FenError::BadCastling
    );
    assert_eq!(
        ChessBoard::from_fen("8/8/8/8/8/8/8/8 w KK - 0 1").unwrap_err(),
        FenError::BadCastling
    );
    assert_eq!(
        ChessBoard::from_fen("8/8/8/8/8/8/8/8 w - e9 0 1").unwrap_err(),
        FenError::BadEnPassant
    );
    assert_eq!(
        ChessBoard::from_fen("8/8/8/8/8/8/8/8 w - - 999 1").unwrap_err(),
        FenError::BadClock
    );
}

#[test]
fn twenty_legal_moves_at_the_start() {
    let board = ChessBoard::default();
    let mut count = 0;
    for file in 0..8 {
        for rank in 0..8 {
            let sq = Square::new(file, rank).unwrap();
            if let Some(pc) = board.get(&sq) {
                let piece = *pc;
                if piece.is_white {
                    for dst in board.gen_moves((sq, piece)) {
                        let turn = Turn::new((sq, piece), dst);
                        if !board.causes_check(&turn, true) {
                            count += 1;
                        }
                    }
                }
            }
        }
    }
    assert_eq!(count, 20);
}

#[test]
fn queen_cannot_reach_h5_at_the_start() {
    let board = ChessBoard::default();
    let turn = parse_move("Qh5").unwrap();
    assert_eq!(board.validate_and_complete_turn(turn).unwrap_err(), TurnError::NoTarget);
}

#[test]
fn e4_is_legal_and_quiet_at_the_start() {
    let board = ChessBoard::default();
    let turn = parse_move("e4").unwrap();
    let full = board.validate_and_complete_turn(turn).unwrap();
    assert!(board.enforce_flags(&full).is_ok());
    let full = board.gen_flags(full);
    if let Turn::Move(m) = full {
        assert_eq!(m.flags & (chess::turn::flags::CHECK | chess::turn::flags::CHECKMATE), 0);
        assert_eq!(m.src, Some(Source::Square(Square { file: 4, rank: 1 })));
    } else {
        panic!("expected a move");
    }
}

#[test]
fn scholars_mate_is_a_win_for_white() {
    let mut board = ChessBoard::default();
    let hist = Counter::new();
    let moves = ["e4", "e5", "Bc4", "Nc6", "Qh5", "Nf6", "Qxf7#"];
    let mut last_state = GameState::Continue;
    for text in moves {
        let turn = parse_move(text).unwrap();
        let full = board.validate_and_complete_turn(turn).unwrap();
        assert!(board.enforce_flags(&full).is_ok());
        board.update_board(&full);
        last_state = board.check_gamestate(&hist);
    }
    assert_eq!(last_state, GameState::Win(Win { is_white: true, kind: WinType::Checkmate }));
}

#[test]
fn two_bare_kings_are_a_draw() {
    let board = ChessBoard::from_fen("8/8/8/8/8/8/k7/7K w - - 0 1").unwrap();
    let hist = Counter::new();
    assert_eq!(board.check_gamestate(&hist), GameState::Draw(DrawType::InsufficientMaterial));
}

#[test]
fn same_colored_bishops_are_a_draw() {
    // both bishops stand on light squares
    let board = ChessBoard::from_fen("k1b5/8/8/8/8/8/8/KB6 w - - 0 1").unwrap();
    let hist = Counter::new();
    assert_eq!(board.check_gamestate(&hist), GameState::Draw(DrawType::InsufficientMaterial));
    // a dark-squared against a light-squared bishop is not
    let board = ChessBoard::from_fen("kb6/8/8/8/8/8/8/KB6 w - - 0 1").unwrap();
    assert_eq!(board.check_gamestate(&hist), GameState::Continue);
}

#[test]
fn fifty_move_rule_triggers_at_one_hundred() {
    let board = ChessBoard::from_fen("k7/8/8/8/8/8/P7/K6R w - - 99 70").unwrap();
    let hist = Counter::new();
    // a quiet rook move pushes the clock to one hundred
    let mut quiet = board.clone();
    let turn = parse_move("Rh2").unwrap();
    let full = quiet.validate_and_complete_turn(turn).unwrap();
    quiet.update_board(&full);
    assert_eq!(quiet.check_gamestate(&hist), GameState::Draw(DrawType::FiftyMove));
    // a pawn move resets the clock instead
    let mut pawn = board.clone();
    let turn = parse_move("a3").unwrap();
    let full = pawn.validate_and_complete_turn(turn).unwrap();
    pawn.update_board(&full);
    assert_eq!(pawn.check_gamestate(&hist), GameState::Continue);
}

#[test]
fn minimum_move_drops_needless_detail() {
    let board = ChessBoard::default();
    let full = Turn::Move(Move {
        piece: PieceType::Pawn,
        dst: Square { file: 4, rank: 3 },
        flags: 0,
        src: Some(Source::Square(Square { file: 4, rank: 1 })),
        promotion: None,
    });
    let minimum = board.get_minimum_move(&full);
    assert_eq!(minimum.notation(), String::from("e4"));
    let reparsed = parse_move(minimum.notation().as_str()).unwrap();
    assert_eq!(board.validate_and_complete_turn(reparsed).unwrap(), full);
}

#[test]
fn pawn_capture_needs_its_file() {
    let mut board = ChessBoard::default();
    for text in ["e4", "d5"] {
        let turn = parse_move(text).unwrap();
        let full = board.validate_and_complete_turn(turn).unwrap();
        board.update_board(&full);
    }
    let bare = parse_move("d5").unwrap();
    assert_eq!(board.validate_and_complete_turn(bare).unwrap_err(), TurnError::NeedFile);
    let hinted = parse_move("exd5").unwrap();
    assert!(board.validate_and_complete_turn(hinted).is_ok());
}

#[test]
fn wrong_flags_are_named() {
    let board = ChessBoard::default();
    let marked = Turn::Move(Move {
        piece: PieceType::Pawn,
        dst: Square { file: 4, rank: 3 },
        flags: chess::turn::flags::CAPTURE,
        src: Some(Source::Square(Square { file: 4, rank: 1 })),
        promotion: None,
    });
    assert_eq!(board.enforce_flags(&marked).unwrap_err(), TurnError::RemoveCaptureSpecifier);
    let quiet = Turn::Move(Move { flags: 0, ..(if let Turn::Move(m) = marked {
        m
    } else {
        panic!("expected a move")
    }) });
    assert!(board.enforce_flags(&quiet).is_ok());
}

#[test]
fn castling_rights_are_enforced() {
    let board = ChessBoard::from_fen("r3k2r/8/8/8/8/8/8/R3K2R w Kq - 0 1").unwrap();
    let short = parse_move("O-O").unwrap();
    assert!(board.validate_and_complete_turn(short).is_ok());
    let long = parse_move("O-O-O").unwrap();
    assert_eq!(board.validate_and_complete_turn(long).unwrap_err(), TurnError::CastleLostRights);
}

#[test]
fn castling_through_attack_is_refused() {
    let board = ChessBoard::from_fen("4k3/8/8/8/8/8/5r2/R3K2R w KQ - 0 1").unwrap();
    let short = parse_move("O-O").unwrap();
    assert_eq!(
        board.validate_and_complete_turn(short).unwrap_err(),
        TurnError::CastleThroughCheck
    );
}

#[test]
fn en_passant_capture_removes_the_passed_pawn() {
    let mut board = ChessBoard::default();
    for text in ["e4", "a6", "e5", "d5"] {
        let turn = parse_move(text).unwrap();
        let full = board.validate_and_complete_turn(turn).unwrap();
        board.update_board(&full);
    }
    // the double step left its target behind the pawn
    assert_eq!(
        board.gen_fen(),
        String::from("rnbqkbnr/1pp1pppp/p7/3pP3/8/8/PPPP1PPP/RNBQKBNR w KQkq d6 0 3")
    );
    let take = parse_move("exd6").unwrap();
    let full = board.validate_and_complete_turn(take).unwrap();
    board.update_board(&full);
    assert_eq!(
        board.gen_fen(),
        String::from("rnbqkbnr/1pp1pppp/p2P4/8/8/8/PPPP1PPP/RNBQKBNR b KQkq - 0 3")
    );
}
