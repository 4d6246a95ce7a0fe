use chess::board::{Line, Source, Square};
use chess::pieces::PieceType;
use chess::turn::{flags, CastlingType, Move, Turn};
use chess::parser::parse_move;

#[test]
fn simple_pawn_move() {
    assert!(if let Ok(Turn::Move(Move {
        piece: PieceType::Pawn,
        dst: Square { file: 4, rank: 3 },
        flags: 0,
        src: None,
        promotion: None,
    })) = parse_move("e4")
    {
        true
    } else {
        false
    });
}

#[test]
fn castling() {
    assert!(
        if let Ok(Turn::Castling(CastlingType::Short, 0)) = parse_move("O-O") {
            true
        } else {
            false
        }
    );
    assert!(
        if let Ok(Turn::Castling(CastlingType::Long, 0)) = parse_move("O-O-O") {
            true
        } else {
            false
        }
    );
}

#[test]
fn simple_piece_move() {
    assert!(if let Ok(Turn::Move(Move {
        piece: PieceType::Queen,
        dst: Square { file: 5, rank: 2 },
        flags: 0,
        src: None,
        promotion: None,
    })) = parse_move("Qf3")
    {
        true
    } else {
        false
    })
}

#[test]
fn capture() {
    assert!(if let Ok(Turn::Move(Move {
        piece: PieceType::Pawn,
        dst: Square { file: 5, rank: 4 },
        flags: flags::CAPTURE,
        src: Some(Source::Line(Line::FileE)),
        promotion: None,
    })) = parse_move("exf5")
    {
        true
    } else {
        false
    })
}

#[test]
fn promotion() {
    assert!(if let Ok(Turn::Move(Move {
        piece: PieceType::Pawn,
        dst: Square { file: 4, rank: 7 },
        flags: 0,
        src: None,
        promotion: Some(PieceType::Queen),
    })) = parse_move("e8=Q")
    {
        true
    } else {
        false
    })
}

#[test]
fn capture_into_promotion_checkmate() {
    assert!(if let Ok(Turn::Move(Move {
        piece: PieceType::Pawn,
        dst: Square { file: 5, rank: 7 },
        flags: 6,
        src: Some(Source::Line(Line::FileE)),
        promotion: Some(PieceType::Rook),
    })) = parse_move("exf8=R#")
    {
        true
    } else {
        false
    })
}

#[test]
fn castling_check() {
    assert!(
        if let Ok(Turn::Castling(CastlingType::Long, flags::CHECK)) = parse_move("0-0-0+") {
            true
        } else {
            false
        }
    )
}

#[test]
fn doesnt_promote() {
    assert!(parse_move("f1").is_err());
    assert!(parse_move("a8").is_err());
}

#[test]
fn invalid_input() {
    assert!(parse_move("sljfelk0932").is_err());
    assert!(parse_move("Qxe1=R").is_err());
    assert!(parse_move("*").is_err());
    assert!(parse_move("abcde12312").is_err());
}

#[test]
fn notation_round_trips_through_parse() {
    let turn = parse_move("exf8=R#").unwrap();
    assert_eq!(turn.notation(), String::from("exf8=R#"));
    let reparsed = parse_move(turn.notation().as_str()).unwrap();
    assert_eq!(reparsed, turn);

    let castle = parse_move("0-0+").unwrap();
    assert_eq!(castle.notation(), String::from("0-0+"));
    assert_eq!(parse_move(castle.notation().as_str()).unwrap(), castle);
}

#[test]
fn square_source_notation_round_trips() {
    let turn = Turn::Move(Move {
        piece: PieceType::Knight,
        dst: Square { file: 3, rank: 6 },
        flags: 0,
        src: Some(Source::Square(Square { file: 1, rank: 7 })),
        promotion: None,
    });
    assert_eq!(turn.notation(), String::from("Nb8d7"));
    assert_eq!(parse_move("Nb8d7").unwrap(), turn);
}
