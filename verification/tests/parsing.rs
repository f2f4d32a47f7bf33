//! FEN parsing: the accepted records and each rejection.

use chanal::fen::Fen;
use chanal::game::Game;
use chanal::parse::{parse_position, parse_square, FenParseError};
use chanal::pieces::{Colour, Piece, Position};

const START: &str = "rnbqkbnr/pppppppp/8/8/8/8/PPPPPPPP/RNBQKBNR w KQkq - 0 1";

#[test]
fn standard_start_parses() {
    let fen = Fen::from_str(START).expect("the starting position parses");
    let g = Game::new();
    for r in 0..8 {
        for f in 0..8 {
            assert_eq!(fen.board.at(r, f), g.board().at(r, f));
        }
    }
    assert_eq!(fen.to_move, Colour::White);
    assert!(fen.white_king_castle);
    assert!(fen.white_queen_castle);
    assert!(fen.black_king_castle);
    assert!(fen.black_queen_castle);
    assert_eq!(fen.en_passant, None);
    assert_eq!(fen.halfmove_clock, 0);
    assert_eq!(fen.move_cnt, 1);
}

#[test]
fn fields_parse_individually() {
    let fen = Fen::from_str("8/8/8/8/8/8/8/4K2k b Kq e3 13 42").expect("parses");
    assert_eq!(fen.board.at(7, 4), Position::Occupied(Piece::King, Colour::White));
    assert_eq!(fen.board.at(7, 7), Position::Occupied(Piece::King, Colour::Black));
    assert_eq!(fen.to_move, Colour::Black);
    assert!(fen.white_king_castle);
    assert!(!fen.white_queen_castle);
    assert!(!fen.black_king_castle);
    assert!(fen.black_queen_castle);
    assert_eq!(fen.en_passant, Some((5, 4)));
    assert_eq!(fen.halfmove_clock, 13);
    assert_eq!(fen.move_cnt, 42);
}

#[test]
fn digits_skip_empty_squares() {
    let fen = Fen::from_str("r6r/8/8/8/8/8/8/R6R w - - 0 1").expect("parses");
    assert_eq!(fen.board.at(0, 0), Position::Occupied(Piece::Rook, Colour::Black));
    assert_eq!(fen.board.at(0, 7), Position::Occupied(Piece::Rook, Colour::Black));
    for f in 1..7 {
        assert_eq!(fen.board.at(0, f), Position::Empty);
    }
    assert_eq!(fen.board.at(7, 0), Position::Occupied(Piece::Rook, Colour::White));
    assert_eq!(fen.board.at(7, 7), Position::Occupied(Piece::Rook, Colour::White));
}

#[test]
fn wrong_field_count_is_rejected() {
    assert!(matches!(
        Fen::from_str("nonsense"),
        Err(FenParseError::InsufficientParts(1))
    ));
    assert!(matches!(
        Fen::from_str("8/8/8/8/8/8/8/8 w KQkq - 0 1 extra"),
        Err(FenParseError::InsufficientParts(7))
    ));
}

#[test]
fn wrong_rank_count_is_rejected() {
    assert!(matches!(
        Fen::from_str("8/8/8/8/8/8/8 w - - 0 1"),
        Err(FenParseError::InsufficientRanks(7))
    ));
    assert!(matches!(
        Fen::from_str("8/8/8/8/8/8/8/8/8 w - - 0 1"),
        Err(FenParseError::InsufficientRanks(9))
    ));
}

#[test]
fn unknown_placement_character_is_rejected() {
    assert!(matches!(
        Fen::from_str("8/8/8/8/8/8/8/7x w - - 0 1"),
        Err(FenParseError::InvalidPiece('x'))
    ));
    // A ninth piece does not fit its rank.
    assert!(matches!(
        Fen::from_str("ppppppppp/8/8/8/8/8/8/8 w - - 0 1"),
        Err(FenParseError::InvalidPiece('p'))
    ));
}

#[test]
fn bad_side_to_move_is_rejected() {
    assert!(matches!(
        Fen::from_str("8/8/8/8/8/8/8/8 z - - 0 1"),
        Err(FenParseError::InvalidToMove(t)) if t == "z"
    ));
}

#[test]
fn bad_castling_character_is_rejected() {
    assert!(matches!(
        Fen::from_str("8/8/8/8/8/8/8/8 w KX - 0 1"),
        Err(FenParseError::InvalidCastleCharacter('X'))
    ));
}

#[test]
fn bad_en_passant_square_is_rejected() {
    assert!(matches!(
        Fen::from_str("8/8/8/8/8/8/8/8 w - e33 0 1"),
        Err(FenParseError::InvalidSquareLen(3))
    ));
    assert!(matches!(
        Fen::from_str("8/8/8/8/8/8/8/8 w - i3 0 1"),
        Err(FenParseError::InvalidFile('i'))
    ));
    assert!(matches!(
        Fen::from_str("8/8/8/8/8/8/8/8 w - e9 0 1"),
        Err(FenParseError::InvalidRank('9'))
    ));
}

#[test]
fn bad_clock_fields_are_rejected() {
    assert!(matches!(
        Fen::from_str("8/8/8/8/8/8/8/8 w - - abc 1"),
        Err(FenParseError::InvalidNumber(t)) if t == "abc"
    ));
    assert!(matches!(
        Fen::from_str("8/8/8/8/8/8/8/8 w - - 0 99999999999"),
        Err(FenParseError::InvalidNumber(t)) if t == "99999999999"
    ));
    assert!(matches!(
        Fen::from_str("8/8/8/8/8/8/8/8 w - - -1 1"),
        Err(FenParseError::InvalidNumber(t)) if t == "-1"
    ));
    // A leading plus sign reads as the standard library's number parsing
    // does.
    let fen = Fen::from_str("8/8/8/8/8/8/8/8 w - - +5 1").expect("parses");
    assert_eq!(fen.halfmove_clock, 5);
}

#[test]
fn parse_square_reads_algebraic_names() {
    assert_eq!(parse_square("a8").expect("parses"), (0, 0));
    assert_eq!(parse_square("h1").expect("parses"), (7, 7));
    assert_eq!(parse_square("e3").expect("parses"), (5, 4));
    assert!(matches!(
        parse_square("e"),
        Err(FenParseError::InvalidSquareLen(1))
    ));
}

#[test]
fn parse_position_reads_a_placement_field() {
    let board = parse_position("rnbqkbnr/pppppppp/8/8/8/8/PPPPPPPP/RNBQKBNR").expect("parses");
    let g = Game::new();
    for r in 0..8 {
        for f in 0..8 {
            assert_eq!(board.at(r, f), g.board().at(r, f));
        }
    }
}
