use std::str::FromStr;

use bitboard_chess::definitions::{parse_move, PieceType, Square};

#[test]
fn move_text_parses() {
    assert_eq!(parse_move("E2,E4"), Some((Square::E2, Square::E4)));
    assert_eq!(parse_move("A1,H8"), Some((Square::A1, Square::H8)));
    assert_eq!(parse_move("E2E4"), None);
    assert_eq!(parse_move("E2,E9"), None);
    assert_eq!(parse_move("E2;E4"), None);
    assert_eq!(parse_move("E2,E4,"), None);
    assert_eq!(parse_move(""), None);
}

#[test]
fn promotion_words_parse() {
    assert_eq!(PieceType::from_promotion_choice("queen"), Some(PieceType::Queen));
    assert_eq!(PieceType::from_promotion_choice("rook"), Some(PieceType::Rook));
    assert_eq!(PieceType::from_promotion_choice("knight"), Some(PieceType::Knight));
    assert_eq!(PieceType::from_promotion_choice("bishop"), Some(PieceType::Bishop));
    assert_eq!(PieceType::from_promotion_choice("king"), None);
    assert_eq!(PieceType::from_promotion_choice("pawn"), None);
    assert_eq!(PieceType::from_promotion_choice("Queen"), None);
    assert_eq!(PieceType::from_promotion_choice(""), None);
}

#[test]
fn square_from_str() {
    assert_eq!(Square::from_str("C7"), Ok(Square::C7));
    assert_eq!(Square::from_str("C0"), Err("Invalid square name"));
}
