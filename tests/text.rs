use bitboard_chess::definitions::{Occupant, Piece, PieceType, Player, SimplePosition, Square};
use bitboard_chess::position::BitBoardPosition;
use bitboard_chess::render::BitBoard;

#[test]
fn piece_glyphs() {
    assert_eq!(Piece { piece_type: PieceType::Pawn, owner: Player::White }.to_string(), "\u{265F}");
    assert_eq!(Piece { piece_type: PieceType::King, owner: Player::Black }.to_string(), "\u{2654}");
    assert_eq!(Piece { piece_type: PieceType::Knight, owner: Player::Black }.to_string(), "\u{2658}");
}

#[test]
fn bitboard_text() {
    let text = BitBoard(Square::A1.to_u64() | Square::H8.to_u64()).to_string();
    let expected = format!("1.......\n{}.......1\n", "........\n".repeat(6));
    assert_eq!(text, expected);
    assert_eq!(BitBoard(0).to_string(), "........\n".repeat(8));
}

#[test]
fn plain_position_text() {
    let mut p = SimplePosition {
        board: [Occupant::Empty; 64],
        to_play: Player::Black,
        en_passant_square: Square::Invalid,
        white_king_side_castle: false,
        white_queen_side_castle: false,
        black_king_side_castle: false,
        black_queen_side_castle: false,
        promotion_square: Square::Invalid,
    };
    p.board[0] = Occupant::Piece(Piece { piece_type: PieceType::Rook, owner: Player::White });
    let expected = format!("\u{265C}-------\n{}\n\nBlack to play\n\n", "--------\n".repeat(7));
    assert_eq!(p.to_string(), expected);
    let start = SimplePosition::initial().to_string();
    assert!(start.starts_with("\u{265C}\u{265E}\u{265D}\u{265B}\u{265A}\u{265D}\u{265E}\u{265C}\n"));
    assert!(start.ends_with("White to play\n\n"));
}

#[test]
fn bitboard_position_text() {
    let p = BitBoardPosition::from_position(&SimplePosition::initial());
    let text = p.to_string();
    assert!(text.starts_with("White Pawn\n\n........\n11111111\n"));
    assert!(text.contains("Black King\n\n"));
    assert_eq!(text.matches("\n\n").count(), 24);
}
