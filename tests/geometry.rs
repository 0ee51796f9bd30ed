use bitboard_chess::board::{intercect_with_player_pieces, is_empty, is_king_in_check, is_square_in_check};
use bitboard_chess::definitions::{File, Occupant, Piece, PieceType, Player, Rank, Square};
use bitboard_chess::patterns::{king_moves, knight_attacks, pawn_attacks, pawn_moves};
use bitboard_chess::precalc::build_piece_attack_set;

fn bits(squares: &[Square]) -> u64 {
    squares.iter().fold(0, |acc, s| acc | s.to_u64())
}

#[test]
fn square_masks() {
    assert_eq!(Square::A1.to_u64(), 1);
    assert_eq!(Square::H8.to_u64(), 1u64 << 63);
    assert_eq!(Square::E4.to_u64(), 1u64 << 28);
    assert_eq!(Square::Invalid.to_u64(), 0);
}

#[test]
fn square_from_mask() {
    assert_eq!(Square::from_u64(1), Square::A1);
    assert_eq!(Square::from_u64(1u64 << 63), Square::H8);
    assert_eq!(Square::from_u64(1u64 << 20), Square::E3);
    assert_eq!(Square::from_u64(0), Square::Invalid);
    assert_eq!(Square::from_u64(3), Square::Invalid);
    assert_eq!(Square::from_u64(u64::MAX), Square::Invalid);
}

#[test]
fn square_indices() {
    assert_eq!(Square::from_index(0), Square::A1);
    assert_eq!(Square::from_index(63), Square::H8);
    assert_eq!(Square::from_index(64), Square::Invalid);
    assert_eq!(Square::E2.index(), 12);
    assert_eq!(Square::Invalid.index(), 64);
}

#[test]
fn square_names() {
    assert_eq!(Square::from_name("E2"), Some(Square::E2));
    assert_eq!(Square::from_name("A1"), Some(Square::A1));
    assert_eq!(Square::from_name("H8"), Some(Square::H8));
    assert_eq!(Square::from_name("e2"), None);
    assert_eq!(Square::from_name("I1"), None);
    assert_eq!(Square::from_name("A9"), None);
    assert_eq!(Square::from_name("A10"), None);
    assert_eq!(Square::from_name(""), None);
}

#[test]
fn file_and_rank_masks() {
    assert_eq!(File::A.to_u64(), 0x0101010101010101);
    assert_eq!(File::H.to_u64(), 0x8080808080808080);
    assert_eq!(File::C.to_u64(), 0x0404040404040404);
    assert_eq!(Rank::First.to_u64(), 0xFF);
    assert_eq!(Rank::Eight.to_u64(), 0xFF00000000000000);
    assert_eq!(Rank::Fourth.to_u64(), 0xFF000000);
}

#[test]
fn player_opponent() {
    assert_eq!(Player::White.opponent(), Player::Black);
    assert_eq!(Player::Black.opponent(), Player::White);
}

#[test]
fn occupant_piece() {
    let p = Piece { piece_type: PieceType::Rook, owner: Player::Black };
    assert_eq!(Occupant::Piece(p).piece(), Some(p));
    assert_eq!(Occupant::Empty.piece(), None);
}

#[test]
fn knight_patterns() {
    assert_eq!(knight_attacks(Square::A1.to_u64()), bits(&[Square::B3, Square::C2]));
    assert_eq!(
        knight_attacks(Square::D4.to_u64()),
        bits(&[
            Square::B3, Square::B5, Square::C2, Square::C6, Square::E2, Square::E6, Square::F3, Square::F5,
        ])
    );
    assert_eq!(knight_attacks(Square::H8.to_u64()), bits(&[Square::F7, Square::G6]));
    assert_eq!(
        knight_attacks(bits(&[Square::A1, Square::H8])),
        bits(&[Square::B3, Square::C2, Square::F7, Square::G6])
    );
}

#[test]
fn king_patterns() {
    assert_eq!(king_moves(Square::A1.to_u64()), bits(&[Square::A2, Square::B1, Square::B2]));
    assert_eq!(king_moves(Square::H1.to_u64()), bits(&[Square::G1, Square::G2, Square::H2]));
    assert_eq!(
        king_moves(Square::E4.to_u64()),
        bits(&[
            Square::D3, Square::D4, Square::D5, Square::E3, Square::E5, Square::F3, Square::F4, Square::F5,
        ])
    );
}

#[test]
fn pawn_patterns() {
    assert_eq!(pawn_attacks(Square::E4.to_u64(), Player::White), bits(&[Square::D5, Square::F5]));
    assert_eq!(pawn_attacks(Square::A4.to_u64(), Player::White), bits(&[Square::B5]));
    assert_eq!(pawn_attacks(Square::E4.to_u64(), Player::Black), bits(&[Square::D3, Square::F3]));
    assert_eq!(pawn_attacks(Square::H5.to_u64(), Player::Black), bits(&[Square::G4]));
    assert_eq!(pawn_moves(Square::E2.to_u64(), Player::White), bits(&[Square::E3, Square::E4]));
    assert_eq!(pawn_moves(Square::E3.to_u64(), Player::White), bits(&[Square::E4]));
    assert_eq!(pawn_moves(Square::E7.to_u64(), Player::Black), bits(&[Square::E6, Square::E5]));
    assert_eq!(pawn_moves(Square::E8.to_u64(), Player::White), 0);
}

#[test]
fn attack_tables() {
    let sets = build_piece_attack_set();
    let rook_a1 = (File::A.to_u64() | Rank::First.to_u64()) & !Square::A1.to_u64();
    assert_eq!(sets.attacks(Square::A1, PieceType::Rook), rook_a1);
    assert_eq!(
        sets.attacks(Square::A1, PieceType::Bishop),
        bits(&[
            Square::B2, Square::C3, Square::D4, Square::E5, Square::F6, Square::G7, Square::H8,
        ])
    );
    assert_eq!(
        sets.attacks(Square::D4, PieceType::Queen),
        sets.attacks(Square::D4, PieceType::Rook) | sets.attacks(Square::D4, PieceType::Bishop)
    );
    assert_eq!(
        sets.blockers(Square::A1, PieceType::Rook),
        bits(&[
            Square::A2, Square::A3, Square::A4, Square::A5, Square::A6, Square::A7, Square::B1,
            Square::C1, Square::D1, Square::E1, Square::F1, Square::G1,
        ])
    );
    assert_eq!(
        sets.blockers(Square::D4, PieceType::Bishop),
        bits(&[
            Square::C3, Square::B2, Square::E5, Square::F6, Square::G7, Square::C5, Square::B6,
            Square::E3, Square::F2,
        ])
    );
}

#[test]
fn ray_tables() {
    let sets = build_piece_attack_set();
    let d4 = Square::D4.index() as usize;
    assert_eq!(
        sets.orthogonals[d4][0],
        [Square::D5, Square::D6, Square::D7, Square::D8, Square::Invalid, Square::Invalid, Square::Invalid]
    );
    assert_eq!(
        sets.orthogonals[d4][3],
        [Square::C4, Square::B4, Square::A4, Square::Invalid, Square::Invalid, Square::Invalid, Square::Invalid]
    );
    assert_eq!(
        sets.diagonals[d4][2],
        [Square::C3, Square::B2, Square::A1, Square::Invalid, Square::Invalid, Square::Invalid, Square::Invalid]
    );
    assert_eq!(sets.diagonals[Square::H8.index() as usize][0], [Square::Invalid; 7]);
    assert_eq!(
        sets.orthogonals[Square::A1.index() as usize][1],
        [Square::B1, Square::C1, Square::D1, Square::E1, Square::F1, Square::G1, Square::H1]
    );
}

fn board_with(pieces: &[(PieceType, Player, Square)]) -> [u64; 12] {
    let mut board = [0u64; 12];
    for (t, owner, sq) in pieces {
        board[*t as usize + 6 * (*owner as usize)] |= sq.to_u64();
    }
    board
}

#[test]
fn occupancy_queries() {
    let board = board_with(&[
        (PieceType::Knight, Player::White, Square::C3),
        (PieceType::Pawn, Player::Black, Square::C6),
    ]);
    assert!(intercect_with_player_pieces(Square::C3.to_u64(), &board, Player::White));
    assert!(!intercect_with_player_pieces(Square::C3.to_u64(), &board, Player::Black));
    assert!(intercect_with_player_pieces(bits(&[Square::A1, Square::C6]), &board, Player::Black));
    assert!(is_empty(bits(&[Square::A1, Square::H8]), &board));
    assert!(!is_empty(Square::C6.to_u64(), &board));
}

#[test]
fn square_attack_detection() {
    let sets = build_piece_attack_set();
    let board = board_with(&[
        (PieceType::King, Player::White, Square::E1),
        (PieceType::Rook, Player::Black, Square::E8),
        (PieceType::Pawn, Player::Black, Square::D3),
        (PieceType::Knight, Player::Black, Square::G4),
        (PieceType::Bishop, Player::Black, Square::A5),
    ]);
    assert!(is_square_in_check(Square::E4, &board, Player::White, &sets));
    assert!(is_square_in_check(Square::E2, &board, Player::White, &sets));
    assert!(is_square_in_check(Square::C2, &board, Player::White, &sets));
    assert!(is_square_in_check(Square::F2, &board, Player::White, &sets));
    assert!(is_square_in_check(Square::B4, &board, Player::White, &sets));
    assert!(!is_square_in_check(Square::A1, &board, Player::White, &sets));
    assert!(is_king_in_check(&board, Player::White, &sets));
    let blocked = board_with(&[
        (PieceType::King, Player::White, Square::E1),
        (PieceType::Rook, Player::Black, Square::E8),
        (PieceType::Pawn, Player::White, Square::E4),
    ]);
    assert!(!is_king_in_check(&blocked, Player::White, &sets));
    assert!(!is_square_in_check(Square::E3, &blocked, Player::White, &sets));
    assert!(is_square_in_check(Square::E5, &blocked, Player::White, &sets));
    let kingless = board_with(&[(PieceType::Rook, Player::Black, Square::E8)]);
    assert!(!is_king_in_check(&kingless, Player::White, &sets));
}

#[test]
fn precalculated_rows() {
    assert_eq!(PieceType::Rook.precalculated_index(), 0);
    assert_eq!(PieceType::Bishop.precalculated_index(), 1);
    assert_eq!(PieceType::Queen.precalculated_index(), 2);
}
