use bitboard_chess::definitions::{Move, Occupant, Piece, PieceType, Player, SimplePosition, Square};
use bitboard_chess::position::BitBoardPosition;
use bitboard_chess::precalc::{build_piece_attack_set, PreComputedAttackSets};
use bitboard_chess::rules::MoveError;

fn piece(piece_type: PieceType, owner: Player) -> Occupant {
    Occupant::Piece(Piece { piece_type, owner })
}

fn empty_position(to_play: Player) -> SimplePosition {
    SimplePosition {
        board: [Occupant::Empty; 64],
        to_play,
        en_passant_square: Square::Invalid,
        white_king_side_castle: false,
        white_queen_side_castle: false,
        black_king_side_castle: false,
        black_queen_side_castle: false,
        promotion_square: Square::Invalid,
    }
}

fn at(position: &BitBoardPosition, square: Square) -> Occupant {
    position.to_position().board[square.index() as usize]
}

fn play(
    position: &BitBoardPosition,
    start: Square,
    end: Square,
    sets: &PreComputedAttackSets,
) -> Result<BitBoardPosition, MoveError> {
    position.try_play_move((start, end), sets)
}

fn layers_disjoint(position: &BitBoardPosition) -> bool {
    let types = [
        PieceType::Pawn,
        PieceType::Rook,
        PieceType::Knight,
        PieceType::Bishop,
        PieceType::Queen,
        PieceType::King,
    ];
    let mut layers = Vec::new();
    for owner in [Player::White, Player::Black] {
        for t in types {
            layers.push(position.layer(t, owner));
        }
    }
    for i in 0..12 {
        for j in 0..12 {
            if i != j && layers[i] & layers[j] != 0 {
                return false;
            }
        }
    }
    true
}

fn initial() -> BitBoardPosition {
    BitBoardPosition::from_position(&SimplePosition::initial())
}

#[test]
fn opening_double_push_sets_en_passant_target() {
    let sets = build_piece_attack_set();
    let next = play(&initial(), Square::E2, Square::E4, &sets).unwrap();
    assert_eq!(at(&next, Square::E2), Occupant::Empty);
    assert_eq!(at(&next, Square::E4), piece(PieceType::Pawn, Player::White));
    assert_eq!(next.en_passant_square(), Square::E3);
    assert_eq!(next.to_play(), Player::Black);
}

#[test]
fn en_passant_removes_pawn_behind_target() {
    let sets = build_piece_attack_set();
    let p = play(&initial(), Square::E2, Square::E4, &sets).unwrap();
    let p = play(&p, Square::A7, Square::A6, &sets).unwrap();
    let p = play(&p, Square::E4, Square::E5, &sets).unwrap();
    let p = play(&p, Square::D7, Square::D5, &sets).unwrap();
    assert_eq!(p.en_passant_square(), Square::D6);
    let p = play(&p, Square::E5, Square::D6, &sets).unwrap();
    assert_eq!(at(&p, Square::D6), piece(PieceType::Pawn, Player::White));
    assert_eq!(at(&p, Square::D5), Occupant::Empty);
    assert_eq!(at(&p, Square::E5), Occupant::Empty);
    assert_eq!(p.en_passant_square(), Square::Invalid);
    assert!(layers_disjoint(&p));
}

#[test]
fn en_passant_target_lasts_one_move() {
    let sets = build_piece_attack_set();
    let p = play(&initial(), Square::E2, Square::E4, &sets).unwrap();
    let p = play(&p, Square::A7, Square::A6, &sets).unwrap();
    let p = play(&p, Square::E4, Square::E5, &sets).unwrap();
    let p = play(&p, Square::D7, Square::D5, &sets).unwrap();
    let p = play(&p, Square::H2, Square::H3, &sets).unwrap();
    assert_eq!(p.en_passant_square(), Square::Invalid);
    let p = play(&p, Square::H7, Square::H6, &sets).unwrap();
    assert_eq!(play(&p, Square::E5, Square::D6, &sets).err(), Some(MoveError::PawnDiagonalWithoutCapture));
}

fn castle_position() -> SimplePosition {
    let mut p = empty_position(Player::White);
    p.board[Square::E1.index() as usize] = piece(PieceType::King, Player::White);
    p.board[Square::H1.index() as usize] = piece(PieceType::Rook, Player::White);
    p.board[Square::A1.index() as usize] = piece(PieceType::Rook, Player::White);
    p.board[Square::E8.index() as usize] = piece(PieceType::King, Player::Black);
    p.white_king_side_castle = true;
    p.white_queen_side_castle = true;
    p
}

#[test]
fn king_side_castle_moves_rook() {
    let sets = build_piece_attack_set();
    let p = BitBoardPosition::from_position(&castle_position());
    let next = play(&p, Square::E1, Square::G1, &sets).unwrap();
    assert_eq!(at(&next, Square::G1), piece(PieceType::King, Player::White));
    assert_eq!(at(&next, Square::F1), piece(PieceType::Rook, Player::White));
    assert_eq!(at(&next, Square::H1), Occupant::Empty);
    assert_eq!(at(&next, Square::E1), Occupant::Empty);
    assert!(!next.white_king_side_castle());
    assert!(!next.white_queen_side_castle());
    assert_eq!(next.to_play(), Player::Black);
    assert!(layers_disjoint(&next));
}

#[test]
fn queen_side_castle_moves_rook_to_d1() {
    let sets = build_piece_attack_set();
    let p = BitBoardPosition::from_position(&castle_position());
    let next = play(&p, Square::E1, Square::C1, &sets).unwrap();
    assert_eq!(at(&next, Square::C1), piece(PieceType::King, Player::White));
    assert_eq!(at(&next, Square::D1), piece(PieceType::Rook, Player::White));
    assert_eq!(at(&next, Square::A1), Occupant::Empty);
}

#[test]
fn castle_refused_when_path_occupied() {
    let sets = build_piece_attack_set();
    let mut flat = castle_position();
    flat.board[Square::B1.index() as usize] = piece(PieceType::Knight, Player::White);
    let p = BitBoardPosition::from_position(&flat);
    assert_eq!(play(&p, Square::E1, Square::C1, &sets).err(), Some(MoveError::CastleUnavailable));
    let mut flat = castle_position();
    flat.board[Square::F1.index() as usize] = piece(PieceType::Bishop, Player::White);
    let p = BitBoardPosition::from_position(&flat);
    assert_eq!(play(&p, Square::E1, Square::G1, &sets).err(), Some(MoveError::CastleUnavailable));
}

#[test]
fn castle_refused_through_attacked_square_or_without_right() {
    let sets = build_piece_attack_set();
    let mut flat = castle_position();
    flat.board[Square::F8.index() as usize] = piece(PieceType::Rook, Player::Black);
    let p = BitBoardPosition::from_position(&flat);
    assert_eq!(play(&p, Square::E1, Square::G1, &sets).err(), Some(MoveError::CastleUnavailable));
    let mut flat = castle_position();
    flat.white_king_side_castle = false;
    let p = BitBoardPosition::from_position(&flat);
    assert_eq!(play(&p, Square::E1, Square::G1, &sets).err(), Some(MoveError::CastleUnavailable));
}

#[test]
fn rook_move_clears_its_castling_right() {
    let sets = build_piece_attack_set();
    let p = BitBoardPosition::from_position(&castle_position());
    let next = play(&p, Square::H1, Square::H4, &sets).unwrap();
    assert!(!next.white_king_side_castle());
    assert!(next.white_queen_side_castle());
}

fn promotion_position() -> SimplePosition {
    let mut p = empty_position(Player::White);
    p.board[Square::A7.index() as usize] = piece(PieceType::Pawn, Player::White);
    p.board[Square::E1.index() as usize] = piece(PieceType::King, Player::White);
    p.board[Square::H5.index() as usize] = piece(PieceType::King, Player::Black);
    p
}

#[test]
fn promotion_waits_for_choice() {
    let sets = build_piece_attack_set();
    let p = BitBoardPosition::from_position(&promotion_position());
    let p = play(&p, Square::A7, Square::A8, &sets).unwrap();
    assert_eq!(p.pending_promotion(), Square::A8);
    assert_eq!(p.to_play(), Player::White);
    assert_eq!(play(&p, Square::E1, Square::E2, &sets).err(), Some(MoveError::PromotionPending));
    let pawns_before = p.layer(PieceType::Pawn, Player::White);
    assert_eq!(pawns_before & Square::A8.to_u64(), Square::A8.to_u64());
    let p = p.promote(PieceType::Queen).ok().unwrap();
    assert_eq!(p.layer(PieceType::Pawn, Player::White) & Square::A8.to_u64(), 0);
    assert_eq!(p.layer(PieceType::Queen, Player::White), Square::A8.to_u64());
    assert_eq!(p.to_play(), Player::Black);
    assert_eq!(p.pending_promotion(), Square::Invalid);
    assert_eq!(p.promotion_square, Square::Invalid);
    assert!(layers_disjoint(&p));
}

#[test]
fn promotion_errors() {
    let sets = build_piece_attack_set();
    let p = BitBoardPosition::from_position(&promotion_position());
    assert_eq!(p.try_promote(PieceType::Queen).err(), Some(MoveError::NoPendingPromotion));
    let p = play(&p, Square::A7, Square::A8, &sets).unwrap();
    assert_eq!(p.try_promote(PieceType::King).err(), Some(MoveError::InvalidPromotionChoice));
    assert_eq!(p.try_promote(PieceType::Pawn).err(), Some(MoveError::InvalidPromotionChoice));
    let back = p.promote(PieceType::Pawn).err().unwrap();
    assert_eq!(back.pending_promotion(), Square::A8);
}

#[test]
fn refused_move_returns_position_unchanged() {
    let sets = build_piece_attack_set();
    let p = initial();
    let back = p.play_move((Square::E2, Square::E5), &sets).err().unwrap();
    assert_eq!(back.to_play(), Player::White);
    assert_eq!(back.to_position().board, SimplePosition::initial().board);
}

#[test]
fn turn_alternates_after_each_move() {
    let sets = build_piece_attack_set();
    let p = initial().play_move((Square::G1, Square::F3), &sets).ok().unwrap();
    assert_eq!(p.to_play(), Player::Black);
    let p = p.play_move((Square::G8, Square::F6), &sets).ok().unwrap();
    assert_eq!(p.to_play(), Player::White);
    assert!(layers_disjoint(&p));
}

#[test]
fn resolution_errors() {
    let sets = build_piece_attack_set();
    let p = initial();
    assert_eq!(play(&p, Square::E4, Square::E5, &sets).err(), Some(MoveError::EmptySquare));
    assert_eq!(play(&p, Square::E7, Square::E5, &sets).err(), Some(MoveError::EmptySquare));
    assert_eq!(play(&p, Square::Invalid, Square::E5, &sets).err(), Some(MoveError::EmptySquare));
    assert_eq!(play(&p, Square::A1, Square::A2, &sets).err(), Some(MoveError::OwnDestinationOccupied));
    let black_pawn = Move {
        start: Square::E7,
        end: Square::E5,
        piece: Piece { piece_type: PieceType::Pawn, owner: Player::Black },
    };
    assert_eq!(p.validate_move(&black_pawn, &sets), Err(MoveError::NotYourPiece));
}

#[test]
fn move_resolves_piece_of_player_to_move() {
    let p = initial();
    let mv = Move::from_bitboard(&p, (Square::G1, Square::F3)).unwrap();
    assert_eq!(mv.piece, Piece { piece_type: PieceType::Knight, owner: Player::White });
    assert_eq!(mv.start, Square::G1);
    assert_eq!(mv.end, Square::F3);
    assert_eq!(Move::from_bitboard(&p, (Square::G8, Square::F6)).err(), Some(MoveError::EmptySquare));
}

#[test]
fn pattern_errors() {
    let sets = build_piece_attack_set();
    let p = initial();
    assert_eq!(play(&p, Square::G1, Square::G3, &sets).err(), Some(MoveError::IllegalKnightMove));
    assert_eq!(play(&p, Square::E2, Square::E5, &sets).err(), Some(MoveError::IllegalPawnMove));
    assert_eq!(play(&p, Square::E2, Square::D3, &sets).err(), Some(MoveError::PawnDiagonalWithoutCapture));
    assert_eq!(play(&p, Square::A1, Square::A3, &sets).err(), Some(MoveError::IllegalRookMove));
    assert_eq!(play(&p, Square::C1, Square::E3, &sets).err(), Some(MoveError::IllegalBishopMove));
    assert_eq!(play(&p, Square::D1, Square::D3, &sets).err(), Some(MoveError::IllegalQueenMove));
    let p = play(&p, Square::E2, Square::E4, &sets).unwrap();
    let p = play(&p, Square::E7, Square::E5, &sets).unwrap();
    assert_eq!(play(&p, Square::E1, Square::E3, &sets).err(), Some(MoveError::IllegalKingMove));
    assert_eq!(play(&p, Square::E4, Square::E5, &sets).err(), Some(MoveError::PawnPushBlocked));
}

#[test]
fn double_push_needs_the_passed_square_empty() {
    let sets = build_piece_attack_set();
    let mut flat = SimplePosition::initial();
    flat.board[Square::E3.index() as usize] = piece(PieceType::Knight, Player::Black);
    let p = BitBoardPosition::from_position(&flat);
    assert_eq!(play(&p, Square::E2, Square::E4, &sets).err(), Some(MoveError::PawnPushBlocked));
    let p = initial();
    assert!(play(&p, Square::E2, Square::E4, &sets).is_ok());
}

#[test]
fn every_knight_jump_is_accepted() {
    let sets = build_piece_attack_set();
    let targets = [
        Square::B3, Square::B5, Square::C2, Square::C6, Square::E2, Square::E6, Square::F3, Square::F5,
    ];
    for target in targets {
        let mut flat = empty_position(Player::White);
        flat.board[Square::D4.index() as usize] = piece(PieceType::Knight, Player::White);
        let p = BitBoardPosition::from_position(&flat);
        let next = play(&p, Square::D4, target, &sets).unwrap();
        assert_eq!(at(&next, target), piece(PieceType::Knight, Player::White));
    }
    let mut flat = empty_position(Player::White);
    flat.board[Square::A1.index() as usize] = piece(PieceType::Knight, Player::White);
    let p = BitBoardPosition::from_position(&flat);
    assert!(play(&p, Square::A1, Square::B3, &sets).is_ok());
    assert!(play(&p, Square::A1, Square::C2, &sets).is_ok());
    assert_eq!(play(&p, Square::A1, Square::G2, &sets).err(), Some(MoveError::IllegalKnightMove));
}

#[test]
fn rook_stops_at_first_piece() {
    let sets = build_piece_attack_set();
    let mut flat = empty_position(Player::White);
    flat.board[Square::A1.index() as usize] = piece(PieceType::Rook, Player::White);
    flat.board[Square::A4.index() as usize] = piece(PieceType::Pawn, Player::Black);
    flat.board[Square::D1.index() as usize] = piece(PieceType::Pawn, Player::White);
    let p = BitBoardPosition::from_position(&flat);
    assert_eq!(play(&p, Square::A1, Square::A5, &sets).err(), Some(MoveError::IllegalRookMove));
    assert_eq!(play(&p, Square::A1, Square::E1, &sets).err(), Some(MoveError::IllegalRookMove));
    assert_eq!(play(&p, Square::A1, Square::D1, &sets).err(), Some(MoveError::OwnDestinationOccupied));
    let captured = play(&p, Square::A1, Square::A4, &sets).unwrap();
    assert_eq!(at(&captured, Square::A4), piece(PieceType::Rook, Player::White));
    assert_eq!(captured.layer(PieceType::Pawn, Player::Black), 0);
    assert!(play(&p, Square::A1, Square::C1, &sets).is_ok());
}

#[test]
fn queen_moves_as_rook_or_bishop() {
    let sets = build_piece_attack_set();
    let mut flat = empty_position(Player::White);
    flat.board[Square::D4.index() as usize] = piece(PieceType::Queen, Player::White);
    let p = BitBoardPosition::from_position(&flat);
    assert!(play(&p, Square::D4, Square::D8, &sets).is_ok());
    assert!(play(&p, Square::D4, Square::H8, &sets).is_ok());
    assert!(play(&p, Square::D4, Square::A1, &sets).is_ok());
    assert_eq!(play(&p, Square::D4, Square::E6, &sets).err(), Some(MoveError::IllegalQueenMove));
}

#[test]
fn move_exposing_own_king_is_refused() {
    let sets = build_piece_attack_set();
    let mut flat = empty_position(Player::White);
    flat.board[Square::E1.index() as usize] = piece(PieceType::King, Player::White);
    flat.board[Square::E2.index() as usize] = piece(PieceType::Bishop, Player::White);
    flat.board[Square::E8.index() as usize] = piece(PieceType::Rook, Player::Black);
    flat.board[Square::A8.index() as usize] = piece(PieceType::King, Player::Black);
    let p = BitBoardPosition::from_position(&flat);
    assert_eq!(play(&p, Square::E2, Square::D3, &sets).err(), Some(MoveError::LeavesOwnKingInCheck));
    assert_eq!(play(&p, Square::E1, Square::E1, &sets).err(), Some(MoveError::OwnDestinationOccupied));
    assert!(play(&p, Square::E1, Square::D1, &sets).is_ok());
}

#[test]
fn king_cannot_step_into_attack() {
    let sets = build_piece_attack_set();
    let mut flat = empty_position(Player::White);
    flat.board[Square::E1.index() as usize] = piece(PieceType::King, Player::White);
    flat.board[Square::D8.index() as usize] = piece(PieceType::Rook, Player::Black);
    flat.board[Square::H8.index() as usize] = piece(PieceType::King, Player::Black);
    let p = BitBoardPosition::from_position(&flat);
    assert_eq!(play(&p, Square::E1, Square::D1, &sets).err(), Some(MoveError::LeavesOwnKingInCheck));
    assert!(play(&p, Square::E1, Square::F1, &sets).is_ok());
}

#[test]
fn king_does_not_wrap_round_the_board() {
    let sets = build_piece_attack_set();
    let mut flat = empty_position(Player::White);
    flat.board[Square::H1.index() as usize] = piece(PieceType::King, Player::White);
    let p = BitBoardPosition::from_position(&flat);
    assert_eq!(play(&p, Square::H1, Square::A2, &sets).err(), Some(MoveError::IllegalKingMove));
    assert!(play(&p, Square::H1, Square::G2, &sets).is_ok());
}

#[test]
fn flat_round_trip_keeps_everything() {
    let sets = build_piece_attack_set();
    let p = play(&initial(), Square::E2, Square::E4, &sets).unwrap();
    let flat = p.to_position();
    let again = BitBoardPosition::from_position(&flat).to_position();
    assert_eq!(again.board, flat.board);
    assert_eq!(again.to_play, flat.to_play);
    assert_eq!(again.en_passant_square, Square::E3);
    assert_eq!(again.white_king_side_castle, flat.white_king_side_castle);
    assert_eq!(again.black_queen_side_castle, flat.black_queen_side_castle);
    assert_eq!(again.promotion_square, flat.promotion_square);
    let start = initial().to_position();
    assert_eq!(start.board, SimplePosition::initial().board);
}

#[test]
fn from_position_copies_castling_rights_verbatim() {
    let mut flat = empty_position(Player::Black);
    flat.white_king_side_castle = true;
    flat.black_queen_side_castle = true;
    let p = BitBoardPosition::from_position(&flat);
    assert!(p.white_king_side_castle());
    assert!(!p.white_queen_side_castle());
    assert!(!p.black_king_side_castle());
    assert!(p.black_queen_side_castle());
    assert_eq!(p.to_play(), Player::Black);
}
