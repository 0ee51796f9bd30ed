//! The rules of the game, stated over the mathematical model of a position.
use vstd::prelude::*;
use crate::bits::{bit, has_bit, lemma_has_bit_or, lemma_has_bit_single, lemma_has_bit_zero};
use crate::board::{
    king_in_check, layer_index, occupied, occupied_by, ray_point, slides_to, square_attacked,
};
use crate::definitions::{Move, Occupant, Piece, PieceType, Player, Square, rank_of};
use crate::patterns::{
    forward, king_step, knight_jump, pawn_capture_step, pawn_home_rank, pawn_push_step,
};

verus! {

/// Why a move or a promotion was refused.
#[derive(PartialEq, Eq, Debug, Copy, Clone, Structural)]
pub enum MoveError {
    /// The start square holds no piece of the player to move.
    EmptySquare,
    /// The piece belongs to the opponent.
    NotYourPiece,
    /// The destination holds a piece of the mover.
    OwnDestinationOccupied,
    IllegalKnightMove,
    IllegalPawnMove,
    /// A diagonal pawn step that captures nothing.
    PawnDiagonalWithoutCapture,
    /// A forward pawn step onto, or through, an occupied square.
    PawnPushBlocked,
    IllegalRookMove,
    IllegalBishopMove,
    IllegalQueenMove,
    IllegalKingMove,
    /// The move would leave the mover's own king attacked.
    LeavesOwnKingInCheck,
    /// Castling rights are gone, the rook is missing, the path is occupied, or the king's
    /// start, transit or destination square is attacked.
    CastleUnavailable,
    /// A promotion choice is outstanding.
    PromotionPending,
    NoPendingPromotion,
    /// A pawn or a king was chosen for a promotion.
    InvalidPromotionChoice,
}

/// The mathematical state of a game. Squares are numbers, 64 standing for none.
pub struct PositionModel {
    pub to_play: Player,
    /// The twelve layers, indexed by `layer_index`.
    pub board: Seq<u64>,
    pub en_passant: int,
    pub white_king_side_castle: bool,
    pub white_queen_side_castle: bool,
    pub black_king_side_castle: bool,
    pub black_queen_side_castle: bool,
    pub promotion: int,
}

/// The piece type kept in layer `k` of a player's six.
pub open spec fn piece_type_of_layer(k: int) -> PieceType {
    if k == 0 {
        PieceType::Pawn
    } else if k == 1 {
        PieceType::Rook
    } else if k == 2 {
        PieceType::Knight
    } else if k == 3 {
        PieceType::Bishop
    } else if k == 4 {
        PieceType::Queen
    } else {
        PieceType::King
    }
}

/// The type of the piece of `pl` on square `i`, read from the first of `pl`'s layers that
/// holds it.
pub open spec fn piece_of(b: Seq<u64>, pl: Player, i: int) -> Option<PieceType> {
    let o = 6 * (pl as int);
    if has_bit(b[o], i) {
        Some(PieceType::Pawn)
    } else if has_bit(b[o + 1], i) {
        Some(PieceType::Rook)
    } else if has_bit(b[o + 2], i) {
        Some(PieceType::Knight)
    } else if has_bit(b[o + 3], i) {
        Some(PieceType::Bishop)
    } else if has_bit(b[o + 4], i) {
        Some(PieceType::Queen)
    } else if has_bit(b[o + 5], i) {
        Some(PieceType::King)
    } else {
        None
    }
}

/// A rook (or bishop, for `diagonal`) of `pl` on `s` may slide to `e`: some ray from `s`
/// reaches `e` over empty squares, and `e` holds no piece of `pl`.
pub open spec fn slide_reach(b: Seq<u64>, pl: Player, s: int, e: int, diagonal: bool) -> bool {
    exists|d: int| 0 <= d < 4 && #[trigger] ray_reach(b, pl, s, d, diagonal, e)
}

/// Along direction `d` from `s`, a sliding piece of `pl` reaches `e`.
pub open spec fn ray_reach(b: Seq<u64>, pl: Player, s: int, d: int, diagonal: bool, e: int) -> bool {
    exists|k: int|
        #[trigger] slides_to(b, s, d, diagonal, k) && ray_point(s, d, diagonal, k) == e
            && !occupied_by(b, pl, e)
}

/// The square a pawn passes over when it advances from `s` to `e`, if it advances two.
pub open spec fn passed_square(s: int, e: int) -> int {
    (s + e) / 2
}

/// A diagonal pawn step of `pl` onto `e` must capture: onto the en-passant target, or onto an
/// opponent piece.
pub open spec fn pawn_capture_verdict(m: PositionModel, pl: Player, e: int) -> Result<(), MoveError> {
    if e == m.en_passant || occupied_by(m.board, pl.opponent_spec(), e) {
        Ok(())
    } else {
        Err(MoveError::PawnDiagonalWithoutCapture)
    }
}

/// A forward pawn step from `s` to `e` needs `e`, and the square passed over on a double step,
/// to be empty.
pub open spec fn pawn_push_verdict(m: PositionModel, s: int, e: int) -> Result<(), MoveError> {
    if !occupied(m.board, e) && (e - s == 16 || s - e == 16 ==> !occupied(
        m.board,
        passed_square(s, e),
    )) {
        Ok(())
    } else {
        Err(MoveError::PawnPushBlocked)
    }
}

/// What the rules say of a pawn of `pl` going from `s` to `e`.
pub open spec fn pawn_verdict(m: PositionModel, pl: Player, s: int, e: int) -> Result<(), MoveError> {
    if pawn_capture_step(s, e, pl) {
        pawn_capture_verdict(m, pl, e)
    } else if pawn_push_step(s, e, pl) {
        pawn_push_verdict(m, s, e)
    } else {
        Err(MoveError::IllegalPawnMove)
    }
}

/// What the per-piece rules say of a move, leaving check aside.
#[verifier::opaque]
pub open spec fn validate_spec(m: PositionModel, mv: Move) -> Result<(), MoveError> {
    let pl = m.to_play;
    let s = mv.start as int;
    let e = mv.end as int;
    if mv.piece.owner != pl {
        Err(MoveError::NotYourPiece)
    } else if occupied_by(m.board, pl, e) {
        Err(MoveError::OwnDestinationOccupied)
    } else {
        match mv.piece.piece_type {
            PieceType::Knight => if knight_jump(s, e) {
                Ok(())
            } else {
                Err(MoveError::IllegalKnightMove)
            },
            PieceType::Pawn => pawn_verdict(m, pl, s, e),
            PieceType::Rook => if slide_reach(m.board, pl, s, e, false) {
                Ok(())
            } else {
                Err(MoveError::IllegalRookMove)
            },
            PieceType::Bishop => if slide_reach(m.board, pl, s, e, true) {
                Ok(())
            } else {
                Err(MoveError::IllegalBishopMove)
            },
            PieceType::Queen => if slide_reach(m.board, pl, s, e, false) || slide_reach(
                m.board,
                pl,
                s,
                e,
                true,
            ) {
                Ok(())
            } else {
                Err(MoveError::IllegalQueenMove)
            },
            PieceType::King => if king_step(s, e) {
                Ok(())
            } else {
                Err(MoveError::IllegalKingMove)
            },
        }
    }
}


/// The square on which the king of `pl` starts.
pub open spec fn king_home(pl: Player) -> int {
    match pl {
        Player::White => Square::E1 as int,
        Player::Black => Square::E8 as int,
    }
}

/// A king of `pl` moving from `s` to `e` asks to castle: it leaves its home square for the
/// G-file (king side) or the C-file (queen side) square.
pub open spec fn is_castle_attempt(pl: Player, pt: PieceType, s: int, e: int) -> bool {
    &&& pt == PieceType::King
    &&& s == king_home(pl)
    &&& (e == s + 2 || e == s - 2)
}

/// The castling right of the player to move on one side.
pub open spec fn castle_right(m: PositionModel, king_side: bool) -> bool {
    match (m.to_play, king_side) {
        (Player::White, true) => m.white_king_side_castle,
        (Player::White, false) => m.white_queen_side_castle,
        (Player::Black, true) => m.black_king_side_castle,
        (Player::Black, false) => m.black_queen_side_castle,
    }
}

/// Where the castling rook of `pl` starts.
pub open spec fn rook_home(pl: Player, king_side: bool) -> int {
    if king_side {
        king_home(pl) + 3
    } else {
        king_home(pl) - 4
    }
}

/// Where the castling rook of `pl` lands.
pub open spec fn rook_castled(pl: Player, king_side: bool) -> int {
    if king_side {
        king_home(pl) + 1
    } else {
        king_home(pl) - 1
    }
}

/// The player to move may castle with the king landing on `e`: the right is kept, the rook is
/// on its home square, the squares between king and rook are empty, and the king's start,
/// transit and destination squares are not attacked.
pub open spec fn castle_allowed(m: PositionModel, e: int) -> bool {
    let pl = m.to_play;
    let h = king_home(pl);
    let king_side = e == h + 2;
    let transit = if king_side {
        h + 1
    } else {
        h - 1
    };
    &&& castle_right(m, king_side)
    &&& has_bit(m.board[layer_index(PieceType::Rook, pl)], rook_home(pl, king_side))
    &&& if king_side {
        !occupied(m.board, h + 1) && !occupied(m.board, h + 2)
    } else {
        !occupied(m.board, h - 1) && !occupied(m.board, h - 2) && !occupied(m.board, h - 3)
    }
    &&& !square_attacked(m.board, h, pl)
    &&& !square_attacked(m.board, transit, pl)
    &&& !square_attacked(m.board, e, pl)
}

/// The position after the player to move castles with the king landing on `e`: king and rook
/// move together, both castling rights of the mover go, the en-passant target is cleared, and
/// the turn passes.
pub open spec fn castled(m: PositionModel, e: int) -> PositionModel {
    let pl = m.to_play;
    let h = king_home(pl);
    let king_side = e == h + 2;
    let kl = layer_index(PieceType::King, pl);
    let rl = layer_index(PieceType::Rook, pl);
    let white = pl == Player::White;
    PositionModel {
        to_play: pl.opponent_spec(),
        board: m.board.update(kl, (m.board[kl] & !bit(h)) | bit(e)).update(
            rl,
            (m.board[rl] & !bit(rook_home(pl, king_side))) | bit(rook_castled(pl, king_side)),
        ),
        en_passant: Square::Invalid as int,
        white_king_side_castle: m.white_king_side_castle && !white,
        white_queen_side_castle: m.white_queen_side_castle && !white,
        black_king_side_castle: m.black_king_side_castle && white,
        black_queen_side_castle: m.black_queen_side_castle && white,
        promotion: m.promotion,
    }
}

/// A pawn move of the player to move from `s` to `e` captures en passant.
pub open spec fn is_en_passant_capture(m: PositionModel, pt: PieceType, s: int, e: int) -> bool {
    &&& pt == PieceType::Pawn
    &&& pawn_capture_step(s, e, m.to_play)
    &&& e == m.en_passant
}

/// The square of the pawn taken by an en-passant capture of `pl` landing on `e`.
pub open spec fn en_passant_victim(pl: Player, e: int) -> int {
    e - 8 * forward(pl)
}

/// Layer `k` after a piece of type `pt` of the player to move goes from `s` to `e`: the
/// mover's layer loses `s` and gains `e`, every opponent layer loses `e`, and an en-passant
/// capture also takes the opponent pawn behind `e`.
pub open spec fn moved_layer(m: PositionModel, pt: PieceType, s: int, e: int, k: int) -> u64 {
    let pl = m.to_play;
    let opp = pl.opponent_spec();
    let x = m.board[k];
    if k == layer_index(pt, pl) {
        (x & !bit(s)) | bit(e)
    } else if 6 * (opp as int) <= k < 6 * (opp as int) + 6 {
        let y = if k == layer_index(PieceType::Pawn, opp) && is_en_passant_capture(m, pt, s, e) {
            x & !bit(en_passant_victim(pl, e))
        } else {
            x
        };
        y & !bit(e)
    } else {
        x
    }
}

/// The twelve layers after a piece of type `pt` goes from `s` to `e`.
pub open spec fn moved_board(m: PositionModel, pt: PieceType, s: int, e: int) -> Seq<u64> {
    Seq::new(12, |k: int| moved_layer(m, pt, s, e, k))
}

/// A pawn of `pl` went from its home rank two ranks forward.
pub open spec fn is_double_push(pl: Player, pt: PieceType, s: int, e: int) -> bool {
    &&& pt == PieceType::Pawn
    &&& rank_of(s) == pawn_home_rank(pl)
    &&& rank_of(e) == pawn_home_rank(pl) + 2 * forward(pl)
}

/// A pawn lands on the first or last rank.
pub open spec fn reaches_last_rank(pt: PieceType, e: int) -> bool {
    pt == PieceType::Pawn && (rank_of(e) == 0 || rank_of(e) == 7)
}

/// The position after an ordinary move of a piece of type `pt` from `s` to `e`: the moved
/// board; the en-passant target set behind a double pawn push and cleared otherwise; the
/// castling rights lost that a king or rook leaving `s` takes away; and either a pending
/// promotion on `e`, with the same player to move, or the turn passed.
pub open spec fn moved(m: PositionModel, pt: PieceType, s: int, e: int) -> PositionModel {
    let pl = m.to_play;
    let promotes = reaches_last_rank(pt, e);
    PositionModel {
        to_play: if promotes {
            pl
        } else {
            pl.opponent_spec()
        },
        board: moved_board(m, pt, s, e),
        en_passant: if is_double_push(pl, pt, s, e) {
            s + 8 * forward(pl)
        } else {
            Square::Invalid as int
        },
        white_king_side_castle: m.white_king_side_castle && s != Square::E1 as int && s
            != Square::H1 as int,
        white_queen_side_castle: m.white_queen_side_castle && s != Square::E1 as int && s
            != Square::A1 as int,
        black_king_side_castle: m.black_king_side_castle && s != Square::E8 as int && s
            != Square::H8 as int,
        black_queen_side_castle: m.black_queen_side_castle && s != Square::E8 as int && s
            != Square::A8 as int,
        promotion: if promotes {
            e
        } else {
            m.promotion
        },
    }
}

/// What castling with the king landing on `e` does.
pub open spec fn castle_outcome(m: PositionModel, e: int) -> Result<PositionModel, MoveError> {
    if !castle_allowed(m, e) {
        Err(MoveError::CastleUnavailable)
    } else if king_in_check(castled(m, e).board, m.to_play) {
        Err(MoveError::LeavesOwnKingInCheck)
    } else {
        Ok(castled(m, e))
    }
}

/// What an ordinary move of a piece of type `pt` from `s` to `e` does: the per-piece rules
/// decide, then the move must not leave the mover's king attacked.
pub open spec fn ordinary_outcome(m: PositionModel, pt: PieceType, s: Square, e: Square) -> Result<
    PositionModel,
    MoveError,
> {
    match validate_spec(m, Move { start: s, end: e, piece: Piece { piece_type: pt, owner: m.to_play } }) {
        Err(err) => Err(err),
        Ok(_) => if king_in_check(moved_board(m, pt, s as int, e as int), m.to_play) {
            Err(MoveError::LeavesOwnKingInCheck)
        } else {
            Ok(moved(m, pt, s as int, e as int))
        },
    }
}

/// What playing from `s` to `e` does: the next position, or why the move is refused.
pub open spec fn play_spec(m: PositionModel, s: Square, e: Square) -> Result<PositionModel, MoveError> {
    if m.promotion != Square::Invalid as int {
        Err(MoveError::PromotionPending)
    } else {
        match piece_of(m.board, m.to_play, s as int) {
            None => Err(MoveError::EmptySquare),
            Some(pt) => if is_castle_attempt(m.to_play, pt, s as int, e as int) {
                castle_outcome(m, e as int)
            } else {
                ordinary_outcome(m, pt, s, e)
            },
        }
    }
}

/// What choosing `pt` for the pending promotion does: the pawn on the promotion square
/// becomes a `pt` of the same player, the promotion is settled and the turn passes.
pub open spec fn promote_spec(m: PositionModel, pt: PieceType) -> Result<PositionModel, MoveError> {
    let pl = m.to_play;
    let p = m.promotion;
    let pawns = layer_index(PieceType::Pawn, pl);
    let chosen = layer_index(pt, pl);
    if p == Square::Invalid as int {
        Err(MoveError::NoPendingPromotion)
    } else if pt == PieceType::Pawn || pt == PieceType::King {
        Err(MoveError::InvalidPromotionChoice)
    } else {
        Ok(
            PositionModel {
                to_play: pl.opponent_spec(),
                board: m.board.update(pawns, m.board[pawns] & !bit(p)).update(
                    chosen,
                    m.board[chosen] | bit(p),
                ),
                promotion: Square::Invalid as int,
                ..m
            },
        )
    }
}

/// The piece kept in layer `k` of the twelve.
pub open spec fn layer_piece(k: int) -> Piece {
    Piece {
        piece_type: piece_type_of_layer(k % 6),
        owner: if k < 6 {
            Player::White
        } else {
            Player::Black
        },
    }
}

/// What stands on square `i` according to the first `n` layers; a later layer overrides an
/// earlier one.
pub open spec fn occupant_upto(b: Seq<u64>, i: int, n: int) -> Occupant
    decreases n,
{
    if n <= 0 {
        Occupant::Empty
    } else if has_bit(b[n - 1], i) {
        Occupant::Piece(layer_piece(n - 1))
    } else {
        occupant_upto(b, i, n - 1)
    }
}

/// The plain board that the layers describe, square by square from `A1`.
pub open spec fn flat_board(b: Seq<u64>) -> Seq<Occupant> {
    Seq::new(64, |i: int| occupant_upto(b, i, 12))
}

/// The word whose bits are the squares below `n` holding `p`.
pub open spec fn squares_holding(flat: Seq<Occupant>, p: Piece, n: int) -> u64
    decreases n,
{
    if n <= 0 {
        0u64
    } else {
        squares_holding(flat, p, n - 1) | (if flat[n - 1] == Occupant::Piece(p) {
            bit(n - 1)
        } else {
            0u64
        })
    }
}

/// The twelve layers of a plain board.
pub open spec fn layers_of(flat: Seq<Occupant>) -> Seq<u64> {
    Seq::new(12, |k: int| squares_holding(flat, layer_piece(k), 64))
}

/// No square is set in two layers.
pub open spec fn layers_disjoint(b: Seq<u64>) -> bool {
    forall|k1: int, k2: int, i: int|
        0 <= k1 < 12 && 0 <= k2 < 12 && k1 != k2 ==> !(#[trigger] has_bit(b[k1], i) && #[trigger] has_bit(
            b[k2],
            i,
        ))
}

/// The invariant of a game state: twelve disjoint layers, and a pending promotion only on a
/// square that holds a pawn of the player to move.
pub open spec fn position_wf(m: PositionModel) -> bool {
    &&& m.board.len() == 12
    &&& layers_disjoint(m.board)
    &&& (m.promotion == Square::Invalid as int || has_bit(
        m.board[layer_index(PieceType::Pawn, m.to_play)],
        m.promotion,
    ))
}

/// The bits of `squares_holding` are the squares below `n` that hold `p`.
pub proof fn lemma_squares_holding(flat: Seq<Occupant>, p: Piece, n: int, i: int)
    requires
        0 <= n <= 64,
    ensures
        has_bit(squares_holding(flat, p, n), i) <==> (0 <= i < n && flat[i] == Occupant::Piece(p)),
    decreases n,
{
    reveal_with_fuel(squares_holding, 1);
    if n <= 0 {
        lemma_has_bit_zero(i);
    } else {
        lemma_squares_holding(flat, p, n - 1, i);
        let prev = squares_holding(flat, p, n - 1);
        let add = if flat[n - 1] == Occupant::Piece(p) {
            bit(n - 1)
        } else {
            0u64
        };
        lemma_has_bit_or(prev, add, i);
        lemma_has_bit_zero(i);
        lemma_has_bit_single(n - 1, i);
    }
}

/// Each piece has exactly one layer.
pub proof fn lemma_layer_piece(k: int, p: Piece)
    requires
        0 <= k < 12,
    ensures
        layer_piece(k) == p <==> k == layer_index(p.piece_type, p.owner),
        layer_piece(layer_index(p.piece_type, p.owner)) == p,
{
}

/// The layers of a plain board are disjoint: each square holds one occupant.
pub proof fn lemma_layers_of_disjoint(flat: Seq<Occupant>)
    ensures
        layers_disjoint(layers_of(flat)),
{
    let b = layers_of(flat);
    assert forall|k1: int, k2: int, i: int|
        0 <= k1 < 12 && 0 <= k2 < 12 && k1 != k2 implies !(#[trigger] has_bit(b[k1], i)
        && #[trigger] has_bit(b[k2], i)) by {
        lemma_squares_holding(flat, layer_piece(k1), 64, i);
        lemma_squares_holding(flat, layer_piece(k2), 64, i);
        if has_bit(b[k1], i) && has_bit(b[k2], i) {
            lemma_layer_piece(k1, layer_piece(k2));
            lemma_layer_piece(k2, layer_piece(k2));
        }
    }
}

/// A move that the per-piece rules accept ends on the board on a square that holds no piece
/// of the mover.
pub proof fn lemma_valid_move_on_board(m: PositionModel, mv: Move)
    requires
        validate_spec(m, mv) is Ok,
    ensures
        0 <= (mv.end as int) < 64,
        mv.piece.owner == m.to_play,
        !occupied_by(m.board, m.to_play, mv.end as int),
{
    reveal(validate_spec);
    let s = mv.start as int;
    let e = mv.end as int;
    if slide_reach(m.board, m.to_play, s, e, false) {
        let d = choose|d: int| 0 <= d < 4 && #[trigger] ray_reach(m.board, m.to_play, s, d, false, e);
        let k = choose|k: int|
            #[trigger] slides_to(m.board, s, d, false, k) && ray_point(s, d, false, k) == e
                && !occupied_by(m.board, m.to_play, e);
    }
    if slide_reach(m.board, m.to_play, s, e, true) {
        let d = choose|d: int| 0 <= d < 4 && #[trigger] ray_reach(m.board, m.to_play, s, d, true, e);
        let k = choose|k: int|
            #[trigger] slides_to(m.board, s, d, true, k) && ray_point(s, d, true, k) == e
                && !occupied_by(m.board, m.to_play, e);
    }
}

} // verus!
