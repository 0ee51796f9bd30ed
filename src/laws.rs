//! Properties that hold of the rules as a whole.
use vstd::prelude::*;
use crate::bits::{
    has_bit, lemma_has_bit_and, lemma_has_bit_not, lemma_has_bit_or, lemma_has_bit_single,
};
use crate::board::{
    king_in_check, layer_index, occupied, occupied_by, ray_on_board, ray_point, slides_to,
};
use crate::definitions::{Move, Occupant, Piece, PieceType, Player, Square, square_at};
use crate::patterns::knight_jump;
use crate::precalc::{ray_file, ray_rank};
use crate::rules::{
    MoveError, PositionModel, castle_allowed, castle_outcome, castled, en_passant_victim,
    flat_board, is_castle_attempt, is_en_passant_capture, king_home, layer_piece,
    layers_disjoint, layers_of, lemma_layer_piece, lemma_squares_holding,
    lemma_valid_move_on_board, moved, moved_board, moved_layer, occupant_upto,
    ordinary_outcome, piece_of, play_spec, position_wf, promote_spec, ray_reach,
    reaches_last_rank, rook_castled, rook_home, slide_reach, validate_spec,
};

verus! {

broadcast use {lemma_has_bit_or, lemma_has_bit_and, lemma_has_bit_not};

proof fn lemma_occupant_upto_layers(flat: Seq<Occupant>, i: int, n: int)
    requires
        flat.len() == 64,
        0 <= i < 64,
        0 <= n <= 12,
    ensures
        occupant_upto(layers_of(flat), i, n) == (match flat[i] {
            Occupant::Piece(p) => if layer_index(p.piece_type, p.owner) < n {
                flat[i]
            } else {
                Occupant::Empty
            },
            Occupant::Empty => Occupant::Empty,
        }),
    decreases n,
{
    if n > 0 {
        lemma_occupant_upto_layers(flat, i, n - 1);
        lemma_squares_holding(flat, layer_piece(n - 1), 64, i);
        match flat[i] {
            Occupant::Piece(p) => {
                lemma_layer_piece(n - 1, p);
            },
            Occupant::Empty => {},
        }
    }
}

/// Reading the layers built from a plain board gives that board back.
pub proof fn lemma_flat_round_trip(flat: Seq<Occupant>)
    requires
        flat.len() == 64,
    ensures
        flat_board(layers_of(flat)) == flat,
{
    assert forall|i: int| 0 <= i < 64 implies #[trigger] flat_board(layers_of(flat))[i] == flat[i] by {
        lemma_occupant_upto_layers(flat, i, 12);
        match flat[i] {
            Occupant::Piece(p) => {
                lemma_layer_piece(0, p);
            },
            Occupant::Empty => {},
        }
    }
    assert(flat_board(layers_of(flat)) =~= flat);
}

/// Converting a position's layers to a plain board, back to layers and to a plain board again
/// gives the first plain board.
pub proof fn lemma_round_trip(b: Seq<u64>)
    ensures
        flat_board(layers_of(flat_board(b))) == flat_board(b),
{
    lemma_flat_round_trip(flat_board(b));
}

proof fn lemma_layer_occupies(b: Seq<u64>, pl: Player, k: int, i: int)
    requires
        6 * (pl as int) <= k < 6 * (pl as int) + 6,
        has_bit(b[k], i),
    ensures
        occupied_by(b, pl, i),
{
    let o = 6 * (pl as int);
    assert(k == o || k == o + 1 || k == o + 2 || k == o + 3 || k == o + 4 || k == o + 5);
}

/// After an ordinary move, every set bit was set before in the same layer, but for the
/// destination in the mover's layer.
proof fn lemma_moved_bits(m: PositionModel, pt: PieceType, s: int, e: int, k: int, i: int)
    requires
        m.board.len() == 12,
        0 <= k < 12,
        0 <= e < 64,
        has_bit(moved_board(m, pt, s, e)[k], i),
    ensures
        i == e ==> k == layer_index(pt, m.to_play) || (6 * (m.to_play as int) <= k < 6 * (
        m.to_play as int) + 6 && has_bit(m.board[k], i)),
        i != e ==> has_bit(m.board[k], i),
{
    assert(moved_board(m, pt, s, e)[k] == moved_layer(m, pt, s, e, k));
    lemma_has_bit_single(e, i);
    if is_en_passant_capture(m, pt, s, e) {
        let v = en_passant_victim(m.to_play, e);
        if 0 <= v < 64 {
            lemma_has_bit_single(v, i);
        }
    }
    match m.to_play {
        Player::White => {},
        Player::Black => {},
    }
}

/// An ordinary move keeps the layers disjoint when its destination holds no piece of the
/// mover.
proof fn lemma_moved_keeps_disjoint(m: PositionModel, pt: PieceType, s: int, e: int)
    requires
        position_wf(m),
        0 <= e < 64,
        !occupied_by(m.board, m.to_play, e),
    ensures
        layers_disjoint(moved_board(m, pt, s, e)),
{
    let nb = moved_board(m, pt, s, e);
    let l = layer_index(pt, m.to_play);
    assert forall|k1: int, k2: int, i: int|
        0 <= k1 < 12 && 0 <= k2 < 12 && k1 != k2 implies !(#[trigger] has_bit(nb[k1], i)
        && #[trigger] has_bit(nb[k2], i)) by {
        if has_bit(nb[k1], i) && has_bit(nb[k2], i) {
            lemma_moved_bits(m, pt, s, e, k1, i);
            lemma_moved_bits(m, pt, s, e, k2, i);
            if i == e {
                if k1 != l {
                    lemma_layer_occupies(m.board, m.to_play, k1, i);
                } else {
                    lemma_layer_occupies(m.board, m.to_play, k2, i);
                }
            }
        }
    }
}

/// Castling keeps the layers disjoint.
proof fn lemma_castled_keeps_disjoint(m: PositionModel, e: int)
    requires
        position_wf(m),
        castle_allowed(m, e),
        e == king_home(m.to_play) + 2 || e == king_home(m.to_play) - 2,
    ensures
        layers_disjoint(castled(m, e).board),
{
    let pl = m.to_play;
    let h = king_home(pl);
    let king_side = e == h + 2;
    let rc = rook_castled(pl, king_side);
    let kl = layer_index(PieceType::King, pl);
    let rl = layer_index(PieceType::Rook, pl);
    let nb = castled(m, e).board;
    assert(!occupied(m.board, e) && !occupied(m.board, rc));
    assert forall|k: int, i: int| 0 <= k < 12 && #[trigger] has_bit(nb[k], i) implies has_bit(
        m.board[k],
        i,
    ) || (k == kl && i == e) || (k == rl && i == rc) by {
        lemma_has_bit_single(e, i);
        lemma_has_bit_single(rc, i);
        lemma_has_bit_single(h, i);
        lemma_has_bit_single(rook_home(pl, king_side), i);
    }
    assert forall|k1: int, k2: int, i: int|
        0 <= k1 < 12 && 0 <= k2 < 12 && k1 != k2 implies !(#[trigger] has_bit(nb[k1], i)
        && #[trigger] has_bit(nb[k2], i)) by {
        if has_bit(nb[k1], i) && has_bit(nb[k2], i) {
            if i == e || i == rc {
                if has_bit(m.board[k1], i) {
                    lemma_occupied_any_layer(m.board, k1, i);
                } else if has_bit(m.board[k2], i) {
                    lemma_occupied_any_layer(m.board, k2, i);
                }
            }
        }
    }
}

proof fn lemma_occupied_any_layer(b: Seq<u64>, k: int, i: int)
    requires
        0 <= k < 12,
        has_bit(b[k], i),
    ensures
        occupied(b, i),
{
    if k < 6 {
        lemma_layer_occupies(b, Player::White, k, i);
    } else {
        lemma_layer_occupies(b, Player::Black, k, i);
    }
}

proof fn lemma_ordinary_keeps_wf(m: PositionModel, pt: PieceType, s: Square, e: Square)
    requires
        position_wf(m),
        m.promotion == Square::Invalid as int,
        ordinary_outcome(m, pt, s, e) is Ok,
    ensures
        position_wf(ordinary_outcome(m, pt, s, e)->Ok_0),
{
    let pl = m.to_play;
    let mv = Move { start: s, end: e, piece: Piece { piece_type: pt, owner: pl } };
    assert(validate_spec(m, mv) is Ok);
    let r = moved(m, pt, s as int, e as int);
    assert(ordinary_outcome(m, pt, s, e) == Ok::<PositionModel, MoveError>(r));
    lemma_valid_move_on_board(m, mv);
    lemma_moved_keeps_disjoint(m, pt, s as int, e as int);
    let nb = moved_board(m, pt, s as int, e as int);
    assert(r.board == nb);
    assert(layers_disjoint(r.board));
    if reaches_last_rank(pt, e as int) {
        assert(nb[layer_index(pt, pl)] == moved_layer(m, pt, s as int, e as int, layer_index(pt, pl)));
        lemma_has_bit_single(e as int, e as int);
        assert(has_bit(r.board[layer_index(PieceType::Pawn, r.to_play)], r.promotion));
    } else {
        assert(r.promotion == Square::Invalid as int);
    }
}

proof fn lemma_castle_keeps_wf(m: PositionModel, e: int)
    requires
        position_wf(m),
        m.promotion == Square::Invalid as int,
        e == king_home(m.to_play) + 2 || e == king_home(m.to_play) - 2,
        castle_outcome(m, e) is Ok,
    ensures
        position_wf(castle_outcome(m, e)->Ok_0),
{
    lemma_castled_keeps_disjoint(m, e);
}

/// Every successful move keeps the game state well formed: in particular no square is set in
/// two layers.
pub proof fn lemma_play_keeps_wf(m: PositionModel, s: Square, e: Square)
    requires
        position_wf(m),
        play_spec(m, s, e) is Ok,
    ensures
        position_wf(play_spec(m, s, e)->Ok_0),
{
    let pl = m.to_play;
    let pt = piece_of(m.board, pl, s as int)->Some_0;
    if is_castle_attempt(pl, pt, s as int, e as int) {
        lemma_castle_keeps_wf(m, e as int);
    } else {
        lemma_ordinary_keeps_wf(m, pt, s, e);
    }
}

/// Every successful promotion keeps the game state well formed: in particular no square is
/// set in two layers.
pub proof fn lemma_promote_keeps_wf(m: PositionModel, pt: PieceType)
    requires
        position_wf(m),
        promote_spec(m, pt) is Ok,
    ensures
        position_wf(promote_spec(m, pt)->Ok_0),
{
    let pl = m.to_play;
    let p = m.promotion;
    let pawns = layer_index(PieceType::Pawn, pl);
    let chosen = layer_index(pt, pl);
    let nb = promote_spec(m, pt)->Ok_0.board;
    assert forall|k: int, i: int| 0 <= k < 12 && #[trigger] has_bit(nb[k], i) implies has_bit(
        m.board[k],
        i,
    ) || (k == chosen && i == p) by {
        lemma_has_bit_single(p, i);
    }
    assert forall|k1: int, k2: int, i: int|
        0 <= k1 < 12 && 0 <= k2 < 12 && k1 != k2 implies !(#[trigger] has_bit(nb[k1], i)
        && #[trigger] has_bit(nb[k2], i)) by {
        lemma_has_bit_single(p, i);
        if has_bit(nb[k1], i) && has_bit(nb[k2], i) && i == p {
            assert(has_bit(m.board[pawns], p));
        }
    }
}


/// After a successful move the turn passes, unless a pawn reached the last rank and its
/// promotion is pending, in which case the same player is still to move.
pub proof fn lemma_turn_alternation(m: PositionModel, s: Square, e: Square)
    requires
        play_spec(m, s, e) is Ok,
    ensures
        ({
            let r = play_spec(m, s, e)->Ok_0;
            &&& r.promotion == Square::Invalid as int ==> r.to_play == m.to_play.opponent_spec()
            &&& r.promotion != Square::Invalid as int ==> r.to_play == m.to_play
        }),
{
    let pl = m.to_play;
    let pt = piece_of(m.board, pl, s as int)->Some_0;
    if !is_castle_attempt(pl, pt, s as int, e as int) {
        let mv = Move { start: s, end: e, piece: Piece { piece_type: pt, owner: pl } };
        assert(validate_spec(m, mv) is Ok);
        lemma_valid_move_on_board(m, mv);
    }
}

/// After a successful promotion the turn passes and no promotion is pending.
pub proof fn lemma_promotion_passes_turn(m: PositionModel, pt: PieceType)
    requires
        promote_spec(m, pt) is Ok,
    ensures
        promote_spec(m, pt)->Ok_0.to_play == m.to_play.opponent_spec(),
        promote_spec(m, pt)->Ok_0.promotion == Square::Invalid as int,
{
}

/// A knight jump between two squares of the board is never refused as a pattern mismatch.
pub proof fn lemma_knight_jumps_accepted(m: PositionModel, s: Square, e: Square)
    requires
        knight_jump(s as int, e as int),
    ensures
        validate_spec(
            m,
            Move { start: s, end: e, piece: Piece { piece_type: PieceType::Knight, owner: m.to_play } },
        ) != Err::<(), MoveError>(MoveError::IllegalKnightMove),
{
    reveal(validate_spec);
}

proof fn lemma_square_at_injective(f1: int, r1: int, f2: int, r2: int)
    requires
        0 <= f1 < 8,
        0 <= r1 < 8,
        0 <= f2 < 8,
        0 <= r2 < 8,
        square_at(f1, r1) == square_at(f2, r2),
    ensures
        f1 == f2,
        r1 == r2,
{
}

/// Two steps along orthogonal rays from one square land on the same square only when they are
/// the same step.
proof fn lemma_rays_distinct(s: int, d1: int, k1: int, d2: int, k2: int)
    requires
        0 <= s < 64,
        0 <= d1 < 4,
        0 <= d2 < 4,
        1 <= k1 <= 7,
        1 <= k2 <= 7,
        ray_on_board(s, d1, false, k1),
        ray_on_board(s, d2, false, k2),
        ray_point(s, d1, false, k1) == ray_point(s, d2, false, k2),
    ensures
        d1 == d2,
        k1 == k2,
{
    lemma_square_at_injective(
        ray_file(s, d1, false, k1),
        ray_rank(s, d1, false, k1),
        ray_file(s, d2, false, k2),
        ray_rank(s, d2, false, k2),
    );
}

/// A rook cannot pass an occupied square: a move to a square beyond a piece on the same ray is
/// refused.
pub proof fn lemma_rook_blocked(m: PositionModel, s: Square, e: Square, d: int, j: int, k: int)
    requires
        s != Square::Invalid,
        0 <= d < 4,
        1 <= j < k <= 7,
        ray_on_board(s as int, d, false, k),
        ray_point(s as int, d, false, k) == e as int,
        occupied(m.board, ray_point(s as int, d, false, j)),
    ensures
        validate_spec(
            m,
            Move { start: s, end: e, piece: Piece { piece_type: PieceType::Rook, owner: m.to_play } },
        ) is Err,
        piece_of(m.board, m.to_play, s as int) == Some(PieceType::Rook) ==> play_spec(m, s, e) is Err,
{
    reveal(validate_spec);
    let si = s as int;
    let ei = e as int;
    if slide_reach(m.board, m.to_play, si, ei, false) {
        let d2 = choose|d2: int| 0 <= d2 < 4 && #[trigger] ray_reach(m.board, m.to_play, si, d2, false, ei);
        let k2 = choose|k2: int|
            #[trigger] slides_to(m.board, si, d2, false, k2) && ray_point(si, d2, false, k2) == ei
                && !occupied_by(m.board, m.to_play, ei);
        lemma_rays_distinct(si, d, k, d2, k2);
        assert(!occupied(m.board, ray_point(si, d, false, j)));
    }
}

proof fn lemma_not_both_players(b: Seq<u64>, pl: Player, i: int)
    requires
        b.len() == 12,
        layers_disjoint(b),
        occupied_by(b, pl.opponent_spec(), i),
    ensures
        !occupied_by(b, pl, i),
{
    match pl {
        Player::White => {},
        Player::Black => {},
    }
}

/// A rook may capture on the first occupied square of a ray when that square holds an
/// opponent piece.
pub proof fn lemma_rook_captures_first_enemy(m: PositionModel, s: Square, e: Square, d: int, k: int)
    requires
        m.board.len() == 12,
        layers_disjoint(m.board),
        s != Square::Invalid,
        0 <= d < 4,
        slides_to(m.board, s as int, d, false, k),
        ray_point(s as int, d, false, k) == e as int,
        occupied_by(m.board, m.to_play.opponent_spec(), e as int),
    ensures
        validate_spec(
            m,
            Move { start: s, end: e, piece: Piece { piece_type: PieceType::Rook, owner: m.to_play } },
        ) == Ok::<(), MoveError>(()),
{
    reveal(validate_spec);
    lemma_not_both_players(m.board, m.to_play, e as int);
    assert(ray_reach(m.board, m.to_play, s as int, d, false, e as int));
}

/// Played for real, such a rook capture goes through unless it exposes the mover's king.
pub proof fn lemma_rook_capture_played(m: PositionModel, s: Square, e: Square, d: int, k: int)
    requires
        m.board.len() == 12,
        layers_disjoint(m.board),
        m.promotion == Square::Invalid as int,
        piece_of(m.board, m.to_play, s as int) == Some(PieceType::Rook),
        0 <= d < 4,
        slides_to(m.board, s as int, d, false, k),
        ray_point(s as int, d, false, k) == e as int,
        occupied_by(m.board, m.to_play.opponent_spec(), e as int),
        !king_in_check(moved_board(m, PieceType::Rook, s as int, e as int), m.to_play),
    ensures
        play_spec(m, s, e) is Ok,
{
    lemma_rook_captures_first_enemy(m, s, e, d, k);
}

/// A successful move never leaves the mover's own king attacked.
pub proof fn lemma_own_king_safe(m: PositionModel, s: Square, e: Square)
    requires
        play_spec(m, s, e) is Ok,
    ensures
        !king_in_check(play_spec(m, s, e)->Ok_0.board, m.to_play),
{
}

/// A move that the per-piece rules accept but that leaves the mover's king attacked is
/// refused for that reason.
pub proof fn lemma_exposing_move_refused(m: PositionModel, s: Square, e: Square, pt: PieceType)
    requires
        m.promotion == Square::Invalid as int,
        piece_of(m.board, m.to_play, s as int) == Some(pt),
        !is_castle_attempt(m.to_play, pt, s as int, e as int),
        validate_spec(m, Move { start: s, end: e, piece: Piece { piece_type: pt, owner: m.to_play } })
            is Ok,
        king_in_check(moved_board(m, pt, s as int, e as int), m.to_play),
    ensures
        play_spec(m, s, e) == Err::<PositionModel, MoveError>(MoveError::LeavesOwnKingInCheck),
{
}

} // verus!
