//! The bitboard game state, move validation and the state transitions.
use vstd::prelude::*;
use crate::bits::{
    bit, has_bit, lemma_bit_shift_rank, lemma_has_bit_and, lemma_has_bit_not, lemma_has_bit_or,
    lemma_has_bit_shl, lemma_has_bit_shr, lemma_has_bit_single, lemma_has_bit_zero,
    lemma_nonzero_has_bit,
};
use crate::board::{
    intercect_with_player_pieces, is_empty, is_king_in_check, is_square_in_check, layer_index,
    lemma_ray_leaves_board, occupied, occupied_by, ray_on_board, ray_point, ray_square, slides_to,
};
use crate::coords::square_mask;
use crate::definitions::{
    Move, Occupant, Piece, PieceType, Player, Rank, SimplePosition, Square, rank_of,
};
use crate::patterns::{
    forward, king_moves, king_step, knight_attacks, knight_jump, pawn_attacks, pawn_capture_step,
    pawn_moves, pawn_push_step,
};
use crate::laws::{lemma_play_keeps_wf, lemma_promote_keeps_wf};
use crate::precalc::PreComputedAttackSets;
use crate::rules::{
    MoveError, PositionModel, castle_allowed, castle_outcome, castled, en_passant_victim,
    flat_board, is_castle_attempt, is_en_passant_capture, king_home, layer_piece, layers_of,
    lemma_layer_piece, lemma_layers_of_disjoint, lemma_squares_holding, lemma_valid_move_on_board,
    moved, moved_board, occupant_upto, ordinary_outcome, passed_square, pawn_capture_verdict,
    pawn_push_verdict, pawn_verdict, piece_of, piece_type_of_layer, play_spec, position_wf,
    promote_spec, ray_reach, slide_reach, squares_holding, validate_spec,
};

verus! {

broadcast use {
    lemma_has_bit_or,
    lemma_has_bit_and,
    lemma_has_bit_not,
    lemma_has_bit_zero,
    lemma_has_bit_single,
};

/// The authoritative game state: one occupancy word per piece type and player.
#[derive(Debug)]
pub struct BitBoardPosition {
    to_play: Player,
    board: [u64; 12],
    en_passant_square: Square,
    white_king_side_castle: bool,
    white_queen_side_castle: bool,
    black_king_side_castle: bool,
    black_queen_side_castle: bool,
    pub promotion_square: Square,
}

impl View for BitBoardPosition {
    type V = PositionModel;

    closed spec fn view(&self) -> PositionModel {
        PositionModel {
            to_play: self.to_play,
            board: self.board@,
            en_passant: self.en_passant_square as int,
            white_king_side_castle: self.white_king_side_castle,
            white_queen_side_castle: self.white_queen_side_castle,
            black_king_side_castle: self.black_king_side_castle,
            black_queen_side_castle: self.black_queen_side_castle,
            promotion: self.promotion_square as int,
        }
    }
}

fn piece_type_from_layer(k: usize) -> (r: PieceType)
    requires
        k < 6,
    ensures
        r == piece_type_of_layer(k as int),
        r as int == k,
{
    if k == 0 {
        PieceType::Pawn
    } else if k == 1 {
        PieceType::Rook
    } else if k == 2 {
        PieceType::Knight
    } else if k == 3 {
        PieceType::Bishop
    } else if k == 4 {
        PieceType::Queen
    } else {
        PieceType::King
    }
}

impl Move {
    /// Resolves a pair of squares against a position: the piece is the one of the player to
    /// move on the start square.
    pub fn from_bitboard(position: &BitBoardPosition, squares: (Square, Square)) -> (r: Result<
        Move,
        MoveError,
    >)
        ensures
            r == (match piece_of(position@.board, position@.to_play, squares.0 as int) {
                Some(pt) => Ok(
                    Move {
                        start: squares.0,
                        end: squares.1,
                        piece: Piece { piece_type: pt, owner: position@.to_play },
                    },
                ),
                None => Err(MoveError::EmptySquare),
            }),
    {
        let start_square = squares.0;
        let end_square = squares.1;
        let start = start_square.to_u64();
        let o: usize = 6 * (position.to_play as usize);
        let mut k: usize = 0;
        while k < 6
            invariant
                k <= 6,
                o == 6 * (position@.to_play as int),
                position@.board == position.board@,
                position@.to_play == position.to_play,
                start_square == squares.0,
                end_square == squares.1,
                start == square_mask(start_square),
                forall|j: int| 0 <= j < k ==> !has_bit(#[trigger] position@.board[o + j], start_square as int),
            decreases 6 - k,
        {
            if position.board[k + o] & start != 0 {
                let piece_type = piece_type_from_layer(k);
                proof {
                    lemma_nonzero_has_bit(position.board[k + o] & start);
                    let b = position@.board;
                    let i = start_square as int;
                    assert(has_bit(b[o + k], i));
                    assert(forall|j: int| 0 <= j < k ==> !has_bit(#[trigger] b[o + j], i));
                    if k > 0 { assert(!has_bit(b[o + 0], i)); }
                    if k > 1 { assert(!has_bit(b[o + 1], i)); }
                    if k > 2 { assert(!has_bit(b[o + 2], i)); }
                    if k > 3 { assert(!has_bit(b[o + 3], i)); }
                    if k > 4 { assert(!has_bit(b[o + 4], i)); }
                    assert(piece_of(b, position@.to_play, i) == Some(piece_type));
                }
                return Ok(
                    Move {
                        start: start_square,
                        end: end_square,
                        piece: Piece { piece_type, owner: position.to_play },
                    },
                );
            }
            proof {
                lemma_nonzero_has_bit(position.board[k + o] & start);
                if start_square != Square::Invalid {
                    assert(!has_bit(position.board[k + o] & start, start_square as int));
                }
            }
            k = k + 1;
        }
        proof {
            let b = position@.board;
            let i = start_square as int;
            assert(!has_bit(b[o + 0], i));
            assert(!has_bit(b[o + 1], i));
            assert(!has_bit(b[o + 2], i));
            assert(!has_bit(b[o + 3], i));
            assert(!has_bit(b[o + 4], i));
            assert(!has_bit(b[o + 5], i));
        }
        Err(MoveError::EmptySquare)
    }
}

proof fn lemma_occupied_by_any(b: Seq<u64>, pl: Player, i: int)
    ensures
        occupied_by(b, pl, i) ==> occupied(b, i),
{
    match pl {
        Player::White => {},
        Player::Black => {},
    }
}

/// The squares a sliding piece reaches along one ray are the first `n`, where the walk
/// stopped: at the last square, at a capture, at the edge, or before a piece of its own.
proof fn lemma_reach_prefix(
    b: Seq<u64>,
    pl: Player,
    s: int,
    d: int,
    diagonal: bool,
    n: int,
    m: u64,
)
    requires
        0 <= s < 64,
        0 <= d < 4,
        0 <= n <= 7,
        forall|j: int| 1 <= j <= n ==> #[trigger] ray_on_board(s, d, diagonal, j),
        forall|j: int| 1 <= j < n ==> !occupied(b, #[trigger] ray_point(s, d, diagonal, j)),
        n >= 1 ==> !occupied_by(b, pl, ray_point(s, d, diagonal, n)),
        n == 7 || (n >= 1 && occupied(b, ray_point(s, d, diagonal, n))) || !ray_on_board(
            s,
            d,
            diagonal,
            n + 1,
        ) || occupied_by(b, pl, ray_point(s, d, diagonal, n + 1)),
        forall|t: int|
            has_bit(m, t) <==> exists|j: int|
                1 <= j <= n && #[trigger] ray_point(s, d, diagonal, j) == t,
    ensures
        forall|t: int| has_bit(m, t) <==> ray_reach(b, pl, s, d, diagonal, t),
{
    assert forall|t: int| has_bit(m, t) <==> ray_reach(b, pl, s, d, diagonal, t) by {
        if has_bit(m, t) {
            let j = choose|j: int| 1 <= j <= n && #[trigger] ray_point(s, d, diagonal, j) == t;
            assert(ray_on_board(s, d, diagonal, j));
            assert(slides_to(b, s, d, diagonal, j));
            if j < n {
                lemma_occupied_by_any(b, pl, t);
            }
        }
        if ray_reach(b, pl, s, d, diagonal, t) {
            let j = choose|j: int|
                #[trigger] slides_to(b, s, d, diagonal, j) && ray_point(s, d, diagonal, j) == t
                    && !occupied_by(b, pl, t);
            if j > n {
                if n >= 1 && occupied(b, ray_point(s, d, diagonal, n)) {
                    assert(!occupied(b, ray_point(s, d, diagonal, n)));
                } else if !ray_on_board(s, d, diagonal, n + 1) {
                    lemma_ray_leaves_board(s, d, diagonal, n + 1, j);
                } else if n < 7 && j > n + 1 {
                    assert(!occupied(b, ray_point(s, d, diagonal, n + 1)));
                }
            }
            assert(j <= n);
        }
    }
}

/// The squares that a sliding piece of `player` on `s` reaches along direction `d`: the
/// empty squares up to the first occupied one, and that one if it holds an opponent piece.
fn ray_moves(
    board: &[u64; 12],
    player: Player,
    s: usize,
    d: usize,
    diagonal: bool,
    attack_sets: &PreComputedAttackSets,
) -> (m: u64)
    requires
        attack_sets.wf(),
        s < 64,
        d < 4,
    ensures
        forall|t: int| has_bit(m, t) <==> ray_reach(board@, player, s as int, d as int, diagonal, t),
{
    let ghost b = board@;
    let ghost si = s as int;
    let ghost di = d as int;
    let mut m: u64 = 0;
    let mut k: usize = 0;
    while k < 7
        invariant
            k <= 7,
            attack_sets.wf(),
            s < 64,
            d < 4,
            b == board@,
            si == s as int,
            di == d as int,
            forall|j: int| 1 <= j <= k ==> #[trigger] ray_on_board(si, di, diagonal, j),
            forall|j: int| 1 <= j <= k ==> !occupied(b, #[trigger] ray_point(si, di, diagonal, j)),
            forall|t: int|
                has_bit(m, t) <==> exists|j: int|
                    1 <= j <= k && #[trigger] ray_point(si, di, diagonal, j) == t,
        decreases 7 - k,
    {
        let next = ray_square(attack_sets, s, d, diagonal, k);
        let ghost p = ray_point(si, di, diagonal, k + 1);
        if next == Square::Invalid {
            proof {
                lemma_reach_prefix(b, player, si, di, diagonal, k as int, m);
            }
            return m;
        }
        let nb = next.to_u64();
        let own = intercect_with_player_pieces(nb, board, player);
        let theirs = intercect_with_player_pieces(nb, board, player.opponent());
        proof {
            assert(has_bit(nb, p));
            assert(own == occupied_by(b, player, p));
            assert(theirs == occupied_by(b, player.opponent_spec(), p));
        }
        if own {
            proof {
                lemma_reach_prefix(b, player, si, di, diagonal, k as int, m);
            }
            return m;
        }
        m = m | nb;
        proof {
            assert forall|t: int|
                has_bit(m, t) <==> exists|j: int|
                    1 <= j <= k + 1 && #[trigger] ray_point(si, di, diagonal, j) == t by {
                if t == p {
                    assert(ray_point(si, di, diagonal, k + 1) == t);
                }
            }
        }
        if theirs {
            proof {
                lemma_reach_prefix(b, player, si, di, diagonal, k + 1, m);
            }
            return m;
        }
        proof {
            assert(!occupied(b, p)) by {
                match player {
                    Player::White => {},
                    Player::Black => {},
                }
            }
            assert(ray_on_board(si, di, diagonal, k + 1));
        }
        k = k + 1;
    }
    proof {
        lemma_reach_prefix(b, player, si, di, diagonal, 7, m);
    }
    m
}

/// A pattern computed from one square meets another square exactly when the two are related.
proof fn lemma_single_source(p: u64, src: Square, dst: Square, rel: spec_fn(int, int) -> bool)
    requires
        src != Square::Invalid,
        forall|t: int|
            has_bit(p, t) <==> exists|u: int| #[trigger] has_bit(square_mask(src), u) && rel(u, t),
    ensures
        (p & square_mask(dst) != 0) <==> (dst != Square::Invalid && rel(src as int, dst as int)),
{
    lemma_nonzero_has_bit(p & square_mask(dst));
    if p & square_mask(dst) != 0 {
        let t = choose|t: int| 0 <= t < 64 && has_bit(p & square_mask(dst), t);
        let u = choose|u: int| #[trigger] has_bit(square_mask(src), u) && rel(u, t);
        assert(u == src as int);
    }
    if dst != Square::Invalid && rel(src as int, dst as int) {
        assert(has_bit(square_mask(src), src as int));
        assert(has_bit(p & square_mask(dst), dst as int));
    }
}

/// The squares that a sliding piece of `player` on `start` reaches along its four rays.
fn sliding_moves(
    board: &[u64; 12],
    player: Player,
    start: Square,
    diagonal: bool,
    attack_sets: &PreComputedAttackSets,
) -> (m: u64)
    requires
        attack_sets.wf(),
        start != Square::Invalid,
    ensures
        forall|t: int| has_bit(m, t) <==> slide_reach(board@, player, start as int, t, diagonal),
{
    let s = start.index() as usize;
    let mut m: u64 = 0;
    let mut d: usize = 0;
    while d < 4
        invariant
            d <= 4,
            attack_sets.wf(),
            s == start as int,
            s < 64,
            forall|t: int|
                has_bit(m, t) <==> exists|e: int|
                    0 <= e < d && #[trigger] ray_reach(board@, player, s as int, e, diagonal, t),
        decreases 4 - d,
    {
        let r = ray_moves(board, player, s, d, diagonal, attack_sets);
        m = m | r;
        proof {
            assert forall|t: int|
                has_bit(m, t) <==> exists|e: int|
                    0 <= e < d + 1 && #[trigger] ray_reach(board@, player, s as int, e, diagonal, t) by {
                if ray_reach(board@, player, s as int, d as int, diagonal, t) {
                    assert(has_bit(r, t));
                }
            }
        }
        d = d + 1;
    }
    m
}


/// Whether a knight may jump from `start` to `end`.
fn knight_move_ok(start_square: Square, end_square: Square) -> (r: bool)
    requires
        start_square != Square::Invalid,
    ensures
        r == knight_jump(start_square as int, end_square as int),
{
    let attacks = knight_attacks(start_square.to_u64());
    let end = end_square.to_u64();
    proof {
        lemma_single_source(attacks, start_square, end_square, |u: int, t: int| knight_jump(u, t));
    }
    attacks & end != 0
}

/// Whether a king may step from `start` to `end`.
fn king_move_ok(start_square: Square, end_square: Square) -> (r: bool)
    requires
        start_square != Square::Invalid,
    ensures
        r == king_step(start_square as int, end_square as int),
{
    let moves = king_moves(start_square.to_u64());
    let end = end_square.to_u64();
    proof {
        lemma_single_source(moves, start_square, end_square, |u: int, t: int| king_step(u, t));
    }
    moves & end != 0
}

impl BitBoardPosition {
    /// Whether a rook (or bishop) of the player to move on `start` may slide to `end`.
    fn slides_to_square(
        &self,
        start: Square,
        end: Square,
        diagonal: bool,
        attack_sets: &PreComputedAttackSets,
    ) -> (r: bool)
        requires
            attack_sets.wf(),
            start != Square::Invalid,
        ensures
            r == slide_reach(self@.board, self@.to_play, start as int, end as int, diagonal),
    {
        let moves = sliding_moves(&self.board, self.to_play, start, diagonal, attack_sets);
        let end_mask = end.to_u64();
        proof {
            lemma_nonzero_has_bit(moves & end_mask);
            if end == Square::Invalid {
                assert(!slide_reach(self@.board, self@.to_play, start as int, end as int, diagonal)) by {
                    if slide_reach(self@.board, self@.to_play, start as int, end as int, diagonal) {
                        assert(has_bit(moves, end as int));
                    }
                }
            } else {
                if slide_reach(self@.board, self@.to_play, start as int, end as int, diagonal) {
                    assert(has_bit(moves & end_mask, end as int));
                }
            }
        }
        moves & end_mask != 0
    }

    /// Whether a diagonal pawn step of the player to move onto `end` captures something.
    fn pawn_capture_ok(&self, end_square: Square) -> (r: Result<(), MoveError>)
        requires
            end_square != Square::Invalid,
        ensures
            r == pawn_capture_verdict(self@, self@.to_play, end_square as int),
    {
        if end_square == self.en_passant_square {
            return Ok(());
        }
        let end = end_square.to_u64();
        if intercect_with_player_pieces(end, &self.board, self.to_play.opponent()) {
            proof {
                let i = choose|i: int|
                    #[trigger] has_bit(end, i) && occupied_by(
                        self@.board,
                        self@.to_play.opponent_spec(),
                        i,
                    );
                assert(i == end_square as int);
            }
            return Ok(());
        }
        proof {
            assert(has_bit(end, end_square as int));
            assert(end_square as int != self@.en_passant);
        }
        Err(MoveError::PawnDiagonalWithoutCapture)
    }

    /// Whether a forward pawn step of `owner`, the player to move, from `start` to `end` is
    /// free.
    fn pawn_push_ok(&self, start_square: Square, end_square: Square, owner: Player) -> (r: Result<
        (),
        MoveError,
    >)
        requires
            start_square != Square::Invalid,
            end_square != Square::Invalid,
            owner == self@.to_play,
            pawn_push_step(start_square as int, end_square as int, owner),
        ensures
            r == pawn_push_verdict(self@, start_square as int, end_square as int),
    {
        let player = self.to_play;
        let start = start_square.to_u64();
        let end = end_square.to_u64();
        let double = if owner == Player::White {
            start_square.index() + 16 == end_square.index()
        } else {
            end_square.index() + 16 == start_square.index()
        };
        let passed = if owner == Player::White {
            start << 8
        } else {
            start >> 8
        };
        let theirs = intercect_with_player_pieces(end, &self.board, player.opponent());
        let own = intercect_with_player_pieces(end, &self.board, player);
        let passed_clear = is_empty(passed, &self.board);
        proof {
            broadcast use {lemma_has_bit_shl, lemma_has_bit_shr};

            let si = start_square as int;
            let ei = end_square as int;
            assert(has_bit(end, ei));
            assert(theirs == occupied_by(self@.board, player.opponent_spec(), ei));
            assert(own == occupied_by(self@.board, player, ei));
            assert(double <==> (ei - si == 16 || si - ei == 16));
            if double {
                assert(forall|t: int| has_bit(passed, t) <==> t == passed_square(si, ei));
                assert(has_bit(passed, passed_square(si, ei)));
                assert(passed_clear == !occupied(self@.board, passed_square(si, ei)));
            }
            assert(occupied(self@.board, ei) == (theirs || own)) by {
                match player {
                    Player::White => {},
                    Player::Black => {},
                }
            }
        }
        if !theirs && !own && (!double || passed_clear) {
            return Ok(());
        }
        Err(MoveError::PawnPushBlocked)
    }

    /// What the pawn rules say of a pawn of `owner`, the player to move, going from `start`
    /// to `end`.
    fn validate_pawn_move(&self, start_square: Square, end_square: Square, owner: Player) -> (r:
        Result<(), MoveError>)
        requires
            start_square != Square::Invalid,
            owner == self@.to_play,
        ensures
            r == pawn_verdict(self@, owner, start_square as int, end_square as int),
    {
        let start = start_square.to_u64();
        let end = end_square.to_u64();
        let attacks = pawn_attacks(start, owner);
        proof {
            lemma_single_source(
                attacks,
                start_square,
                end_square,
                |u: int, t: int| pawn_capture_step(u, t, owner),
            );
        }
        if attacks & end != 0 {
            return self.pawn_capture_ok(end_square);
        }
        let pushes = pawn_moves(start, owner);
        proof {
            lemma_single_source(pushes, start_square, end_square, |u: int, t: int| pawn_push_step(u, t, owner));
        }
        if pushes & end != 0 {
            return self.pawn_push_ok(start_square, end_square, owner);
        }
        Err(MoveError::IllegalPawnMove)
    }

    /// Decides whether a move obeys the rules of its piece type, leaving check aside. The
    /// piece must belong to the player to move, and the destination must not hold a piece of
    /// theirs. A pawn that advances two ranks needs the square it passes over to be empty too.
    pub fn validate_move(&self, tentative_move: &Move, attack_sets: &PreComputedAttackSets) -> (r:
        Result<(), MoveError>)
        requires
            attack_sets.wf(),
            tentative_move.start != Square::Invalid,
        ensures
            r == validate_spec(self@, *tentative_move),
        decreases
            if tentative_move.piece.piece_type == PieceType::Queen {
                1int
            } else {
                0int
            },
    {
        proof {
            reveal(validate_spec);
        }
        let ghost m = self@;
        let player = self.to_play;
        if player != tentative_move.piece.owner {
            return Err(MoveError::NotYourPiece);
        }
        let start_square = tentative_move.start;
        let end_square = tentative_move.end;
        let end = end_square.to_u64();
        if intercect_with_player_pieces(end, &self.board, player) {
            proof {
                let i = choose|i: int| #[trigger] has_bit(end, i) && occupied_by(m.board, player, i);
                assert(i == end_square as int);
            }
            return Err(MoveError::OwnDestinationOccupied);
        }
        proof {
            if end_square != Square::Invalid {
                assert(has_bit(end, end_square as int));
            }
            assert(!occupied_by(m.board, player, end_square as int));
        }
        match tentative_move.piece.piece_type {
            PieceType::Knight => {
                if knight_move_ok(start_square, end_square) {
                    return Ok(());
                }
                Err(MoveError::IllegalKnightMove)
            },
            PieceType::King => {
                if king_move_ok(start_square, end_square) {
                    return Ok(());
                }
                Err(MoveError::IllegalKingMove)
            },
            PieceType::Pawn => self.validate_pawn_move(start_square, end_square, player),
            PieceType::Rook => {
                if self.slides_to_square(start_square, end_square, false, attack_sets) {
                    return Ok(());
                }
                Err(MoveError::IllegalRookMove)
            },
            PieceType::Bishop => {
                if self.slides_to_square(start_square, end_square, true, attack_sets) {
                    return Ok(());
                }
                Err(MoveError::IllegalBishopMove)
            },
            PieceType::Queen => {
                let rook_move = Move {
                    start: start_square,
                    end: end_square,
                    piece: Piece { piece_type: PieceType::Rook, owner: tentative_move.piece.owner },
                };
                let bishop_move = Move {
                    start: start_square,
                    end: end_square,
                    piece: Piece { piece_type: PieceType::Bishop, owner: tentative_move.piece.owner },
                };
                if self.validate_move(&rook_move, attack_sets).is_ok() || self.validate_move(
                    &bishop_move,
                    attack_sets,
                ).is_ok() {
                    return Ok(());
                }
                Err(MoveError::IllegalQueenMove)
            },
        }
    }
}

/// Whether `square` lies on `rank`.
fn on_rank(square: Square, rank: Rank) -> (r: bool)
    ensures
        r == (square != Square::Invalid && rank_of(square as int) == rank as int),
{
    let m = square.to_u64() & rank.to_u64();
    proof {
        lemma_nonzero_has_bit(m);
        if square != Square::Invalid && rank_of(square as int) == rank as int {
            assert(has_bit(m, square as int));
        }
    }
    m != 0
}

impl BitBoardPosition {
    /// Whether the player to move may castle with the king landing on `end`.
    fn can_castle(&self, end: Square, attack_sets: &PreComputedAttackSets) -> (r: bool)
        requires
            attack_sets.wf(),
            end as int == king_home(self@.to_play) + 2 || end as int == king_home(self@.to_play) - 2,
        ensures
            r == castle_allowed(self@, end as int),
    {
        let player = self.to_play;
        let white = player == Player::White;
        let king_side = end == Square::G1 || end == Square::G8;
        let right = if white {
            if king_side {
                self.white_king_side_castle
            } else {
                self.white_queen_side_castle
            }
        } else {
            if king_side {
                self.black_king_side_castle
            } else {
                self.black_queen_side_castle
            }
        };
        let (home, transit, rook_start) = if white {
            if king_side {
                (Square::E1, Square::F1, Square::H1)
            } else {
                (Square::E1, Square::D1, Square::A1)
            }
        } else {
            if king_side {
                (Square::E8, Square::F8, Square::H8)
            } else {
                (Square::E8, Square::D8, Square::A8)
            }
        };
        let between = if white {
            if king_side {
                Square::F1.to_u64() | Square::G1.to_u64()
            } else {
                Square::B1.to_u64() | Square::C1.to_u64() | Square::D1.to_u64()
            }
        } else {
            if king_side {
                Square::F8.to_u64() | Square::G8.to_u64()
            } else {
                Square::B8.to_u64() | Square::C8.to_u64() | Square::D8.to_u64()
            }
        };
        let rook_layer = self.board[PieceType::Rook as usize + 6 * (player as usize)];
        let rook_mask = rook_start.to_u64();
        let rook_there = rook_layer & rook_mask != 0;
        proof {
            lemma_nonzero_has_bit(rook_layer & rook_mask);
            if has_bit(rook_layer, rook_start as int) {
                assert(has_bit(rook_layer & rook_mask, rook_start as int));
            }
        }
        if !(right && rook_there) {
            return false;
        }
        let path_clear = is_empty(between, &self.board);
        proof {
            let h = king_home(player);
            if king_side {
                assert(has_bit(between, h + 1) && has_bit(between, h + 2));
            } else {
                assert(has_bit(between, h - 1) && has_bit(between, h - 2) && has_bit(between, h - 3));
            }
        }
        path_clear && !is_square_in_check(home, &self.board, player, attack_sets)
            && !is_square_in_check(transit, &self.board, player, attack_sets) && !is_square_in_check(
            end,
            &self.board,
            player,
            attack_sets,
        )
    }

    /// The position after the player to move castles with the king landing on `end`.
    fn castled_position(&self, end: Square) -> (r: BitBoardPosition)
        requires
            end as int == king_home(self@.to_play) + 2 || end as int == king_home(self@.to_play) - 2,
        ensures
            r@ == castled(self@, end as int),
    {
        let player = self.to_play;
        let white = player == Player::White;
        let king_side = end == Square::G1 || end == Square::G8;
        let (home, rook_start, rook_end) = if white {
            if king_side {
                (Square::E1, Square::H1, Square::F1)
            } else {
                (Square::E1, Square::A1, Square::D1)
            }
        } else {
            if king_side {
                (Square::E8, Square::H8, Square::F8)
            } else {
                (Square::E8, Square::A8, Square::D8)
            }
        };
        let mut board = self.board;
        let king_layer = PieceType::King as usize + 6 * (player as usize);
        let rook_layer = PieceType::Rook as usize + 6 * (player as usize);
        board[king_layer] = (board[king_layer] & !home.to_u64()) | end.to_u64();
        board[rook_layer] = (board[rook_layer] & !rook_start.to_u64()) | rook_end.to_u64();
        let r = BitBoardPosition {
            to_play: player.opponent(),
            board,
            en_passant_square: Square::Invalid,
            white_king_side_castle: self.white_king_side_castle && !white,
            white_queen_side_castle: self.white_queen_side_castle && !white,
            black_king_side_castle: self.black_king_side_castle && white,
            black_queen_side_castle: self.black_queen_side_castle && white,
            promotion_square: self.promotion_square,
        };
        proof {
            assert(r@.board =~= castled(self@, end as int).board);
        }
        r
    }
}

impl BitBoardPosition {
    /// The layers after the resolved move `mv` of the player to move: see `moved_board`.
    fn moved_layers(&self, mv: &Move) -> (r: [u64; 12])
        requires
            mv.start != Square::Invalid,
            mv.end != Square::Invalid,
            mv.piece.owner == self@.to_play,
        ensures
            r@ == moved_board(self@, mv.piece.piece_type, mv.start as int, mv.end as int),
    {
        let ghost m = self@;
        let ghost s = mv.start as int;
        let ghost e = mv.end as int;
        let player = self.to_play;
        let opp = player.opponent();
        let start = mv.start.to_u64();
        let end = mv.end.to_u64();
        let pt = mv.piece.piece_type;
        let mut board = self.board;
        let own_layer = pt as usize + 6 * (player as usize);
        board[own_layer] = (board[own_layer] & !start) | end;
        let en_passant = self.captures_en_passant(mv);
        if en_passant {
            let victim = match player {
                Player::White => self.en_passant_square.to_u64() >> 8,
                Player::Black => self.en_passant_square.to_u64() << 8,
            };
            proof {
                lemma_bit_shift_rank(e);
                assert(victim == bit(en_passant_victim(player, e)));
            }
            let pawn_layer = PieceType::Pawn as usize + 6 * (opp as usize);
            board[pawn_layer] = board[pawn_layer] & !victim;
        }
        let ghost mid = board@;
        let o: usize = 6 * (opp as usize);
        let mut k: usize = 0;
        while k < 6
            invariant
                k <= 6,
                o == 6 * (opp as int),
                end == bit(e),
                forall|j: int|
                    0 <= j < 12 ==> #[trigger] board@[j] == if o <= j < o + k {
                        mid[j] & !end
                    } else {
                        mid[j]
                    },
            decreases 6 - k,
        {
            board[o + k] = board[o + k] & !end;
            k = k + 1;
        }
        proof {
            assert forall|j: int| 0 <= j < 12 implies #[trigger] board@[j] == moved_board(m, pt, s, e)[j] by {
                assert(moved_board(m, pt, s, e)[j] == crate::rules::moved_layer(m, pt, s, e, j));
            }
            assert(board@ =~= moved_board(m, pt, s, e));
        }
        board
    }

    /// Whether the resolved move `mv` is an en-passant capture.
    fn captures_en_passant(&self, mv: &Move) -> (r: bool)
        requires
            mv.start != Square::Invalid,
            mv.piece.owner == self@.to_play,
        ensures
            r == is_en_passant_capture(self@, mv.piece.piece_type, mv.start as int, mv.end as int),
    {
        let start = mv.start.to_u64();
        let end = mv.end.to_u64();
        let attacks = pawn_attacks(start, self.to_play);
        proof {
            let player = self.to_play;
            lemma_single_source(attacks, mv.start, mv.end, |u: int, t: int| pawn_capture_step(u, t, player));
        }
        mv.piece.piece_type == PieceType::Pawn && mv.end == self.en_passant_square && attacks & end
            != 0
    }

    /// The position after the validated move `mv`, on the layers `board` it produced.
    fn after_move(&self, mv: &Move, board: [u64; 12]) -> (r: BitBoardPosition)
        requires
            mv.start != Square::Invalid,
            mv.end != Square::Invalid,
            mv.piece.owner == self@.to_play,
            board@ == moved_board(self@, mv.piece.piece_type, mv.start as int, mv.end as int),
        ensures
            r@ == moved(self@, mv.piece.piece_type, mv.start as int, mv.end as int),
    {
        let player = self.to_play;
        let pt = mv.piece.piece_type;
        let start = mv.start.to_u64();
        let double_push = pt == PieceType::Pawn && match player {
            Player::White => on_rank(mv.start, Rank::Second) && on_rank(mv.end, Rank::Fourth),
            Player::Black => on_rank(mv.start, Rank::Seventh) && on_rank(mv.end, Rank::Fifth),
        };
        let en_passant_square = if double_push {
            let passed = match player {
                Player::White => start << 8,
                Player::Black => start >> 8,
            };
            let sq = Square::from_u64(passed);
            proof {
                let si = mv.start as int;
                let t = si + 8 * forward(player);
                lemma_bit_shift_rank(si);
                assert(passed == bit(t));
                crate::coords::lemma_bit_injective(sq as int, t);
            }
            sq
        } else {
            Square::Invalid
        };
        let mut white_king_side_castle = self.white_king_side_castle;
        let mut white_queen_side_castle = self.white_queen_side_castle;
        let mut black_king_side_castle = self.black_king_side_castle;
        let mut black_queen_side_castle = self.black_queen_side_castle;
        match mv.start {
            Square::E1 => {
                white_king_side_castle = false;
                white_queen_side_castle = false;
            },
            Square::E8 => {
                black_king_side_castle = false;
                black_queen_side_castle = false;
            },
            Square::A1 => {
                white_queen_side_castle = false;
            },
            Square::H1 => {
                white_king_side_castle = false;
            },
            Square::A8 => {
                black_queen_side_castle = false;
            },
            Square::H8 => {
                black_king_side_castle = false;
            },
            _ => {},
        }
        let promotes = pt == PieceType::Pawn && (on_rank(mv.end, Rank::First) || on_rank(
            mv.end,
            Rank::Eight,
        ));
        BitBoardPosition {
            to_play: if promotes {
                player
            } else {
                player.opponent()
            },
            board,
            en_passant_square,
            white_king_side_castle,
            white_queen_side_castle,
            black_king_side_castle,
            black_queen_side_castle,
            promotion_square: if promotes {
                mv.end
            } else {
                self.promotion_square
            },
        }
    }

    /// Plays the pair of squares `tentative_move` for the player to move: the next position,
    /// or why the move is refused (see `play_spec`).
    pub fn try_play_move(
        &self,
        tentative_move: (Square, Square),
        attack_sets: &PreComputedAttackSets,
    ) -> (r: Result<BitBoardPosition, MoveError>)
        requires
            attack_sets.wf(),
        ensures
            match r {
                Ok(p) => play_spec(self@, tentative_move.0, tentative_move.1) == Ok::<
                    PositionModel,
                    MoveError,
                >(p@),
                Err(err) => play_spec(self@, tentative_move.0, tentative_move.1) == Err::<
                    PositionModel,
                    MoveError,
                >(err),
            },
    {
        if self.promotion_square != Square::Invalid {
            return Err(MoveError::PromotionPending);
        }
        let detailed_move = match Move::from_bitboard(self, tentative_move) {
            Ok(mv) => mv,
            Err(err) => return Err(err),
        };
        let player = self.to_play;
        let start = detailed_move.start;
        let end = detailed_move.end;
        proof {
            assert(start != Square::Invalid);
        }
        let castle_attempt = detailed_move.piece.piece_type == PieceType::King && match player {
            Player::White => start == Square::E1 && (end == Square::G1 || end == Square::C1),
            Player::Black => start == Square::E8 && (end == Square::G8 || end == Square::C8),
        };
        proof {
            assert(castle_attempt == is_castle_attempt(
                player,
                detailed_move.piece.piece_type,
                start as int,
                end as int,
            ));
        }
        if castle_attempt {
            return self.try_castle(end, attack_sets);
        }
        self.try_ordinary_move(&detailed_move, attack_sets)
    }

    /// Castles for the player to move with the king landing on `end` (see `castle_outcome`).
    fn try_castle(&self, end: Square, attack_sets: &PreComputedAttackSets) -> (r: Result<
        BitBoardPosition,
        MoveError,
    >)
        requires
            attack_sets.wf(),
            end as int == king_home(self@.to_play) + 2 || end as int == king_home(self@.to_play) - 2,
        ensures
            match r {
                Ok(p) => castle_outcome(self@, end as int) == Ok::<PositionModel, MoveError>(p@),
                Err(err) => castle_outcome(self@, end as int) == Err::<PositionModel, MoveError>(err),
            },
    {
        if !self.can_castle(end, attack_sets) {
            return Err(MoveError::CastleUnavailable);
        }
        let next = self.castled_position(end);
        proof {
            assert(next@.board == next.board@);
        }
        if is_king_in_check(&next.board, self.to_play, attack_sets) {
            return Err(MoveError::LeavesOwnKingInCheck);
        }
        Ok(next)
    }

    /// Plays the resolved, non-castling move `detailed_move` (see `ordinary_outcome`).
    fn try_ordinary_move(&self, detailed_move: &Move, attack_sets: &PreComputedAttackSets) -> (r: Result<
        BitBoardPosition,
        MoveError,
    >)
        requires
            attack_sets.wf(),
            detailed_move.start != Square::Invalid,
            detailed_move.piece.owner == self@.to_play,
        ensures
            match r {
                Ok(p) => ordinary_outcome(
                    self@,
                    detailed_move.piece.piece_type,
                    detailed_move.start,
                    detailed_move.end,
                ) == Ok::<PositionModel, MoveError>(p@),
                Err(err) => ordinary_outcome(
                    self@,
                    detailed_move.piece.piece_type,
                    detailed_move.start,
                    detailed_move.end,
                ) == Err::<PositionModel, MoveError>(err),
            },
    {
        proof {
            assert(*detailed_move == Move {
                start: detailed_move.start,
                end: detailed_move.end,
                piece: Piece { piece_type: detailed_move.piece.piece_type, owner: self@.to_play },
            });
        }
        match self.validate_move(detailed_move, attack_sets) {
            Ok(()) => {},
            Err(err) => return Err(err),
        }
        assert(detailed_move.end != Square::Invalid) by {
            lemma_valid_move_on_board(self@, *detailed_move);
        }
        let new_board = self.moved_layers(detailed_move);
        if is_king_in_check(&new_board, self.to_play, attack_sets) {
            return Err(MoveError::LeavesOwnKingInCheck);
        }
        Ok(self.after_move(detailed_move, new_board))
    }

    /// Plays `tentative_move` for the player to move. On success the next position comes back;
    /// on refusal the position comes back unchanged.
    pub fn play_move(self, tentative_move: (Square, Square), attack_sets: &PreComputedAttackSets) -> (r: Result<
        Self,
        Self,
    >)
        requires
            attack_sets.wf(),
        ensures
            match r {
                Ok(p) => play_spec(self@, tentative_move.0, tentative_move.1) == Ok::<
                    PositionModel,
                    MoveError,
                >(p@),
                Err(p) => p == self && play_spec(self@, tentative_move.0, tentative_move.1) is Err,
            },
            position_wf(self@) ==> (r matches Ok(p) ==> position_wf(p@)),
    {
        match self.try_play_move(tentative_move, attack_sets) {
            Ok(next) => {
                proof {
                    if position_wf(self@) {
                        lemma_play_keeps_wf(self@, tentative_move.0, tentative_move.1);
                    }
                }
                Ok(next)
            },
            Err(_) => Err(self),
        }
    }

    /// Settles the pending promotion with `piece` (see `promote_spec`).
    pub fn try_promote(&self, piece: PieceType) -> (r: Result<BitBoardPosition, MoveError>)
        ensures
            match r {
                Ok(p) => promote_spec(self@, piece) == Ok::<PositionModel, MoveError>(p@),
                Err(err) => promote_spec(self@, piece) == Err::<PositionModel, MoveError>(err),
            },
    {
        if self.promotion_square == Square::Invalid {
            return Err(MoveError::NoPendingPromotion);
        }
        if piece == PieceType::Pawn || piece == PieceType::King {
            return Err(MoveError::InvalidPromotionChoice);
        }
        let square = self.promotion_square.to_u64();
        let mut board = self.board;
        let pawn_layer = PieceType::Pawn as usize + 6 * (self.to_play as usize);
        let chosen_layer = piece as usize + 6 * (self.to_play as usize);
        board[pawn_layer] = board[pawn_layer] & !square;
        board[chosen_layer] = board[chosen_layer] | square;
        let r = BitBoardPosition {
            to_play: self.to_play.opponent(),
            board,
            en_passant_square: self.en_passant_square,
            white_king_side_castle: self.white_king_side_castle,
            white_queen_side_castle: self.white_queen_side_castle,
            black_king_side_castle: self.black_king_side_castle,
            black_queen_side_castle: self.black_queen_side_castle,
            promotion_square: Square::Invalid,
        };
        proof {
            let m = promote_spec(self@, piece)->Ok_0;
            assert(r@.board =~= m.board);
        }
        Ok(r)
    }

    /// Settles the pending promotion with `piece`. On success the next position comes back; on
    /// refusal the position comes back unchanged.
    pub fn promote(self, piece: PieceType) -> (r: Result<Self, Self>)
        ensures
            match r {
                Ok(p) => promote_spec(self@, piece) == Ok::<PositionModel, MoveError>(p@),
                Err(p) => p == self && promote_spec(self@, piece) is Err,
            },
            position_wf(self@) ==> (r matches Ok(p) ==> position_wf(p@)),
    {
        match self.try_promote(piece) {
            Ok(next) => {
                proof {
                    if position_wf(self@) {
                        lemma_promote_keeps_wf(self@, piece);
                    }
                }
                Ok(next)
            },
            Err(_) => Err(self),
        }
    }
}


/// The piece kept in layer `k` of the twelve.
pub(crate) fn piece_of_layer(k: usize) -> (r: Piece)
    requires
        k < 12,
    ensures
        r == layer_piece(k as int),
{
    Piece {
        piece_type: piece_type_from_layer(k % 6),
        owner: if k < 6 {
            Player::White
        } else {
            Player::Black
        },
    }
}

impl BitBoardPosition {
    /// The bitboard form of a plain position: each piece sets its square's bit in its layer,
    /// and the other state is copied as it is.
    pub fn from_position(position: &SimplePosition) -> (r: Self)
        ensures
            r@.board == layers_of(position.board@),
            r@.to_play == position.to_play,
            r@.en_passant == position.en_passant_square as int,
            r@.white_king_side_castle == position.white_king_side_castle,
            r@.white_queen_side_castle == position.white_queen_side_castle,
            r@.black_king_side_castle == position.black_king_side_castle,
            r@.black_queen_side_castle == position.black_queen_side_castle,
            r@.promotion == position.promotion_square as int,
            position.promotion_square == Square::Invalid || position.board@[position.promotion_square as int]
                == Occupant::Piece(Piece { piece_type: PieceType::Pawn, owner: position.to_play })
                ==> position_wf(r@),
    {
        let mut board = [0u64; 12];
        let mut i: usize = 0;
        while i < 64
            invariant
                i <= 64,
                forall|k: int|
                    0 <= k < 12 ==> #[trigger] board@[k] == squares_holding(
                        position.board@,
                        layer_piece(k),
                        i as int,
                    ),
            decreases 64 - i,
        {
            let ghost before = board@;
            match position.board[i].piece() {
                Some(piece) => {
                    let layer = piece.piece_type as usize + 6 * (piece.owner as usize);
                    board[layer] = board[layer] | (1u64 << (i as u64));
                    proof {
                        lemma_layer_piece(layer as int, piece);
                        assert forall|k: int| 0 <= k < 12 implies #[trigger] board@[k] == squares_holding(
                            position.board@,
                            layer_piece(k),
                            i + 1,
                        ) by {
                            lemma_layer_piece(k, piece);
                            let x = before[k];
                            assert(x | 0u64 == x) by (bit_vector);
                        }
                    }
                },
                None => {
                    proof {
                        assert forall|k: int| 0 <= k < 12 implies #[trigger] board@[k] == squares_holding(
                            position.board@,
                            layer_piece(k),
                            i + 1,
                        ) by {
                            let x = before[k];
                            assert(x | 0u64 == x) by (bit_vector);
                        }
                    }
                },
            }
            i = i + 1;
        }
        proof {
            assert(board@ =~= layers_of(position.board@));
            lemma_layers_of_disjoint(position.board@);
            if position.promotion_square != Square::Invalid {
                let p = Piece { piece_type: PieceType::Pawn, owner: position.to_play };
                lemma_squares_holding(position.board@, p, 64, position.promotion_square as int);
                lemma_layer_piece(layer_index(PieceType::Pawn, position.to_play), p);
            }
        }
        BitBoardPosition {
            to_play: position.to_play,
            board,
            en_passant_square: position.en_passant_square,
            white_king_side_castle: position.white_king_side_castle,
            white_queen_side_castle: position.white_queen_side_castle,
            black_king_side_castle: position.black_king_side_castle,
            black_queen_side_castle: position.black_queen_side_castle,
            promotion_square: position.promotion_square,
        }
    }

    /// The plain form of the position: each square gets the piece of the layer that holds it,
    /// and the other state is copied as it is.
    pub fn to_position(&self) -> (r: SimplePosition)
        ensures
            r.board@ == flat_board(self@.board),
            r.to_play == self@.to_play,
            r.en_passant_square as int == self@.en_passant,
            r.white_king_side_castle == self@.white_king_side_castle,
            r.white_queen_side_castle == self@.white_queen_side_castle,
            r.black_king_side_castle == self@.black_king_side_castle,
            r.black_queen_side_castle == self@.black_queen_side_castle,
            r.promotion_square as int == self@.promotion,
    {
        let ghost b = self@.board;
        let mut board = [Occupant::Empty; 64];
        let mut k: usize = 0;
        while k < 12
            invariant
                k <= 12,
                b == self.board@,
                forall|i: int| 0 <= i < 64 ==> #[trigger] board@[i] == occupant_upto(b, i, k as int),
            decreases 12 - k,
        {
            let layer = self.board[k];
            let piece = piece_of_layer(k);
            let mut square_index: usize = 0;
            while square_index < 64
                invariant
                    k < 12,
                    square_index <= 64,
                    b == self.board@,
                    layer == b[k as int],
                    piece == layer_piece(k as int),
                    forall|i: int|
                        0 <= i < 64 ==> #[trigger] board@[i] == if i < square_index {
                            occupant_upto(b, i, k + 1)
                        } else {
                            occupant_upto(b, i, k as int)
                        },
                decreases 64 - square_index,
            {
                let intersection_check = 1u64 << (square_index as u64);
                proof {
                    assert(intersection_check == bit(square_index as int));
                    let x = layer;
                    let j = square_index as u64;
                    assert(j < 64 ==> ((x & (1u64 << j) == 1u64 << j) <==> ((x >> j) & 1u64 == 1u64)))
                        by (bit_vector);
                }
                if layer & intersection_check == intersection_check {
                    board[square_index] = Occupant::Piece(piece);
                }
                square_index = square_index + 1;
            }
            k = k + 1;
        }
        proof {
            assert(board@ =~= flat_board(b));
        }
        SimplePosition {
            board,
            to_play: self.to_play,
            en_passant_square: self.en_passant_square,
            white_king_side_castle: self.white_king_side_castle,
            white_queen_side_castle: self.white_queen_side_castle,
            black_king_side_castle: self.black_king_side_castle,
            black_queen_side_castle: self.black_queen_side_castle,
            promotion_square: self.promotion_square,
        }
    }
}

impl BitBoardPosition {
    /// The player to move.
    pub fn to_play(&self) -> (r: Player)
        ensures
            r == self@.to_play,
    {
        self.to_play
    }

    /// The square a pawn may capture onto en passant, or `Invalid`.
    pub fn en_passant_square(&self) -> (r: Square)
        ensures
            r as int == self@.en_passant,
    {
        self.en_passant_square
    }

    /// The square of the pending promotion, or `Invalid`.
    pub fn pending_promotion(&self) -> (r: Square)
        ensures
            r as int == self@.promotion,
    {
        self.promotion_square
    }

    pub fn white_king_side_castle(&self) -> (r: bool)
        ensures
            r == self@.white_king_side_castle,
    {
        self.white_king_side_castle
    }

    pub fn white_queen_side_castle(&self) -> (r: bool)
        ensures
            r == self@.white_queen_side_castle,
    {
        self.white_queen_side_castle
    }

    pub fn black_king_side_castle(&self) -> (r: bool)
        ensures
            r == self@.black_king_side_castle,
    {
        self.black_king_side_castle
    }

    pub fn black_queen_side_castle(&self) -> (r: bool)
        ensures
            r == self@.black_queen_side_castle,
    {
        self.black_queen_side_castle
    }

    /// The occupancy word of the pieces of type `piece_type` of `owner`.
    pub fn layer(&self, piece_type: PieceType, owner: Player) -> (r: u64)
        ensures
            r == self@.board[layer_index(piece_type, owner)],
    {
        self.board[piece_type as usize + 6 * (owner as usize)]
    }
}

} // verus!
