//! Queries on the twelve occupancy layers: who stands where, and which squares are attacked.
use vstd::prelude::*;
use crate::bits::{
    bit, has_bit, lemma_has_bit_and, lemma_has_bit_not, lemma_has_bit_or, lemma_has_bit_single,
    lemma_has_bit_zero, lemma_nonzero_has_bit,
};
use crate::definitions::{PieceType, Player, Square, square_at};
use crate::patterns::{
    king_moves, king_step, knight_attacks, knight_jump, on_board, pawn_attacks,
    pawn_capture_step,
};
use crate::precalc::{PreComputedAttackSets, ray_entry, ray_file, ray_rank};

verus! {

broadcast use {
    lemma_has_bit_or,
    lemma_has_bit_and,
    lemma_has_bit_not,
    lemma_has_bit_zero,
    lemma_has_bit_single,
};

/// The layer of the board that holds the pieces of type `pt` of `pl`.
pub open spec fn layer_index(pt: PieceType, pl: Player) -> int {
    pt as int + 6 * (pl as int)
}

/// Some piece of `pl` stands on square `i`.
pub open spec fn occupied_by(b: Seq<u64>, pl: Player, i: int) -> bool {
    let o = 6 * (pl as int);
    ||| has_bit(b[o], i)
    ||| has_bit(b[o + 1], i)
    ||| has_bit(b[o + 2], i)
    ||| has_bit(b[o + 3], i)
    ||| has_bit(b[o + 4], i)
    ||| has_bit(b[o + 5], i)
}

/// Some piece stands on square `i`.
pub open spec fn occupied(b: Seq<u64>, i: int) -> bool {
    occupied_by(b, Player::White, i) || occupied_by(b, Player::Black, i)
}

/// The square `k` steps from `s` along direction `d` lies on the board.
pub open spec fn ray_on_board(s: int, d: int, diagonal: bool, k: int) -> bool {
    0 <= ray_file(s, d, diagonal, k) < 8 && 0 <= ray_rank(s, d, diagonal, k) < 8
}

/// The number of the square `k` steps from `s` along direction `d`.
pub open spec fn ray_point(s: int, d: int, diagonal: bool, k: int) -> int {
    square_at(ray_file(s, d, diagonal, k), ray_rank(s, d, diagonal, k))
}

/// A piece sliding from `s` along direction `d` passes empty squares up to step `k`, which
/// is on the board.
pub open spec fn slides_to(b: Seq<u64>, s: int, d: int, diagonal: bool, k: int) -> bool {
    &&& 1 <= k <= 7
    &&& ray_on_board(s, d, diagonal, k)
    &&& forall|j: int| 1 <= j < k ==> !occupied(b, #[trigger] ray_point(s, d, diagonal, j))
}

/// Along direction `d` from `s`, the first occupied square is in `mask`.
pub open spec fn ray_attacked(b: Seq<u64>, s: int, d: int, diagonal: bool, mask: u64) -> bool {
    exists|k: int| #[trigger]
        slides_to(b, s, d, diagonal, k) && has_bit(mask, ray_point(s, d, diagonal, k))
}

/// Square `s` is attacked by the opponent of `pl`.
pub open spec fn square_attacked(b: Seq<u64>, s: int, pl: Player) -> bool {
    let opp = pl.opponent_spec();
    let straight = b[layer_index(PieceType::Rook, opp)] | b[layer_index(PieceType::Queen, opp)];
    let diagonal = b[layer_index(PieceType::Bishop, opp)] | b[layer_index(PieceType::Queen, opp)];
    ||| exists|t: int| #[trigger]
        has_bit(b[layer_index(PieceType::Knight, opp)], t) && knight_jump(s, t)
    ||| exists|t: int| #[trigger] has_bit(b[layer_index(PieceType::King, opp)], t) && king_step(s, t)
    ||| exists|t: int| #[trigger]
        has_bit(b[layer_index(PieceType::Pawn, opp)], t) && pawn_capture_step(s, t, pl)
    ||| exists|d: int| 0 <= d < 4 && #[trigger] ray_attacked(b, s, d, false, straight)
    ||| exists|d: int| 0 <= d < 4 && #[trigger] ray_attacked(b, s, d, true, diagonal)
}

/// The king of `pl` is attacked. A board on which `pl` has no king, or more than one, has no
/// king in check.
#[verifier::opaque]
pub open spec fn king_in_check(b: Seq<u64>, pl: Player) -> bool {
    exists|i: int|
        0 <= i < 64 && b[layer_index(PieceType::King, pl)] == #[trigger] bit(i) && square_attacked(
            b,
            i,
            pl,
        )
}

/// Whether some square of `map` holds a piece of `player`.
pub fn intercect_with_player_pieces(map: u64, board: &[u64; 12], player: Player) -> (r: bool)
    ensures
        r == exists|i: int| #[trigger] has_bit(map, i) && occupied_by(board@, player, i),
{
    let o: usize = 6 * (player as usize);
    for k in 0..6
        invariant
            o == 6 * (player as int),
            forall|i: int|
                has_bit(map, i) ==> forall|j: int| 0 <= j < k ==> !#[trigger] has_bit(board@[o + j], i),
    {
        let x = board[k + o] & map;
        if x != 0 {
            proof {
                lemma_nonzero_has_bit(x);
                let i = choose|i: int| 0 <= i < 64 && has_bit(x, i);
                assert(has_bit(map, i) && occupied_by(board@, player, i));
            }
            return true;
        }
        proof {
            lemma_nonzero_has_bit(x);
            assert forall|i: int| has_bit(map, i) implies !has_bit(board@[o + k], i) by {
                assert(!has_bit(x, i));
            }
        }
    }
    proof {
        assert forall|i: int| has_bit(map, i) implies !occupied_by(board@, player, i) by {
            assert(!has_bit(board@[o + 0], i));
            assert(!has_bit(board@[o + 1], i));
            assert(!has_bit(board@[o + 2], i));
            assert(!has_bit(board@[o + 3], i));
            assert(!has_bit(board@[o + 4], i));
            assert(!has_bit(board@[o + 5], i));
        }
    }
    false
}

/// Whether no square of `map` holds a piece.
pub fn is_empty(map: u64, board: &[u64; 12]) -> (r: bool)
    ensures
        r == forall|i: int| #[trigger] has_bit(map, i) ==> !occupied(board@, i),
{
    !(intercect_with_player_pieces(map, board, Player::White) || intercect_with_player_pieces(
        map,
        board,
        Player::Black,
    ))
}

pub(crate) proof fn lemma_ray_leaves_board(s: int, d: int, diagonal: bool, k: int, j: int)
    requires
        on_board(s),
        0 <= d < 4,
        1 <= k <= j,
        !ray_on_board(s, d, diagonal, k),
    ensures
        !ray_on_board(s, d, diagonal, j),
{
}

/// What the tables say of the square `k + 1` steps along a ray.
proof fn lemma_table_entry(sets: &PreComputedAttackSets, s: int, d: int, diagonal: bool, k: int)
    requires
        sets.wf(),
        0 <= s < 64,
        0 <= d < 4,
        0 <= k < 7,
    ensures
        ({
            let e = if diagonal {
                sets.diagonals[s][d][k]
            } else {
                sets.orthogonals[s][d][k]
            };
            &&& e != Square::Invalid <==> ray_on_board(s, d, diagonal, k + 1)
            &&& e != Square::Invalid ==> e as int == ray_point(s, d, diagonal, k + 1)
        }),
{
    if diagonal {
        assert(ray_entry(sets.diagonals[s][d][k], s, d, true, k + 1));
    } else {
        assert(ray_entry(sets.orthogonals[s][d][k], s, d, false, k + 1));
    }
}

/// The table entry of a ray, as it is stored.
pub(crate) fn ray_square(sets: &PreComputedAttackSets, s: usize, d: usize, diagonal: bool, k: usize) -> (r: Square)
    requires
        sets.wf(),
        s < 64,
        d < 4,
        k < 7,
    ensures
        r != Square::Invalid <==> ray_on_board(s as int, d as int, diagonal, k + 1),
        r != Square::Invalid ==> r as int == ray_point(s as int, d as int, diagonal, k + 1),
{
    proof {
        lemma_table_entry(sets, s as int, d as int, diagonal, k as int);
    }
    if diagonal {
        sets.diagonals[s][d][k]
    } else {
        sets.orthogonals[s][d][k]
    }
}

/// Whether the first occupied square along a ray from `s` is in `mask`.
fn ray_attacker(
    s: usize,
    d: usize,
    diagonal: bool,
    board: &[u64; 12],
    mask: u64,
    sets: &PreComputedAttackSets,
) -> (r: bool)
    requires
        sets.wf(),
        s < 64,
        d < 4,
    ensures
        r == ray_attacked(board@, s as int, d as int, diagonal, mask),
{
    let ghost b = board@;
    let ghost si = s as int;
    let ghost di = d as int;
    let mut k: usize = 0;
    while k < 7
        invariant
            k <= 7,
            sets.wf(),
            s < 64,
            d < 4,
            b == board@,
            si == s as int,
            di == d as int,
            forall|j: int|
                1 <= j <= k ==> ray_on_board(si, di, diagonal, j) && !occupied(
                    b,
                    #[trigger] ray_point(si, di, diagonal, j),
                ) && !has_bit(mask, ray_point(si, di, diagonal, j)),
        decreases 7 - k,
    {
        let next = ray_square(sets, s, d, diagonal, k);
        if next == Square::Invalid {
            proof {
                assert forall|j: int| !#[trigger] slides_to(b, si, di, diagonal, j) || !has_bit(
                    mask,
                    ray_point(si, di, diagonal, j),
                ) by {
                    if j > k && j >= 1 {
                        lemma_ray_leaves_board(si, di, diagonal, k + 1, j);
                    }
                }
            }
            return false;
        }
        let nb = next.to_u64();
        let hit = nb & mask;
        if hit != 0 {
            proof {
                lemma_nonzero_has_bit(hit);
                let i = choose|i: int| 0 <= i < 64 && has_bit(hit, i);
                assert(i == next as int);
                assert(ray_on_board(si, di, diagonal, k + 1));
                assert(forall|j: int| 1 <= j < k + 1 ==> !occupied(b, #[trigger] ray_point(si, di, diagonal, j)));
                assert(slides_to(b, si, di, diagonal, k + 1));
            }
            return true;
        }
        if !is_empty(nb, board) {
            proof {
                let i = choose|i: int| #[trigger] has_bit(nb, i) && occupied(b, i);
                assert(i == ray_point(si, di, diagonal, k + 1));
                assert forall|j: int| !#[trigger] slides_to(b, si, di, diagonal, j) || !has_bit(
                    mask,
                    ray_point(si, di, diagonal, j),
                ) by {
                    if j == k + 1 {
                        assert(!has_bit(hit, next as int));
                    }
                }
            }
            return false;
        }
        proof {
            assert(has_bit(nb, next as int));
            assert(!has_bit(hit, next as int));
            assert(!occupied(b, next as int));
            assert(ray_on_board(si, di, diagonal, k + 1));
            assert(ray_point(si, di, diagonal, k + 1) == next as int);
            assert(!has_bit(mask, next as int));
            assert forall|j: int| 1 <= j <= k + 1 implies ray_on_board(si, di, diagonal, j) && !occupied(
                b,
                #[trigger] ray_point(si, di, diagonal, j),
            ) && !has_bit(mask, ray_point(si, di, diagonal, j)) by {
                if j == k + 1 {
                    assert(ray_point(si, di, diagonal, j) == next as int);
                }
            }
        }
        k = k + 1;
    }
    false
}

proof fn lemma_meets(x: u64, y: u64)
    ensures
        (x & y != 0) <==> exists|t: int| #[trigger] has_bit(x, t) && has_bit(y, t),
{
    lemma_nonzero_has_bit(x & y);
    if x & y != 0 {
        let t = choose|t: int| 0 <= t < 64 && has_bit(x & y, t);
        assert(has_bit(x, t) && has_bit(y, t));
    } else {
        assert forall|t: int| !(#[trigger] has_bit(x, t) && has_bit(y, t)) by {
            assert(!has_bit(x & y, t));
        }
    }
}

/// Whether the opponent of `player` attacks `square`: a knight, king or pawn of theirs
/// reaches it, or the first piece along one of its orthogonal (diagonal) rays is their rook
/// or queen (bishop or queen).
pub fn is_square_in_check(
    square: Square,
    board: &[u64; 12],
    player: Player,
    attack_sets: &PreComputedAttackSets,
) -> (r: bool)
    requires
        attack_sets.wf(),
        square != Square::Invalid,
    ensures
        r == square_attacked(board@, square as int, player),
{
    let ghost b = board@;
    let ghost s = square as int;
    let sq = square.to_u64();
    let opp = player.opponent();
    let o = 6 * (opp as usize);
    let ka = knight_attacks(sq);
    let km = king_moves(sq);
    let pa = pawn_attacks(sq, player);
    let knights = ka & board[PieceType::Knight as usize + o];
    let kings = km & board[PieceType::King as usize + o];
    let pawns = pa & board[PieceType::Pawn as usize + o];
    let straight = board[PieceType::Rook as usize + o] | board[PieceType::Queen as usize + o];
    let diagonal = board[PieceType::Bishop as usize + o] | board[PieceType::Queen as usize + o];
    proof {
        let kn = b[layer_index(PieceType::Knight, opp)];
        let kg = b[layer_index(PieceType::King, opp)];
        let pw = b[layer_index(PieceType::Pawn, opp)];
        lemma_meets(ka, kn);
        lemma_meets(km, kg);
        lemma_meets(pa, pw);
        assert((exists|t: int| #[trigger] has_bit(kn, t) && knight_jump(s, t)) == (knights != 0)) by {
            if knights != 0 {
                let t = choose|t: int| #[trigger] has_bit(ka, t) && has_bit(kn, t);
                let u = choose|u: int| #[trigger] has_bit(sq, u) && knight_jump(u, t);
                assert(knight_jump(s, t));
            }
            if exists|t: int| #[trigger] has_bit(kn, t) && knight_jump(s, t) {
                let t = choose|t: int| #[trigger] has_bit(kn, t) && knight_jump(s, t);
                assert(has_bit(sq, s));
                assert(has_bit(ka, t));
            }
        }
        assert((exists|t: int| #[trigger] has_bit(kg, t) && king_step(s, t)) == (kings != 0)) by {
            if kings != 0 {
                let t = choose|t: int| #[trigger] has_bit(km, t) && has_bit(kg, t);
                let u = choose|u: int| #[trigger] has_bit(sq, u) && king_step(u, t);
                assert(king_step(s, t));
            }
            if exists|t: int| #[trigger] has_bit(kg, t) && king_step(s, t) {
                let t = choose|t: int| #[trigger] has_bit(kg, t) && king_step(s, t);
                assert(has_bit(sq, s));
                assert(has_bit(km, t));
            }
        }
        assert((exists|t: int| #[trigger] has_bit(pw, t) && pawn_capture_step(s, t, player)) == (
        pawns != 0)) by {
            if pawns != 0 {
                let t = choose|t: int| #[trigger] has_bit(pa, t) && has_bit(pw, t);
                let u = choose|u: int| #[trigger] has_bit(sq, u) && pawn_capture_step(u, t, player);
                assert(pawn_capture_step(s, t, player));
            }
            if exists|t: int| #[trigger] has_bit(pw, t) && pawn_capture_step(s, t, player) {
                let t = choose|t: int| #[trigger] has_bit(pw, t) && pawn_capture_step(s, t, player);
                assert(has_bit(sq, s));
                assert(has_bit(pa, t));
            }
        }
    }
    if knights != 0 || kings != 0 || pawns != 0 {
        return true;
    }
    let si = square.index() as usize;
    let mut d: usize = 0;
    while d < 4
        invariant
            attack_sets.wf(),
            si == s,
            s == square as int,
            s < 64,
            b == board@,
            straight == b[layer_index(PieceType::Rook, player.opponent_spec())] | b[layer_index(
                PieceType::Queen,
                player.opponent_spec(),
            )],
            diagonal == b[layer_index(PieceType::Bishop, player.opponent_spec())] | b[layer_index(
                PieceType::Queen,
                player.opponent_spec(),
            )],
            !(exists|t: int|
                #[trigger] has_bit(b[layer_index(PieceType::Knight, player.opponent_spec())], t)
                    && knight_jump(s, t)),
            !(exists|t: int|
                #[trigger] has_bit(b[layer_index(PieceType::King, player.opponent_spec())], t)
                    && king_step(s, t)),
            !(exists|t: int|
                #[trigger] has_bit(b[layer_index(PieceType::Pawn, player.opponent_spec())], t)
                    && pawn_capture_step(s, t, player)),
            forall|e: int| 0 <= e < d ==> !#[trigger] ray_attacked(b, s, e, false, straight),
            forall|e: int| 0 <= e < d ==> !#[trigger] ray_attacked(b, s, e, true, diagonal),
        decreases 4 - d,
    {
        if ray_attacker(si, d, false, board, straight, attack_sets) {
            proof {
                assert(ray_attacked(b, s, d as int, false, straight));
                assert(square_attacked(b, s, player));
            }
            return true;
        }
        if ray_attacker(si, d, true, board, diagonal, attack_sets) {
            proof {
                assert(ray_attacked(b, s, d as int, true, diagonal));
                assert(square_attacked(b, s, player));
            }
            return true;
        }
        d = d + 1;
    }
    false
}

/// Whether the king of `player` is attacked. A board on which `player` has no king, or more
/// than one, reports no check.
pub fn is_king_in_check(
    board: &[u64; 12],
    player: Player,
    attack_sets: &PreComputedAttackSets,
) -> (r: bool)
    requires
        attack_sets.wf(),
    ensures
        r == king_in_check(board@, player),
{
    let king_position = board[PieceType::King as usize + 6 * (player as usize)];
    let square = Square::from_u64(king_position);
    if square == Square::Invalid {
        proof {
            reveal(king_in_check);
        }
        return false;
    }
    let r = is_square_in_check(square, board, player, attack_sets);
    proof {
        reveal(king_in_check);
        assert(king_position == bit(square as int));
        if !r {
            assert forall|i: int|
                0 <= i < 64 && king_position == #[trigger] bit(i) implies !square_attacked(
                board@,
                i,
                player,
            ) by {
                crate::coords::lemma_bit_injective(i, square as int);
            }
        }
    }
    r
}

} // verus!
