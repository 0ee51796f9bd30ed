//! Fixed move patterns of knights, kings and pawns, over sets of squares.
use vstd::prelude::*;
use crate::bits::{
    has_bit, lemma_has_bit_and, lemma_has_bit_not, lemma_has_bit_or, lemma_has_bit_shl,
    lemma_has_bit_shr,
};
use crate::definitions::{File, Player, Rank, file_of, rank_of};

verus! {

broadcast use {
    lemma_has_bit_or,
    lemma_has_bit_and,
    lemma_has_bit_not,
    lemma_has_bit_shl,
    lemma_has_bit_shr,
};

pub open spec fn abs(x: int) -> int {
    if x < 0 {
        -x
    } else {
        x
    }
}

pub open spec fn on_board(i: int) -> bool {
    0 <= i < 64
}

/// How many files `t` lies to the right of `s`.
pub open spec fn file_delta(s: int, t: int) -> int {
    file_of(t) - file_of(s)
}

/// How many ranks `t` lies above `s`.
pub open spec fn rank_delta(s: int, t: int) -> int {
    rank_of(t) - rank_of(s)
}

/// A knight on `s` reaches `t` in one L-shaped jump.
pub open spec fn knight_jump(s: int, t: int) -> bool {
    &&& on_board(s)
    &&& on_board(t)
    &&& {
        ||| abs(file_delta(s, t)) == 1 && abs(rank_delta(s, t)) == 2
        ||| abs(file_delta(s, t)) == 2 && abs(rank_delta(s, t)) == 1
    }
}

/// `t` is one of the eight squares next to `s`.
pub open spec fn king_step(s: int, t: int) -> bool {
    &&& on_board(s)
    &&& on_board(t)
    &&& s != t
    &&& abs(file_delta(s, t)) <= 1
    &&& abs(rank_delta(s, t)) <= 1
}

/// The rank direction in which the pawns of `p` advance.
pub open spec fn forward(p: Player) -> int {
    match p {
        Player::White => 1,
        Player::Black => -1,
    }
}

/// The rank on which the pawns of `p` start.
pub open spec fn pawn_home_rank(p: Player) -> int {
    match p {
        Player::White => 1,
        Player::Black => 6,
    }
}

/// A pawn of `p` on `s` attacks `t`: one rank forward, one file aside.
pub open spec fn pawn_capture_step(s: int, t: int, p: Player) -> bool {
    &&& on_board(s)
    &&& on_board(t)
    &&& rank_delta(s, t) == forward(p)
    &&& abs(file_delta(s, t)) == 1
}

/// A pawn of `p` on `s` may advance to `t`: one rank straight forward, or two from its
/// home rank.
pub open spec fn pawn_push_step(s: int, t: int, p: Player) -> bool {
    &&& on_board(s)
    &&& on_board(t)
    &&& file_delta(s, t) == 0
    &&& {
        ||| rank_delta(s, t) == forward(p)
        ||| rank_delta(s, t) == 2 * forward(p) && rank_of(s) == pawn_home_rank(p)
    }
}

proof fn lemma_knight_offsets(s: int, t: int)
    requires
        on_board(s),
        on_board(t),
    ensures
        knight_jump(s, t) <==> {
            ||| t == s + 17 && file_of(t) != 0
            ||| t == s + 10 && file_of(t) != 0 && file_of(t) != 1
            ||| t == s - 6 && file_of(t) != 0 && file_of(t) != 1
            ||| t == s - 15 && file_of(t) != 0
            ||| t == s + 15 && file_of(t) != 7
            ||| t == s + 6 && file_of(t) != 7 && file_of(t) != 6
            ||| t == s - 10 && file_of(t) != 7 && file_of(t) != 6
            ||| t == s - 17 && file_of(t) != 7
        },
{
}

/// The squares that knights on `positions` attack.
pub fn knight_attacks(positions: u64) -> (r: u64)
    ensures
        forall|t: int|
            has_bit(r, t) <==> exists|s: int| #[trigger] has_bit(positions, s) && knight_jump(s, t),
{
    let not_a = !File::A.to_u64();
    let not_h = !File::H.to_u64();
    let not_ab = !(File::A.to_u64() | File::B.to_u64());
    let not_gh = !(File::H.to_u64() | File::G.to_u64());
    let r = (positions << 17) & not_a | (positions << 10) & not_ab | (positions >> 6) & not_ab
        | (positions >> 15) & not_a | (positions << 15) & not_h | (positions << 6) & not_gh | (
    positions >> 10) & not_gh | (positions >> 17) & not_h;
    proof {
        assert forall|t: int|
            has_bit(r, t) <==> exists|s: int| #[trigger]
                has_bit(positions, s) && knight_jump(s, t) by {
            if on_board(t) {
                if has_bit(r, t) {
                    let s = if t >= 17 && has_bit(positions, t - 17) && file_of(t) != 0 {
                        t - 17
                    } else if t >= 10 && has_bit(positions, t - 10) && file_of(t) > 1 {
                        t - 10
                    } else if has_bit(positions, t + 6) && file_of(t) > 1 {
                        t + 6
                    } else if has_bit(positions, t + 15) && file_of(t) != 0 {
                        t + 15
                    } else if t >= 15 && has_bit(positions, t - 15) && file_of(t) != 7 {
                        t - 15
                    } else if t >= 6 && has_bit(positions, t - 6) && file_of(t) < 6 {
                        t - 6
                    } else if has_bit(positions, t + 10) && file_of(t) < 6 {
                        t + 10
                    } else {
                        t + 17
                    };
                    lemma_knight_offsets(s, t);
                    assert(has_bit(positions, s) && knight_jump(s, t));
                } else {
                    assert forall|s: int| has_bit(positions, s) implies !knight_jump(s, t) by {
                        lemma_knight_offsets(s, t);
                    }
                }
            }
        }
    }
    r
}

#[verifier::rlimit(30)]
proof fn lemma_king_offsets(s: int, t: int)
    requires
        on_board(s),
        on_board(t),
    ensures
        king_step(s, t) <==> {
            ||| t == s + 7 && file_of(t) != 7
            ||| t == s + 8
            ||| t == s + 9 && file_of(t) != 0
            ||| t == s + 1 && file_of(t) != 0
            ||| t == s - 7 && file_of(t) != 0
            ||| t == s - 8
            ||| t == s - 9 && file_of(t) != 7
            ||| t == s - 1 && file_of(t) != 7
        },
{
}

/// The squares next to the kings on `positions`, without wrapping round the board's edges.
pub fn king_moves(positions: u64) -> (r: u64)
    ensures
        forall|t: int|
            has_bit(r, t) <==> exists|s: int| #[trigger] has_bit(positions, s) && king_step(s, t),
{
    let not_a = !File::A.to_u64();
    let not_h = !File::H.to_u64();
    let r = (positions << 7) & not_h | (positions << 8) | (positions << 9) & not_a | (positions
        << 1) & not_a | (positions >> 7) & not_a | (positions >> 8) | (positions >> 9) & not_h | (
    positions >> 1) & not_h;
    proof {
        assert forall|t: int|
            has_bit(r, t) <==> exists|s: int| #[trigger]
                has_bit(positions, s) && king_step(s, t) by {
            if on_board(t) {
                if has_bit(r, t) {
                    let s = if t >= 7 && has_bit(positions, t - 7) && file_of(t) != 7 {
                        t - 7
                    } else if t >= 8 && has_bit(positions, t - 8) {
                        t - 8
                    } else if t >= 9 && has_bit(positions, t - 9) && file_of(t) != 0 {
                        t - 9
                    } else if t >= 1 && has_bit(positions, t - 1) && file_of(t) != 0 {
                        t - 1
                    } else if has_bit(positions, t + 7) && file_of(t) != 0 {
                        t + 7
                    } else if has_bit(positions, t + 8) {
                        t + 8
                    } else if has_bit(positions, t + 9) && file_of(t) != 7 {
                        t + 9
                    } else {
                        t + 1
                    };
                    lemma_king_offsets(s, t);
                    assert(has_bit(positions, s) && king_step(s, t));
                } else {
                    assert forall|s: int| has_bit(positions, s) implies !king_step(s, t) by {
                        lemma_king_offsets(s, t);
                    }
                }
            }
        }
    }
    r
}

proof fn lemma_pawn_capture_offsets(s: int, t: int, p: Player)
    requires
        on_board(s),
        on_board(t),
    ensures
        pawn_capture_step(s, t, p) <==> (p == Player::White && (t == s + 7 && file_of(t) != 7
            || t == s + 9 && file_of(t) != 0)) || (p == Player::Black && (t == s - 9 && file_of(t)
            != 7 || t == s - 7 && file_of(t) != 0)),
{
}

/// The squares that pawns of `player` on `positions` attack.
pub fn pawn_attacks(positions: u64, player: Player) -> (r: u64)
    ensures
        forall|t: int|
            has_bit(r, t) <==> exists|s: int| #[trigger]
                has_bit(positions, s) && pawn_capture_step(s, t, player),
{
    let not_a = !File::A.to_u64();
    let not_h = !File::H.to_u64();
    let r = if player == Player::White {
        (positions << 7) & not_h | (positions << 9) & not_a
    } else {
        (positions >> 9) & not_h | (positions >> 7) & not_a
    };
    proof {
        assert forall|t: int|
            has_bit(r, t) <==> exists|s: int| #[trigger]
                has_bit(positions, s) && pawn_capture_step(s, t, player) by {
            if on_board(t) {
                if has_bit(r, t) {
                    let s = if player == Player::White {
                        if t >= 7 && has_bit(positions, t - 7) && file_of(t) != 7 {
                            t - 7
                        } else {
                            t - 9
                        }
                    } else {
                        if has_bit(positions, t + 9) && file_of(t) != 7 {
                            t + 9
                        } else {
                            t + 7
                        }
                    };
                    lemma_pawn_capture_offsets(s, t, player);
                    assert(has_bit(positions, s) && pawn_capture_step(s, t, player));
                } else {
                    assert forall|s: int| has_bit(positions, s) implies !pawn_capture_step(
                        s,
                        t,
                        player,
                    ) by {
                        lemma_pawn_capture_offsets(s, t, player);
                    }
                }
            }
        }
    }
    r
}

proof fn lemma_pawn_push_offsets(s: int, t: int, p: Player)
    requires
        on_board(s),
        on_board(t),
    ensures
        pawn_push_step(s, t, p) <==> (p == Player::White && (t == s + 8 || t == s + 16
            && rank_of(s) == 1)) || (p == Player::Black && (t == s - 8 || t == s - 16 && rank_of(
            s,
        ) == 6)),
{
}

/// The squares that pawns of `player` on `positions` may advance to, leaving aside what
/// stands there: one rank forward, or two from their home rank.
pub fn pawn_moves(positions: u64, player: Player) -> (r: u64)
    ensures
        forall|t: int|
            has_bit(r, t) <==> exists|s: int| #[trigger]
                has_bit(positions, s) && pawn_push_step(s, t, player),
{
    let r = if player == Player::White {
        let no_last_rank = positions & !Rank::Eight.to_u64();
        let unmoved_pawns = no_last_rank & Rank::Second.to_u64();
        (unmoved_pawns << 16) | (no_last_rank << 8)
    } else {
        let no_last_rank = positions & !Rank::First.to_u64();
        let unmoved_pawns = no_last_rank & Rank::Seventh.to_u64();
        (unmoved_pawns >> 16) | (no_last_rank >> 8)
    };
    proof {
        assert forall|t: int|
            has_bit(r, t) <==> exists|s: int| #[trigger]
                has_bit(positions, s) && pawn_push_step(s, t, player) by {
            if on_board(t) {
                if has_bit(r, t) {
                    let s = if player == Player::White {
                        if t >= 8 && has_bit(positions, t - 8) {
                            t - 8
                        } else {
                            t - 16
                        }
                    } else {
                        if has_bit(positions, t + 8) {
                            t + 8
                        } else {
                            t + 16
                        }
                    };
                    lemma_pawn_push_offsets(s, t, player);
                    assert(has_bit(positions, s) && pawn_push_step(s, t, player));
                } else {
                    assert forall|s: int| has_bit(positions, s) implies !pawn_push_step(
                        s,
                        t,
                        player,
                    ) by {
                        lemma_pawn_push_offsets(s, t, player);
                    }
                }
            }
        }
    }
    r
}

} // verus!
