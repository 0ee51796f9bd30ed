//! Tables built once per process: sliding rays and attack masks for rooks, bishops and queens.
use vstd::prelude::*;
use crate::bits::{
    has_bit, lemma_has_bit_and, lemma_has_bit_not, lemma_has_bit_or, lemma_has_bit_zero,
    lemma_nonzero_has_bit,
};
use crate::definitions::{File, PieceType, Rank, Square, file_of, rank_of, square_at};
use crate::patterns::{abs, file_delta, on_board, rank_delta};

verus! {

broadcast use {lemma_has_bit_or, lemma_has_bit_and, lemma_has_bit_not, lemma_has_bit_zero};

/// The file reached from `s` after `k` steps in direction `d`. Orthogonal directions are
/// north, east, south, west; diagonal ones north-east, south-east, south-west, north-west.
pub open spec fn ray_file(s: int, d: int, diagonal: bool, k: int) -> int {
    if diagonal {
        if d == 0 || d == 1 {
            file_of(s) + k
        } else {
            file_of(s) - k
        }
    } else {
        if d == 1 {
            file_of(s) + k
        } else if d == 3 {
            file_of(s) - k
        } else {
            file_of(s)
        }
    }
}

/// The rank reached from `s` after `k` steps in direction `d` (see `ray_file`).
pub open spec fn ray_rank(s: int, d: int, diagonal: bool, k: int) -> int {
    if diagonal {
        if d == 0 || d == 3 {
            rank_of(s) + k
        } else {
            rank_of(s) - k
        }
    } else {
        if d == 0 {
            rank_of(s) + k
        } else if d == 2 {
            rank_of(s) - k
        } else {
            rank_of(s)
        }
    }
}

/// `sq` is the square `k` steps from `s` in direction `d`, or `Invalid` if that is off the
/// board.
pub open spec fn ray_entry(sq: Square, s: int, d: int, diagonal: bool, k: int) -> bool {
    let f = ray_file(s, d, diagonal, k);
    let r = ray_rank(s, d, diagonal, k);
    if 0 <= f < 8 && 0 <= r < 8 {
        sq as int == square_at(f, r)
    } else {
        sq == Square::Invalid
    }
}

/// `t` lies on the same file or rank as `s`, and is another square.
pub open spec fn rook_line(s: int, t: int) -> bool {
    &&& on_board(s)
    &&& on_board(t)
    &&& s != t
    &&& (file_of(s) == file_of(t) || rank_of(s) == rank_of(t))
}

/// `t` lies on the same diagonal as `s`, and is another square.
pub open spec fn bishop_line(s: int, t: int) -> bool {
    &&& on_board(s)
    &&& on_board(t)
    &&& s != t
    &&& abs(file_delta(s, t)) == abs(rank_delta(s, t))
}

/// `t` is on an outer file or rank of the board that `s` itself is not on.
pub open spec fn edge_beyond(s: int, t: int) -> bool {
    ||| file_of(t) == 0 && file_of(s) != 0
    ||| file_of(t) == 7 && file_of(s) != 7
    ||| rank_of(t) == 0 && rank_of(s) != 0
    ||| rank_of(t) == 7 && rank_of(s) != 7
}

/// Some step of direction `d` from `s` lands on `t`.
pub open spec fn ray_hits(s: int, d: int, diagonal: bool, t: int) -> bool {
    on_board(t) && exists|k: int|
        1 <= k <= 7 && #[trigger] ray_file(s, d, diagonal, k) == file_of(t) && ray_rank(
            s,
            d,
            diagonal,
            k,
        ) == rank_of(t)
}

pub struct PreComputedAttackSets {
    /// Full attack masks on an empty board, for rook, bishop and queen (see
    /// `PieceType::precalculated_index`), per square.
    pub attacks: [[u64; 64]; 3],
    /// The attack masks without the outer squares that lie beyond the piece.
    pub blockers: [[u64; 64]; 3],
    /// Per square, the four diagonal rays, nearest square first, `Invalid` past the edge.
    pub diagonals: [[[Square; 7]; 4]; 64],
    /// Per square, the four orthogonal rays, nearest square first, `Invalid` past the edge.
    pub orthogonals: [[[Square; 7]; 4]; 64],
}

impl PreComputedAttackSets {
    /// The tables hold what their names say, for every square.
    pub open spec fn wf(&self) -> bool {
        &&& forall|s: int, d: int, k: int|
            0 <= s < 64 && 0 <= d < 4 && 0 <= k < 7 ==> ray_entry(
                #[trigger] self.orthogonals[s][d][k],
                s,
                d,
                false,
                k + 1,
            )
        &&& forall|s: int, d: int, k: int|
            0 <= s < 64 && 0 <= d < 4 && 0 <= k < 7 ==> ray_entry(
                #[trigger] self.diagonals[s][d][k],
                s,
                d,
                true,
                k + 1,
            )
        &&& forall|s: int, t: int|
            0 <= s < 64 ==> (#[trigger] has_bit(self.attacks[0][s], t) <==> rook_line(s, t))
        &&& forall|s: int, t: int|
            0 <= s < 64 ==> (#[trigger] has_bit(self.attacks[1][s], t) <==> bishop_line(s, t))
        &&& forall|s: int, t: int|
            0 <= s < 64 ==> (#[trigger] has_bit(self.attacks[2][s], t) <==> (rook_line(s, t)
                || bishop_line(s, t)))
        &&& forall|p: int, s: int, t: int|
            0 <= p < 3 && 0 <= s < 64 ==> (#[trigger] has_bit(self.blockers[p][s], t) <==> (
            has_bit(self.attacks[p][s], t) && !edge_beyond(s, t)))
    }

    /// The full attack mask of a rook, bishop or queen on `square`.
    pub fn attacks(&self, square: Square, piece: PieceType) -> (r: u64)
        requires
            square != Square::Invalid,
            piece == PieceType::Rook || piece == PieceType::Bishop || piece == PieceType::Queen,
        ensures
            r == self.attacks[piece.precalculated_index_spec()][square as int],
    {
        self.attacks[piece.precalculated_index()][square.index() as usize]
    }

    /// The blocker-relevant mask of a rook, bishop or queen on `square`.
    pub fn blockers(&self, square: Square, piece: PieceType) -> (r: u64)
        requires
            square != Square::Invalid,
            piece == PieceType::Rook || piece == PieceType::Bishop || piece == PieceType::Queen,
        ensures
            r == self.blockers[piece.precalculated_index_spec()][square as int],
    {
        self.blockers[piece.precalculated_index()][square.index() as usize]
    }
}

impl PieceType {
    pub open spec fn precalculated_index_spec(&self) -> int {
        match self {
            PieceType::Rook => 0,
            PieceType::Bishop => 1,
            _ => 2,
        }
    }

    /// The row of the attack tables for a sliding piece: rook 0, bishop 1, queen 2.
    pub fn precalculated_index(&self) -> (r: usize)
        requires
            *self == PieceType::Rook || *self == PieceType::Bishop || *self == PieceType::Queen,
        ensures
            r == self.precalculated_index_spec(),
    {
        match self {
            PieceType::Rook => 0,
            PieceType::Bishop => 1,
            _ => 2,
        }
    }
}

fn ray_step(f: i64, r: i64, d: u64, diagonal: bool, k: i64) -> (res: (i64, i64))
    requires
        0 <= f < 8,
        0 <= r < 8,
        d < 4,
        1 <= k <= 7,
    ensures
        res.0 == ray_file(square_at(f as int, r as int), d as int, diagonal, k as int),
        res.1 == ray_rank(square_at(f as int, r as int), d as int, diagonal, k as int),
{
    assert(file_of(square_at(f as int, r as int)) == f);
    assert(rank_of(square_at(f as int, r as int)) == r);
    if diagonal {
        let nf = if d == 0 || d == 1 { f + k } else { f - k };
        let nr = if d == 0 || d == 3 { r + k } else { r - k };
        (nf, nr)
    } else {
        let nf = if d == 1 { f + k } else if d == 3 { f - k } else { f };
        let nr = if d == 0 { r + k } else if d == 2 { r - k } else { r };
        (nf, nr)
    }
}

/// The seven entries of the ray from `s` in direction `d`.
fn build_ray(s: u64, d: u64, diagonal: bool) -> (ray: [Square; 7])
    requires
        s < 64,
        d < 4,
    ensures
        forall|k: int| 0 <= k < 7 ==> ray_entry(#[trigger] ray[k], s as int, d as int, diagonal, k + 1),
{
    let f = (s % 8) as i64;
    let r = (s / 8) as i64;
    assert(square_at(f as int, r as int) == s);
    let mut ray = [Square::Invalid; 7];
    for k in 0..7
        invariant
            s < 64,
            f == file_of(s as int),
            r == rank_of(s as int),
            d < 4,
            forall|j: int| 0 <= j < k ==> ray_entry(#[trigger] ray[j], s as int, d as int, diagonal, j + 1),
    {
        let (nf, nr) = ray_step(f, r, d, diagonal, k as i64 + 1);
        if 0 <= nf && nf < 8 && 0 <= nr && nr < 8 {
            ray[k] = Square::from_index((8 * nr + nf) as u64);
        } else {
            ray[k] = Square::Invalid;
        }
    }
    ray
}

/// The set of the squares on a ray.
fn ray_mask(ray: &[Square; 7]) -> (m: u64)
    ensures
        forall|t: int|
            has_bit(m, t) <==> exists|k: int|
                0 <= k < 7 && #[trigger] ray[k] != Square::Invalid && ray[k] as int == t,
{
    let mut m: u64 = 0;
    for k in 0..7
        invariant
            forall|t: int|
                has_bit(m, t) <==> exists|j: int|
                    0 <= j < k && #[trigger] ray[j] != Square::Invalid && ray[j] as int == t,
    {
        let b = ray[k].to_u64();
        m = m | b;
    }
    m
}

/// The squares on a rook's (or bishop's) lines from `s` are those that its four rays reach.
proof fn lemma_lines_are_rays(s: int, t: int, diagonal: bool)
    requires
        on_board(s),
        on_board(t),
    ensures
        (if diagonal {
            bishop_line(s, t)
        } else {
            rook_line(s, t)
        }) <==> exists|d: int| 0 <= d < 4 && #[trigger] ray_hits(s, d, diagonal, t),
{
    let df = file_delta(s, t);
    let dr = rank_delta(s, t);
    let line = if diagonal {
        bishop_line(s, t)
    } else {
        rook_line(s, t)
    };
    if line {
        let d = if diagonal {
            if df > 0 && dr > 0 {
                0
            } else if df > 0 {
                1
            } else if dr < 0 {
                2
            } else {
                3
            }
        } else {
            if df == 0 && dr > 0 {
                0
            } else if dr == 0 && df > 0 {
                1
            } else if df == 0 {
                2
            } else {
                3
            }
        };
        let k = if df != 0 {
            abs(df)
        } else {
            abs(dr)
        };
        assert(ray_file(s, d, diagonal, k) == file_of(t) && ray_rank(s, d, diagonal, k) == rank_of(t));
        assert(ray_hits(s, d, diagonal, t));
    } else {
        assert forall|d: int| 0 <= d < 4 implies !#[trigger] ray_hits(s, d, diagonal, t) by {
            if ray_hits(s, d, diagonal, t) {
                let k = choose|k: int|
                    1 <= k <= 7 && #[trigger] ray_file(s, d, diagonal, k) == file_of(t) && ray_rank(
                        s,
                        d,
                        diagonal,
                        k,
                    ) == rank_of(t);
                assert(s != t);
            }
        }
    }
}

proof fn lemma_square_at(f: int, r: int, t: int)
    requires
        0 <= f < 8,
        0 <= r < 8,
        on_board(t),
    ensures
        square_at(f, r) == t <==> (f == file_of(t) && r == rank_of(t)),
{
}

/// The ray from `s` in direction `d`, and the set of its squares.
fn ray_with_mask(s: u64, d: u64, diagonal: bool) -> (res: ([Square; 7], u64))
    requires
        s < 64,
        d < 4,
    ensures
        forall|k: int| 0 <= k < 7 ==> ray_entry(#[trigger] res.0[k], s as int, d as int, diagonal, k + 1),
        forall|t: int| has_bit(res.1, t) <==> ray_hits(s as int, d as int, diagonal, t),
{
    let ray = build_ray(s, d, diagonal);
    let m = ray_mask(&ray);
    proof {
        assert forall|t: int| has_bit(m, t) <==> ray_hits(s as int, d as int, diagonal, t) by {
            if has_bit(m, t) {
                let k = choose|k: int| 0 <= k < 7 && #[trigger] ray[k] != Square::Invalid && ray[k] as int == t;
                let f = ray_file(s as int, d as int, diagonal, k + 1);
                let r = ray_rank(s as int, d as int, diagonal, k + 1);
                assert(ray_entry(ray[k], s as int, d as int, diagonal, k + 1));
                assert(0 <= f < 8 && 0 <= r < 8);
                lemma_square_at(f, r, t);
                assert(ray_file(s as int, d as int, diagonal, k + 1) == file_of(t));
            }
            if ray_hits(s as int, d as int, diagonal, t) {
                let k = choose|k: int|
                    1 <= k <= 7 && #[trigger] ray_file(s as int, d as int, diagonal, k) == file_of(t) && ray_rank(
                        s as int,
                        d as int,
                        diagonal,
                        k,
                    ) == rank_of(t);
                assert(ray_entry(ray[k - 1], s as int, d as int, diagonal, k));
                lemma_square_at(file_of(t), rank_of(t), t);
                assert(ray[k - 1] as int == t);
            }
        }
    }
    (ray, m)
}

/// The four rays from `s`, and the set of the squares on them.
fn square_rays(s: u64, diagonal: bool) -> (res: ([[Square; 7]; 4], u64))
    requires
        s < 64,
    ensures
        forall|d: int, k: int|
            0 <= d < 4 && 0 <= k < 7 ==> ray_entry(#[trigger] res.0[d][k], s as int, d, diagonal, k + 1),
        forall|t: int|
            has_bit(res.1, t) <==> (if diagonal {
                bishop_line(s as int, t)
            } else {
                rook_line(s as int, t)
            }),
{
    let mut rays = [[Square::Invalid; 7]; 4];
    let mut m: u64 = 0;
    for d in 0..4
        invariant
            s < 64,
            forall|e: int, k: int|
                0 <= e < d && 0 <= k < 7 ==> ray_entry(#[trigger] rays[e][k], s as int, e, diagonal, k + 1),
            forall|t: int|
                has_bit(m, t) <==> exists|e: int|
                    0 <= e < d && #[trigger] ray_hits(s as int, e, diagonal, t),
    {
        let (ray, rm) = ray_with_mask(s, d as u64, diagonal);
        rays[d] = ray;
        m = m | rm;
        proof {
            assert forall|t: int|
                has_bit(m, t) <==> exists|e: int|
                    0 <= e < d + 1 && #[trigger] ray_hits(s as int, e, diagonal, t) by {
                if ray_hits(s as int, d as int, diagonal, t) {
                    assert(has_bit(rm, t));
                }
            }
        }
    }
    proof {
        assert forall|t: int|
            has_bit(m, t) <==> (if diagonal {
                bishop_line(s as int, t)
            } else {
                rook_line(s as int, t)
            }) by {
            if on_board(t) {
                lemma_lines_are_rays(s as int, t, diagonal);
            }
        }
    }
    (rays, m)
}

/// The outer files and ranks of the board that `square` is not on.
fn non_blocker_map(square: Square) -> (m: u64)
    requires
        square != Square::Invalid,
    ensures
        forall|t: int| has_bit(m, t) <==> (on_board(t) && edge_beyond(square as int, t)),
{
    let sq = square.to_u64();
    let file_a = File::A.to_u64();
    let file_h = File::H.to_u64();
    let rank_1 = Rank::First.to_u64();
    let rank_8 = Rank::Eight.to_u64();
    let off_a = sq & file_a == 0;
    let off_h = sq & file_h == 0;
    let off_1 = sq & rank_1 == 0;
    let off_8 = sq & rank_8 == 0;
    proof {
        let i = square as int;
        assert(has_bit(sq, i));
        lemma_nonzero_has_bit(sq & file_a);
        lemma_nonzero_has_bit(sq & file_h);
        lemma_nonzero_has_bit(sq & rank_1);
        lemma_nonzero_has_bit(sq & rank_8);
        assert(off_a <==> file_of(i) != 0) by {
            if file_of(i) == 0 {
                assert(has_bit(sq & file_a, i));
            }
        }
        assert(off_h <==> file_of(i) != 7) by {
            if file_of(i) == 7 {
                assert(has_bit(sq & file_h, i));
            }
        }
        assert(off_1 <==> rank_of(i) != 0) by {
            if rank_of(i) == 0 {
                assert(has_bit(sq & rank_1, i));
            }
        }
        assert(off_8 <==> rank_of(i) != 7) by {
            if rank_of(i) == 7 {
                assert(has_bit(sq & rank_8, i));
            }
        }
    }
    let mut m: u64 = 0;
    if off_a {
        m = m | file_a;
    }
    if off_h {
        m = m | file_h;
    }
    if off_1 {
        m = m | rank_1;
    }
    if off_8 {
        m = m | rank_8;
    }
    m
}

/// Builds every table once: rays, attack masks and blocker masks for each square.
pub fn build_piece_attack_set() -> (sets: PreComputedAttackSets)
    ensures
        sets.wf(),
{
    let mut orthogonals = [[[Square::Invalid; 7]; 4]; 64];
    let mut diagonals = [[[Square::Invalid; 7]; 4]; 64];
    let mut rook = [0u64; 64];
    let mut bishop = [0u64; 64];
    let mut queen = [0u64; 64];
    let mut rook_blockers = [0u64; 64];
    let mut bishop_blockers = [0u64; 64];
    let mut queen_blockers = [0u64; 64];
    for s in 0..64
        invariant
            forall|i: int, d: int, k: int|
                0 <= i < s && 0 <= d < 4 && 0 <= k < 7 ==> ray_entry(
                    #[trigger] orthogonals[i][d][k],
                    i,
                    d,
                    false,
                    k + 1,
                ),
            forall|i: int, d: int, k: int|
                0 <= i < s && 0 <= d < 4 && 0 <= k < 7 ==> ray_entry(
                    #[trigger] diagonals[i][d][k],
                    i,
                    d,
                    true,
                    k + 1,
                ),
            forall|i: int, t: int| 0 <= i < s ==> (#[trigger] has_bit(rook[i], t) <==> rook_line(i, t)),
            forall|i: int, t: int| 0 <= i < s ==> (#[trigger] has_bit(bishop[i], t) <==> bishop_line(i, t)),
            forall|i: int, t: int|
                0 <= i < s ==> (#[trigger] has_bit(queen[i], t) <==> (rook_line(i, t) || bishop_line(i, t))),
            forall|i: int, t: int|
                0 <= i < s ==> (#[trigger] has_bit(rook_blockers[i], t) <==> (has_bit(rook[i], t)
                    && !edge_beyond(i, t))),
            forall|i: int, t: int|
                0 <= i < s ==> (#[trigger] has_bit(bishop_blockers[i], t) <==> (has_bit(bishop[i], t)
                    && !edge_beyond(i, t))),
            forall|i: int, t: int|
                0 <= i < s ==> (#[trigger] has_bit(queen_blockers[i], t) <==> (has_bit(queen[i], t)
                    && !edge_beyond(i, t))),
    {
        let (o_rays, o_mask) = square_rays(s as u64, false);
        let (d_rays, d_mask) = square_rays(s as u64, true);
        let non_blockers = non_blocker_map(Square::from_index(s as u64));
        orthogonals[s] = o_rays;
        diagonals[s] = d_rays;
        rook[s] = o_mask;
        bishop[s] = d_mask;
        queen[s] = o_mask | d_mask;
        rook_blockers[s] = o_mask & !non_blockers;
        bishop_blockers[s] = d_mask & !non_blockers;
        queen_blockers[s] = (o_mask | d_mask) & !non_blockers;
    }
    let sets = PreComputedAttackSets {
        attacks: [rook, bishop, queen],
        blockers: [rook_blockers, bishop_blockers, queen_blockers],
        diagonals,
        orthogonals,
    };
    proof {
        assert forall|p: int, i: int, t: int|
            0 <= p < 3 && 0 <= i < 64 implies (#[trigger] has_bit(sets.blockers[p][i], t) <==> (
            has_bit(sets.attacks[p][i], t) && !edge_beyond(i, t))) by {
            if p == 0 {
            } else if p == 1 {
            } else {
            }
        }
    }
    sets
}

} // verus!
