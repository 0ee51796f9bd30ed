//! The coordinate model and the plain, per-square form of a game.
use vstd::prelude::*;
use vstd::string::*;

verus! {

/// A square of the board, numbered from `A1` (0) along each rank to `H8` (63), or `Invalid`,
/// which stands for no square.
#[derive(PartialEq, Eq, Hash, Debug, Copy, Clone, Structural)]
pub enum Square {
    A1, B1, C1, D1, E1, F1, G1, H1,
    A2, B2, C2, D2, E2, F2, G2, H2,
    A3, B3, C3, D3, E3, F3, G3, H3,
    A4, B4, C4, D4, E4, F4, G4, H4,
    A5, B5, C5, D5, E5, F5, G5, H5,
    A6, B6, C6, D6, E6, F6, G6, H6,
    A7, B7, C7, D7, E7, F7, G7, H7,
    A8, B8, C8, D8, E8, F8, G8, H8,
    Invalid,
}

/// A column of the board, `A` to `H`.
#[derive(PartialEq, Eq, Hash, Debug, Copy, Clone, Structural)]
pub enum File {
    A,
    B,
    C,
    D,
    E,
    F,
    G,
    H,
}

/// A row of the board, from White's side (`First`) to Black's (`Eight`).
#[derive(PartialEq, Eq, Hash, Debug, Copy, Clone, Structural)]
pub enum Rank {
    First,
    Second,
    Third,
    Fourth,
    Fifth,
    Sixth,
    Seventh,
    Eight,
}

#[derive(PartialEq, Eq, Debug, Copy, Clone, Structural)]
pub enum PieceType {
    Pawn,
    Rook,
    Knight,
    Bishop,
    Queen,
    King,
}

#[derive(PartialEq, Eq, Debug, Copy, Clone, Structural)]
pub enum Player {
    White,
    Black,
}

#[derive(PartialEq, Eq, Debug, Copy, Clone, Structural)]
pub struct Piece {
    pub piece_type: PieceType,
    pub owner: Player,
}

/// What stands on a square of the plain board.
#[derive(PartialEq, Eq, Debug, Copy, Clone, Structural)]
pub enum Occupant {
    Empty,
    Piece(Piece),
}

/// The plain form of a game: one occupant per square, in square order from `A1`, and the
/// state that goes with the pieces.
#[derive(Debug, Copy, Clone)]
pub struct SimplePosition {
    pub board: [Occupant; 64],
    pub to_play: Player,
    pub en_passant_square: Square,
    pub white_king_side_castle: bool,
    pub white_queen_side_castle: bool,
    pub black_king_side_castle: bool,
    pub black_queen_side_castle: bool,
    pub promotion_square: Square,
}

/// A move resolved against a position: where it starts and ends, and the piece that moves.
#[derive(Debug, Copy, Clone)]
pub struct Move {
    pub start: Square,
    pub end: Square,
    pub piece: Piece,
}

/// The column of square number `i`, from 0 (`A`) to 7 (`H`).
pub open spec fn file_of(i: int) -> int {
    i % 8
}

/// The row of square number `i`, from 0 (first rank) to 7 (eighth rank).
pub open spec fn rank_of(i: int) -> int {
    i / 8
}

/// The number of the square on column `f` and row `r`.
pub open spec fn square_at(f: int, r: int) -> int {
    8 * r + f
}

impl Square {
    /// The square numbered `i`, or `Invalid` for a number past the board.
    pub fn from_index(i: u64) -> (r: Square)
        ensures
            i < 64 ==> r as int == i,
            i >= 64 <==> r == Square::Invalid,
    {
        match i {
            0 => Square::A1,
            1 => Square::B1,
            2 => Square::C1,
            3 => Square::D1,
            4 => Square::E1,
            5 => Square::F1,
            6 => Square::G1,
            7 => Square::H1,
            8 => Square::A2,
            9 => Square::B2,
            10 => Square::C2,
            11 => Square::D2,
            12 => Square::E2,
            13 => Square::F2,
            14 => Square::G2,
            15 => Square::H2,
            16 => Square::A3,
            17 => Square::B3,
            18 => Square::C3,
            19 => Square::D3,
            20 => Square::E3,
            21 => Square::F3,
            22 => Square::G3,
            23 => Square::H3,
            24 => Square::A4,
            25 => Square::B4,
            26 => Square::C4,
            27 => Square::D4,
            28 => Square::E4,
            29 => Square::F4,
            30 => Square::G4,
            31 => Square::H4,
            32 => Square::A5,
            33 => Square::B5,
            34 => Square::C5,
            35 => Square::D5,
            36 => Square::E5,
            37 => Square::F5,
            38 => Square::G5,
            39 => Square::H5,
            40 => Square::A6,
            41 => Square::B6,
            42 => Square::C6,
            43 => Square::D6,
            44 => Square::E6,
            45 => Square::F6,
            46 => Square::G6,
            47 => Square::H6,
            48 => Square::A7,
            49 => Square::B7,
            50 => Square::C7,
            51 => Square::D7,
            52 => Square::E7,
            53 => Square::F7,
            54 => Square::G7,
            55 => Square::H7,
            56 => Square::A8,
            57 => Square::B8,
            58 => Square::C8,
            59 => Square::D8,
            60 => Square::E8,
            61 => Square::F8,
            62 => Square::G8,
            63 => Square::H8,
            _ => Square::Invalid,
        }
    }

    /// The number of the square; `Invalid` is 64.
    pub fn index(&self) -> (r: u64)
        ensures
            r == *self as int,
    {
        *self as u64
    }
}

impl Player {
    /// The other player.
    pub fn opponent(&self) -> (r: Player)
        ensures
            r == self.opponent_spec(),
    {
        match self {
            Player::White => Player::Black,
            Player::Black => Player::White,
        }
    }

    pub open spec fn opponent_spec(&self) -> Player {
        match self {
            Player::White => Player::Black,
            Player::Black => Player::White,
        }
    }
}

impl Occupant {
    /// The piece on the square, if there is one.
    pub fn piece(self) -> (r: Option<Piece>)
        ensures
            r == (match self {
                Occupant::Piece(p) => Some(p),
                Occupant::Empty => None,
            }),
    {
        match self {
            Occupant::Piece(piece) => Some(piece),
            Occupant::Empty => None,
        }
    }
}

/// The type of the piece that starts on file `f` of a back rank.
pub open spec fn back_rank_type(f: int) -> PieceType {
    if f == 0 || f == 7 {
        PieceType::Rook
    } else if f == 1 || f == 6 {
        PieceType::Knight
    } else if f == 2 || f == 5 {
        PieceType::Bishop
    } else if f == 3 {
        PieceType::Queen
    } else {
        PieceType::King
    }
}

/// What stands on square `i` at the start of a game.
pub open spec fn initial_occupant(i: int) -> Occupant {
    let r = rank_of(i);
    if r == 0 {
        Occupant::Piece(Piece { piece_type: back_rank_type(file_of(i)), owner: Player::White })
    } else if r == 1 {
        Occupant::Piece(Piece { piece_type: PieceType::Pawn, owner: Player::White })
    } else if r == 6 {
        Occupant::Piece(Piece { piece_type: PieceType::Pawn, owner: Player::Black })
    } else if r == 7 {
        Occupant::Piece(Piece { piece_type: back_rank_type(file_of(i)), owner: Player::Black })
    } else {
        Occupant::Empty
    }
}

fn back_rank_piece(f: usize) -> (r: PieceType)
    requires
        f < 8,
    ensures
        r == back_rank_type(f as int),
{
    if f == 0 || f == 7 {
        PieceType::Rook
    } else if f == 1 || f == 6 {
        PieceType::Knight
    } else if f == 2 || f == 5 {
        PieceType::Bishop
    } else if f == 3 {
        PieceType::Queen
    } else {
        PieceType::King
    }
}

impl SimplePosition {
    /// The position at the start of a game: White to move, every castling right kept, no
    /// en-passant target and no pending promotion.
    pub fn initial() -> (r: SimplePosition)
        ensures
            forall|i: int| 0 <= i < 64 ==> #[trigger] r.board@[i] == initial_occupant(i),
            r.to_play == Player::White,
            r.en_passant_square == Square::Invalid,
            r.white_king_side_castle,
            r.white_queen_side_castle,
            r.black_king_side_castle,
            r.black_queen_side_castle,
            r.promotion_square == Square::Invalid,
    {
        let mut board = [Occupant::Empty; 64];
        let mut i: usize = 0;
        while i < 64
            invariant
                i <= 64,
                forall|j: int| 0 <= j < i ==> #[trigger] board@[j] == initial_occupant(j),
            decreases 64 - i,
        {
            let rank = i / 8;
            let file = i % 8;
            board[i] = if rank == 0 {
                Occupant::Piece(Piece { piece_type: back_rank_piece(file), owner: Player::White })
            } else if rank == 1 {
                Occupant::Piece(Piece { piece_type: PieceType::Pawn, owner: Player::White })
            } else if rank == 6 {
                Occupant::Piece(Piece { piece_type: PieceType::Pawn, owner: Player::Black })
            } else if rank == 7 {
                Occupant::Piece(Piece { piece_type: back_rank_piece(file), owner: Player::Black })
            } else {
                Occupant::Empty
            };
            i = i + 1;
        }
        SimplePosition {
            board,
            to_play: Player::White,
            en_passant_square: Square::Invalid,
            white_king_side_castle: true,
            white_queen_side_castle: true,
            black_king_side_castle: true,
            black_queen_side_castle: true,
            promotion_square: Square::Invalid,
        }
    }
}

/// The letter of file `f`, `A` to `H`.
pub open spec fn file_letter(f: int) -> char {
    if f == 0 {
        'A'
    } else if f == 1 {
        'B'
    } else if f == 2 {
        'C'
    } else if f == 3 {
        'D'
    } else if f == 4 {
        'E'
    } else if f == 5 {
        'F'
    } else if f == 6 {
        'G'
    } else {
        'H'
    }
}

/// The digit of rank `r`, `1` to `8`.
pub open spec fn rank_digit(r: int) -> char {
    if r == 0 {
        '1'
    } else if r == 1 {
        '2'
    } else if r == 2 {
        '3'
    } else if r == 3 {
        '4'
    } else if r == 4 {
        '5'
    } else if r == 5 {
        '6'
    } else if r == 6 {
        '7'
    } else {
        '8'
    }
}

/// The name of square number `i`: its file letter and rank digit, as in `E2`.
pub open spec fn square_name(i: int) -> Seq<char> {
    seq![file_letter(file_of(i)), rank_digit(rank_of(i))]
}

fn file_from_letter(c: char) -> (r: Option<u64>)
    ensures
        r matches Some(f) ==> f < 8 && file_letter(f as int) == c,
        r is None ==> forall|f: int| 0 <= f < 8 ==> file_letter(f) != c,
{
    match c {
        'A' => Some(0),
        'B' => Some(1),
        'C' => Some(2),
        'D' => Some(3),
        'E' => Some(4),
        'F' => Some(5),
        'G' => Some(6),
        'H' => Some(7),
        _ => None,
    }
}

fn rank_from_digit(c: char) -> (r: Option<u64>)
    ensures
        r matches Some(k) ==> k < 8 && rank_digit(k as int) == c,
        r is None ==> forall|k: int| 0 <= k < 8 ==> rank_digit(k) != c,
{
    match c {
        '1' => Some(0),
        '2' => Some(1),
        '3' => Some(2),
        '4' => Some(3),
        '5' => Some(4),
        '6' => Some(5),
        '7' => Some(6),
        '8' => Some(7),
        _ => None,
    }
}

impl Square {
    /// The square named by `s`, a file letter `A`-`H` followed by a rank digit `1`-`8`; `None`
    /// for any other text.
    pub fn from_name(s: &str) -> (r: Option<Square>)
        ensures
            r matches Some(sq) ==> sq != Square::Invalid && s@ == square_name(sq as int),
            r is None ==> forall|i: int| 0 <= i < 64 ==> s@ != square_name(i),
    {
        if s.unicode_len() != 2 {
            return None;
        }
        let f = file_from_letter(s.get_char(0));
        let k = rank_from_digit(s.get_char(1));
        match (f, k) {
            (Some(f), Some(k)) => {
                let sq = Square::from_index(8 * k + f);
                proof {
                    assert(file_of(sq as int) == f && rank_of(sq as int) == k);
                    assert(s@ =~= square_name(sq as int));
                }
                Some(sq)
            },
            _ => {
                proof {
                    assert forall|i: int| 0 <= i < 64 implies s@ != square_name(i) by {
                        if s@ == square_name(i) {
                            assert(s@[0] == file_letter(file_of(i)));
                            assert(s@[1] == rank_digit(rank_of(i)));
                        }
                    }
                }
                None
            },
        }
    }
}

impl std::str::FromStr for Square {
    type Err = &'static str;

    fn from_str(s: &str) -> Result<Square, &'static str> {
        match Square::from_name(s) {
            Some(square) => Ok(square),
            None => Err("Invalid square name"),
        }
    }
}

/// The text of a move: the start square's name, a comma, the end square's name, as in
/// `E2,E4`.
pub open spec fn move_text(start: int, end: int) -> Seq<char> {
    square_name(start) + seq![','] + square_name(end)
}

/// The pair of squares written as `E2,E4`; `None` for any other text.
pub fn parse_move(s: &str) -> (r: Option<(Square, Square)>)
    ensures
        r matches Some((a, b)) ==> a != Square::Invalid && b != Square::Invalid && s@ == move_text(
            a as int,
            b as int,
        ),
        r is None ==> forall|a: int, b: int| 0 <= a < 64 && 0 <= b < 64 ==> s@ != move_text(a, b),
{
    if s.unicode_len() != 5 || s.get_char(2) != ',' {
        proof {
            assert forall|a: int, b: int| 0 <= a < 64 && 0 <= b < 64 implies s@ != move_text(a, b) by {
                if s@ == move_text(a, b) {
                    assert(move_text(a, b)[2] == ',');
                }
            }
        }
        return None;
    }
    let first = s.substring_char(0, 2);
    let second = s.substring_char(3, 5);
    proof {
        assert(s@ =~= first@ + seq![','] + second@);
    }
    match (Square::from_name(first), Square::from_name(second)) {
        (Some(a), Some(b)) => Some((a, b)),
        _ => {
            proof {
                assert forall|a: int, b: int| 0 <= a < 64 && 0 <= b < 64 implies s@ != move_text(a, b) by {
                    if s@ == move_text(a, b) {
                        assert(first@ =~= s@.subrange(0, 2));
                        assert(first@ =~= square_name(a));
                        assert(second@ =~= square_name(b));
                    }
                }
            }
            None
        },
    }
}

/// The word that names a promotion choice: `rook`, `queen`, `knight` or `bishop`.
pub open spec fn promotion_word(t: PieceType) -> Seq<char> {
    match t {
        PieceType::Rook => seq!['r', 'o', 'o', 'k'],
        PieceType::Queen => seq!['q', 'u', 'e', 'e', 'n'],
        PieceType::Knight => seq!['k', 'n', 'i', 'g', 'h', 't'],
        PieceType::Bishop => seq!['b', 'i', 's', 'h', 'o', 'p'],
        _ => Seq::empty(),
    }
}

/// A piece type that a pawn may become.
pub open spec fn is_promotion_choice(t: PieceType) -> bool {
    t == PieceType::Rook || t == PieceType::Queen || t == PieceType::Knight || t
        == PieceType::Bishop
}

/// Whether `s` spells exactly `word`.
fn spells(s: &str, word: &str) -> (r: bool)
    ensures
        r == (s@ == word@),
{
    let n = s.unicode_len();
    if n != word.unicode_len() {
        return false;
    }
    let mut i: usize = 0;
    while i < n
        invariant
            n == s@.len(),
            n == word@.len(),
            i <= n,
            forall|j: int| 0 <= j < i ==> s@[j] == word@[j],
        decreases n - i,
    {
        if s.get_char(i) != word.get_char(i) {
            return false;
        }
        i = i + 1;
    }
    proof {
        assert(s@ =~= word@);
    }
    true
}

impl PieceType {
    /// The piece type that a promotion choice names; `None` for any other text.
    pub fn from_promotion_choice(s: &str) -> (r: Option<PieceType>)
        ensures
            r matches Some(t) ==> is_promotion_choice(t) && s@ == promotion_word(t),
            r is None ==> forall|t: PieceType| is_promotion_choice(t) ==> s@ != promotion_word(t),
    {
        proof {
            reveal_strlit("rook");
            reveal_strlit("queen");
            reveal_strlit("knight");
            reveal_strlit("bishop");
            assert("rook"@ =~= promotion_word(PieceType::Rook));
            assert("queen"@ =~= promotion_word(PieceType::Queen));
            assert("knight"@ =~= promotion_word(PieceType::Knight));
            assert("bishop"@ =~= promotion_word(PieceType::Bishop));
        }
        if spells(s, "rook") {
            Some(PieceType::Rook)
        } else if spells(s, "queen") {
            Some(PieceType::Queen)
        } else if spells(s, "knight") {
            Some(PieceType::Knight)
        } else if spells(s, "bishop") {
            Some(PieceType::Bishop)
        } else {
            None
        }
    }
}

} // verus!
