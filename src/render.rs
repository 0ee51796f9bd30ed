//! Text forms of pieces, boards and positions, for display.
use vstd::prelude::*;
use vstd::string::*;
use crate::bits::has_bit;
use crate::definitions::{Occupant, Piece, PieceType, Player, SimplePosition};
use crate::position::{BitBoardPosition, piece_of_layer};

verus! {

/// The glyph of a piece: filled for White, outlined for Black.
pub open spec fn piece_glyph(p: Piece) -> Seq<char> {
    match (p.owner, p.piece_type) {
        (Player::White, PieceType::Pawn) => "\u{265F}"@,
        (Player::White, PieceType::Rook) => "\u{265C}"@,
        (Player::White, PieceType::Knight) => "\u{265E}"@,
        (Player::White, PieceType::Bishop) => "\u{265D}"@,
        (Player::White, PieceType::Queen) => "\u{265B}"@,
        (Player::White, PieceType::King) => "\u{265A}"@,
        (Player::Black, PieceType::Pawn) => "\u{2659}"@,
        (Player::Black, PieceType::Rook) => "\u{2656}"@,
        (Player::Black, PieceType::Knight) => "\u{2658}"@,
        (Player::Black, PieceType::Bishop) => "\u{2657}"@,
        (Player::Black, PieceType::Queen) => "\u{2655}"@,
        (Player::Black, PieceType::King) => "\u{2654}"@,
    }
}

/// The text of a square of the plain board: the piece's glyph, or `-` when empty.
pub open spec fn occupant_text(o: Occupant) -> Seq<char> {
    match o {
        Occupant::Empty => "-"@,
        Occupant::Piece(p) => piece_glyph(p),
    }
}

pub open spec fn player_name(p: Player) -> Seq<char> {
    match p {
        Player::White => "White"@,
        Player::Black => "Black"@,
    }
}

pub open spec fn piece_type_name(t: PieceType) -> Seq<char> {
    match t {
        PieceType::Pawn => "Pawn"@,
        PieceType::Rook => "Rook"@,
        PieceType::Knight => "Knight"@,
        PieceType::Bishop => "Bishop"@,
        PieceType::Queen => "Queen"@,
        PieceType::King => "King"@,
    }
}

/// A line break after every eighth square.
pub open spec fn row_end(n: int) -> Seq<char> {
    if n % 8 == 0 {
        "\n"@
    } else {
        Seq::empty()
    }
}

/// The text of the first `n` squares of a plain board, eight to a line.
pub open spec fn board_text(b: Seq<Occupant>, n: int) -> Seq<char>
    decreases n,
{
    if n <= 0 {
        Seq::empty()
    } else {
        board_text(b, n - 1) + occupant_text(b[n - 1]) + row_end(n)
    }
}

/// The text of the first `n` bits of a word: `1` for a set bit, `.` otherwise, eight to a
/// line.
pub open spec fn bits_text(x: u64, n: int) -> Seq<char>
    decreases n,
{
    if n <= 0 {
        Seq::empty()
    } else {
        bits_text(x, n - 1) + (if has_bit(x, n - 1) {
            "1"@
        } else {
            "."@
        }) + row_end(n)
    }
}

/// The text of a plain position: its board, then whose turn it is.
pub open spec fn position_text(p: SimplePosition) -> Seq<char> {
    board_text(p.board@, 64) + "\n\n"@ + player_name(p.to_play) + " to play"@ + "\n\n"@
}

/// The heading, the bits and the spacing of the first `n` layers.
pub open spec fn layers_text(b: Seq<u64>, n: int) -> Seq<char>
    decreases n,
{
    if n <= 0 {
        Seq::empty()
    } else {
        let k = n - 1;
        let p = crate::rules::layer_piece(k);
        layers_text(b, k) + player_name(p.owner) + " "@ + piece_type_name(p.piece_type) + "\n\n"@
            + bits_text(b[k], 64) + "\n\n"@
    }
}

fn glyph(p: Piece) -> (r: &'static str)
    ensures
        r@ == piece_glyph(p),
{
    match (p.owner, p.piece_type) {
        (Player::White, PieceType::Pawn) => "\u{265F}",
        (Player::White, PieceType::Rook) => "\u{265C}",
        (Player::White, PieceType::Knight) => "\u{265E}",
        (Player::White, PieceType::Bishop) => "\u{265D}",
        (Player::White, PieceType::Queen) => "\u{265B}",
        (Player::White, PieceType::King) => "\u{265A}",
        (Player::Black, PieceType::Pawn) => "\u{2659}",
        (Player::Black, PieceType::Rook) => "\u{2656}",
        (Player::Black, PieceType::Knight) => "\u{2658}",
        (Player::Black, PieceType::Bishop) => "\u{2657}",
        (Player::Black, PieceType::Queen) => "\u{2655}",
        (Player::Black, PieceType::King) => "\u{2654}",
    }
}

fn name_of_player(p: Player) -> (r: &'static str)
    ensures
        r@ == player_name(p),
{
    match p {
        Player::White => "White",
        Player::Black => "Black",
    }
}

fn name_of_piece_type(t: PieceType) -> (r: &'static str)
    ensures
        r@ == piece_type_name(t),
{
    match t {
        PieceType::Pawn => "Pawn",
        PieceType::Rook => "Rook",
        PieceType::Knight => "Knight",
        PieceType::Bishop => "Bishop",
        PieceType::Queen => "Queen",
        PieceType::King => "King",
    }
}

impl Piece {
    /// The piece's glyph.
    pub fn to_string(&self) -> (r: String)
        ensures
            r@ == piece_glyph(*self),
    {
        String::from_str(glyph(*self))
    }
}

impl SimplePosition {
    /// The board, eight squares to a line from `A1`, then whose turn it is.
    pub fn to_string(&self) -> (r: String)
        ensures
            r@ == position_text(*self),
    {
        let mut result = String::new();
        let mut i: usize = 0;
        while i < 64
            invariant
                i <= 64,
                result@ == board_text(self.board@, i as int),
            decreases 64 - i,
        {
            match self.board[i] {
                Occupant::Empty => result.append("-"),
                Occupant::Piece(piece) => result.append(glyph(piece)),
            }
            i = i + 1;
            if i % 8 == 0 {
                result.append("\n");
            } else {
                proof {
                    assert(result@ =~= result@ + row_end(i as int));
                }
            }
        }
        result.append("\n\n");
        result.append(name_of_player(self.to_play));
        result.append(" to play");
        result.append("\n\n");
        result
    }
}

/// One occupancy word, shown as a board.
pub struct BitBoard(pub u64);

impl BitBoard {
    /// The word's bits, `1` or `.`, eight to a line from `A1`.
    pub fn to_string(&self) -> (r: String)
        ensures
            r@ == bits_text(self.0, 64),
    {
        let mut result_string = String::new();
        let mut square_index: u64 = 0;
        while square_index < 64
            invariant
                square_index <= 64,
                result_string@ == bits_text(self.0, square_index as int),
            decreases 64 - square_index,
        {
            let intersection_check = 1u64 << square_index;
            proof {
                let x = self.0;
                let j = square_index;
                assert(j < 64 ==> ((x & (1u64 << j) == 1u64 << j) <==> ((x >> j) & 1u64 == 1u64)))
                    by (bit_vector);
            }
            if (self.0 & intersection_check) == intersection_check {
                result_string.append("1");
            } else {
                result_string.append(".");
            }
            if (square_index + 1) % 8 == 0 {
                result_string.append("\n");
            } else {
                proof {
                    assert(result_string@ =~= result_string@ + row_end(square_index + 1));
                }
            }
            square_index = square_index + 1;
        }
        result_string
    }
}

impl BitBoardPosition {
    /// Every layer in turn: its player and piece type, then its bits as a board.
    pub fn to_string(&self) -> (r: String)
        ensures
            r@ == layers_text(self@.board, 12),
    {
        let mut result_string = String::new();
        let mut k: usize = 0;
        while k < 12
            invariant
                k <= 12,
                result_string@ == layers_text(self@.board, k as int),
            decreases 12 - k,
        {
            let piece = piece_of_layer(k);
            let layer = self.layer(piece.piece_type, piece.owner);
            result_string.append(name_of_player(piece.owner));
            result_string.append(" ");
            result_string.append(name_of_piece_type(piece.piece_type));
            result_string.append("\n\n");
            let bits = BitBoard(layer).to_string();
            result_string.append(bits.as_str());
            result_string.append("\n\n");
            k = k + 1;
        }
        result_string
    }
}

} // verus!
