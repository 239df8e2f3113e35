use vstd::prelude::*;

verus! {

/// A square as (row, column). Row 0 is the eighth rank, column 0 is file a.
/// Values outside 0..8 may appear while generating moves but never name a
/// square of the board.
pub type Position = (i8, i8);

#[derive(Clone, Copy, Debug, PartialEq, Eq, Structural)]
pub enum Color {
    Black,
    White,
}

#[derive(Clone, Copy, Debug, PartialEq, Eq, Structural)]
pub enum PieceType {
    Pawn,
    King,
    Queen,
    Knight,
    Rook,
    Bishop,
}

#[derive(Clone, Copy, Debug, PartialEq, Eq, Structural)]
pub enum GameResult {
    WhiteWin,
    BlackWin,
    Stalemate,
}

#[derive(Clone, Copy, Debug, PartialEq, Eq, Structural)]
pub struct Piece {
    pub piece_type: PieceType,
    pub color: Color,
}

/// Whether (r, c) names a square of the 8x8 board.
pub open spec fn in_bounds(r: int, c: int) -> bool {
    0 <= r < 8 && 0 <= c < 8
}

pub open spec fn opposite(c: Color) -> Color {
    match c {
        Color::White => Color::Black,
        Color::Black => Color::White,
    }
}

pub fn is_in_bounds(position: Position) -> (r: bool)
    ensures
        r == in_bounds(position.0 as int, position.1 as int),
{
    position.0 >= 0 && position.0 < 8 && position.1 >= 0 && position.1 < 8
}

impl Color {
    /// The other side.
    pub fn other(self) -> (r: Color)
        ensures
            r == opposite(self),
    {
        match self {
            Color::White => Color::Black,
            Color::Black => Color::White,
        }
    }
}

/// Whether `c` has Unicode's Lowercase property.
pub uninterp spec fn lowercase_char(c: char) -> bool;

/// Relies on char::is_lowercase, which tells whether `c` has Unicode's
/// Lowercase property; 'a' to 'z' have it and 'A' to 'Z' do not.
#[verifier::external_body]
fn is_lowercase(c: char) -> (r: bool)
    ensures
        r == lowercase_char(c),
        'a' <= c <= 'z' ==> r,
        'A' <= c <= 'Z' ==> !r,
{
    c.is_lowercase()
}

/// The kind that a FEN letter names in either case; any other character
/// reads as a pawn.
pub open spec fn letter_kind(c: char) -> PieceType {
    if c == 'K' || c == 'k' {
        PieceType::King
    } else if c == 'Q' || c == 'q' {
        PieceType::Queen
    } else if c == 'R' || c == 'r' {
        PieceType::Rook
    } else if c == 'B' || c == 'b' {
        PieceType::Bishop
    } else if c == 'N' || c == 'n' {
        PieceType::Knight
    } else {
        PieceType::Pawn
    }
}

/// The side that a FEN character stands for: lower case is Black. Among
/// ASCII characters 'a' to 'z' are lower case and 'A' to 'Z' are not.
pub open spec fn fen_color(c: char) -> Color {
    if 'a' <= c <= 'z' {
        Color::Black
    } else if 'A' <= c <= 'Z' {
        Color::White
    } else if lowercase_char(c) {
        Color::Black
    } else {
        Color::White
    }
}

/// The piece that a FEN character stands for.
pub open spec fn fen_piece(c: char) -> Piece {
    Piece { piece_type: letter_kind(c), color: fen_color(c) }
}

/// The FEN letter of a piece: upper case for White, lower case for Black.
pub open spec fn fen_letter(p: Piece) -> char {
    let white = p.color == Color::White;
    match p.piece_type {
        PieceType::King => if white { 'K' } else { 'k' },
        PieceType::Queen => if white { 'Q' } else { 'q' },
        PieceType::Rook => if white { 'R' } else { 'r' },
        PieceType::Bishop => if white { 'B' } else { 'b' },
        PieceType::Knight => if white { 'N' } else { 'n' },
        PieceType::Pawn => if white { 'P' } else { 'p' },
    }
}

/// The kind that a FEN letter names, read in either case.
pub fn piece_type_from_letter(letter: char) -> (r: PieceType)
    ensures
        r == letter_kind(letter),
{
    match letter {
        'K' | 'k' => PieceType::King,
        'Q' | 'q' => PieceType::Queen,
        'R' | 'r' => PieceType::Rook,
        'B' | 'b' => PieceType::Bishop,
        'N' | 'n' => PieceType::Knight,
        _ => PieceType::Pawn,
    }
}

impl Piece {
    pub fn new(piece_type: PieceType, color: Color) -> (r: Piece)
        ensures
            r == (Piece { piece_type, color }),
    {
        Piece { piece_type, color }
    }

    /// Reads a FEN piece character.
    pub fn from_fen_char(fen_char: char) -> (r: Piece)
        ensures
            r == fen_piece(fen_char),
    {
        let color = if is_lowercase(fen_char) {
            Color::Black
        } else {
            Color::White
        };
        Piece::new(piece_type_from_letter(fen_char), color)
    }

    /// Writes the piece as a FEN character.
    pub fn to_fen_char(&self) -> (r: char)
        ensures
            r == fen_letter(*self),
    {
        let white = self.color == Color::White;
        match self.piece_type {
            PieceType::King => if white { 'K' } else { 'k' },
            PieceType::Queen => if white { 'Q' } else { 'q' },
            PieceType::Rook => if white { 'R' } else { 'r' },
            PieceType::Bishop => if white { 'B' } else { 'b' },
            PieceType::Knight => if white { 'N' } else { 'n' },
            PieceType::Pawn => if white { 'P' } else { 'p' },
        }
    }
}

} // verus!
