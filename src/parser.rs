use vstd::prelude::*;
use crate::board::sq;
use crate::castles::CastlesState;
use crate::game_state::{opt_sq, GameState};
use crate::pieces::{fen_piece, Color, Piece, Position};
use crate::text::{
    chars_of, digit_value, parse_u16, split, split_fields, to_digit, trim, trimmed,
    u16_value, views,
};

verus! {

/// Why a text could not be read.
#[derive(Clone, Copy, Debug, PartialEq, Eq, Structural)]
pub enum ParseError {
    /// A move is not two squares separated by ':'.
    InvalidMove,
    /// A square is not a file 'a' to 'i' followed by a rank '0' to '8'.
    InvalidPosition,
}

impl ParseError {
    /// A sentence describing the error.
    pub fn message(&self) -> (r: &'static str)
        ensures
            *self == ParseError::InvalidMove ==> r@ == "Invalid move!"@,
            *self == ParseError::InvalidPosition ==> r@ == "Invalid Position!"@,
    {
        match self {
            ParseError::InvalidMove => "Invalid move!",
            ParseError::InvalidPosition => "Invalid Position!",
        }
    }
}

/// The square that a name such as "e4" gives: its first two characters are
/// the file and the rank; any further characters are ignored. Files 'a' to
/// 'i' and ranks '0' to '8' are read, so a name may lie one file or one rank
/// beyond the board; such a square holds no piece.
pub open spec fn square_name(s: Seq<char>) -> Option<(int, int)> {
    if s.len() >= 2 && 'a' <= s[0] <= 'i' && '0' <= s[1] <= '8' {
        Some(('8' as int - s[1] as int, s[0] as int - 'a' as int))
    } else {
        None
    }
}

/// What reading `s` as a move "from:to" gives, white space around it aside.
pub open spec fn move_text(s: Seq<char>) -> Result<((int, int), (int, int)), ParseError> {
    let f = split_fields(trimmed(s), ':');
    if f.len() != 2 {
        Err(ParseError::InvalidMove)
    } else {
        match (square_name(f[0]), square_name(f[1])) {
            (Some(a), Some(b)) => Ok((a, b)),
            _ => Err(ParseError::InvalidPosition),
        }
    }
}

/// Reads a square name given as characters.
pub fn square_from_chars(chars: &Vec<char>) -> (r: Result<Position, ParseError>)
    ensures
        match r {
            Ok(p) => square_name(chars@) == Some(sq(p)),
            Err(e) => square_name(chars@) is None && e == ParseError::InvalidPosition,
        },
{
    if chars.len() < 2 {
        return Err(ParseError::InvalidPosition);
    }
    let file = chars[0];
    let rank = chars[1];
    if file < 'a' || file > 'i' || rank < '0' || rank > '8' {
        return Err(ParseError::InvalidPosition);
    }
    Ok((('8' as u32 - rank as u32) as i8, (file as u32 - 'a' as u32) as i8))
}

/// Reads a square name such as "e4" into (row, column).
pub fn std_pos_to_couple(std_pos: String) -> (r: Result<Position, ParseError>)
    ensures
        match r {
            Ok(p) => square_name(std_pos@) == Some(sq(p)),
            Err(e) => square_name(std_pos@) is None && e == ParseError::InvalidPosition,
        },
{
    let chars = chars_of(std_pos.as_str());
    square_from_chars(&chars)
}

/// Reads a move such as "a2:a4".
pub fn parse_move(input: String) -> (r: Result<(Position, Position), ParseError>)
    ensures
        match r {
            Ok((a, b)) => move_text(input@) == Ok::<((int, int), (int, int)), ParseError>((sq(a), sq(b))),
            Err(e) => move_text(input@) == Err::<((int, int), (int, int)), ParseError>(e),
        },
{
    let chars = chars_of(input.as_str());
    let trimmed_chars = trim(&chars);
    let fields = split(&trimmed_chars, ':');
    assert(views(fields@).len() == fields@.len());
    if fields.len() != 2 {
        return Err(ParseError::InvalidMove);
    }
    assert(views(fields@)[0] == fields@[0]@);
    assert(views(fields@)[1] == fields@[1]@);
    let from = square_from_chars(&fields[0]);
    let to = square_from_chars(&fields[1]);
    match (from, to) {
        (Ok(f), Ok(t)) => Ok((f, t)),
        _ => Err(ParseError::InvalidPosition),
    }
}

/// The board after the pieces of the FEN row text `row` are placed on row
/// `r` from column `col` on: a digit skips that many squares, any other
/// character is a piece. What falls beyond the last column is dropped.
pub open spec fn place_row(m: Map<(int, int), Piece>, r: int, row: Seq<char>, col: int) -> Map<
    (int, int),
    Piece,
>
    decreases row.len(),
{
    if row.len() == 0 || col >= 8 {
        m
    } else {
        match digit_value(row[0]) {
            Some(d) => place_row(m, r, row.drop_first(), col + d),
            None => place_row(m.insert((r, col), fen_piece(row[0])), r, row.drop_first(), col + 1),
        }
    }
}

/// The board after the rows from `r` on are placed, row 0 first; rows past
/// the eighth are dropped.
pub open spec fn place_rows(m: Map<(int, int), Piece>, rows: Seq<Seq<char>>, r: int) -> Map<(int, int), Piece>
    decreases rows.len() - r,
{
    if r < 0 || r >= rows.len() || r >= 8 {
        m
    } else {
        place_rows(place_row(m, r, rows[r], 0), rows, r + 1)
    }
}

fn parse_row(row: &Vec<char>, row_index: i8, state: &mut GameState)
    requires
        0 <= row_index < 8,
    ensures
        final(state).board@ == place_row(old(state).board@, row_index as int, row@, 0),
        final(state).whose_move == old(state).whose_move,
        final(state).castles == old(state).castles,
        final(state).en_pasant_position == old(state).en_pasant_position,
        final(state).half_moves == old(state).half_moves,
        final(state).full_moves == old(state).full_moves,
        final(state).result == old(state).result,
{
    let ghost goal = place_row(old(state).board@, row_index as int, row@, 0);
    let mut current_column: i8 = 0;
    let mut i: usize = 0;
    assert(row@.subrange(0, row@.len() as int) =~= row@);
    while i < row.len() && current_column < 8
        invariant
            0 <= i <= row@.len(),
            0 <= current_column <= 16,
            0 <= row_index < 8,
            goal == place_row(state.board@, row_index as int, row@.subrange(i as int, row@.len() as int), current_column as int),
            state.whose_move == old(state).whose_move,
            state.castles == old(state).castles,
            state.en_pasant_position == old(state).en_pasant_position,
            state.half_moves == old(state).half_moves,
            state.full_moves == old(state).full_moves,
            state.result == old(state).result,
        decreases row.len() - i,
    {
        let ghost rest = row@.subrange(i as int, row@.len() as int);
        assert(rest.drop_first() =~= row@.subrange(i + 1, row@.len() as int));
        let letter = row[i];
        match to_digit(letter) {
            Some(value) => {
                current_column = current_column + value as i8;
            },
            None => {
                let pos: Position = (row_index, current_column);
                let piece = Piece::from_fen_char(letter);
                state.board.insert(pos, piece);
                current_column = current_column + 1;
            },
        }
        i += 1;
    }
    assert(row@.subrange(i as int, row@.len() as int).len() == 0 || current_column >= 8);
}

fn parse_position(position_string: &Vec<char>, state: &mut GameState)
    ensures
        final(state).board@ == place_rows(old(state).board@, split_fields(position_string@, '/'), 0),
        final(state).whose_move == old(state).whose_move,
        final(state).castles == old(state).castles,
        final(state).en_pasant_position == old(state).en_pasant_position,
        final(state).half_moves == old(state).half_moves,
        final(state).full_moves == old(state).full_moves,
        final(state).result == old(state).result,
{
    let rows = split(position_string, '/');
    let ghost rows_view = split_fields(position_string@, '/');
    let ghost goal = place_rows(old(state).board@, rows_view, 0);
    let mut row_index: usize = 0;
    while row_index < rows.len() && row_index < 8
        invariant
            0 <= row_index <= rows@.len(),
            views(rows@) == rows_view,
            goal == place_rows(state.board@, rows_view, row_index as int),
            state.whose_move == old(state).whose_move,
            state.castles == old(state).castles,
            state.en_pasant_position == old(state).en_pasant_position,
            state.half_moves == old(state).half_moves,
            state.full_moves == old(state).full_moves,
            state.result == old(state).result,
        decreases rows.len() - row_index,
    {
        assert(rows_view[row_index as int] == rows@[row_index as int]@);
        parse_row(&rows[row_index], row_index as i8, state);
        row_index += 1;
    }
}

proof fn lemma_single_char(s: Seq<char>, c: char)
    ensures
        (s == seq![c]) == (s.len() == 1 && s[0] == c),
{
    if s.len() == 1 && s[0] == c {
        assert(s =~= seq![c]);
    }
}

/// The space-separated fields of a FEN record.
pub open spec fn fen_fields(s: Seq<char>) -> Seq<Seq<char>> {
    split_fields(s, ' ')
}

/// A FEN record with six fields whose two counters fit in a `u16`.
pub open spec fn fen_complete(s: Seq<char>) -> bool {
    let f = fen_fields(s);
    &&& f.len() == 6
    &&& u16_value(f[4]) is Some
    &&& u16_value(f[5]) is Some
}

/// Whether `input` is a FEN record that `parse` accepts.
pub fn is_complete_fen(input: &String) -> (r: bool)
    ensures
        r == fen_complete(input@),
{
    let chars = chars_of(input.as_str());
    let fields = split(&chars, ' ');
    assert(views(fields@).len() == fields@.len());
    if fields.len() != 6 {
        return false;
    }
    assert(views(fields@)[4] == fields@[4]@);
    assert(views(fields@)[5] == fields@[5]@);
    parse_u16(&fields[4]).is_some() && parse_u16(&fields[5]).is_some()
}

/// Sets up `state` from a FEN record: the pieces of its first field are
/// placed on the board, and the side to move, the castling rights, the
/// en-passant target and both counters are read from the others.
pub fn parse(input: &mut String, state: &mut GameState)
    requires
        fen_complete(old(input)@),
    ensures
        *final(input) == *old(input),
        ({
            let f = fen_fields(old(input)@);
            &&& final(state).board@ == place_rows(old(state).board@, split_fields(f[0], '/'), 0)
            &&& final(state).whose_move == if f[1] == seq!['w'] {
                Color::White
            } else {
                Color::Black
            }
            &&& final(state).castles.white_king == f[2].contains('K')
            &&& final(state).castles.white_queen == f[2].contains('Q')
            &&& final(state).castles.black_king == f[2].contains('k')
            &&& final(state).castles.black_queen == f[2].contains('q')
            &&& opt_sq(final(state).en_pasant_position) == if f[3] == seq!['-'] {
                None
            } else {
                square_name(f[3])
            }
            &&& final(state).half_moves as int == u16_value(f[4])->0
            &&& final(state).full_moves as int == u16_value(f[5])->0
            &&& final(state).result == old(state).result
        }),
{
    let chars = chars_of(input.as_str());
    let fields = split(&chars, ' ');
    let ghost f = fen_fields(input@);
    assert(views(fields@).len() == fields@.len());
    assert(forall|k: int| 0 <= k < 6 ==> views(fields@)[k] == #[trigger] fields@[k]@);
    let position = &fields[0];
    let whose_move = &fields[1];
    let castles_state = &fields[2];
    let en_pasant_position = &fields[3];

    parse_position(position, state);
    state.whose_move = if whose_move.len() == 1 && whose_move[0] == 'w' {
        Color::White
    } else {
        Color::Black
    };
    proof {
        lemma_single_char(whose_move@, 'w');
    }
    state.castles = CastlesState::from_fen_chars(castles_state);
    let no_target = en_pasant_position.len() == 1 && en_pasant_position[0] == '-';
    proof {
        lemma_single_char(en_pasant_position@, '-');
    }
    state.en_pasant_position = if no_target {
        None
    } else {
        match square_from_chars(en_pasant_position) {
            Ok(p) => Some(p),
            Err(_) => None,
        }
    };
    match parse_u16(&fields[4]) {
        Some(v) => state.half_moves = v,
        None => {},
    }
    match parse_u16(&fields[5]) {
        Some(v) => state.full_moves = v,
        None => {},
    }
}

} // verus!
