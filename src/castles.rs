use vstd::prelude::*;
use crate::text::chars_of;

verus! {

/// Castling rights as four flags. They are recorded, not consulted by the
/// rules of move application.
#[derive(Clone, Copy, Debug, PartialEq, Eq, Structural)]
pub struct CastlesState {
    pub white_king: bool,
    pub white_queen: bool,
    pub black_king: bool,
    pub black_queen: bool,
}

impl CastlesState {
    /// No castling rights.
    pub fn new() -> (r: CastlesState)
        ensures
            !r.white_king && !r.white_queen && !r.black_king && !r.black_queen,
    {
        CastlesState { white_king: false, white_queen: false, black_king: false, black_queen: false }
    }

    /// Reads the castling field of a FEN record: 'K', 'Q', 'k' and 'q' grant
    /// the right that they name, any other character is ignored.
    pub fn from_fen_str(fen_str: String) -> (r: CastlesState)
        ensures
            r.white_king == fen_str@.contains('K'),
            r.white_queen == fen_str@.contains('Q'),
            r.black_king == fen_str@.contains('k'),
            r.black_queen == fen_str@.contains('q'),
    {
        let chars = chars_of(fen_str.as_str());
        CastlesState::from_fen_chars(&chars)
    }

    /// Reads the castling field of a FEN record given as characters.
    pub fn from_fen_chars(chars: &Vec<char>) -> (r: CastlesState)
        ensures
            r.white_king == chars@.contains('K'),
            r.white_queen == chars@.contains('Q'),
            r.black_king == chars@.contains('k'),
            r.black_queen == chars@.contains('q'),
    {
        let mut castles = CastlesState::new();
        let mut i: usize = 0;
        while i < chars.len()
            invariant
                0 <= i <= chars@.len(),
                castles.white_king == chars@.subrange(0, i as int).contains('K'),
                castles.white_queen == chars@.subrange(0, i as int).contains('Q'),
                castles.black_king == chars@.subrange(0, i as int).contains('k'),
                castles.black_queen == chars@.subrange(0, i as int).contains('q'),
            decreases chars.len() - i,
        {
            let ghost before = chars@.subrange(0, i as int);
            let ghost after = chars@.subrange(0, i + 1);
            assert(after =~= before.push(chars@[i as int]));
            match chars[i] {
                'K' => castles.white_king = true,
                'Q' => castles.white_queen = true,
                'k' => castles.black_king = true,
                'q' => castles.black_queen = true,
                _ => {},
            }
            assert forall|c: char| after.contains(c) == (before.contains(c) || c == chars@[i as int]) by {
                if after.contains(c) {
                    let j = choose|j: int| 0 <= j < after.len() && after[j] == c;
                    if j < before.len() {
                        assert(before[j] == c);
                    }
                }
                if before.contains(c) {
                    let j = choose|j: int| 0 <= j < before.len() && before[j] == c;
                    assert(after[j] == c);
                }
                if c == chars@[i as int] {
                    assert(after[i as int] == c);
                }
            }
            i += 1;
        }
        assert(chars@.subrange(0, chars@.len() as int) =~= chars@);
        castles
    }
}

} // verus!