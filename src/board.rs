use vstd::prelude::*;
use crate::pieces::{in_bounds, Piece, Position};

verus! {

/// Index of square (r, c) in the row-major array of 64 squares.
pub open spec fn square_index(r: int, c: int) -> int {
    8 * r + c
}

/// The squares of the board, row by row; `None` is an empty square.
#[derive(Clone, Copy, Debug, PartialEq, Eq)]
pub struct Board {
    pub squares: [Option<Piece>; 64],
}

/// The square that a position names, as mathematical integers.
pub open spec fn sq(p: Position) -> (int, int) {
    (p.0 as int, p.1 as int)
}

/// The square with row-major index `i`.
pub open spec fn square_of(i: int) -> (int, int) {
    (i / 8, i % 8)
}

pub proof fn lemma_square_index(r: int, c: int)
    requires
        in_bounds(r, c),
    ensures
        0 <= square_index(r, c) < 64,
        square_of(square_index(r, c)) == (r, c),
{
}

pub proof fn lemma_square_of(i: int)
    requires
        0 <= i < 64,
    ensures
        in_bounds(square_of(i).0, square_of(i).1),
        square_index(square_of(i).0, square_of(i).1) == i,
{
}

impl View for Board {
    type V = Map<(int, int), Piece>;

    /// The occupied squares and what stands on each.
    open spec fn view(&self) -> Map<(int, int), Piece> {
        Map::new(
            |t: (int, int)| in_bounds(t.0, t.1) && self.squares@[square_index(t.0, t.1)] is Some,
            |t: (int, int)| self.squares@[square_index(t.0, t.1)]->0,
        )
    }
}

/// What stands on square `t` of the board model `m`.
pub open spec fn occupant(m: Map<(int, int), Piece>, t: (int, int)) -> Option<Piece> {
    if m.contains_key(t) {
        Some(m[t])
    } else {
        None
    }
}

impl Board {
    /// An empty board.
    pub fn new() -> (b: Board)
        ensures
            b@ == Map::<(int, int), Piece>::empty(),
    {
        let b = Board { squares: [None; 64] };
        assert(b@ =~= Map::<(int, int), Piece>::empty());
        b
    }

    /// What stands on `pos`; positions off the board are empty.
    pub fn get(&self, pos: Position) -> (r: Option<Piece>)
        ensures
            r == occupant(self@, sq(pos)),
    {
        if pos.0 >= 0 && pos.0 < 8 && pos.1 >= 0 && pos.1 < 8 {
            self.squares[(pos.0 as usize) * 8 + pos.1 as usize]
        } else {
            None
        }
    }

    /// Puts `piece` on `pos`, replacing whatever stood there.
    pub fn insert(&mut self, pos: Position, piece: Piece)
        requires
            in_bounds(pos.0 as int, pos.1 as int),
        ensures
            final(self)@ == old(self)@.insert(sq(pos), piece),
    {
        let i: usize = (pos.0 as usize) * 8 + pos.1 as usize;
        self.squares[i] = Some(piece);
        assert(self@ =~= old(self)@.insert(sq(pos), piece));
    }

    /// Empties `pos` and returns what stood there.
    pub fn remove(&mut self, pos: Position) -> (r: Option<Piece>)
        ensures
            r == occupant(old(self)@, sq(pos)),
            final(self)@ == old(self)@.remove(sq(pos)),
    {
        if pos.0 >= 0 && pos.0 < 8 && pos.1 >= 0 && pos.1 < 8 {
            let i: usize = (pos.0 as usize) * 8 + pos.1 as usize;
            let p = self.squares[i];
            self.squares[i] = None;
            assert(self@ =~= old(self)@.remove(sq(pos)));
            p
        } else {
            assert(self@ =~= old(self)@.remove(sq(pos)));
            None
        }
    }
}

} // verus!

verus! {

/// A set of squares of the board, one mark per square in row-major order.
#[derive(Clone, Copy, Debug, PartialEq, Eq)]
pub struct SquareSet {
    pub marks: [bool; 64],
}

impl View for SquareSet {
    type V = Set<(int, int)>;

    open spec fn view(&self) -> Set<(int, int)> {
        Set::new(|t: (int, int)| in_bounds(t.0, t.1) && self.marks@[square_index(t.0, t.1)])
    }
}

impl SquareSet {
    pub fn new() -> (s: SquareSet)
        ensures
            s@ == Set::<(int, int)>::empty(),
    {
        let s = SquareSet { marks: [false; 64] };
        assert(s@ =~= Set::<(int, int)>::empty());
        s
    }

    pub fn contains(&self, pos: Position) -> (r: bool)
        ensures
            r == self@.contains(sq(pos)),
    {
        if pos.0 >= 0 && pos.0 < 8 && pos.1 >= 0 && pos.1 < 8 {
            self.marks[(pos.0 as usize) * 8 + pos.1 as usize]
        } else {
            false
        }
    }

    pub fn insert(&mut self, pos: Position)
        requires
            in_bounds(pos.0 as int, pos.1 as int),
        ensures
            final(self)@ == old(self)@.insert(sq(pos)),
    {
        let i: usize = (pos.0 as usize) * 8 + pos.1 as usize;
        self.marks[i] = true;
        assert(self@ =~= old(self)@.insert(sq(pos)));
    }

    pub fn remove(&mut self, pos: Position)
        ensures
            final(self)@ == old(self)@.remove(sq(pos)),
    {
        if pos.0 >= 0 && pos.0 < 8 && pos.1 >= 0 && pos.1 < 8 {
            let i: usize = (pos.0 as usize) * 8 + pos.1 as usize;
            self.marks[i] = false;
        }
        assert(self@ =~= old(self)@.remove(sq(pos)));
    }

    /// Adds every square of `other`.
    pub fn union_with(&mut self, other: &SquareSet)
        ensures
            final(self)@ == old(self)@.union(other@),
    {
        let ghost start = *self;
        let mut i: usize = 0;
        while i < 64
            invariant
                0 <= i <= 64,
                forall|j: int| 0 <= j < i ==> self.marks@[j] == (start.marks@[j] || other.marks@[j]),
                forall|j: int| i <= j < 64 ==> self.marks@[j] == start.marks@[j],
            decreases 64 - i,
        {
            self.marks[i] = self.marks[i] || other.marks[i];
            i += 1;
        }
        assert(self@ =~= start@.union(other@));
    }

    pub fn is_empty(&self) -> (r: bool)
        ensures
            r == (self@ == Set::<(int, int)>::empty()),
    {
        let mut i: usize = 0;
        while i < 64
            invariant
                0 <= i <= 64,
                forall|j: int| 0 <= j < i ==> !self.marks@[j],
            decreases 64 - i,
        {
            if self.marks[i] {
                proof {
                    lemma_square_of(i as int);
                    assert(self@.contains(square_of(i as int)));
                }
                return false;
            }
            i += 1;
        }
        assert(self@ =~= Set::<(int, int)>::empty());
        true
    }
}

} // verus!
