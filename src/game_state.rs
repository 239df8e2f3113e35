use vstd::prelude::*;
use crate::board::{lemma_square_index, lemma_square_of, occupant, sq, square_index, square_of, Board};
use crate::castles::CastlesState;
use crate::movegen::{attacked, generate_attacked_fields, generate_valid_destinations, legal};
use crate::pieces::{in_bounds, opposite, Color, GameResult, Piece, PieceType, Position};

verus! {

/// Why a move was refused.
#[derive(Clone, Copy, Debug, PartialEq, Eq, Structural)]
pub enum MoveError {
    /// The game already has a result.
    GameEnded,
    /// No piece stands on the source square.
    MissingPiece,
    /// The piece on the source square belongs to the side not to move.
    NotYourTurn,
    /// The target square is not a legal destination of the piece.
    InvalidMove,
}

impl MoveError {
    /// A sentence describing the error.
    pub fn message(&self) -> (r: &'static str)
        ensures
            *self == MoveError::GameEnded ==> r@ == "Game is ended!"@,
            *self == MoveError::MissingPiece ==> r@ == "Piece is missing from source square!"@,
            *self == MoveError::NotYourTurn ==> r@ == "Not your turn!"@,
            *self == MoveError::InvalidMove ==> r@ == "Move is not valid!"@,
    {
        match self {
            MoveError::GameEnded => "Game is ended!",
            MoveError::MissingPiece => "Piece is missing from source square!",
            MoveError::NotYourTurn => "Not your turn!",
            MoveError::InvalidMove => "Move is not valid!",
        }
    }
}

/// The authoritative position of a game and its counters.
#[derive(Clone, Copy, Debug, PartialEq, Eq)]
pub struct GameState {
    pub board: Board,
    pub whose_move: Color,
    pub castles: CastlesState,
    pub en_pasant_position: Option<Position>,
    pub half_moves: u16,
    pub full_moves: u16,
    pub result: Option<GameResult>,
}

/// The recorded en-passant target as a square.
pub open spec fn ep_square(s: GameState) -> Option<(int, int)> {
    match s.en_pasant_position {
        Some(p) => Some(sq(p)),
        None => None,
    }
}

/// A position as a square, kept optional.
pub open spec fn opt_sq(p: Option<Position>) -> Option<(int, int)> {
    match p {
        Some(q) => Some(sq(q)),
        None => None,
    }
}

/// The first square at row-major index `i` or later that holds the king of
/// `color`.
pub open spec fn king_from(m: Map<(int, int), Piece>, color: Color, i: int) -> Option<(int, int)>
    decreases 64 - i,
{
    if i < 0 || i >= 64 {
        None
    } else if occupant(m, square_of(i)) == Some(Piece { piece_type: PieceType::King, color }) {
        Some(square_of(i))
    } else {
        king_from(m, color, i + 1)
    }
}

/// The square of the king of `color`, the first in row-major order if the
/// position holds several.
pub open spec fn king_square(m: Map<(int, int), Piece>, color: Color) -> Option<(int, int)> {
    king_from(m, color, 0)
}

/// The board after the piece on `from`, if any, moves to `to`, replacing
/// whatever stood there.
pub open spec fn moved(m: Map<(int, int), Piece>, from: (int, int), to: (int, int)) -> Map<(int, int), Piece> {
    if m.contains_key(from) {
        m.remove(from).insert(to, m[from])
    } else {
        m
    }
}

/// Turns a row-major index into a position.
pub fn position_of(i: usize) -> (p: Position)
    requires
        i < 64,
    ensures
        sq(p) == square_of(i as int),
        in_bounds(p.0 as int, p.1 as int),
{
    ((i / 8) as i8, (i % 8) as i8)
}

impl GameState {
    /// A game with an empty board, White to move, no castling rights and
    /// no en-passant target, at move 1.
    pub fn new() -> (r: GameState)
        ensures
            r.board@ == Map::<(int, int), Piece>::empty(),
            r.whose_move == Color::White,
            !r.castles.white_king && !r.castles.white_queen,
            !r.castles.black_king && !r.castles.black_queen,
            r.en_pasant_position is None,
            r.half_moves == 0,
            r.full_moves == 1,
            r.result is None,
    {
        GameState {
            board: Board::new(),
            castles: CastlesState::new(),
            en_pasant_position: None,
            full_moves: 1,
            half_moves: 0,
            whose_move: Color::White,
            result: None,
        }
    }

    /// Where the king of `color` stands.
    pub fn find_king(&self, color: Color) -> (r: Option<Position>)
        ensures
            opt_sq(r) == king_square(self.board@, color),
    {
        let mut i: usize = 0;
        while i < 64
            invariant
                0 <= i <= 64,
                king_square(self.board@, color) == king_from(self.board@, color, i as int),
            decreases 64 - i,
        {
            let pos = position_of(i);
            match self.board.get(pos) {
                Some(p) => {
                    if p.piece_type == PieceType::King && p.color == color {
                        return Some(pos);
                    }
                },
                None => {},
            }
            i += 1;
        }
        None
    }

    /// A copy of this state in which the piece on `from`, if any, has moved
    /// to `to`, replacing whatever stood there. Nothing else changes.
    pub fn fake_move(&self, from: Position, to: Position) -> (r: GameState)
        requires
            in_bounds(to.0 as int, to.1 as int),
        ensures
            r.board@ == moved(self.board@, sq(from), sq(to)),
            r.whose_move == self.whose_move,
            r.castles == self.castles,
            r.en_pasant_position == self.en_pasant_position,
            r.half_moves == self.half_moves,
            r.full_moves == self.full_moves,
            r.result == self.result,
    {
        let mut new_state = *self;
        match new_state.board.remove(from) {
            Some(piece) => {
                new_state.board.insert(to, piece);
            },
            None => {},
        }
        new_state
    }
}

/// The side `color` has a piece with at least one legal destination.
pub open spec fn has_legal_move(m: Map<(int, int), Piece>, ep: Option<(int, int)>, color: Color) -> bool {
    exists|p: (int, int), t: (int, int)|
        m.contains_key(p) && m[p].color == color && #[trigger] legal(m, ep, m[p], p, t)
}

/// The win for the side `winner`.
pub open spec fn win_for(winner: Color) -> GameResult {
    if winner == Color::White {
        GameResult::WhiteWin
    } else {
        GameResult::BlackWin
    }
}

/// The result after looking for a reply of `color`, the side to move, when
/// the result was `prior`: none is found and its king is attacked, a win for
/// the other side; none is found and its king is not attacked, a stalemate.
/// Otherwise, and in a position without such a king, `prior` stays.
pub open spec fn game_end(
    m: Map<(int, int), Piece>,
    ep: Option<(int, int)>,
    color: Color,
    prior: Option<GameResult>,
) -> Option<GameResult> {
    if has_legal_move(m, ep, color) {
        prior
    } else {
        match king_square(m, color) {
            Some(k) => if attacked(m, ep, color, k) {
                Some(win_for(opposite(color)))
            } else {
                Some(GameResult::Stalemate)
            },
            None => prior,
        }
    }
}

/// The half-move clock after a move: back to 0 after a pawn move or a
/// capture, one more otherwise.
pub open spec fn next_half_moves(half_moves: int, pawn_moved: bool, captured: bool) -> int {
    if pawn_moved || captured {
        0
    } else {
        half_moves + 1
    }
}

/// The en-passant target after `piece` moves from `from` to `to`: the square
/// skipped by a pawn's double step, and none after any other move.
pub open spec fn next_en_passant(piece: Piece, from: (int, int), to: (int, int)) -> Option<(int, int)> {
    if piece.piece_type == PieceType::Pawn && abs_diff(to.0, from.0) == 2 {
        Some(((to.0 + from.0) / 2, to.1))
    } else {
        None
    }
}

pub open spec fn abs_diff(a: int, b: int) -> int {
    if a >= b {
        a - b
    } else {
        b - a
    }
}

/// Why a move from `from` to `to` is refused in `s`, if it is.
pub open spec fn move_error(s: GameState, from: (int, int), to: (int, int)) -> Option<MoveError> {
    if s.result is Some {
        Some(MoveError::GameEnded)
    } else if !s.board@.contains_key(from) {
        Some(MoveError::MissingPiece)
    } else if s.board@[from].color != s.whose_move {
        Some(MoveError::NotYourTurn)
    } else if !legal(s.board@, ep_square(s), s.board@[from], from, to) {
        Some(MoveError::InvalidMove)
    } else {
        None
    }
}

/// The board after the piece on `from` moves to `to`, becoming `prom` if
/// one is given.
pub open spec fn applied_board(
    m: Map<(int, int), Piece>,
    from: (int, int),
    to: (int, int),
    prom: Option<Piece>,
) -> Map<(int, int), Piece> {
    let placed = match prom {
        Some(q) => q,
        None => m[from],
    };
    m.remove(from).remove(to).insert(to, placed)
}

/// Each counter that a move from `from` to `to` raises has room: the
/// full-move number after a Black move, the half-move clock after a move
/// that is neither a pawn move nor a capture.
pub open spec fn counters_fit(s: GameState, from: (int, int), to: (int, int)) -> bool {
    let piece = s.board@[from];
    &&& piece.color == Color::Black ==> s.full_moves < u16::MAX
    &&& !(piece.piece_type == PieceType::Pawn || s.board@.contains_key(to)) ==> s.half_moves < u16::MAX
}

/// `after` is `before` once the piece on `from` has moved to `to`, becoming
/// `prom` if one is given: the turn passes, the counters and the en-passant
/// target are updated, and the game ends if the side now to move has no
/// legal move.
pub open spec fn move_applied(
    before: GameState,
    from: (int, int),
    to: (int, int),
    prom: Option<Piece>,
    after: GameState,
) -> bool {
    let m = before.board@;
    let piece = m[from];
    let board = applied_board(m, from, to, prom);
    let ep = next_en_passant(piece, from, to);
    let color = opposite(before.whose_move);
    &&& after.board@ == board
    &&& after.whose_move == color
    &&& after.castles == before.castles
    &&& ep_square(after) == ep
    &&& after.full_moves == before.full_moves + if piece.color == Color::Black {
        1int
    } else {
        0
    }
    &&& after.half_moves == next_half_moves(
        before.half_moves as int,
        piece.piece_type == PieceType::Pawn,
        m.contains_key(to),
    )
    &&& after.result == game_end(board, ep, color, None)
}

impl GameState {
    /// Ends the game when the side to move has no legal move: a win for the
    /// other side if its king is attacked, a stalemate if not.
    pub fn check_game_ended(&mut self)
        ensures
            final(self).board == old(self).board,
            final(self).whose_move == old(self).whose_move,
            final(self).castles == old(self).castles,
            final(self).en_pasant_position == old(self).en_pasant_position,
            final(self).half_moves == old(self).half_moves,
            final(self).full_moves == old(self).full_moves,
            final(self).result == game_end(
                old(self).board@,
                ep_square(*old(self)),
                old(self).whose_move,
                old(self).result,
            ),
    {
        let ghost m = self.board@;
        let ghost ep = ep_square(*self);
        let current_color = self.whose_move;
        let mut i: usize = 0;
        while i < 64
            invariant
                0 <= i <= 64,
                *self == *old(self),
                m == self.board@,
                ep == ep_square(*self),
                current_color == self.whose_move,
                forall|p: (int, int), t: (int, int)|
                    m.contains_key(p) && m[p].color == current_color && square_index(p.0, p.1) < i
                        ==> !#[trigger] legal(m, ep, m[p], p, t),
            decreases 64 - i,
        {
            let pos = position_of(i);
            proof {
                lemma_square_of(i as int);
            }
            match self.board.get(pos) {
                Some(piece) => {
                    if piece.color == current_color {
                        let valid_moves = generate_valid_destinations(self, piece, pos);
                        if !valid_moves.is_empty() {
                            proof {
                                if forall|t: (int, int)| !valid_moves@.contains(t) {
                                    assert(valid_moves@ =~= Set::<(int, int)>::empty());
                                }
                                let t = choose|t: (int, int)| valid_moves@.contains(t);
                                assert(legal(m, ep, m[sq(pos)], sq(pos), t));
                            }
                            return;
                        }
                        assert forall|t: (int, int)| !#[trigger] legal(m, ep, m[sq(pos)], sq(pos), t) by {
                            assert(!valid_moves@.contains(t));
                        }
                    }
                },
                None => {},
            }
            assert forall|p: (int, int), t: (int, int)|
                m.contains_key(p) && m[p].color == current_color && square_index(p.0, p.1) < i + 1
                    implies !#[trigger] legal(m, ep, m[p], p, t) by {
                if square_index(p.0, p.1) == i {
                    assert(p == sq(pos));
                }
            }
            i += 1;
        }
        assert forall|p: (int, int), t: (int, int)|
            m.contains_key(p) && m[p].color == current_color implies !#[trigger] legal(m, ep, m[p], p, t) by {
            lemma_square_index(p.0, p.1);
        }
        let attacked_fields = generate_attacked_fields(self, current_color);
        match self.find_king(current_color) {
            Some(king_pos) => {
                if attacked_fields.contains(king_pos) {
                    self.result = if current_color == Color::White {
                        Some(GameResult::BlackWin)
                    } else {
                        Some(GameResult::WhiteWin)
                    };
                } else {
                    self.result = Some(GameResult::Stalemate);
                }
            },
            None => {},
        }
    }

    /// Whether a move from `from` to `to` would be accepted, and if so the
    /// piece that makes it.
    pub fn check_move(&self, from: Position, to: Position) -> (r: Result<Piece, MoveError>)
        ensures
            match move_error(*self, sq(from), sq(to)) {
                Some(e) => r == Err::<Piece, MoveError>(e),
                None => r == Ok::<Piece, MoveError>(self.board@[sq(from)]),
            },
    {
        if self.result.is_some() {
            return Err(MoveError::GameEnded);
        }
        let piece = match self.board.get(from) {
            Some(p) => p,
            None => {
                return Err(MoveError::MissingPiece);
            },
        };
        if piece.color != self.whose_move {
            return Err(MoveError::NotYourTurn);
        }
        proof {
            lemma_square_index(from.0 as int, from.1 as int);
        }
        let valid_moves = generate_valid_destinations(self, piece, from);
        if !valid_moves.contains(to) {
            return Err(MoveError::InvalidMove);
        }
        Ok(piece)
    }

    /// Whether the counters can take the move from `from` to `to`: a refused
    /// move changes nothing, and an accepted one needs room in each counter
    /// that it raises.
    pub fn counters_allow(&self, from: Position, to: Position) -> (r: bool)
        ensures
            r == (move_error(*self, sq(from), sq(to)) is None ==> counters_fit(*self, sq(from), sq(to))),
    {
        match self.check_move(from, to) {
            Err(_) => true,
            Ok(piece) => {
                let capture = self.board.get(to).is_some();
                (piece.color != Color::Black || self.full_moves < u16::MAX) && (piece.piece_type
                    == PieceType::Pawn || capture || self.half_moves < u16::MAX)
            },
        }
    }

    /// Plays `from` to `to` for the side to move, the moved piece becoming
    /// `prom_piece` if one is given. A refused move leaves the state as it
    /// was.
    pub fn execute_move(&mut self, from: Position, to: Position, prom_piece: Option<Piece>) -> (r: Result<
        (),
        MoveError,
    >)
        requires
            move_error(*old(self), sq(from), sq(to)) is None ==> counters_fit(*old(self), sq(from), sq(to)),
        ensures
            match move_error(*old(self), sq(from), sq(to)) {
                Some(e) => r == Err::<(), MoveError>(e) && *final(self) == *old(self),
                None => r is Ok && move_applied(*old(self), sq(from), sq(to), prom_piece, *final(self)),
            },
    {
        let piece = match self.check_move(from, to) {
            Ok(p) => p,
            Err(e) => {
                return Err(e);
            },
        };
        let placed = match prom_piece {
            Some(q) => q,
            None => piece,
        };
        self.board.remove(from);
        let to_piece = self.board.remove(to);
        self.board.insert(to, placed);

        if piece.color == Color::Black {
            self.full_moves = self.full_moves + 1;
        }
        if piece.piece_type == PieceType::Pawn || to_piece.is_some() {
            self.half_moves = 0;
        } else {
            self.half_moves = self.half_moves + 1;
        }
        let distance: i8 = if to.0 >= from.0 {
            to.0 - from.0
        } else {
            from.0 - to.0
        };
        if piece.piece_type == PieceType::Pawn && distance == 2 {
            self.en_pasant_position = Some(((to.0 + from.0) / 2, to.1));
        } else {
            self.en_pasant_position = None;
        }
        self.whose_move = piece.color.other();
        self.check_game_ended();
        Ok(())
    }
}

/// Plays `from` to `to` for the side to move, without promotion.
pub fn execute_move(game_state: &mut GameState, from: Position, to: Position) -> (r: Result<(), MoveError>)
    requires
        move_error(*old(game_state), sq(from), sq(to)) is None ==> counters_fit(
            *old(game_state),
            sq(from),
            sq(to),
        ),
    ensures
        match move_error(*old(game_state), sq(from), sq(to)) {
            Some(e) => r == Err::<(), MoveError>(e) && *final(game_state) == *old(game_state),
            None => r is Ok && move_applied(*old(game_state), sq(from), sq(to), None, *final(game_state)),
        },
{
    game_state.execute_move(from, to, None)
}

} // verus!
