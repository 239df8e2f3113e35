use vstd::prelude::*;
use crate::board::{lemma_square_of, sq, square_index, square_of, SquareSet};
use crate::game_state::{ep_square, king_square, moved, position_of, GameState};
use crate::pieces::{in_bounds, Color, Piece, PieceType, Position};

verus! {

/// Square `t` is on the board and empty.
pub open spec fn free(m: Map<(int, int), Piece>, t: (int, int)) -> bool {
    in_bounds(t.0, t.1) && !m.contains_key(t)
}

/// Square `t` is on the board and holds a piece of the other side than `color`.
pub open spec fn enemy(m: Map<(int, int), Piece>, color: Color, t: (int, int)) -> bool {
    in_bounds(t.0, t.1) && m.contains_key(t) && m[t].color != color
}

/// A piece of `color` may stand on `t` next: empty, or a capture.
pub open spec fn lands(m: Map<(int, int), Piece>, color: Color, t: (int, int)) -> bool {
    free(m, t) || enemy(m, color, t)
}

/// `k` steps along a direction component `d` of -1, 0 or 1.
pub open spec fn step(d: int, k: int) -> int {
    if d > 0 {
        k
    } else if d < 0 {
        -k
    } else {
        0
    }
}

/// The square `k` steps from `from` in direction `dir` (row, column).
pub open spec fn ray_square(from: (int, int), dir: (int, int), k: int) -> (int, int) {
    (from.0 + step(dir.0, k), from.1 + step(dir.1, k))
}

/// A sliding piece of `color` on `from` reaches the `k`-th square of a ray:
/// that square may be landed on and every square before it is empty.
pub open spec fn ray_reaches(
    m: Map<(int, int), Piece>,
    color: Color,
    from: (int, int),
    dir: (int, int),
    k: int,
) -> bool {
    &&& 1 <= k <= 7
    &&& lands(m, color, ray_square(from, dir, k))
    &&& forall|j: int| 1 <= j < k ==> free(m, #[trigger] ray_square(from, dir, j))
}

pub open spec fn on_ray(
    m: Map<(int, int), Piece>,
    color: Color,
    from: (int, int),
    dir: (int, int),
    t: (int, int),
) -> bool {
    exists|k: int| #[trigger] ray_reaches(m, color, from, dir, k) && t == ray_square(from, dir, k)
}

pub open spec fn rook_reaches(m: Map<(int, int), Piece>, color: Color, from: (int, int), t: (int, int)) -> bool {
    ||| on_ray(m, color, from, (0, 1), t)
    ||| on_ray(m, color, from, (0, -1), t)
    ||| on_ray(m, color, from, (1, 0), t)
    ||| on_ray(m, color, from, (-1, 0), t)
}

pub open spec fn bishop_reaches(m: Map<(int, int), Piece>, color: Color, from: (int, int), t: (int, int)) -> bool {
    ||| on_ray(m, color, from, (1, 1), t)
    ||| on_ray(m, color, from, (-1, 1), t)
    ||| on_ray(m, color, from, (1, -1), t)
    ||| on_ray(m, color, from, (-1, -1), t)
}

pub open spec fn queen_reaches(m: Map<(int, int), Piece>, color: Color, from: (int, int), t: (int, int)) -> bool {
    bishop_reaches(m, color, from, t) || rook_reaches(m, color, from, t)
}

/// One of the eight neighbouring squares.
pub open spec fn king_reaches(m: Map<(int, int), Piece>, color: Color, from: (int, int), t: (int, int)) -> bool {
    &&& lands(m, color, t)
    &&& t != from
    &&& -1 <= t.0 - from.0 <= 1
    &&& -1 <= t.1 - from.1 <= 1
}

pub open spec fn abs(x: int) -> int {
    if x < 0 {
        -x
    } else {
        x
    }
}

/// One of the eight knight jumps: one square one way and two the other.
pub open spec fn knight_reaches(m: Map<(int, int), Piece>, color: Color, from: (int, int), t: (int, int)) -> bool {
    &&& lands(m, color, t)
    &&& abs(t.0 - from.0) + abs(t.1 - from.1) == 3
    &&& abs(t.0 - from.0) <= 2
    &&& abs(t.1 - from.1) <= 2
}

/// The row direction in which pawns of `color` advance.
pub open spec fn forward(color: Color) -> int {
    if color == Color::White {
        -1
    } else {
        1
    }
}

/// The row from which pawns of `color` may advance two squares.
pub open spec fn start_row(color: Color) -> int {
    if color == Color::White {
        6
    } else {
        1
    }
}

/// Squares a pawn reaches: straight ahead onto empty squares (not in attack
/// mode), and diagonally forward onto a capture or the en-passant target.
pub open spec fn pawn_reaches(
    m: Map<(int, int), Piece>,
    ep: Option<(int, int)>,
    color: Color,
    from: (int, int),
    only_attack: bool,
    t: (int, int),
) -> bool {
    let f = forward(color);
    ||| !only_attack && t == (from.0 + f, from.1) && free(m, t)
    ||| !only_attack && from.0 == start_row(color) && t == (from.0 + 2 * f, from.1) && free(
        m,
        (from.0 + f, from.1),
    ) && free(m, t)
    ||| t.0 == from.0 + f && (t.1 == from.1 - 1 || t.1 == from.1 + 1) && (enemy(m, color, t) || (
    free(m, t) && ep == Some(t)))
}

/// Square `t` is a destination of `piece` standing on `from`, ignoring
/// whether the move would leave its own king attacked.
pub open spec fn reaches(
    m: Map<(int, int), Piece>,
    ep: Option<(int, int)>,
    piece: Piece,
    from: (int, int),
    only_attack: bool,
    t: (int, int),
) -> bool {
    match piece.piece_type {
        PieceType::Pawn => pawn_reaches(m, ep, piece.color, from, only_attack, t),
        PieceType::Bishop => bishop_reaches(m, piece.color, from, t),
        PieceType::Rook => rook_reaches(m, piece.color, from, t),
        PieceType::Queen => queen_reaches(m, piece.color, from, t),
        PieceType::King => king_reaches(m, piece.color, from, t),
        PieceType::Knight => knight_reaches(m, piece.color, from, t),
    }
}

pub open spec fn destination_set(
    m: Map<(int, int), Piece>,
    ep: Option<(int, int)>,
    piece: Piece,
    from: (int, int),
    only_attack: bool,
) -> Set<(int, int)> {
    Set::new(|t: (int, int)| reaches(m, ep, piece, from, only_attack, t))
}

#[derive(PartialEq, Eq, Structural)]
enum DestinationsStatus {
    Free,
    Capture,
    Blocked,
}

fn is_possible_destination(game_state: &GameState, piece: Piece, next_position: Position) -> (r:
    DestinationsStatus)
    ensures
        (r == DestinationsStatus::Free) == free(game_state.board@, sq(next_position)),
        (r == DestinationsStatus::Capture) == enemy(game_state.board@, piece.color, sq(next_position)),
{
    if !(next_position.0 >= 0 && next_position.0 < 8 && next_position.1 >= 0 && next_position.1 < 8) {
        return DestinationsStatus::Blocked;
    }
    match game_state.board.get(next_position) {
        None => DestinationsStatus::Free,
        Some(x) => if x.color == piece.color {
            DestinationsStatus::Blocked
        } else {
            DestinationsStatus::Capture
        },
    }
}

pub open spec fn ray_set(m: Map<(int, int), Piece>, color: Color, from: (int, int), dir: (int, int)) -> Set<
    (int, int),
> {
    Set::new(|t: (int, int)| on_ray(m, color, from, dir, t))
}

/// Walks one ray from `position`, `x_increment` columns and `y_increment`
/// rows per step, up to and including the first occupied square if it holds
/// an enemy piece.
fn generate_by_ranges(
    game_state: &GameState,
    piece: Piece,
    position: Position,
    x_increment: i8,
    y_increment: i8,
) -> (r: SquareSet)
    requires
        in_bounds(position.0 as int, position.1 as int),
        -1 <= x_increment <= 1,
        -1 <= y_increment <= 1,
    ensures
        r@ == ray_set(game_state.board@, piece.color, sq(position), (y_increment as int, x_increment as int)),
{
    let ghost m = game_state.board@;
    let ghost from = sq(position);
    let ghost dir = (y_increment as int, x_increment as int);
    let mut possible_positions = SquareSet::new();
    let mut i: i8 = 1;
    let mut row: i8 = position.0 + y_increment;
    let mut col: i8 = position.1 + x_increment;
    while i < 8
        invariant
            1 <= i <= 8,
            in_bounds(position.0 as int, position.1 as int),
            -1 <= x_increment <= 1,
            -1 <= y_increment <= 1,
            m == game_state.board@,
            from == sq(position),
            dir == (y_increment as int, x_increment as int),
            (row as int, col as int) == ray_square(from, dir, i as int),
            forall|j: int| 1 <= j < i ==> free(m, #[trigger] ray_square(from, dir, j)),
            forall|t: (int, int)|
                possible_positions@.contains(t) <==> exists|k: int|
                    1 <= k < i && #[trigger] ray_reaches(m, piece.color, from, dir, k) && t == ray_square(
                        from,
                        dir,
                        k,
                    ),
        decreases 8 - i,
    {
        let next_position: Position = (row, col);
        let move_status = is_possible_destination(game_state, piece, next_position);
        let ghost before = possible_positions@;
        if move_status == DestinationsStatus::Capture || move_status == DestinationsStatus::Free {
            possible_positions.insert(next_position);
        }
        assert forall|t: (int, int)|
            possible_positions@.contains(t) <==> exists|k: int|
                1 <= k <= i && #[trigger] ray_reaches(m, piece.color, from, dir, k) && t == ray_square(
                    from,
                    dir,
                    k,
                ) by {
            if possible_positions@.contains(t) {
                if !before.contains(t) {
                    assert(ray_reaches(m, piece.color, from, dir, i as int));
                }
            }
            if exists|k: int|
                1 <= k <= i && #[trigger] ray_reaches(m, piece.color, from, dir, k) && t == ray_square(
                    from,
                    dir,
                    k,
                ) {
                let k = choose|k: int|
                    1 <= k <= i && #[trigger] ray_reaches(m, piece.color, from, dir, k) && t == ray_square(
                        from,
                        dir,
                        k,
                    );
                if k < i {
                    assert(before.contains(t));
                }
            }
        }
        if move_status == DestinationsStatus::Capture || move_status == DestinationsStatus::Blocked {
            assert forall|k: int| i < k && #[trigger] ray_reaches(m, piece.color, from, dir, k) implies false by {
                assert(free(m, ray_square(from, dir, i as int)));
            }
            assert(possible_positions@ =~= ray_set(m, piece.color, from, dir));
            return possible_positions;
        }
        i = i + 1;
        row = row + y_increment;
        col = col + x_increment;
    }
    assert(possible_positions@ =~= ray_set(m, piece.color, from, dir));
    possible_positions
}

/// Destinations of a rook on `position`: the four orthogonal rays.
pub fn generate_destinations_rook(game_state: &GameState, piece: Piece, position: Position) -> (r: SquareSet)
    requires
        in_bounds(position.0 as int, position.1 as int),
    ensures
        r@ == Set::new(|t: (int, int)| rook_reaches(game_state.board@, piece.color, sq(position), t)),
{
    let mut possible_positions = SquareSet::new();
    possible_positions.union_with(&generate_by_ranges(game_state, piece, position, 1, 0));
    possible_positions.union_with(&generate_by_ranges(game_state, piece, position, -1, 0));
    possible_positions.union_with(&generate_by_ranges(game_state, piece, position, 0, 1));
    possible_positions.union_with(&generate_by_ranges(game_state, piece, position, 0, -1));
    assert(possible_positions@ =~= Set::new(
        |t: (int, int)| rook_reaches(game_state.board@, piece.color, sq(position), t),
    ));
    possible_positions
}

/// Destinations of a bishop on `position`: the four diagonal rays.
pub fn generate_destinations_bishop(game_state: &GameState, piece: Piece, position: Position) -> (r: SquareSet)
    requires
        in_bounds(position.0 as int, position.1 as int),
    ensures
        r@ == Set::new(|t: (int, int)| bishop_reaches(game_state.board@, piece.color, sq(position), t)),
{
    let mut possible_positions = SquareSet::new();
    possible_positions.union_with(&generate_by_ranges(game_state, piece, position, 1, 1));
    possible_positions.union_with(&generate_by_ranges(game_state, piece, position, 1, -1));
    possible_positions.union_with(&generate_by_ranges(game_state, piece, position, -1, 1));
    possible_positions.union_with(&generate_by_ranges(game_state, piece, position, -1, -1));
    assert(possible_positions@ =~= Set::new(
        |t: (int, int)| bishop_reaches(game_state.board@, piece.color, sq(position), t),
    ));
    possible_positions
}

/// Destinations of a queen on `position`: those of a bishop and of a rook.
pub fn generate_destinations_queen(game_state: &GameState, piece: Piece, position: Position) -> (r: SquareSet)
    requires
        in_bounds(position.0 as int, position.1 as int),
    ensures
        r@ == Set::new(|t: (int, int)| queen_reaches(game_state.board@, piece.color, sq(position), t)),
{
    let mut possible_positions = SquareSet::new();
    possible_positions.union_with(&generate_destinations_bishop(game_state, piece, position));
    possible_positions.union_with(&generate_destinations_rook(game_state, piece, position));
    assert(possible_positions@ =~= Set::new(
        |t: (int, int)| queen_reaches(game_state.board@, piece.color, sq(position), t),
    ));
    possible_positions
}

/// Adds `next_position` to `set` when `piece` may land there.
fn add_if_lands(game_state: &GameState, piece: Piece, set: &mut SquareSet, next_position: Position)
    ensures
        final(set)@ == if lands(game_state.board@, piece.color, sq(next_position)) {
            old(set)@.insert(sq(next_position))
        } else {
            old(set)@
        },
{
    let move_status = is_possible_destination(game_state, piece, next_position);
    if move_status == DestinationsStatus::Capture || move_status == DestinationsStatus::Free {
        set.insert(next_position);
    }
}

/// Destinations of a king on `position`: the eight neighbouring squares.
pub fn generate_destinations_king(game_state: &GameState, piece: Piece, position: Position) -> (r: SquareSet)
    requires
        in_bounds(position.0 as int, position.1 as int),
    ensures
        r@ == Set::new(|t: (int, int)| king_reaches(game_state.board@, piece.color, sq(position), t)),
{
    let mut possible_positions = SquareSet::new();
    let (row, col) = position;
    add_if_lands(game_state, piece, &mut possible_positions, (row - 1, col - 1));
    add_if_lands(game_state, piece, &mut possible_positions, (row - 1, col));
    add_if_lands(game_state, piece, &mut possible_positions, (row - 1, col + 1));
    add_if_lands(game_state, piece, &mut possible_positions, (row, col - 1));
    add_if_lands(game_state, piece, &mut possible_positions, (row, col + 1));
    add_if_lands(game_state, piece, &mut possible_positions, (row + 1, col - 1));
    add_if_lands(game_state, piece, &mut possible_positions, (row + 1, col));
    add_if_lands(game_state, piece, &mut possible_positions, (row + 1, col + 1));
    assert(possible_positions@ =~= Set::new(
        |t: (int, int)| king_reaches(game_state.board@, piece.color, sq(position), t),
    ));
    possible_positions
}

proof fn lemma_knight_jump(dr: int, dc: int)
    requires
        abs(dr) + abs(dc) == 3,
        abs(dr) <= 2,
        abs(dc) <= 2,
    ensures
        (dr == 1 || dr == -1) && (dc == 2 || dc == -2) || (dr == 2 || dr == -2) && (dc == 1 || dc == -1),
{
}

/// Destinations of a knight on `position`: the eight jumps.
pub fn generate_destinations_knight(game_state: &GameState, piece: Piece, position: Position) -> (r: SquareSet)
    requires
        in_bounds(position.0 as int, position.1 as int),
    ensures
        r@ == Set::new(|t: (int, int)| knight_reaches(game_state.board@, piece.color, sq(position), t)),
{
    let mut possible_positions = SquareSet::new();
    let (row, col) = position;
    add_if_lands(game_state, piece, &mut possible_positions, (row - 2, col - 1));
    add_if_lands(game_state, piece, &mut possible_positions, (row - 2, col + 1));
    add_if_lands(game_state, piece, &mut possible_positions, (row - 1, col - 2));
    add_if_lands(game_state, piece, &mut possible_positions, (row - 1, col + 2));
    add_if_lands(game_state, piece, &mut possible_positions, (row + 1, col - 2));
    add_if_lands(game_state, piece, &mut possible_positions, (row + 1, col + 2));
    add_if_lands(game_state, piece, &mut possible_positions, (row + 2, col - 1));
    add_if_lands(game_state, piece, &mut possible_positions, (row + 2, col + 1));
    assert forall|t: (int, int)| #[trigger]
        knight_reaches(game_state.board@, piece.color, sq(position), t) implies possible_positions@.contains(
        t,
    ) by {
        lemma_knight_jump(t.0 - row, t.1 - col);
    }
    assert(possible_positions@ =~= Set::new(
        |t: (int, int)| knight_reaches(game_state.board@, piece.color, sq(position), t),
    ));
    possible_positions
}

/// Adds the forward diagonal `next_position` when it is a capture or the
/// recorded en-passant target.
fn add_pawn_diagonal(game_state: &GameState, piece: Piece, set: &mut SquareSet, next_position: Position)
    ensures
        final(set)@ == if enemy(game_state.board@, piece.color, sq(next_position)) || (free(
            game_state.board@,
            sq(next_position),
        ) && ep_square(*game_state) == Some(sq(next_position))) {
            old(set)@.insert(sq(next_position))
        } else {
            old(set)@
        },
{
    let move_status = is_possible_destination(game_state, piece, next_position);
    if move_status == DestinationsStatus::Capture {
        set.insert(next_position);
    } else if move_status == DestinationsStatus::Free {
        match game_state.en_pasant_position {
            Some(target) => {
                if target.0 == next_position.0 && target.1 == next_position.1 {
                    set.insert(next_position);
                }
            },
            None => {},
        }
    }
}

/// Destinations of a pawn on `position`. With `only_attack` only the two
/// forward diagonals are considered.
pub fn generate_destinations_pawn(
    game_state: &GameState,
    piece: Piece,
    position: Position,
    only_attack: bool,
) -> (r: SquareSet)
    requires
        in_bounds(position.0 as int, position.1 as int),
    ensures
        r@ == Set::new(
            |t: (int, int)|
                pawn_reaches(
                    game_state.board@,
                    ep_square(*game_state),
                    piece.color,
                    sq(position),
                    only_attack,
                    t,
                ),
        ),
{
    let mut possible_positions = SquareSet::new();
    let increment: i8 = if piece.color == Color::White {
        -1
    } else {
        1
    };
    let is_double_move_allowed = (piece.color == Color::White && position.0 == 6) || (piece.color
        == Color::Black && position.0 == 1);

    if !only_attack {
        let one_step = (position.0 + increment, position.1);
        let move_status = is_possible_destination(game_state, piece, one_step);
        if move_status == DestinationsStatus::Free {
            possible_positions.insert(one_step);
            if is_double_move_allowed {
                let two_step = (position.0 + 2 * increment, position.1);
                let move_status = is_possible_destination(game_state, piece, two_step);
                if move_status == DestinationsStatus::Free {
                    possible_positions.insert(two_step);
                }
            }
        }
    }
    add_pawn_diagonal(game_state, piece, &mut possible_positions, (position.0 + increment, position.1 - 1));
    add_pawn_diagonal(game_state, piece, &mut possible_positions, (position.0 + increment, position.1 + 1));
    assert(possible_positions@ =~= Set::new(
        |t: (int, int)|
            pawn_reaches(
                game_state.board@,
                ep_square(*game_state),
                piece.color,
                sq(position),
                only_attack,
                t,
            ),
    ));
    possible_positions
}

/// Destinations of `piece` standing on `position`, ignoring whether the
/// move would leave its own king attacked. With `only_attack` a pawn's
/// straight moves are left out: they threaten nothing.
pub fn generate_destinations(game_state: &GameState, piece: Piece, position: Position, only_attack: bool) -> (r:
    SquareSet)
    requires
        in_bounds(position.0 as int, position.1 as int),
    ensures
        r@ == destination_set(game_state.board@, ep_square(*game_state), piece, sq(position), only_attack),
{
    let r = match piece.piece_type {
        PieceType::Pawn => generate_destinations_pawn(game_state, piece, position, only_attack),
        PieceType::Bishop => generate_destinations_bishop(game_state, piece, position),
        PieceType::Rook => generate_destinations_rook(game_state, piece, position),
        PieceType::Queen => generate_destinations_queen(game_state, piece, position),
        PieceType::King => generate_destinations_king(game_state, piece, position),
        PieceType::Knight => generate_destinations_knight(game_state, piece, position),
    };
    assert(r@ =~= destination_set(game_state.board@, ep_square(*game_state), piece, sq(position), only_attack));
    r
}

/// Square `t` is threatened by a piece of the side other than `color`.
pub open spec fn attacked(m: Map<(int, int), Piece>, ep: Option<(int, int)>, color: Color, t: (int, int)) -> bool {
    exists|p: (int, int)|
        m.contains_key(p) && m[p].color != color && #[trigger] reaches(m, ep, m[p], p, true, t)
}

pub open spec fn attacked_set(m: Map<(int, int), Piece>, ep: Option<(int, int)>, color: Color) -> Set<(int, int)> {
    Set::new(|t: (int, int)| attacked(m, ep, color, t))
}

/// The king of `color` stands on a square threatened by the other side.
pub open spec fn king_attacked(m: Map<(int, int), Piece>, ep: Option<(int, int)>, color: Color) -> bool {
    match king_square(m, color) {
        Some(k) => attacked(m, ep, color, k),
        None => false,
    }
}

/// Moving `piece` from `from` to `t` fits its geometry and does not leave
/// its own king attacked. A position without such a king protects nothing.
pub open spec fn legal(
    m: Map<(int, int), Piece>,
    ep: Option<(int, int)>,
    piece: Piece,
    from: (int, int),
    t: (int, int),
) -> bool {
    reaches(m, ep, piece, from, false, t) && !king_attacked(moved(m, from, t), ep, piece.color)
}

pub open spec fn legal_set(m: Map<(int, int), Piece>, ep: Option<(int, int)>, piece: Piece, from: (int, int)) -> Set<
    (int, int),
> {
    Set::new(|t: (int, int)| legal(m, ep, piece, from, t))
}

/// Every square threatened by the pieces of the side other than `color`.
pub fn generate_attacked_fields(game_state: &GameState, color: Color) -> (r: SquareSet)
    ensures
        r@ == attacked_set(game_state.board@, ep_square(*game_state), color),
{
    let ghost m = game_state.board@;
    let ghost ep = ep_square(*game_state);
    let mut attacked_fields = SquareSet::new();
    let mut i: usize = 0;
    while i < 64
        invariant
            0 <= i <= 64,
            m == game_state.board@,
            ep == ep_square(*game_state),
            forall|t: (int, int)|
                attacked_fields@.contains(t) <==> exists|p: (int, int)|
                    m.contains_key(p) && m[p].color != color && square_index(p.0, p.1) < i
                        && #[trigger] reaches(m, ep, m[p], p, true, t),
        decreases 64 - i,
    {
        let pos = position_of(i);
        proof {
            lemma_square_of(i as int);
        }
        let ghost before = attacked_fields@;
        match game_state.board.get(pos) {
            Some(piece) => {
                if piece.color != color {
                    attacked_fields.union_with(&generate_destinations(game_state, piece, pos, true));
                }
            },
            None => {},
        }
        assert forall|t: (int, int)|
            attacked_fields@.contains(t) <==> exists|p: (int, int)|
                m.contains_key(p) && m[p].color != color && square_index(p.0, p.1) < i + 1
                    && #[trigger] reaches(m, ep, m[p], p, true, t) by {
            if exists|p: (int, int)|
                m.contains_key(p) && m[p].color != color && square_index(p.0, p.1) < i + 1
                    && #[trigger] reaches(m, ep, m[p], p, true, t) {
                let p = choose|p: (int, int)|
                    m.contains_key(p) && m[p].color != color && square_index(p.0, p.1) < i + 1
                        && #[trigger] reaches(m, ep, m[p], p, true, t);
                if square_index(p.0, p.1) == i {
                    assert(p == square_of(i as int));
                } else {
                    assert(before.contains(t));
                }
            }
            if attacked_fields@.contains(t) && !before.contains(t) {
                assert(reaches(m, ep, m[sq(pos)], sq(pos), true, t));
            }
        }
        i += 1;
    }
    assert(attacked_fields@ =~= attacked_set(m, ep, color));
    attacked_fields
}

/// The destinations of `piece` on `position` that do not leave the king of
/// its side attacked: each candidate is tried on a copy of the state.
pub fn generate_valid_destinations(game_state: &GameState, piece: Piece, position: Position) -> (r: SquareSet)
    requires
        in_bounds(position.0 as int, position.1 as int),
    ensures
        r@ == legal_set(game_state.board@, ep_square(*game_state), piece, sq(position)),
{
    let ghost m = game_state.board@;
    let ghost ep = ep_square(*game_state);
    let all_moves = generate_destinations(game_state, piece, position, false);
    let mut valid = all_moves;
    let color = piece.color;
    let mut i: usize = 0;
    while i < 64
        invariant
            0 <= i <= 64,
            m == game_state.board@,
            ep == ep_square(*game_state),
            color == piece.color,
            all_moves@ == destination_set(m, ep, piece, sq(position), false),
            forall|t: (int, int)|
                #[trigger] valid@.contains(t) <==> all_moves@.contains(t) && (square_index(t.0, t.1) < i
                    ==> !king_attacked(moved(m, sq(position), t), ep, color)),
        decreases 64 - i,
    {
        let candidate = position_of(i);
        proof {
            lemma_square_of(i as int);
        }
        if all_moves.contains(candidate) {
            let new_board = game_state.fake_move(position, candidate);
            let attacked_fields = generate_attacked_fields(&new_board, color);
            match new_board.find_king(color) {
                Some(king_pos) => {
                    if attacked_fields.contains(king_pos) {
                        valid.remove(candidate);
                    }
                },
                None => {},
            }
        }
        assert forall|t: (int, int)|
            #[trigger] valid@.contains(t) <==> all_moves@.contains(t) && (square_index(t.0, t.1) < i + 1
                ==> !king_attacked(moved(m, sq(position), t), ep, color)) by {
            if all_moves@.contains(t) && square_index(t.0, t.1) == i {
                assert(t == sq(candidate));
            }
        }
        i += 1;
    }
    assert(valid@ =~= legal_set(m, ep, piece, sq(position)));
    valid
}

} // verus!
