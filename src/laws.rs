use vstd::prelude::*;
use crate::board::{occupant, SquareSet};
use crate::game_state::{ep_square, king_from, king_square, move_applied, move_error, moved, GameState};
use crate::movegen::{
    attacked, enemy, forward, free, king_attacked, legal, legal_set, on_ray, ray_reaches, ray_square, reaches,
};
use crate::pieces::{in_bounds, Color, Piece, PieceType};

verus! {

/// Every legal destination is a square of the board that is empty or held
/// by the other side.
pub proof fn lemma_legal_destination_lands(
    m: Map<(int, int), Piece>,
    ep: Option<(int, int)>,
    piece: Piece,
    from: (int, int),
    t: (int, int),
)
    requires
        legal_set(m, ep, piece, from).contains(t),
    ensures
        in_bounds(t.0, t.1),
        m.contains_key(t) ==> m[t].color != piece.color,
{
}

/// Asking twice for the legal destinations of the same piece in the same
/// state gives the same set.
pub proof fn lemma_legal_destinations_repeatable(
    s: GameState,
    piece: Piece,
    from: (int, int),
    first: SquareSet,
    second: SquareSet,
)
    requires
        first@ == legal_set(s.board@, ep_square(s), piece, from),
        second@ == legal_set(s.board@, ep_square(s), piece, from),
    ensures
        first@ == second@,
{
}

proof fn lemma_king_from_holds_king(m: Map<(int, int), Piece>, color: Color, i: int)
    ensures
        king_from(m, color, i) matches Some(k) ==> m.contains_key(k) && m[k] == (Piece {
            piece_type: PieceType::King,
            color,
        }),
    decreases 64 - i,
{
    if 0 <= i < 64 {
        lemma_king_from_holds_king(m, color, i + 1);
    }
}

/// Whether an occupied square is attacked does not depend on the
/// en-passant target.
proof fn lemma_attacked_occupied_square(
    m: Map<(int, int), Piece>,
    ep1: Option<(int, int)>,
    ep2: Option<(int, int)>,
    color: Color,
    k: (int, int),
)
    requires
        m.contains_key(k),
    ensures
        attacked(m, ep1, color, k) == attacked(m, ep2, color, k),
{
    assert(!free(m, k));
    if attacked(m, ep1, color, k) {
        let p = choose|p: (int, int)|
            m.contains_key(p) && m[p].color != color && #[trigger] reaches(m, ep1, m[p], p, true, k);
        assert(reaches(m, ep2, m[p], p, true, k));
    }
    if attacked(m, ep2, color, k) {
        let p = choose|p: (int, int)|
            m.contains_key(p) && m[p].color != color && #[trigger] reaches(m, ep2, m[p], p, true, k);
        assert(reaches(m, ep1, m[p], p, true, k));
    }
}

/// Two boards with the same occupied squares, each held by the same side.
pub open spec fn same_sides(b1: Map<(int, int), Piece>, b2: Map<(int, int), Piece>) -> bool {
    forall|x: (int, int)|
        #![trigger b1.contains_key(x)]
        #![trigger b2.contains_key(x)]
        b1.contains_key(x) == b2.contains_key(x) && (b1.contains_key(x) ==> b1[x].color == b2[x].color)
}

proof fn lemma_on_ray_same_sides(
    b1: Map<(int, int), Piece>,
    b2: Map<(int, int), Piece>,
    color: Color,
    from: (int, int),
    dir: (int, int),
    t: (int, int),
)
    requires
        same_sides(b1, b2),
        on_ray(b1, color, from, dir, t),
    ensures
        on_ray(b2, color, from, dir, t),
{
    let k = choose|k: int| #[trigger] ray_reaches(b1, color, from, dir, k) && t == ray_square(from, dir, k);
    assert forall|j: int| 1 <= j < k implies free(b2, #[trigger] ray_square(from, dir, j)) by {
        assert(free(b1, ray_square(from, dir, j)));
    }
    assert(ray_reaches(b2, color, from, dir, k));
}

proof fn lemma_reaches_same_sides(
    b1: Map<(int, int), Piece>,
    b2: Map<(int, int), Piece>,
    ep: Option<(int, int)>,
    piece: Piece,
    from: (int, int),
    only_attack: bool,
    t: (int, int),
)
    requires
        same_sides(b1, b2),
        reaches(b1, ep, piece, from, only_attack, t),
    ensures
        reaches(b2, ep, piece, from, only_attack, t),
{
    let c = piece.color;
    assert forall|dir: (int, int)| #[trigger] on_ray(b1, c, from, dir, t) implies on_ray(b2, c, from, dir, t) by {
        lemma_on_ray_same_sides(b1, b2, c, from, dir, t);
    }
    let f = forward(c);
    assert(free(b1, t) ==> free(b2, t));
    assert(enemy(b1, c, t) ==> enemy(b2, c, t));
    assert(free(b1, (from.0 + f, from.1)) ==> free(b2, (from.0 + f, from.1)));
}

/// Whether square `k` is attacked is the same on two boards whose pieces of
/// the other side than `color` are the same and whose occupied squares are
/// held by the same sides.
proof fn lemma_attacked_same_attackers(
    b1: Map<(int, int), Piece>,
    b2: Map<(int, int), Piece>,
    ep: Option<(int, int)>,
    color: Color,
    k: (int, int),
)
    requires
        same_sides(b1, b2),
        same_sides(b2, b1),
        forall|x: (int, int)| #[trigger] b1.contains_key(x) && b1[x].color != color ==> b1[x] == b2[x],
    ensures
        attacked(b1, ep, color, k) == attacked(b2, ep, color, k),
{
    if attacked(b1, ep, color, k) {
        let p = choose|p: (int, int)|
            b1.contains_key(p) && b1[p].color != color && #[trigger] reaches(b1, ep, b1[p], p, true, k);
        lemma_reaches_same_sides(b1, b2, ep, b1[p], p, true, k);
        assert(reaches(b2, ep, b2[p], p, true, k));
    }
    if attacked(b2, ep, color, k) {
        let p = choose|p: (int, int)|
            b2.contains_key(p) && b2[p].color != color && #[trigger] reaches(b2, ep, b2[p], p, true, k);
        lemma_reaches_same_sides(b2, b1, ep, b2[p], p, true, k);
        assert(reaches(b1, ep, b1[p], p, true, k));
    }
}

/// The first king of `color` is found on the same square of two boards
/// whose squares hold that king alike.
proof fn lemma_king_from_same_kings(b1: Map<(int, int), Piece>, b2: Map<(int, int), Piece>, color: Color, i: int)
    requires
        forall|x: (int, int)|
            (occupant(b1, x) == Some(Piece { piece_type: PieceType::King, color })) == (occupant(b2, x)
                == Some(Piece { piece_type: PieceType::King, color })),
    ensures
        king_from(b1, color, i) == king_from(b2, color, i),
    decreases 64 - i,
{
    if 0 <= i < 64 {
        lemma_king_from_same_kings(b1, b2, color, i + 1);
    }
}

/// The king of `color` on `from` is the only one of its side.
pub open spec fn only_king(m: Map<(int, int), Piece>, color: Color, from: (int, int)) -> bool {
    forall|x: (int, int)|
        #[trigger] occupant(m, x) == Some(Piece { piece_type: PieceType::King, color }) ==> x == from
}

/// A legal move never leaves the king of the side that made it attacked,
/// when it is played without promotion, or with a promotion to a piece of
/// the mover's own side that is no king, made by a piece that is no king or
/// by the only king of its side.
pub proof fn lemma_no_self_check(
    before: GameState,
    from: (int, int),
    to: (int, int),
    prom: Option<Piece>,
    after: GameState,
)
    requires
        move_error(before, from, to) is None,
        move_applied(before, from, to, prom, after),
        prom matches Some(q) ==> q.color == before.whose_move && q.piece_type != PieceType::King
            && (before.board@[from].piece_type != PieceType::King || only_king(
            before.board@,
            before.whose_move,
            from,
        )),
    ensures
        !king_attacked(after.board@, ep_square(after), before.whose_move),
{
    let m = before.board@;
    let color = before.whose_move;
    let ep = ep_square(before);
    let fake = moved(m, from, to);
    let b = after.board@;
    assert(legal(m, ep, m[from], from, to));
    assert(!king_attacked(fake, ep, color));
    match prom {
        None => {
            assert(b =~= fake);
        },
        Some(q) => if m[from].piece_type == PieceType::King {
            lemma_king_from_holds_king(b, color, 0);
            if let Some(k) = king_square(b, color) {
                assert(occupant(m, k) == Some(Piece { piece_type: PieceType::King, color }));
            }
        } else {
            assert(same_sides(fake, b));
            assert(same_sides(b, fake));
            assert forall|x: (int, int)| #[trigger]
                fake.contains_key(x) && fake[x].color != color implies fake[x] == b[x] by {
                if x == to {
                    assert(fake[x].color == color);
                }
            }
            lemma_king_from_same_kings(fake, b, color, 0);
            if let Some(k) = king_square(b, color) {
                lemma_attacked_same_attackers(fake, b, ep, color, k);
            }
        },
    }
    lemma_king_from_holds_king(b, color, 0);
    if let Some(k) = king_square(b, color) {
        lemma_attacked_occupied_square(b, ep, ep_square(after), color, k);
    }
}

/// Over a White move followed by a Black move the full-move number grows by
/// exactly one.
pub proof fn lemma_full_moves_per_pair(
    s0: GameState,
    white_from: (int, int),
    white_to: (int, int),
    white_prom: Option<Piece>,
    s1: GameState,
    black_from: (int, int),
    black_to: (int, int),
    black_prom: Option<Piece>,
    s2: GameState,
)
    requires
        s0.whose_move == Color::White,
        move_error(s0, white_from, white_to) is None,
        move_applied(s0, white_from, white_to, white_prom, s1),
        move_error(s1, black_from, black_to) is None,
        move_applied(s1, black_from, black_to, black_prom, s2),
    ensures
        s2.full_moves == s0.full_moves + 1,
        s2.whose_move == Color::White,
{
}

} // verus!
