use chess_engine::board::SquareSet;
use chess_engine::game_state::{execute_move, GameState, MoveError};
use chess_engine::movegen::{
    generate_attacked_fields, generate_destinations, generate_destinations_bishop, generate_destinations_king,
    generate_destinations_knight, generate_destinations_pawn, generate_destinations_queen,
    generate_destinations_rook, generate_valid_destinations,
};
use chess_engine::parser::parse;
use chess_engine::pieces::{Color, GameResult, Piece, PieceType, Position};

const START: &str = "rnbqkbnr/pppppppp/8/8/8/8/PPPPPPPP/RNBQKBNR w KQkq - 0 1";

fn from_fen(fen: &str) -> GameState {
    let mut state = GameState::new();
    let mut text = fen.to_string();
    parse(&mut text, &mut state);
    state
}

fn piece(piece_type: PieceType, color: Color) -> Piece {
    Piece::new(piece_type, color)
}

fn squares(set: &SquareSet) -> Vec<Position> {
    let mut v = Vec::new();
    for r in 0..8i8 {
        for c in 0..8i8 {
            if set.contains((r, c)) {
                v.push((r, c));
            }
        }
    }
    v
}

#[test]
fn pawn_move_passes_turn_and_resets_clock() {
    let mut state = from_fen("rnbqkbnr/pppppppp/8/8/8/8/PPPPPPPP/RNBQKBNR w KQkq - 7 1");
    assert_eq!(state.whose_move, Color::White);
    assert_eq!(state.execute_move((6, 5), (5, 5), None), Ok(()));
    assert_eq!(state.whose_move, Color::Black);
    assert_eq!(state.half_moves, 0);
    assert_eq!(state.full_moves, 1);
    assert_eq!(state.board.get((5, 5)), Some(piece(PieceType::Pawn, Color::White)));
    assert_eq!(state.board.get((6, 5)), None);
    assert_eq!(state.result, None);
}

#[test]
fn double_step_sets_and_next_move_clears_en_passant() {
    let mut state = from_fen(START);
    assert_eq!(state.execute_move((6, 4), (4, 4), None), Ok(()));
    assert_eq!(state.en_pasant_position, Some((5, 4)));
    assert_eq!(state.execute_move((0, 6), (2, 5), None), Ok(()));
    assert_eq!(state.en_pasant_position, None);
}

#[test]
fn single_step_sets_no_en_passant() {
    let mut state = from_fen(START);
    assert_eq!(state.execute_move((6, 4), (5, 4), None), Ok(()));
    assert_eq!(state.en_pasant_position, None);
}

#[test]
fn lone_king_without_moves_is_stalemate() {
    let mut state = from_fen("k7/8/1Q6/8/8/8/8/7K b - - 0 1");
    state.check_game_ended();
    assert_eq!(state.result, Some(GameResult::Stalemate));
}

#[test]
fn attacked_king_without_moves_is_checkmate() {
    let mut state = from_fen("k7/1Q6/2K5/8/8/8/8/8 b - - 0 1");
    state.check_game_ended();
    assert_eq!(state.result, Some(GameResult::WhiteWin));
}

#[test]
fn white_checkmated_is_black_win() {
    let mut state = from_fen("8/8/8/8/8/2k5/1q6/K7 w - - 0 1");
    state.check_game_ended();
    assert_eq!(state.result, Some(GameResult::BlackWin));
}

#[test]
fn game_with_moves_has_no_result() {
    let mut state = from_fen(START);
    state.check_game_ended();
    assert_eq!(state.result, None);
}

#[test]
fn mating_move_ends_game() {
    // 1. f3 e5 2. g4 Qh4#
    let mut state = from_fen(START);
    assert_eq!(state.execute_move((6, 5), (5, 5), None), Ok(()));
    assert_eq!(state.execute_move((1, 4), (3, 4), None), Ok(()));
    assert_eq!(state.execute_move((6, 6), (4, 6), None), Ok(()));
    assert_eq!(state.result, None);
    assert_eq!(state.execute_move((0, 3), (4, 7), None), Ok(()));
    assert_eq!(state.result, Some(GameResult::BlackWin));
    assert_eq!(state.full_moves, 3);
    let before = state;
    assert_eq!(state.execute_move((6, 0), (5, 0), None), Err(MoveError::GameEnded));
    assert_eq!(state, before);
}

#[test]
fn move_from_empty_square_fails_unchanged() {
    let mut state = from_fen(START);
    let before = state;
    assert_eq!(state.execute_move((4, 4), (3, 4), None), Err(MoveError::MissingPiece));
    assert_eq!(state, before);
    assert_eq!(state.execute_move((-1, 9), (3, 4), None), Err(MoveError::MissingPiece));
    assert_eq!(state, before);
    assert_eq!(MoveError::MissingPiece.message(), "Piece is missing from source square!");
}

#[test]
fn moving_opponents_piece_fails_unchanged() {
    let mut state = from_fen(START);
    let before = state;
    assert_eq!(state.execute_move((1, 4), (3, 4), None), Err(MoveError::NotYourTurn));
    assert_eq!(state, before);
    assert_eq!(MoveError::NotYourTurn.message(), "Not your turn!");
}

#[test]
fn illegal_target_fails_unchanged() {
    let mut state = from_fen(START);
    let before = state;
    assert_eq!(state.execute_move((6, 4), (3, 4), None), Err(MoveError::InvalidMove));
    assert_eq!(state, before);
    assert_eq!(state.execute_move((7, 0), (5, 0), None), Err(MoveError::InvalidMove));
    assert_eq!(state, before);
}

#[test]
fn free_function_plays_without_promotion() {
    let mut state = from_fen(START);
    assert_eq!(execute_move(&mut state, (7, 6), (5, 5)), Ok(()));
    assert_eq!(state.board.get((5, 5)), Some(piece(PieceType::Knight, Color::White)));
    assert_eq!(state.half_moves, 1);
    assert_eq!(state.whose_move, Color::Black);
    assert_eq!(execute_move(&mut state, (7, 1), (5, 2)), Err(MoveError::NotYourTurn));
}

#[test]
fn counters_follow_moves_and_captures() {
    let mut state = from_fen("4k3/8/8/3p4/8/8/8/R3K3 w - - 5 10");
    assert_eq!(state.execute_move((7, 0), (3, 0), None), Ok(()));
    assert_eq!(state.half_moves, 6);
    assert_eq!(state.full_moves, 10);
    assert_eq!(state.execute_move((0, 4), (0, 3), None), Ok(()));
    assert_eq!(state.half_moves, 7);
    assert_eq!(state.full_moves, 11);
    assert_eq!(state.execute_move((3, 0), (3, 3), None), Ok(()));
    assert_eq!(state.half_moves, 0);
    assert_eq!(state.full_moves, 11);
    assert_eq!(state.board.get((3, 3)), Some(piece(PieceType::Rook, Color::White)));
}

#[test]
fn legal_destinations_are_on_board_and_not_own_pieces() {
    let state = from_fen(START);
    for r in 0..8i8 {
        for c in 0..8i8 {
            if let Some(p) = state.board.get((r, c)) {
                let dests = generate_valid_destinations(&state, p, (r, c));
                for d in squares(&dests) {
                    assert!(d.0 >= 0 && d.0 < 8 && d.1 >= 0 && d.1 < 8);
                    if let Some(q) = state.board.get(d) {
                        assert_ne!(q.color, p.color);
                    }
                }
            }
        }
    }
    let knight = generate_valid_destinations(&state, piece(PieceType::Knight, Color::White), (7, 1));
    assert_eq!(squares(&knight), vec![(5, 0), (5, 2)]);
}

#[test]
fn pinned_piece_cannot_expose_king() {
    let state = from_fen("4r2k/8/8/8/8/8/4B3/4K3 w - - 0 1");
    let bishop = piece(PieceType::Bishop, Color::White);
    let dests = generate_valid_destinations(&state, bishop, (6, 4));
    assert!(dests.is_empty());
    let pseudo = generate_destinations(&state, bishop, (6, 4), false);
    assert!(!pseudo.is_empty());
}

#[test]
fn king_may_not_step_into_attack() {
    let state = from_fen("7k/8/8/8/8/8/r7/4K3 w - - 0 1");
    let king = piece(PieceType::King, Color::White);
    let dests = generate_valid_destinations(&state, king, (7, 4));
    assert_eq!(squares(&dests), vec![(7, 3), (7, 5)]);
}

#[test]
fn mover_king_is_safe_after_every_legal_move() {
    let state = from_fen("r3k3/8/8/8/8/8/3PB3/R3K2r w - - 0 1");
    for r in 0..8i8 {
        for c in 0..8i8 {
            if let Some(p) = state.board.get((r, c)) {
                if p.color == Color::White {
                    let dests = generate_valid_destinations(&state, p, (r, c));
                    for d in squares(&dests) {
                        let mut next = state;
                        assert_eq!(next.execute_move((r, c), d, None), Ok(()));
                        let attacked = generate_attacked_fields(&next, Color::White);
                        let king = next.find_king(Color::White).unwrap();
                        assert!(!attacked.contains(king));
                    }
                }
            }
        }
    }
}

#[test]
fn repeated_query_gives_same_set() {
    let state = from_fen("r3k3/8/8/3q4/8/8/3PB3/R3K2r b - - 0 1");
    let queen = piece(PieceType::Queen, Color::Black);
    let first = generate_valid_destinations(&state, queen, (3, 3));
    let second = generate_valid_destinations(&state, queen, (3, 3));
    assert_eq!(first, second);
    assert!(!first.is_empty());
}

#[test]
fn rook_rays_stop_at_pieces() {
    let state = from_fen("8/8/8/1p1R2P1/8/8/8/8 w - - 0 1");
    let rook = piece(PieceType::Rook, Color::White);
    let dests = generate_destinations_rook(&state, rook, (3, 3));
    assert_eq!(
        squares(&dests),
        vec![(0, 3), (1, 3), (2, 3), (3, 1), (3, 2), (3, 4), (3, 5), (4, 3), (5, 3), (6, 3), (7, 3)]
    );
}

#[test]
fn bishop_and_queen_rays() {
    let state = from_fen("8/8/8/8/8/8/1P6/B7 w - - 0 1");
    let bishop = piece(PieceType::Bishop, Color::White);
    assert!(generate_destinations_bishop(&state, bishop, (7, 0)).is_empty());
    let queen = piece(PieceType::Queen, Color::White);
    let dests = generate_destinations_queen(&state, queen, (7, 0));
    assert_eq!(
        squares(&dests),
        vec![(0, 0), (1, 0), (2, 0), (3, 0), (4, 0), (5, 0), (6, 0), (7, 1), (7, 2), (7, 3), (7, 4), (7, 5), (7, 6), (7, 7)]
    );
}

#[test]
fn king_and_knight_from_corner_and_center() {
    let state = GameState::new();
    let king = piece(PieceType::King, Color::Black);
    assert_eq!(squares(&generate_destinations_king(&state, king, (0, 0))), vec![(0, 1), (1, 0), (1, 1)]);
    assert_eq!(squares(&generate_destinations_king(&state, king, (4, 4))).len(), 8);
    let knight = piece(PieceType::Knight, Color::Black);
    assert_eq!(squares(&generate_destinations_knight(&state, knight, (0, 0))), vec![(1, 2), (2, 1)]);
    assert_eq!(
        squares(&generate_destinations_knight(&state, knight, (4, 4))),
        vec![(2, 3), (2, 5), (3, 2), (3, 6), (5, 2), (5, 6), (6, 3), (6, 5)]
    );
}

#[test]
fn pawn_steps_and_attacks() {
    let state = from_fen("8/8/8/8/8/3p4/4P3/8 w - - 0 1");
    let pawn = piece(PieceType::Pawn, Color::White);
    assert_eq!(squares(&generate_destinations_pawn(&state, pawn, (6, 4), false)), vec![(4, 4), (5, 3), (5, 4)]);
    assert_eq!(squares(&generate_destinations_pawn(&state, pawn, (6, 4), true)), vec![(5, 3)]);
    let blocked = from_fen("8/8/8/8/8/4p3/4P3/8 w - - 0 1");
    assert!(generate_destinations_pawn(&blocked, pawn, (6, 4), false).is_empty());
    let black = piece(PieceType::Pawn, Color::Black);
    assert_eq!(squares(&generate_destinations_pawn(&state, black, (1, 0), false)), vec![(2, 0), (3, 0)]);
}

#[test]
fn en_passant_only_onto_target_square() {
    let mut state = from_fen("4k3/8/8/8/5p2/8/4P3/4K3 w - - 0 1");
    assert_eq!(state.execute_move((6, 4), (4, 4), None), Ok(()));
    assert_eq!(state.en_pasant_position, Some((5, 4)));
    let pawn = piece(PieceType::Pawn, Color::Black);
    let dests = generate_valid_destinations(&state, pawn, (4, 5));
    assert_eq!(squares(&dests), vec![(5, 4), (5, 5)]);
    assert!(!dests.contains((5, 6)));
    assert_eq!(state.execute_move((4, 5), (5, 4), None), Ok(()));
    assert_eq!(state.half_moves, 0);
}

#[test]
fn promotion_replaces_piece() {
    let mut state = from_fen("7k/P7/8/8/8/8/8/K7 w - - 0 1");
    let queen = piece(PieceType::Queen, Color::White);
    assert_eq!(state.execute_move((1, 0), (0, 0), Some(queen)), Ok(()));
    assert_eq!(state.board.get((0, 0)), Some(queen));
}

#[test]
fn fake_move_leaves_original() {
    let state = from_fen(START);
    let moved = state.fake_move((6, 4), (4, 4));
    assert_eq!(moved.board.get((4, 4)), Some(piece(PieceType::Pawn, Color::White)));
    assert_eq!(moved.board.get((6, 4)), None);
    assert_eq!(state.board.get((6, 4)), Some(piece(PieceType::Pawn, Color::White)));
    assert_eq!(moved.whose_move, state.whose_move);
}

#[test]
fn find_king_of_each_side() {
    let state = from_fen(START);
    assert_eq!(state.find_king(Color::White), Some((7, 4)));
    assert_eq!(state.find_king(Color::Black), Some((0, 4)));
    assert_eq!(GameState::new().find_king(Color::White), None);
}

#[test]
fn squares_off_the_board_are_refused_by_the_rules() {
    let mut state = from_fen(START);
    let before = state;
    assert_eq!(state.execute_move((6, 8), (4, 0), None), Err(MoveError::MissingPiece));
    assert_eq!(state.execute_move((6, 7), (8, 7), None), Err(MoveError::InvalidMove));
    assert_eq!(state, before);
}

#[test]
fn full_counters_still_report_refused_moves() {
    let mut state = from_fen("rnbqkbnr/pppppppp/8/8/8/8/PPPPPPPP/RNBQKBNR w KQkq - 65535 65535");
    let before = state;
    assert!(state.counters_allow((4, 4), (3, 4)));
    assert_eq!(state.execute_move((4, 4), (3, 4), None), Err(MoveError::MissingPiece));
    assert!(state.counters_allow((1, 4), (3, 4)));
    assert_eq!(state.execute_move((1, 4), (3, 4), None), Err(MoveError::NotYourTurn));
    assert_eq!(state, before);
    assert!(!state.counters_allow((7, 6), (5, 5)));
    assert!(state.counters_allow((6, 4), (4, 4)));
    assert_eq!(state.execute_move((6, 4), (4, 4), None), Ok(()));
    assert_eq!(state.half_moves, 0);
    assert_eq!(state.full_moves, 65535);
    assert!(!state.counters_allow((1, 4), (3, 4)));
}

#[test]
fn check_move_names_the_mover() {
    let state = from_fen(START);
    assert_eq!(state.check_move((7, 6), (5, 5)), Ok(piece(PieceType::Knight, Color::White)));
    assert_eq!(state.check_move((7, 6), (6, 4)), Err(MoveError::InvalidMove));
}
