use chess_engine::castles::CastlesState;
use chess_engine::game_state::GameState;
use chess_engine::parser::{is_complete_fen, parse, parse_move, std_pos_to_couple, ParseError};
use chess_engine::pieces::{is_in_bounds, piece_type_from_letter, Color, Piece, PieceType};

#[test]
fn square_names() {
    assert_eq!(std_pos_to_couple("e4".to_string()), Ok((4, 4)));
    assert_eq!(std_pos_to_couple("a8".to_string()), Ok((0, 0)));
    assert_eq!(std_pos_to_couple("h1".to_string()), Ok((7, 7)));
    assert_eq!(std_pos_to_couple("i1".to_string()), Ok((7, 8)));
    assert_eq!(std_pos_to_couple("a0".to_string()), Ok((8, 0)));
    assert_eq!(std_pos_to_couple("j1".to_string()), Err(ParseError::InvalidPosition));
    assert_eq!(std_pos_to_couple("a9".to_string()), Err(ParseError::InvalidPosition));
    assert_eq!(std_pos_to_couple("a".to_string()), Err(ParseError::InvalidPosition));
    assert_eq!(ParseError::InvalidPosition.message(), "Invalid Position!");
}

#[test]
fn moves_are_read() {
    assert_eq!(parse_move("a2:a4".to_string()), Ok(((6, 0), (4, 0))));
    assert_eq!(parse_move("  e2:e4\n".to_string()), Ok(((6, 4), (4, 4))));
    assert_eq!(parse_move("a2a4".to_string()), Err(ParseError::InvalidMove));
    assert_eq!(parse_move("a2:a4:a5".to_string()), Err(ParseError::InvalidMove));
    assert_eq!(parse_move("z9:a1".to_string()), Err(ParseError::InvalidPosition));
    assert_eq!(parse_move("i2:a4".to_string()), Ok(((6, 8), (4, 0))));
    assert_eq!(parse_move("a1:".to_string()), Err(ParseError::InvalidPosition));
}

#[test]
fn fen_characters() {
    assert_eq!(Piece::from_fen_char('n'), Piece::new(PieceType::Knight, Color::Black));
    assert_eq!(Piece::from_fen_char('Q'), Piece::new(PieceType::Queen, Color::White));
    assert_eq!(Piece::from_fen_char('x'), Piece::new(PieceType::Pawn, Color::Black));
    assert_eq!(Piece::new(PieceType::Rook, Color::Black).to_fen_char(), 'r');
    assert_eq!(Piece::new(PieceType::King, Color::White).to_fen_char(), 'K');
    assert_eq!(piece_type_from_letter('b'), PieceType::Bishop);
}

#[test]
fn castling_field() {
    let all = CastlesState::from_fen_str("KQkq".to_string());
    assert!(all.white_king && all.white_queen && all.black_king && all.black_queen);
    let some = CastlesState::from_fen_str("Kq".to_string());
    assert!(some.white_king && !some.white_queen && !some.black_king && some.black_queen);
    let none = CastlesState::from_fen_str("-".to_string());
    assert_eq!(none, CastlesState::new());
}

#[test]
fn full_record_is_read() {
    let mut text = "rnbqkbnr/pp1ppppp/8/2p5/4P3/8/PPPP1PPP/RNBQKBNR w Kq c6 3 12".to_string();
    assert!(is_complete_fen(&text));
    let mut state = GameState::new();
    parse(&mut text, &mut state);
    assert_eq!(state.whose_move, Color::White);
    assert_eq!(state.en_pasant_position, Some((2, 2)));
    assert_eq!(state.half_moves, 3);
    assert_eq!(state.full_moves, 12);
    assert!(state.castles.white_king && !state.castles.white_queen);
    assert!(!state.castles.black_king && state.castles.black_queen);
    assert_eq!(state.board.get((3, 2)), Some(Piece::new(PieceType::Pawn, Color::Black)));
    assert_eq!(state.board.get((4, 4)), Some(Piece::new(PieceType::Pawn, Color::White)));
    assert_eq!(state.board.get((0, 3)), Some(Piece::new(PieceType::Queen, Color::Black)));
    assert_eq!(state.board.get((6, 4)), None);
    assert_eq!(state.result, None);
}

#[test]
fn black_to_move_without_target() {
    let mut text = "8/8/8/8/8/8/8/8 b - - 0 1".to_string();
    let mut state = GameState::new();
    parse(&mut text, &mut state);
    assert_eq!(state.whose_move, Color::Black);
    assert_eq!(state.en_pasant_position, None);
}

#[test]
fn incomplete_records_are_refused() {
    assert!(!is_complete_fen(&"8/8/8/8/8/8/8/8 w - -".to_string()));
    assert!(!is_complete_fen(&"8/8/8/8/8/8/8/8 w - - x 1".to_string()));
    assert!(!is_complete_fen(&"8/8/8/8/8/8/8/8 w - - 0 70000".to_string()));
    assert!(is_complete_fen(&"8/8/8/8/8/8/8/8 w - - +5 65535".to_string()));
}

#[test]
fn bounds() {
    assert!(is_in_bounds((0, 7)));
    assert!(!is_in_bounds((8, 0)));
    assert!(!is_in_bounds((0, -1)));
}
