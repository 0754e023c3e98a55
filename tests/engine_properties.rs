use rust_chess::evaluator::evaluate;
use rust_chess::game_state::{CastlingRights, Color, GameState, MoveType, Piece, Position};
use rust_chess::minimax_search::{negamax_alpha_beta, negamax_alpha_beta_with_trasposition_table};
use rust_chess::move_generator::MoveGenerator;
use rust_chess::test_utils::apply_position;
use rust_chess::transposition_table::{MatchType, TranspositionTable};
use rust_chess::uci_utils::{move_to_uci, parse_move};
use rust_chess::zobrist_hash;

fn play(tokens: &[&str], state: &mut GameState, generator: &MoveGenerator) {
    let moves: Vec<String> = tokens.iter().map(|s| s.to_string()).collect();
    assert!(apply_position(moves, state, generator));
}

fn assert_all_moves_revertible(state: &GameState, generator: &MoveGenerator) {
    let moves = generator.generate_moves(state).moves;
    assert!(!moves.is_empty());
    let mut copy = state.clone();
    for m in moves {
        copy.apply_move_mut(m);
        assert_ne!(state.zobrist_hash, copy.zobrist_hash);
        copy.unapply_move_mut(m);
        assert_eq!(*state, copy);
    }
}

#[test]
fn moves_are_revertible_in_a_middle_game() {
    let generator = MoveGenerator::new();
    let mut state = GameState::new();
    play(&["e2e4", "c7c5", "g1f3", "d7d6", "d2d4", "c5d4", "f3d4", "g8f6", "b1c3", "a7a6"], &mut state, &generator);
    assert_all_moves_revertible(&state, &generator);
}

#[test]
fn moves_are_revertible_with_castling_and_en_passant_available() {
    let generator = MoveGenerator::new();
    let mut state = GameState::new();
    play(&["e2e4", "g8f6", "e4e5", "d7d5", "g1f3", "b8c6", "f1b5"], &mut state, &generator);
    play(&["c8d7"], &mut state, &generator);
    play(&["e1g1", "d5d4", "c2c4"], &mut state, &generator);
    let moves = generator.generate_moves(&state).moves;
    assert!(moves.iter().any(|m| m.move_type == MoveType::EnPassant));
    assert_all_moves_revertible(&state, &generator);
}

#[test]
fn castling_is_revertible() {
    let generator = MoveGenerator::new();
    let mut state = GameState::new();
    play(&["g1f3", "g8f6", "e2e3", "e7e6", "f1e2", "f8e7"], &mut state, &generator);
    let castling = generator.get_move(&state, Position::new(5, 1), Position::new(7, 1)).unwrap();
    assert_eq!(MoveType::Castling, castling.move_type);
    let before = state.clone();
    state.apply_move_mut(castling);
    assert_eq!(Some((Piece::ROOK, Color::WHITE)), state.get_piece(Position::new(6, 1)));
    assert_eq!(Some((Piece::KING, Color::WHITE)), state.get_piece(Position::new(7, 1)));
    assert_eq!(None, state.get_piece(Position::new(8, 1)));
    assert!(!state.castling_rights.white_king_side);
    assert!(!state.castling_rights.white_queen_side);
    assert!(state.castling_rights.black_king_side);
    state.unapply_move_mut(castling);
    assert_eq!(before, state);
}

#[test]
fn start_position_allows_double_pawn_step() {
    let generator = MoveGenerator::new();
    let state = GameState::new();
    let moves = generator.generate_moves(&state).moves;
    assert_eq!(20, moves.len());
    assert!(moves.iter().any(|m| m.from == Position::new(5, 2) && m.to == Position::new(5, 4) && m.move_type == MoveType::Step));
}

#[test]
fn queen_recaptures_in_scandinavian() {
    let generator = MoveGenerator::new();
    let mut state = GameState::new();
    play(&["e2e4", "d7d5", "e4d5"], &mut state, &generator);
    let moves = generator.generate_moves(&state).moves;
    assert!(moves.iter().any(|m| m.from == Position::new(4, 8) && m.to == Position::new(4, 5)
        && m.moving_piece == Piece::QUEEN && m.move_type == MoveType::Capture(Piece::PAWN)));
}

#[test]
fn fools_mate_is_checkmate() {
    let generator = MoveGenerator::new();
    let mut state = GameState::new();
    play(&["f2f3", "e7e6", "g2g4"], &mut state, &generator);
    let queen_move = generator.get_move(&state, Position::new(4, 8), Position::new(8, 4)).unwrap();
    assert_eq!(Piece::QUEEN, queen_move.moving_piece);
    state.apply_move_mut(queen_move);
    let reply = generator.generate_moves(&state);
    assert!(reply.is_check);
    assert!(reply.moves.is_empty());
    assert!(reply.is_checkmate());
}

#[test]
fn exactly_one_king_side_castling_move() {
    let generator = MoveGenerator::new();
    let mut state = GameState::new();
    play(&["g1f3", "g8f6", "e2e3", "e7e6", "f1e2", "f8e7"], &mut state, &generator);
    let castling: Vec<_> = generator.generate_moves(&state).moves.into_iter()
        .filter(|m| m.move_type == MoveType::Castling).collect();
    assert_eq!(1, castling.len());
    assert_eq!(Position::new(5, 1), castling[0].from);
    assert_eq!(Position::new(7, 1), castling[0].to);
}

#[test]
fn en_passant_lands_behind_the_pawn_for_white() {
    let generator = MoveGenerator::new();
    let mut state = GameState::new();
    play(&["e2e4", "a7a6", "e4e5", "d7d5"], &mut state, &generator);
    assert_eq!(Some(Position::new(4, 5)), state.en_passant());
    let moves = generator.generate_moves(&state).moves;
    let ep: Vec<_> = moves.iter().filter(|m| m.move_type == MoveType::EnPassant).collect();
    assert_eq!(1, ep.len());
    assert_eq!(Position::new(5, 5), ep[0].from);
    assert_eq!(Position::new(4, 6), ep[0].to);
    state.apply_move_mut(*ep[0]);
    assert_eq!(None, state.get_piece(Position::new(4, 5)));
    assert_eq!(Some((Piece::PAWN, Color::WHITE)), state.get_piece(Position::new(4, 6)));
}

#[test]
fn en_passant_lands_behind_the_pawn_for_black() {
    let generator = MoveGenerator::new();
    let mut state = GameState::new();
    play(&["a2a3", "d7d5", "a3a4", "d5d4", "e2e4"], &mut state, &generator);
    let moves = generator.generate_moves(&state).moves;
    let ep: Vec<_> = moves.iter().filter(|m| m.move_type == MoveType::EnPassant).collect();
    assert_eq!(1, ep.len());
    assert_eq!(Position::new(4, 4), ep[0].from);
    assert_eq!(Position::new(5, 3), ep[0].to);
}

#[test]
fn legal_moves_never_leave_the_king_attacked() {
    let generator = MoveGenerator::new();
    let mut state = GameState::new();
    play(&["e2e4", "e7e5", "d1h5", "b8c6", "f1c4", "g8f6"], &mut state, &generator);
    let mover = state.to_move();
    for m in generator.generate_moves(&state).moves {
        let next = state.apply_move(m);
        assert!(!generator.is_check(&next, mover));
    }
}

#[test]
fn stalemate_is_not_checkmate() {
    let generator = MoveGenerator::new();
    let mut state = GameState::new();
    play(&["e2e3", "a7a5", "d1h5", "a8a6", "h5a5", "h7h5", "h2h4", "a6h6", "a5c7", "f7f6",
        "c7d7", "e8f7", "d7b7", "d8d3", "b7b8", "d3h7", "b8c8", "f7g6", "c8e6"], &mut state, &generator);
    let reply = generator.generate_moves(&state);
    assert!(reply.moves.is_empty());
    assert!(!reply.is_check);
    assert!(!reply.is_checkmate());
}

#[test]
fn transposed_move_orders_give_the_same_hash() {
    let generator = MoveGenerator::new();
    let mut first = GameState::new();
    play(&["g1f3", "g8f6", "b1c3", "b8c6"], &mut first, &generator);
    let mut second = GameState::new();
    play(&["b1c3", "b8c6", "g1f3", "g8f6"], &mut second, &generator);
    assert_eq!(first.zobrist_hash, second.zobrist_hash);
    assert_eq!(zobrist_hash::hash(&first), first.zobrist_hash);
    assert_ne!(GameState::new().zobrist_hash, first.zobrist_hash);
}

#[test]
fn incremental_hash_matches_full_hash() {
    let generator = MoveGenerator::new();
    let mut state = GameState::new();
    assert_eq!(zobrist_hash::hash(&state), state.zobrist_hash);
    for token in ["e2e4", "d7d5", "e4d5", "d8d5", "g1f3", "d5e4", "f1e2", "c8g4", "e1g1"] {
        play(&[token], &mut state, &generator);
        assert_eq!(zobrist_hash::hash(&state), state.zobrist_hash);
    }
}

#[test]
fn alpha_beta_matches_with_and_without_table() {
    let generator = MoveGenerator::new();
    let mut state = GameState::new();
    play(&["e2e4", "e7e5", "g1f3"], &mut state, &generator);
    let table = &mut TranspositionTable::with_capacity(10_000);
    for depth in 0..=3 {
        let (m1, e1, _) = negamax_alpha_beta(&mut state, &generator, depth);
        let (m2, e2, _) = negamax_alpha_beta_with_trasposition_table(&mut state, &generator, table, depth);
        assert_eq!(e1, e2);
        assert_eq!(m1, m2);
    }
}

#[test]
fn depth_zero_search_is_the_static_evaluation() {
    let generator = MoveGenerator::new();
    let mut state = GameState::new();
    play(&["e2e4"], &mut state, &generator);
    let (m, e, nodes) = negamax_alpha_beta(&mut state, &generator, 0);
    assert_eq!(None, m);
    assert_eq!(-100, e);
    assert_eq!(1, nodes);
}

#[test]
fn evaluation_of_known_positions() {
    let generator = MoveGenerator::new();
    let mut state = GameState::new();
    let mut evaluations = vec![evaluate(&state)];
    for token in ["e2e4", "d7d5", "e4d5"] {
        play(&[token], &mut state, &generator);
        evaluations.push(evaluate(&state));
    }
    assert_eq!(vec![0, 100, 0, 1150], evaluations);
}

#[test]
fn parse_move_accepts_and_rejects_tokens() {
    let m = parse_move("e2e4").unwrap();
    assert_eq!(Position::new(5, 2), m.0);
    assert_eq!(Position::new(5, 4), m.1);
    assert_eq!(None, m.2);
    let p = parse_move("a7a8q").unwrap();
    assert_eq!(Some(Piece::QUEEN), p.2);
    assert_eq!("a7a8q", p.to_string());
    assert!(parse_move("e2e").is_err());
    assert!(parse_move("e2e4e5").is_err());
    assert!(parse_move("i2e4").is_err());
    assert!(parse_move("e9e4").is_err());
    assert!(parse_move("e0e4").is_err());
    assert!(parse_move("e7e8k").is_err());
}

#[test]
fn uci_round_trip_of_generated_move() {
    let generator = MoveGenerator::new();
    let state = GameState::new();
    let m = generator.get_move(&state, Position::new(7, 1), Position::new(6, 3)).unwrap();
    assert_eq!("g1f3", move_to_uci(&m).to_string());
}

#[test]
fn transposition_table_stores_and_overwrites() {
    let mut table = TranspositionTable::with_capacity(10);
    assert!(table.check(3, 0).is_none());
    table.update(3, 2, 42, MatchType::EXACT);
    assert!(matches!(table.check(3, 2), Some((MatchType::EXACT, 42))));
    assert!(matches!(table.check(3, 1), Some((MatchType::EXACT, 42))));
    assert!(table.check(3, 3).is_none());
    table.update(13, 5, -7, MatchType::LOWERBOUND);
    assert!(table.check(3, 0).is_none());
    assert!(matches!(table.check(13, 4), Some((MatchType::LOWERBOUND, -7))));
}

#[test]
fn board_text_and_square_helpers() {
    let state = GameState::new();
    let text = state.to_string();
    let lines: Vec<&str> = text.split('\n').collect();
    assert_eq!(8, lines.len());
    assert_eq!("\u{265c}\u{265e}\u{265d}\u{265b}\u{265a}\u{265d}\u{265e}\u{265c}", lines[0]);
    assert_eq!("        ", lines[3]);
    assert_eq!("\u{2656}\u{2658}\u{2657}\u{2655}\u{2654}\u{2657}\u{2658}\u{2656}", lines[7]);
    assert_eq!(Position::new(3, 6), Position::new(3, 3).mirror_rank());
    assert_eq!(None, Position::new(8, 8).delta(1, 0));
    assert_eq!(Some(Position::new(7, 7)), Position::new(8, 8).delta(-1, -1));
    let none_white = CastlingRights::none(Color::WHITE);
    assert!(!none_white.white_king_side && !none_white.white_queen_side);
    assert!(none_white.black_king_side && none_white.black_queen_side);
    assert_eq!(Color::BLACK, Color::WHITE.opposite());
}

#[test]
fn checkmated_black_scores_lowest() {
    let generator = MoveGenerator::new();
    let mut state = GameState::new();
    play(&["e2e4", "f7f6", "d2d4", "g7g5", "d1h5"], &mut state, &generator);
    assert!(generator.generate_moves(&state).is_checkmate());
    let (m, e, nodes) = negamax_alpha_beta(&mut state, &generator, 1);
    assert_eq!(None, m);
    assert_eq!(-i32::MAX, e);
    assert_eq!(1, nodes);
    let table = &mut TranspositionTable::with_capacity(100);
    let (m2, e2, _) = negamax_alpha_beta_with_trasposition_table(&mut state, &generator, table, 2);
    assert_eq!(None, m2);
    assert_eq!(-i32::MAX, e2);
}

#[test]
fn set_stop_flag_gives_empty_result() {
    let generator = MoveGenerator::new();
    let mut state = GameState::new();
    let before = state.clone();
    let table = &mut TranspositionTable::with_capacity(100);
    let stop = std::sync::atomic::AtomicBool::new(true);
    let r = rust_chess::minimax_search::negamax_alpha_beta_with_trasposition_table_and_principal_variation(
        &mut state, &generator, table, None, 3, &stop);
    assert_eq!((None, 0, 0), r);
    assert_eq!(before, state);
    assert!(table.check(state.zobrist_hash, 0).is_none());
}

#[test]
fn search_returns_a_move_with_its_value() {
    let generator = MoveGenerator::new();
    let mut state = GameState::new();
    play(&["f2f3", "e7e6", "g2g4"], &mut state, &generator);
    let (m, e, _) = negamax_alpha_beta(&mut state, &generator, 2);
    let m = m.unwrap();
    assert_eq!("d8h4", move_to_uci(&m).to_string());
    assert_eq!(i32::MAX, e);
}
