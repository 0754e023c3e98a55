use vstd::prelude::*;

use crate::game_state::{
    apply_model, initial_masks, BoardModel, CastlingRights, Color, GameState, Move, Position,
};
use crate::minimax_search::{
    lemma_legal_list, legal_list, negamax_alpha_beta_with_trasposition_table,
};
use crate::move_generator::{
    carries_snapshot, first_with_endpoints, in_check, legal_moves_of, sound_move, MoveGenerator,
};
use crate::transposition_table::TranspositionTable;
use crate::uci_utils;

verus! {

/// A game between a player and the engine, which plays `ai_color` by searching
/// `search_depth` plies.
pub struct Game {
    ai_color: Color,
    game_state: GameState,
    move_generator: MoveGenerator,
    transposition_table: TranspositionTable,
    search_depth: u16,
}

/// `next` is the board after a legal move of board `b`.
pub open spec fn after_legal_move(b: BoardModel, next: BoardModel) -> bool {
    exists|m: Move|
        carries_snapshot(m, b) && sound_move(b, m, b.to_move) && !in_check(
            apply_model(b, m),
            b.to_move,
        ) && next == #[trigger] apply_model(b, m)
}

impl Game {
    pub closed spec fn board_view(&self) -> BoardModel {
        self.game_state@
    }

    pub closed spec fn engine_color(&self) -> Color {
        self.ai_color
    }

    pub closed spec fn wf(&self) -> bool {
        self.transposition_table.wf()
    }

    pub fn new(ai_color: Color, depth: u16) -> (r: Self)
        ensures
            r.wf(),
            r.engine_color() == ai_color,
            r.board_view().masks == initial_masks(),
            r.board_view().en_passant == None::<Position>,
            r.board_view().castling_rights == CastlingRights::all(),
            r.board_view().to_move == Color::WHITE,
    {
        let game_state = GameState::new();
        let transposition_table = TranspositionTable::with_capacity(1_000_000);
        let move_generator = MoveGenerator::new();
        Game {
            ai_color,
            game_state,
            move_generator,
            transposition_table,
            search_depth: depth,
        }
    }

    /// Reads a square from a file letter and a rank digit.
    pub fn parse_position(file_raw: char, rank_raw: char) -> (r: Result<Position, String>)
        ensures
            r.is_ok() == uci_utils::square_value(file_raw, rank_raw).is_some(),
            r matches Ok(p) ==> Some(p.index()) == uci_utils::square_value(file_raw, rank_raw),
    {
        uci_utils::parse_position(file_raw, rank_raw)
    }

    pub fn game_state(&self) -> (r: &GameState)
        ensures
            r@ == self.board_view(),
    {
        &self.game_state
    }

    /// Whether the engine is to move.
    pub fn is_ai_turn(&self) -> (r: bool)
        ensures
            r == (self.board_view().to_move == self.engine_color()),
    {
        self.game_state.to_move() == self.ai_color
    }

    /// The engine searches and plays its best move; false when it has none (the game
    /// is over) and the board is left as it was.
    pub fn play_ai_move(&mut self) -> (r: bool)
        requires
            old(self).wf(),
        ensures
            final(self).wf(),
            final(self).engine_color() == old(self).engine_color(),
            r ==> after_legal_move(old(self).board_view(), final(self).board_view()),
            !r ==> final(self).board_view() == old(self).board_view(),
    {
        let (best, _, _) = negamax_alpha_beta_with_trasposition_table(
            &mut self.game_state,
            &self.move_generator,
            &mut self.transposition_table,
            self.search_depth,
        );
        match best {
            Some(m) => {
                let ghost b = self.game_state@;
                self.game_state.apply_move_mut(m);
                assert(self.game_state@ == apply_model(b, m));
                true
            },
            None => false,
        }
    }

    /// Plays the first legal move from `from` to `to`; false when there is none and
    /// the board is left as it was.
    pub fn play_move(&mut self, from: Position, to: Position) -> (r: bool)
        requires
            old(self).wf(),
        ensures
            final(self).wf(),
            final(self).engine_color() == old(self).engine_color(),
            r ==> after_legal_move(old(self).board_view(), final(self).board_view()),
            !r ==> final(self).board_view() == old(self).board_view(),
            r == first_with_endpoints(legal_list(old(self).board_view()), from, to) is Some,
            r ==> final(self).board_view() == apply_model(
                old(self).board_view(),
                first_with_endpoints(legal_list(old(self).board_view()), from, to).unwrap(),
            ),
    {
        let found = self.move_generator.get_move(&self.game_state, from, to);
        proof {
            let moves = choose|moves: Seq<Move>|
                legal_moves_of(self.game_state@, moves) && found == #[trigger] first_with_endpoints(
                    moves,
                    from,
                    to,
                );
            lemma_legal_list(self.game_state@, moves);
        }
        match found {
            Some(m) => {
                let ghost b = self.game_state@;
                self.game_state.apply_move_mut(m);
                assert(self.game_state@ == apply_model(b, m));
                true
            },
            None => false,
        }
    }
}

} // verus!
