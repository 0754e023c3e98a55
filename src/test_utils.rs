use vstd::prelude::*;

use crate::game_state::{apply_model, BoardModel, GameState, Move, Position};
use crate::minimax_search::{legal_list, lemma_legal_list};
use crate::move_generator::{
    carries_snapshot, first_with_endpoints, in_check, legal_moves_of, sound_move, MoveGenerator,
};
use crate::uci_utils::{is_move_token, parse_move, square_value};

verus! {

/// The board after the moves `ms` are played from `b` in order.
pub open spec fn play_all(b: BoardModel, ms: Seq<Move>) -> BoardModel
    decreases ms.len(),
{
    if ms.len() == 0 {
        b
    } else {
        apply_model(play_all(b, ms.drop_last()), ms.last())
    }
}

/// Each move of `ms` is a legal move of the board it is played on.
pub open spec fn legal_sequence(b: BoardModel, ms: Seq<Move>) -> bool {
    forall|i: int|
        0 <= i < ms.len() ==> {
            let before = play_all(b, ms.subrange(0, i));
            carries_snapshot(#[trigger] ms[i], before) && sound_move(before, ms[i], before.to_move)
                && !in_check(apply_model(before, ms[i]), before.to_move)
        }
}

/// `token` does not name a legal move of `b`: it is no move token, or no legal move
/// goes between the squares it names.
pub open spec fn token_fails(b: BoardModel, token: Seq<char>) -> bool {
    !is_move_token(token) || !exists|j: int|
        0 <= j < legal_list(b).len() && Some(legal_list(b)[j].from.index()) == square_value(
            token[0],
            token[1],
        ) && Some(#[trigger] legal_list(b)[j].to.index()) == square_value(token[2], token[3])
}

proof fn lemma_no_first(ms: Seq<Move>, from: Position, to: Position)
    requires
        first_with_endpoints(ms, from, to) is None,
    ensures
        forall|j: int| 0 <= j < ms.len() ==> !(#[trigger] ms[j].from == from && ms[j].to == to),
    decreases ms.len(),
{
    if ms.len() > 0 {
        lemma_no_first(ms.drop_first(), from, to);
        assert forall|j: int| 0 <= j < ms.len() implies !(#[trigger] ms[j].from == from && ms[j].to
            == to) by {
            if j > 0 {
                assert(ms[j] == ms.drop_first()[j - 1]);
            }
        }
    }
}

proof fn lemma_token_fails(b: BoardModel, ms: Seq<Move>, token: Seq<char>, from: Position, to: Position)
    requires
        legal_list(b) == ms,
        first_with_endpoints(ms, from, to) is None,
        Some(from.index()) == square_value(token[0], token[1]),
        Some(to.index()) == square_value(token[2], token[3]),
    ensures
        token_fails(b, token),
{
    lemma_no_first(ms, from, to);
    if exists|j: int|
        0 <= j < ms.len() && Some(ms[j].from.index()) == square_value(token[0], token[1]) && Some(
            #[trigger] ms[j].to.index(),
        ) == square_value(token[2], token[3]) {
        let j = choose|j: int|
            0 <= j < ms.len() && Some(ms[j].from.index()) == square_value(token[0], token[1])
                && Some(#[trigger] ms[j].to.index()) == square_value(token[2], token[3]);
        Position::lemma_index_injective(ms[j].from, from);
        Position::lemma_index_injective(ms[j].to, to);
    }
}

/// Plays a sequence of move tokens from `game_state`, each matched to the first legal
/// move with the same endpoints. Stops at the first token that does not parse or
/// matches no legal move, and says whether every token was played.
#[verifier::rlimit(100)]
pub fn apply_position(
    moves: Vec<String>,
    game_state: &mut GameState,
    move_generator: &MoveGenerator,
) -> (r: bool)
    ensures
        exists|played: Seq<Move>|
            legal_sequence(old(game_state)@, played) && final(game_state)@ == #[trigger] play_all(
                old(game_state)@,
                played,
            ) && played.len() <= moves@.len() && (r <==> played.len() == moves@.len()) && (!r
                ==> token_fails(play_all(old(game_state)@, played), moves@[played.len() as int]@)),
        r ==> forall|i: int| 0 <= i < moves@.len() ==> is_move_token(#[trigger] moves@[i]@),
{
    let ghost start = game_state@;
    let ghost mut played: Seq<Move> = seq![];
    let mut i: usize = 0;
    while i < moves.len()
        invariant
            i <= moves@.len(),
            played.len() == i,
            legal_sequence(start, played),
            game_state@ == play_all(start, played),
            start == old(game_state)@,
            forall|k: int| 0 <= k < i ==> is_move_token(#[trigger] moves@[k]@),
        decreases moves@.len() - i,
    {
        let parsed = match parse_move(moves[i].as_str()) {
            Ok(u) => u,
            Err(_) => return false,
        };
        let found = move_generator.get_move(game_state, parsed.0, parsed.1);
        proof {
            let ms = choose|ms: Seq<Move>|
                legal_moves_of(game_state@, ms) && found == #[trigger] first_with_endpoints(
                    ms,
                    parsed.0,
                    parsed.1,
                );
            lemma_legal_list(game_state@, ms);
            if found is None {
                lemma_token_fails(game_state@, ms, moves@[i as int]@, parsed.0, parsed.1);
            }
        }
        match found {
            Some(m) => {
                let ghost before = game_state@;
                game_state.apply_move_mut(m);
                proof {
                    let next = played.push(m);
                    assert(next.drop_last() =~= played);
                    assert forall|k: int| 0 <= k < next.len() implies {
                        let b = play_all(start, next.subrange(0, k));
                        carries_snapshot(#[trigger] next[k], b) && sound_move(b, next[k], b.to_move)
                            && !in_check(apply_model(b, next[k]), b.to_move)
                    } by {
                        if k < played.len() {
                            assert(next.subrange(0, k) =~= played.subrange(0, k));
                            assert(next[k] == played[k]);
                        } else {
                            assert(next.subrange(0, k) =~= played);
                        }
                    }
                    played = next;
                }
            },
            None => return false,
        }
        i = i + 1;
    }
    true
}

} // verus!
