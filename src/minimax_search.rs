use std::sync::atomic::{AtomicBool, Ordering};
use vstd::prelude::*;

use crate::evaluator::{evaluate, evaluation, lemma_evaluation_bounds};
use crate::game_state::{apply_model, lemma_unapply_inverts_apply, BoardModel, Color, GameState, Move};
use crate::move_generator::{
    all_carry, all_legal, all_sound, carries_snapshot, in_check, legal_moves_of,
    lemma_legal_moves_unique, sound_move, MoveGenerator,
};
use crate::transposition_table::{lookup, slot_of, MatchType, TranspositionEntry, TranspositionTable};

verus! {

broadcast use crate::game_state::GameState::lemma_masks_len;

/// The largest evaluation; its negation is the smallest, so that negating an
/// evaluation never overflows.
pub const EVAL_MAX: i32 = 2147483647;

pub const EVAL_MIN: i32 = -2147483647;

/// +1 when White is to move, -1 when Black is.
pub open spec fn side_sign(b: BoardModel) -> int {
    if b.to_move == Color::WHITE {
        1
    } else {
        -1
    }
}

/// A search result: no move, or a legal move of the board searched; an evaluation
/// within the symmetric range.
pub open spec fn valid_result(b: BoardModel, r: (Option<Move>, i32, u64)) -> bool {
    &&& EVAL_MIN <= r.1 <= EVAL_MAX
    &&& r.0 matches Some(m) ==> carries_snapshot(m, b) && sound_move(b, m, b.to_move) && !in_check(
        apply_model(b, m),
        b.to_move,
    )
}

fn side_multiplier(game_state: &GameState) -> (r: i32)
    ensures
        r == side_sign(game_state@),
{
    match game_state.to_move() {
        Color::WHITE => 1,
        Color::BLACK => -1,
    }
}

/// The static evaluation from the side to move's point of view.
fn relative_evaluation(game_state: &GameState) -> (r: i32)
    ensures
        r == side_sign(game_state@) * evaluation(game_state@),
        EVAL_MIN <= r <= EVAL_MAX,
{
    let sign = side_multiplier(game_state);
    let e = evaluate(game_state);
    sign * e
}

/// The legal moves of `b`, in generation order.
pub open spec fn legal_list(b: BoardModel) -> Seq<Move> {
    choose|ms: Seq<Move>| legal_moves_of(b, ms)
}

/// The static evaluation from the point of view of the side to move.
pub open spec fn leaf_value(b: BoardModel) -> int {
    side_sign(b) * evaluation(b)
}

/// The score of move `m` of `b` for the side to move: the negated value of the board
/// after it, searched one ply less.
pub open spec fn child_score(b: BoardModel, m: Move, depth: nat) -> int
    decreases depth, 0nat, 0nat,
{
    if depth == 0 {
        EVAL_MIN as int
    } else {
        -negamax_value(apply_model(b, m), (depth - 1) as nat)
    }
}

/// The value of `b` for its side to move by full-width negamax to `depth` plies: the
/// static evaluation at depth zero or without legal moves, `-EVAL_MAX` when checkmated,
/// else the best child score.
pub open spec fn negamax_value(b: BoardModel, depth: nat) -> int
    decreases depth, 2nat, 0nat,
{
    if depth == 0 {
        leaf_value(b)
    } else {
        let ms = legal_list(b);
        if ms.len() == 0 {
            if in_check(b, b.to_move) {
                -EVAL_MAX as int
            } else {
                leaf_value(b)
            }
        } else {
            best_of(b, ms, depth)
        }
    }
}

/// The largest child score of the moves `ms` of `b`, and at least `EVAL_MIN`.
pub open spec fn best_of(b: BoardModel, ms: Seq<Move>, depth: nat) -> int
    decreases depth, 1nat, ms.len(),
{
    if ms.len() == 0 {
        EVAL_MIN as int
    } else {
        let rest = best_of(b, ms.drop_last(), depth);
        let last = child_score(b, ms.last(), depth);
        if last > rest {
            last
        } else {
            rest
        }
    }
}

/// The legal-move list of a board is the one the generator gives.
pub proof fn lemma_legal_list(b: BoardModel, ms: Seq<Move>)
    requires
        legal_moves_of(b, ms),
    ensures
        legal_list(b) == ms,
{
    lemma_legal_moves_unique(b, legal_list(b), ms);
}

proof fn lemma_negamax_range(b: BoardModel, depth: nat)
    ensures
        EVAL_MIN <= negamax_value(b, depth) <= EVAL_MAX,
    decreases depth, 2nat, 0nat,
{
    lemma_evaluation_bounds(b);
    if b.to_move == Color::WHITE {
        assert(leaf_value(b) == evaluation(b));
    } else {
        let e = evaluation(b);
        assert(leaf_value(b) == -1 * e);
        assert(-1 * e == -e) by (nonlinear_arith);
    }
    if depth > 0 {
        let ms = legal_list(b);
        if ms.len() > 0 {
            lemma_best_of_range(b, ms, depth);
        }
    }
}

proof fn lemma_best_of_range(b: BoardModel, ms: Seq<Move>, depth: nat)
    requires
        depth > 0,
    ensures
        EVAL_MIN <= best_of(b, ms, depth) <= EVAL_MAX,
    decreases depth, 1nat, ms.len(),
{
    if ms.len() > 0 {
        lemma_best_of_range(b, ms.drop_last(), depth);
        lemma_negamax_range(apply_model(b, ms.last()), (depth - 1) as nat);
        assert(child_score(b, ms.last(), depth) == -negamax_value(
            apply_model(b, ms.last()),
            (depth - 1) as nat,
        ));
    }
}

proof fn lemma_best_of_bounds(b: BoardModel, ms: Seq<Move>, depth: nat)
    ensures
        best_of(b, ms, depth) >= EVAL_MIN,
        forall|j: int|
            0 <= j < ms.len() ==> best_of(b, ms, depth) >= #[trigger] child_score(b, ms[j], depth),
        best_of(b, ms, depth) == EVAL_MIN || exists|j: int|
            0 <= j < ms.len() && best_of(b, ms, depth) == #[trigger] child_score(b, ms[j], depth),
    decreases ms.len(),
{
    if ms.len() > 0 {
        let prev = ms.drop_last();
        lemma_best_of_bounds(b, prev, depth);
        assert forall|j: int| 0 <= j < ms.len() implies best_of(b, ms, depth) >= #[trigger] child_score(
            b,
            ms[j],
            depth,
        ) by {
            if j < prev.len() {
                assert(prev[j] == ms[j]);
            }
        }
        if best_of(b, ms, depth) != EVAL_MIN {
            if child_score(b, ms.last(), depth) > best_of(b, prev, depth) {
                assert(best_of(b, ms, depth) == child_score(b, ms[ms.len() - 1], depth));
            } else {
                let j = choose|j: int|
                    0 <= j < prev.len() && best_of(b, prev, depth) == #[trigger] child_score(
                        b,
                        prev[j],
                        depth,
                    );
                assert(prev[j] == ms[j]);
            }
        }
    }
}

proof fn lemma_best_of_at_most(b: BoardModel, ms: Seq<Move>, depth: nat, x: int)
    requires
        x >= EVAL_MIN,
        forall|j: int| 0 <= j < ms.len() ==> #[trigger] child_score(b, ms[j], depth) <= x,
    ensures
        best_of(b, ms, depth) <= x,
    decreases ms.len(),
{
    if ms.len() > 0 {
        let prev = ms.drop_last();
        assert forall|j: int| 0 <= j < prev.len() implies #[trigger] child_score(b, prev[j], depth)
            <= x by {
            assert(prev[j] == ms[j]);
        }
        lemma_best_of_at_most(b, prev, depth, x);
        assert(child_score(b, ms[ms.len() - 1], depth) <= x);
    }
}

/// A search result within window (`alpha`, `beta`) against the true value `t`: a result at
/// or below `alpha` bounds `t` from above, one at or above `beta` bounds it from below,
/// and one strictly inside the window is `t` itself.
pub open spec fn window_result(t: int, v: int, alpha: int, beta: int) -> bool {
    &&& v <= alpha ==> t <= v
    &&& v >= beta ==> t >= v
    &&& alpha < v < beta ==> v == t
}

/// Playing a move of a board and taking it back gives the board again.
proof fn lemma_restored(b: BoardModel, m: Move)
    requires
        b.masks.len() == 12,
        carries_snapshot(m, b),
    ensures
        crate::game_state::unapply_model(apply_model(b, m), m) == b,
{
    lemma_unapply_inverts_apply(b, m);
}

/// Negamax search with alpha-beta pruning to `depth` plies; returns the best move, its
/// evaluation for the side to move and the number of nodes visited. The board is
/// left as it was.
pub fn negamax_alpha_beta(game_state: &mut GameState, move_generator: &MoveGenerator, depth: u16) -> (r: (
    Option<Move>,
    i32,
    u64,
))
    ensures
        final(game_state)@ == old(game_state)@,
        valid_result(old(game_state)@, r),
        depth == 0 ==> r == (None::<Move>, (side_sign(old(game_state)@) * evaluation(
            old(game_state)@,
        )) as i32, 1u64),
        r.1 == negamax_value(old(game_state)@, depth as nat),
        r.0 matches Some(m) ==> child_score(old(game_state)@, m, depth as nat) == r.1,
        depth > 0 && legal_list(old(game_state)@).len() > 0 && r.1 > EVAL_MIN ==> r.0 is Some,
{
    let r = negamax_alpha_beta_helper(game_state, move_generator, EVAL_MIN, EVAL_MAX, depth);
    proof {
        lemma_negamax_range(old(game_state)@, depth as nat);
        if let Some(m) = r.0 {
            if depth > 0 {
                lemma_negamax_range(apply_model(old(game_state)@, m), (depth - 1) as nat);
            }
        }
    }
    r
}

#[verifier::rlimit(100)]
fn negamax_alpha_beta_helper(
    game_state: &mut GameState,
    move_generator: &MoveGenerator,
    alpha: i32,
    beta: i32,
    depth: u16,
) -> (r: (Option<Move>, i32, u64))
    requires
        EVAL_MIN <= alpha <= EVAL_MAX,
        EVAL_MIN <= beta <= EVAL_MAX,
        alpha < beta,
    ensures
        final(game_state)@ == old(game_state)@,
        valid_result(old(game_state)@, r),
        depth == 0 ==> r == (None::<Move>, (side_sign(old(game_state)@) * evaluation(
            old(game_state)@,
        )) as i32, 1u64),
        window_result(negamax_value(old(game_state)@, depth as nat), r.1 as int, alpha as int, beta as int),
        r.0 matches Some(m) ==> r.1 > EVAL_MIN && (alpha < r.1 < beta ==> child_score(
            old(game_state)@,
            m,
            depth as nat,
        ) == r.1) && (r.1 >= beta ==> child_score(old(game_state)@, m, depth as nat) >= r.1),
        depth > 0 && legal_list(old(game_state)@).len() > 0 && r.1 > EVAL_MIN ==> r.0 is Some,
    decreases depth,
{
    if depth == 0 {
        return (None, relative_evaluation(game_state), 1);
    }
    let next_moves = move_generator.generate_moves(game_state);
    proof {
        lemma_legal_list(game_state@, next_moves.moves@);
    }
    if next_moves.is_checkmate() {
        return (None, -EVAL_MAX, 1);
    }
    if next_moves.moves.len() == 0 {
        return (None, relative_evaluation(game_state), 1);
    }
    let ghost start = game_state@;
    let moves = next_moves.moves;
    let ghost d = depth as nat;
    let mut best_eval: i32 = EVAL_MIN;
    let mut best_move: Option<Move> = None;
    let mut node_count: u64 = 1;
    let mut current_alpha = alpha;
    let mut i: usize = 0;
    while i < moves.len() && current_alpha < beta
        invariant
            i <= moves@.len(),
            d == depth as nat,
            moves@ == legal_list(start),
            alpha < beta,
            current_alpha == if best_eval > alpha {
                best_eval
            } else {
                alpha
            },
            current_alpha < beta ==> forall|j: int|
                0 <= j < i ==> #[trigger] child_score(start, moves@[j], d) <= best_eval,
            alpha < best_eval < beta ==> exists|j: int|
                0 <= j < i && #[trigger] child_score(start, moves@[j], d) == best_eval,
            best_eval >= beta ==> exists|j: int|
                0 <= j < i && #[trigger] child_score(start, moves@[j], d) >= best_eval,
            best_move is None ==> best_eval == EVAL_MIN,
            best_move matches Some(m) ==> best_eval > EVAL_MIN && (alpha < best_eval < beta
                ==> child_score(start, m, d) == best_eval) && (best_eval >= beta ==> child_score(
                start,
                m,
                d,
            ) >= best_eval),
            depth > 0,
            game_state@ == start,
            start == old(game_state)@,
            all_carry(moves@, start),
            all_sound(moves@, start, start.to_move),
            all_legal(moves@, start, start.to_move),
            EVAL_MIN <= current_alpha <= EVAL_MAX,
            EVAL_MIN <= beta <= EVAL_MAX,
            EVAL_MIN <= best_eval <= EVAL_MAX,
            best_move matches Some(m) ==> carries_snapshot(m, start) && sound_move(
                start,
                m,
                start.to_move,
            ) && !in_check(
                apply_model(start, m),
                start.to_move,
            ),
        decreases moves@.len() - i,
    {
        let next_move = moves[i];
        proof {
            lemma_restored(start, next_move);
        }
        game_state.apply_move_mut(next_move);
        let (_, eval, child_node_count) = negamax_alpha_beta_helper(
            game_state,
            move_generator,
            -beta,
            -current_alpha,
            depth - 1,
        );
        game_state.unapply_move_mut(next_move);
        node_count = node_count.saturating_add(child_node_count);
        let ghost a = current_alpha;
        let ghost previous = best_eval;
        assert(child_score(start, moves@[i as int], d) == -negamax_value(
            apply_model(start, next_move),
            (depth - 1) as nat,
        ));
        if -eval > best_eval {
            best_eval = -eval;
            best_move = Some(next_move);
        }
        if best_eval > current_alpha {
            current_alpha = best_eval;
        }
        assert(current_alpha < beta ==> forall|j: int|
            0 <= j < i + 1 ==> #[trigger] child_score(start, moves@[j], d) <= best_eval) by {
            if current_alpha < beta {
                assert forall|j: int| 0 <= j < i + 1 implies #[trigger] child_score(
                    start,
                    moves@[j],
                    d,
                ) <= best_eval by {
                    if j < i {
                        assert(child_score(start, moves@[j], d) <= previous);
                    }
                }
            }
        }
        assert(alpha < best_eval < beta ==> exists|j: int|
            0 <= j < i + 1 && #[trigger] child_score(start, moves@[j], d) == best_eval) by {
            if alpha < best_eval < beta {
                if best_eval != previous {
                    assert(child_score(start, moves@[i as int], d) == best_eval);
                } else {
                    let j = choose|j: int|
                        0 <= j < i && #[trigger] child_score(start, moves@[j], d) == previous;
                    assert(child_score(start, moves@[j], d) == best_eval);
                }
            }
        }
        assert(best_eval >= beta ==> exists|j: int|
            0 <= j < i + 1 && #[trigger] child_score(start, moves@[j], d) >= best_eval) by {
            if best_eval >= beta {
                if best_eval != previous {
                    assert(child_score(start, moves@[i as int], d) >= best_eval);
                } else {
                    let j = choose|j: int|
                        0 <= j < i && #[trigger] child_score(start, moves@[j], d) >= previous;
                    assert(child_score(start, moves@[j], d) >= best_eval);
                }
            }
        }
        i = i + 1;
    }
    proof {
        let t = negamax_value(start, d);
        assert(t == best_of(start, moves@, d));
        lemma_best_of_bounds(start, moves@, d);
        if current_alpha < beta {
            assert(i == moves@.len());
            lemma_best_of_at_most(start, moves@, d, best_eval as int);
        }
    }
    (best_move, best_eval, node_count)
}

/// What a table search gives: best move, evaluation, nodes visited, and the table after.
pub type TableOutcome = (Option<Move>, int, int, Seq<Option<TranspositionEntry>>);

/// `a + b`, held at `u64::MAX`.
pub open spec fn saturating_sum(a: int, b: int) -> int {
    if a + b > u64::MAX {
        u64::MAX as int
    } else {
        a + b
    }
}

/// The first index at or after `from` where `ms` holds `p`, or `ms.len()`.
pub open spec fn first_index(ms: Seq<Move>, p: Move, from: int) -> int
    decreases ms.len() - from,
{
    if from < 0 || from >= ms.len() {
        ms.len() as int
    } else if ms[from] == p {
        from
    } else {
        first_index(ms, p, from + 1)
    }
}

/// `ms` with the principal move, where it is, swapped to the front.
pub open spec fn principal_first(ms: Seq<Move>, principal: Option<Move>) -> Seq<Move> {
    match principal {
        None => ms,
        Some(p) => {
            let i = first_index(ms, p, 0);
            if 0 <= i < ms.len() {
                ms.update(0, ms[i]).update(i, ms[0])
            } else {
                ms
            }
        },
    }
}

/// The result of `r` and the table `slots` are the outcome `o`.
pub open spec fn is_outcome(
    r: (Option<Move>, i32, u64),
    slots: Seq<Option<TranspositionEntry>>,
    o: TableOutcome,
) -> bool {
    r.0 == o.0 && r.1 as int == o.1 && r.2 as int == o.2 && slots == o.3
}

/// Negamax with alpha-beta pruning and a transposition table on `b` within window
/// (`alpha`, `beta`) to `depth` plies, from table `slots`. Below the root the table is
/// probed first: an exact entry is returned at once, a lower (upper) bound raises alpha
/// (lowers beta), and an empty window returns the entry's value. Then as `negamax`:
/// the static evaluation at depth zero or in stalemate, `-EVAL_MAX` when checkmated,
/// else the moves in order, `principal` first, each searched with the negated window;
/// the result is stored at the board's slot, classified as an upper bound (not above
/// the alpha it was given), a lower bound (at or above beta) or exact.
pub open spec fn table_search(
    b: BoardModel,
    slots: Seq<Option<TranspositionEntry>>,
    alpha: int,
    beta: int,
    depth: u16,
    at_root: bool,
    principal: Option<Move>,
) -> TableOutcome
    decreases depth, 1nat, 0int,
{
    let probe = if at_root {
        None
    } else {
        lookup(slots, b.hash, depth)
    };
    let ca: int = match probe {
        Some((MatchType::LOWERBOUND, e)) => if e > alpha {
            e as int
        } else {
            alpha
        },
        _ => alpha,
    };
    let cb: int = match probe {
        Some((MatchType::UPPERBOUND, e)) => if e < beta {
            e as int
        } else {
            beta
        },
        _ => beta,
    };
    if probe is Some && probe.unwrap().0 == MatchType::EXACT {
        (None, probe.unwrap().1 as int, 0, slots)
    } else if probe is Some && ca >= cb {
        (None, probe.unwrap().1 as int, 0, slots)
    } else if depth == 0 {
        (None, leaf_value(b), 1, slots)
    } else {
        let ms = legal_list(b);
        if ms.len() == 0 {
            if in_check(b, b.to_move) {
                (None, -EVAL_MAX as int, 1, slots)
            } else {
                (None, leaf_value(b), 1, slots)
            }
        } else {
            let lp = table_loop(
                b,
                slots,
                principal_first(ms, principal),
                0,
                ca,
                cb,
                EVAL_MIN as int,
                None,
                1,
                depth,
                principal,
            );
            let best = lp.1;
            let kind = if best <= alpha {
                MatchType::UPPERBOUND
            } else if best >= cb {
                MatchType::LOWERBOUND
            } else {
                MatchType::EXACT
            };
            let entry = TranspositionEntry {
                evaluation: best as i32,
                depth,
                match_type: kind,
                zobrist_hash: b.hash,
            };
            (lp.0, best, lp.2, lp.3.update(slot_of(b.hash, lp.3.len() as int), Some(entry)))
        }
    }
}

/// The move loop of `table_search` from move `i` on, with window (`ca`, `cb`), best
/// evaluation and move so far, and node count so far; it stops once the window is empty.
pub open spec fn table_loop(
    b: BoardModel,
    slots: Seq<Option<TranspositionEntry>>,
    ms: Seq<Move>,
    i: int,
    ca: int,
    cb: int,
    best: int,
    best_move: Option<Move>,
    count: int,
    depth: u16,
    principal: Option<Move>,
) -> TableOutcome
    decreases depth, 0nat, ms.len() - i,
{
    if i < 0 || i >= ms.len() || ca >= cb || depth == 0 {
        (best_move, best, count, slots)
    } else {
        let child = table_search(
            apply_model(b, ms[i]),
            slots,
            -cb,
            -ca,
            (depth - 1) as u16,
            false,
            principal,
        );
        let score = -child.1;
        let nb = if score > best {
            score
        } else {
            best
        };
        let nm = if score > best {
            Some(ms[i])
        } else {
            best_move
        };
        let na = if nb > ca {
            nb
        } else {
            ca
        };
        table_loop(
            b,
            child.3,
            ms,
            i + 1,
            na,
            cb,
            nb,
            nm,
            saturating_sum(count, child.2),
            depth,
            principal,
        )
    }
}

/// Reads the stop flag, if there is one.
fn stop_requested(stop: Option<&AtomicBool>) -> (r: bool)
    ensures
        stop.is_none() ==> !r,
{
    match stop {
        Some(flag) => flag.load(Ordering::SeqCst),
        None => false,
    }
}

/// Negamax with alpha-beta pruning and a transposition table; the table is probed
/// below the root and updated at every expanded node. The board is left as it was.
pub fn negamax_alpha_beta_with_trasposition_table(
    game_state: &mut GameState,
    move_generator: &MoveGenerator,
    table: &mut TranspositionTable,
    depth: u16,
) -> (r: (Option<Move>, i32, u64))
    requires
        old(table).wf(),
    ensures
        final(table).wf(),
        final(game_state)@ == old(game_state)@,
        valid_result(old(game_state)@, r),
        is_outcome(
            r,
            final(table)@,
            table_search(
                old(game_state)@,
                old(table)@,
                EVAL_MIN as int,
                EVAL_MAX as int,
                depth,
                true,
                None,
            ),
        ),
{
    negamax_alpha_beta_with_trasposition_table_helper(
        game_state,
        move_generator,
        table,
        EVAL_MIN,
        EVAL_MAX,
        depth,
        true,
        None,
        None,
        false,
    )
}

/// Negamax with alpha-beta pruning and a transposition table, trying `principal_move`
/// first wherever it is legal, and giving up with `(None, 0, 0)` at any node where
/// `stop` is found set. The board is left as it was; what else holds depends on when
/// the flag is set, which another thread decides.
pub fn negamax_alpha_beta_with_trasposition_table_and_principal_variation(
    game_state: &mut GameState,
    move_generator: &MoveGenerator,
    table: &mut TranspositionTable,
    principal_move: Option<Move>,
    depth: u16,
    stop: &AtomicBool,
) -> (r: (Option<Move>, i32, u64))
    requires
        old(table).wf(),
    ensures
        final(table).wf(),
        final(game_state)@ == old(game_state)@,
        valid_result(old(game_state)@, r),
{
    let stopped = stop_requested(Some(stop));
    negamax_alpha_beta_with_trasposition_table_helper(
        game_state,
        move_generator,
        table,
        EVAL_MIN,
        EVAL_MAX,
        depth,
        true,
        principal_move,
        Some(stop),
        stopped,
    )
}

/// Moves `principal` to the front of `moves` when it is there.
fn order_principal_first(moves: &mut Vec<Move>, principal: Option<Move>, Ghost(b): Ghost<BoardModel>)
    requires
        all_carry(old(moves)@, b),
        all_sound(old(moves)@, b, b.to_move),
        all_legal(old(moves)@, b, b.to_move),
    ensures
        all_carry(final(moves)@, b),
        all_sound(final(moves)@, b, b.to_move),
        all_legal(final(moves)@, b, b.to_move),
        final(moves)@.len() == old(moves)@.len(),
        final(moves)@ == principal_first(old(moves)@, principal),
{
    if let Some(p) = principal {
        let mut i: usize = 0;
        while i < moves.len()
            invariant
                moves@ == old(moves)@,
                first_index(moves@, p, 0) == first_index(moves@, p, i as int),
                principal == Some(p),
                i <= moves@.len(),
                all_carry(old(moves)@, b),
                all_sound(old(moves)@, b, b.to_move),
                all_legal(old(moves)@, b, b.to_move),
            decreases moves@.len() - i,
        {
            if moves[i] == p {
                let first = moves[0];
                let found = moves[i];
                moves.set(0, found);
                moves.set(i, first);
                assert forall|j: int| 0 <= j < moves@.len() implies carries_snapshot(
                    #[trigger] moves@[j],
                    b,
                ) && sound_move(b, moves@[j], b.to_move) && !in_check(
                    apply_model(b, moves@[j]),
                    b.to_move,
                ) by {
                    let k: int = if j == 0 {
                        i as int
                    } else if j == i {
                        0
                    } else {
                        j
                    };
                    assert(moves@[j] == old(moves)@[k]);
                    assert(carries_snapshot(old(moves)@[k], b));
                    assert(sound_move(b, old(moves)@[k], b.to_move));
                    assert(!in_check(apply_model(b, old(moves)@[k]), b.to_move));
                }
                assert(old(moves)@[i as int] == p);
                assert(first_index(old(moves)@, p, i as int) == i);
                assert(first_index(old(moves)@, p, 0) == i);
                assert(principal == Some(p));
                assert(0 <= i < old(moves)@.len());
                assert(moves@ =~= old(moves)@.update(0, old(moves)@[i as int]).update(
                    i as int,
                    old(moves)@[0],
                ));
                assert(principal_first(old(moves)@, principal) == old(moves)@.update(
                    0,
                    old(moves)@[i as int],
                ).update(i as int, old(moves)@[0]));
                return;
            }
            i = i + 1;
        }
    }
}

/// One node of the table search. `stopped` is the stop flag as read for this node: when
/// it is set the node gives `(None, 0, 0)` and leaves the table alone. Without a flag
/// the result and the table after are exactly `table_search`.
pub fn negamax_alpha_beta_with_trasposition_table_helper(
    game_state: &mut GameState,
    move_generator: &MoveGenerator,
    table: &mut TranspositionTable,
    alpha: i32,
    beta: i32,
    depth: u16,
    at_root: bool,
    principal_move: Option<Move>,
    stop: Option<&AtomicBool>,
    stopped: bool,
) -> (r: (Option<Move>, i32, u64))
    requires
        old(table).wf(),
        EVAL_MIN <= alpha <= EVAL_MAX,
        EVAL_MIN <= beta <= EVAL_MAX,
        alpha < beta,
    ensures
        final(table).wf(),
        final(game_state)@ == old(game_state)@,
        valid_result(old(game_state)@, r),
        stopped ==> r == (None::<Move>, 0i32, 0u64) && final(table)@ == old(table)@,
        stop.is_none() && !stopped ==> is_outcome(
            r,
            final(table)@,
            table_search(
                old(game_state)@,
                old(table)@,
                alpha as int,
                beta as int,
                depth,
                at_root,
                principal_move,
            ),
        ),
    decreases depth,
{
    if stopped {
        return (None, 0, 0);
    }
    let ghost b = game_state@;
    let ghost slots = table@;
    let mut current_alpha = alpha;
    let mut current_beta = beta;
    if !at_root {
        if let Some((match_type, eval)) = table.check(game_state.zobrist_hash(), depth) {
            match match_type {
                MatchType::EXACT => {
                    return (None, eval, 0);
                },
                MatchType::LOWERBOUND => {
                    if eval > current_alpha {
                        current_alpha = eval;
                    }
                },
                MatchType::UPPERBOUND => {
                    if eval < current_beta {
                        current_beta = eval;
                    }
                },
            }
            if current_alpha >= current_beta {
                return (None, eval, 0);
            }
        }
    }
    if depth == 0 {
        return (None, relative_evaluation(game_state), 1);
    }
    let next_moves = move_generator.generate_moves(game_state);
    proof {
        lemma_legal_list(game_state@, next_moves.moves@);
    }
    if next_moves.is_checkmate() {
        return (None, -EVAL_MAX, 1);
    }
    if next_moves.moves.len() == 0 {
        return (None, relative_evaluation(game_state), 1);
    }
    let ghost start = game_state@;
    let mut moves = next_moves.moves;
    order_principal_first(&mut moves, principal_move, Ghost(start));
    let mut best_eval: i32 = EVAL_MIN;
    let mut best_move: Option<Move> = None;
    let mut node_count: u64 = 1;
    let ghost target = table_loop(
        start,
        table@,
        moves@,
        0,
        current_alpha as int,
        current_beta as int,
        EVAL_MIN as int,
        None,
        1,
        depth,
        principal_move,
    );
    let mut i: usize = 0;
    while i < moves.len() && current_alpha < current_beta
        invariant
            depth > 0,
            i <= moves@.len(),
            game_state@ == start,
            start == old(game_state)@,
            table.wf(),
            all_carry(moves@, start),
            all_sound(moves@, start, start.to_move),
            all_legal(moves@, start, start.to_move),
            EVAL_MIN <= current_alpha <= EVAL_MAX,
            EVAL_MIN <= current_beta <= EVAL_MAX,
            EVAL_MIN <= best_eval <= EVAL_MAX,
            best_move matches Some(m) ==> carries_snapshot(m, start) && sound_move(
                start,
                m,
                start.to_move,
            ) && !in_check(apply_model(start, m), start.to_move),
            stop.is_none() ==> table_loop(
                start,
                table@,
                moves@,
                i as int,
                current_alpha as int,
                current_beta as int,
                best_eval as int,
                best_move,
                node_count as int,
                depth,
                principal_move,
            ) == target,
        decreases moves@.len() - i,
    {
        let next_move = moves[i];
        proof {
            lemma_restored(start, next_move);
        }
        let child_stopped = stop_requested(stop);
        game_state.apply_move_mut(next_move);
        let (_, eval, child_node_count) = negamax_alpha_beta_with_trasposition_table_helper(
            game_state,
            move_generator,
            table,
            -current_beta,
            -current_alpha,
            depth - 1,
            false,
            principal_move,
            stop,
            child_stopped,
        );
        game_state.unapply_move_mut(next_move);
        node_count = node_count.saturating_add(child_node_count);
        if -eval > best_eval {
            best_eval = -eval;
            best_move = Some(next_move);
        }
        if best_eval > current_alpha {
            current_alpha = best_eval;
        }
        i = i + 1;
    }
    let match_type = if best_eval <= alpha {
        MatchType::UPPERBOUND
    } else if best_eval >= current_beta {
        MatchType::LOWERBOUND
    } else {
        MatchType::EXACT
    };
    table.update(game_state.zobrist_hash(), depth, best_eval, match_type);
    (best_move, best_eval, node_count)
}


/// Iterative deepening so far: the best move and evaluation of the last completed depth,
/// and that depth.
#[derive(Clone, Copy, Debug)]
pub struct Deepening {
    pub best_move: Move,
    pub best_eval: i32,
    pub depth: u16,
}

/// The next depth to search, one more than the last completed, with the principal move
/// to try first; none when the depth cannot grow.
pub fn next_search(state: &Deepening) -> (r: Option<(u16, Move)>)
    ensures
        r == if state.depth < u16::MAX {
            Some(((state.depth + 1) as u16, state.best_move))
        } else {
            None::<(u16, Move)>
        },
{
    if state.depth < u16::MAX {
        Some((state.depth + 1, state.best_move))
    } else {
        None
    }
}

/// Records the outcome of the search at `depth`: a finished search gives the new
/// evaluation, and its move when it has one, and deepening goes on; an unfinished one
/// (stopped by the deadline) changes nothing and deepening ends.
pub fn record_search(state: Deepening, depth: u16, finished: Option<(Option<Move>, i32)>) -> (r: (
    Deepening,
    bool,
))
    ensures
        match finished {
            Some((m, e)) => r.1 && r.0 == (Deepening {
                best_move: match m {
                    Some(x) => x,
                    None => state.best_move,
                },
                best_eval: e,
                depth,
            }),
            None => !r.1 && r.0 == state,
        },
{
    match finished {
        Some((m, e)) => {
            let best_move = match m {
                Some(x) => x,
                None => state.best_move,
            };
            (Deepening { best_move, best_eval: e, depth }, true)
        },
        None => (state, false),
    }
}

} // verus!
