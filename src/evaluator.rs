use vstd::prelude::*;

use crate::game_state::{
    bit_mask_to_positions, indices_of, piece_index, set_bits_below, BoardModel, Color,
    GameState, Piece,
};

verus! {

pub const BASE_VALUE_PAWN: i32 = 1000;
pub const BASE_VALUE_KNIGHT: i32 = 3000;
pub const BASE_VALUE_BISHOP: i32 = 3000;
pub const BASE_VALUE_ROOK: i32 = 5000;
pub const BASE_VALUE_QUEEN: i32 = 9000;
pub const BASE_VALUE_KING: i32 = 1_000_000;

pub open spec fn base_value(piece: Piece) -> int {
    match piece {
        Piece::PAWN => BASE_VALUE_PAWN as int,
        Piece::KNIGHT => BASE_VALUE_KNIGHT as int,
        Piece::BISHOP => BASE_VALUE_BISHOP as int,
        Piece::ROOK => BASE_VALUE_ROOK as int,
        Piece::QUEEN => BASE_VALUE_QUEEN as int,
        Piece::KING => BASE_VALUE_KING as int,
    }
}

/// Positional bonus of a piece by square, seen from White's side.
pub open spec fn position_table(piece: Piece) -> Seq<u8> {
    match piece {
        Piece::PAWN => seq![
            0u8, 0, 0, 0, 0, 0, 0, 0, 0, 0, 0, 0, 0, 0, 0, 0, 5, 10, 0, 10, 10, 0, 5, 5, 10, 25, 5,
            100, 100, 5, 25, 10, 50, 75, 100, 150, 150, 100, 75, 50, 100, 125, 150, 200, 200, 150,
            125, 100, 150, 175, 200, 250, 250, 200, 175, 150, 0, 0, 0, 0, 0, 0, 0, 0,
        ],
        Piece::KNIGHT => seq![
            0u8, 0, 0, 0, 0, 0, 0, 0, 0, 25, 25, 25, 25, 25, 25, 0, 0, 25, 100, 50, 50, 100, 25, 0,
            0, 25, 75, 225, 225, 75, 25, 0, 0, 25, 100, 250, 250, 100, 25, 0, 0, 25, 150, 150, 150,
            150, 25, 0, 0, 25, 25, 25, 25, 25, 25, 0, 0, 0, 0, 0, 0, 0, 0, 0,
        ],
        Piece::BISHOP => seq![
            25u8, 0, 0, 0, 0, 0, 0, 25, 0, 50, 0, 0, 0, 0, 50, 0, 0, 25, 75, 25, 25, 75, 25, 0, 0,
            25, 100, 150, 150, 100, 25, 0, 0, 75, 100, 150, 150, 100, 75, 0, 0, 25, 25, 25, 25, 25,
            25, 0, 0, 0, 0, 0, 0, 0, 0, 0, 0, 0, 0, 0, 0, 0, 0, 0,
        ],
        Piece::ROOK => seq![
            0u8, 0, 25, 100, 100, 25, 0, 0, 0, 0, 0, 0, 0, 0, 0, 0, 0, 0, 0, 0, 0, 0, 0, 0, 0, 0, 0,
            0, 0, 0, 0, 0, 0, 0, 0, 0, 0, 0, 0, 0, 0, 0, 0, 0, 0, 0, 0, 0, 200, 200, 100, 200, 200,
            200, 200, 200, 0, 0, 0, 0, 0, 0, 0, 0,
        ],
        Piece::QUEEN => seq![
            0u8, 0, 0, 25, 25, 0, 0, 0, 0, 0, 40, 40, 25, 0, 0, 0, 0, 25, 50, 50, 50, 50, 25, 0, 0,
            25, 75, 200, 200, 75, 25, 0, 0, 25, 75, 200, 200, 75, 25, 0, 0, 25, 75, 100, 100, 75,
            25, 0, 0, 100, 125, 125, 125, 125, 100, 0, 0, 0, 0, 0, 0, 0, 0, 0,
        ],
        Piece::KING => seq![
            50u8, 100, 0, 0, 0, 75, 100, 50, 0, 0, 0, 0, 0, 0, 0, 0, 0, 0, 0, 0, 0, 0, 0, 0, 0, 0,
            0, 0, 0, 0, 0, 0, 0, 0, 0, 0, 0, 0, 0, 0, 0, 0, 0, 0, 0, 0, 0, 0, 0, 0, 0, 0, 0, 0, 0, 0,
            0, 0, 0, 0, 0, 0, 0, 0,
        ],
    }
}

/// The square on the same file and the mirrored rank.
pub open spec fn mirror_square(sq: int) -> int {
    sq % 8 + (7 - sq / 8) * 8
}

/// Material and positional value of pieces on `squares`; Black's squares are read
/// mirrored in the table.
pub open spec fn side_score(squares: Seq<int>, piece: Piece, mirrored: bool) -> int
    decreases squares.len(),
{
    if squares.len() == 0 {
        0
    } else {
        let sq = squares.last();
        let at = if mirrored {
            mirror_square(sq)
        } else {
            sq
        };
        side_score(squares.drop_last(), piece, mirrored) + base_value(piece) + position_table(
            piece,
        )[at] as int
    }
}

/// White's value of one piece type minus Black's.
pub open spec fn piece_score(b: BoardModel, piece: Piece) -> int {
    side_score(set_bits_below(b.masks[piece_index(piece, Color::WHITE)], 64), piece, false)
        - side_score(set_bits_below(b.masks[piece_index(piece, Color::BLACK)], 64), piece, true)
}

/// The static evaluation: positive favors White.
pub open spec fn evaluation(b: BoardModel) -> int {
    piece_score(b, Piece::PAWN) + piece_score(b, Piece::KNIGHT) + piece_score(b, Piece::BISHOP)
        + piece_score(b, Piece::ROOK) + piece_score(b, Piece::QUEEN) + piece_score(b, Piece::KING)
}

/// The largest value one piece type can reach for one side.
pub open spec fn side_bound() -> int {
    64 * 1_000_255int
}

pub proof fn lemma_set_bits_bounds(mask: u64, n: int)
    requires
        0 <= n,
    ensures
        set_bits_below(mask, n).len() <= n,
        forall|i: int|
            0 <= i < set_bits_below(mask, n).len() ==> 0 <= #[trigger] set_bits_below(mask, n)[i]
                < n,
    decreases n,
{
    if n > 0 {
        lemma_set_bits_bounds(mask, n - 1);
    }
}

proof fn lemma_side_score_bounds(squares: Seq<int>, piece: Piece, mirrored: bool)
    requires
        forall|i: int| 0 <= i < squares.len() ==> 0 <= #[trigger] squares[i] < 64,
    ensures
        0 <= side_score(squares, piece, mirrored) <= squares.len() * 1_000_255,
    decreases squares.len(),
{
    if squares.len() > 0 {
        let sq = squares.last();
        assert(0 <= sq < 64);
        let at = if mirrored {
            mirror_square(sq)
        } else {
            sq
        };
        assert(0 <= at < 64);
        assert(position_table(piece).len() == 64);
        lemma_side_score_bounds(squares.drop_last(), piece, mirrored);
    }
}

/// The static evaluation of any board stays within six times `side_bound`.
pub proof fn lemma_evaluation_bounds(b: BoardModel)
    ensures
        -6 * side_bound() <= evaluation(b) <= 6 * side_bound(),
{
    assert forall|piece: Piece| -side_bound() <= #[trigger] piece_score(b, piece) <= side_bound() by {
        let w = set_bits_below(b.masks[piece_index(piece, Color::WHITE)], 64);
        let k = set_bits_below(b.masks[piece_index(piece, Color::BLACK)], 64);
        lemma_set_bits_bounds(b.masks[piece_index(piece, Color::WHITE)], 64);
        lemma_set_bits_bounds(b.masks[piece_index(piece, Color::BLACK)], 64);
        lemma_side_score_bounds(w, piece, false);
        lemma_side_score_bounds(k, piece, true);
        assert(w.len() * 1_000_255 <= side_bound()) by (nonlinear_arith)
            requires
                w.len() <= 64,
        ;
        assert(k.len() * 1_000_255 <= side_bound()) by (nonlinear_arith)
            requires
                k.len() <= 64,
        ;
    }
    assert(-side_bound() <= piece_score(b, Piece::PAWN) <= side_bound());
    assert(-side_bound() <= piece_score(b, Piece::KNIGHT) <= side_bound());
    assert(-side_bound() <= piece_score(b, Piece::BISHOP) <= side_bound());
    assert(-side_bound() <= piece_score(b, Piece::ROOK) <= side_bound());
    assert(-side_bound() <= piece_score(b, Piece::QUEEN) <= side_bound());
    assert(-side_bound() <= piece_score(b, Piece::KING) <= side_bound());
}

fn table_for(piece: Piece) -> (r: [u8; 64])
    ensures
        r@ == position_table(piece),
{
    let t: [u8; 64] = match piece {
        Piece::PAWN => [
            0u8, 0, 0, 0, 0, 0, 0, 0, 0, 0, 0, 0, 0, 0, 0, 0, 5, 10, 0, 10, 10, 0, 5, 5, 10, 25, 5,
            100, 100, 5, 25, 10, 50, 75, 100, 150, 150, 100, 75, 50, 100, 125, 150, 200, 200, 150,
            125, 100, 150, 175, 200, 250, 250, 200, 175, 150, 0, 0, 0, 0, 0, 0, 0, 0,
        ],
        Piece::KNIGHT => [
            0u8, 0, 0, 0, 0, 0, 0, 0, 0, 25, 25, 25, 25, 25, 25, 0, 0, 25, 100, 50, 50, 100, 25, 0,
            0, 25, 75, 225, 225, 75, 25, 0, 0, 25, 100, 250, 250, 100, 25, 0, 0, 25, 150, 150, 150,
            150, 25, 0, 0, 25, 25, 25, 25, 25, 25, 0, 0, 0, 0, 0, 0, 0, 0, 0,
        ],
        Piece::BISHOP => [
            25u8, 0, 0, 0, 0, 0, 0, 25, 0, 50, 0, 0, 0, 0, 50, 0, 0, 25, 75, 25, 25, 75, 25, 0, 0,
            25, 100, 150, 150, 100, 25, 0, 0, 75, 100, 150, 150, 100, 75, 0, 0, 25, 25, 25, 25, 25,
            25, 0, 0, 0, 0, 0, 0, 0, 0, 0, 0, 0, 0, 0, 0, 0, 0, 0,
        ],
        Piece::ROOK => [
            0u8, 0, 25, 100, 100, 25, 0, 0, 0, 0, 0, 0, 0, 0, 0, 0, 0, 0, 0, 0, 0, 0, 0, 0, 0, 0, 0,
            0, 0, 0, 0, 0, 0, 0, 0, 0, 0, 0, 0, 0, 0, 0, 0, 0, 0, 0, 0, 0, 200, 200, 100, 200, 200,
            200, 200, 200, 0, 0, 0, 0, 0, 0, 0, 0,
        ],
        Piece::QUEEN => [
            0u8, 0, 0, 25, 25, 0, 0, 0, 0, 0, 40, 40, 25, 0, 0, 0, 0, 25, 50, 50, 50, 50, 25, 0, 0,
            25, 75, 200, 200, 75, 25, 0, 0, 25, 75, 200, 200, 75, 25, 0, 0, 25, 75, 100, 100, 75,
            25, 0, 0, 100, 125, 125, 125, 125, 100, 0, 0, 0, 0, 0, 0, 0, 0, 0,
        ],
        Piece::KING => [
            50u8, 100, 0, 0, 0, 75, 100, 50, 0, 0, 0, 0, 0, 0, 0, 0, 0, 0, 0, 0, 0, 0, 0, 0, 0, 0,
            0, 0, 0, 0, 0, 0, 0, 0, 0, 0, 0, 0, 0, 0, 0, 0, 0, 0, 0, 0, 0, 0, 0, 0, 0, 0, 0, 0, 0, 0,
            0, 0, 0, 0, 0, 0, 0, 0,
        ],
    };
    assert(t@ =~= position_table(piece));
    t
}

fn base_value_of(piece: Piece) -> (r: i32)
    ensures
        r == base_value(piece),
{
    match piece {
        Piece::PAWN => BASE_VALUE_PAWN,
        Piece::KNIGHT => BASE_VALUE_KNIGHT,
        Piece::BISHOP => BASE_VALUE_BISHOP,
        Piece::ROOK => BASE_VALUE_ROOK,
        Piece::QUEEN => BASE_VALUE_QUEEN,
        Piece::KING => BASE_VALUE_KING,
    }
}

/// The value of the pieces of one type on the squares of `mask`.
fn score_squares(mask: u64, piece: Piece, mirrored: bool) -> (r: i32)
    ensures
        r == side_score(set_bits_below(mask, 64), piece, mirrored),
        0 <= r <= side_bound(),
{
    let base = base_value_of(piece);
    let table = table_for(piece);
    let positions = bit_mask_to_positions(mask);
    let ghost squares = set_bits_below(mask, 64);
    proof {
        lemma_set_bits_bounds(mask, 64);
    }
    let mut evaluation: i32 = 0;
    let mut j: usize = 0;
    while j < positions.len()
        invariant
            j <= positions@.len(),
            indices_of(positions@) == squares,
            squares == set_bits_below(mask, 64),
            squares.len() <= 64,
            base == base_value(piece),
            table@ == position_table(piece),
            evaluation == side_score(squares.subrange(0, j as int), piece, mirrored),
            0 <= evaluation <= j * 1_000_255,
        decreases positions@.len() - j,
    {
        let p = positions[j];
        assert(indices_of(positions@)[j as int] == p.index());
        let at = if mirrored {
            p.mirror_rank().to_numeric()
        } else {
            p.to_numeric()
        };
        assert(squares.subrange(0, j + 1).drop_last() =~= squares.subrange(0, j as int));
        evaluation = evaluation + base + table[at as usize] as i32;
        j = j + 1;
    }
    assert(squares.subrange(0, j as int) =~= squares);
    evaluation
}

fn evaluate_piece_with_position_modifier(game_state: &GameState, piece: Piece) -> (r: i32)
    ensures
        r == piece_score(game_state@, piece),
        -side_bound() <= r <= side_bound(),
{
    let white = score_squares(*game_state.get_piece_mask(piece, Color::WHITE), piece, false);
    let black = score_squares(*game_state.get_piece_mask(piece, Color::BLACK), piece, true);
    white - black
}

fn evaluate_pawns(game_state: &GameState) -> (r: i32)
    ensures
        r == piece_score(game_state@, Piece::PAWN),
        -side_bound() <= r <= side_bound(),
{
    evaluate_piece_with_position_modifier(game_state, Piece::PAWN)
}

fn evaluate_knights(game_state: &GameState) -> (r: i32)
    ensures
        r == piece_score(game_state@, Piece::KNIGHT),
        -side_bound() <= r <= side_bound(),
{
    evaluate_piece_with_position_modifier(game_state, Piece::KNIGHT)
}

fn evaluate_bishops(game_state: &GameState) -> (r: i32)
    ensures
        r == piece_score(game_state@, Piece::BISHOP),
        -side_bound() <= r <= side_bound(),
{
    evaluate_piece_with_position_modifier(game_state, Piece::BISHOP)
}

fn evaluate_rooks(game_state: &GameState) -> (r: i32)
    ensures
        r == piece_score(game_state@, Piece::ROOK),
        -side_bound() <= r <= side_bound(),
{
    evaluate_piece_with_position_modifier(game_state, Piece::ROOK)
}

fn evaluate_queens(game_state: &GameState) -> (r: i32)
    ensures
        r == piece_score(game_state@, Piece::QUEEN),
        -side_bound() <= r <= side_bound(),
{
    evaluate_piece_with_position_modifier(game_state, Piece::QUEEN)
}

fn evaluate_kings(game_state: &GameState) -> (r: i32)
    ensures
        r == piece_score(game_state@, Piece::KING),
        -side_bound() <= r <= side_bound(),
{
    evaluate_piece_with_position_modifier(game_state, Piece::KING)
}

/// Material plus positional bonus of White minus that of Black.
pub fn evaluate(game_state: &GameState) -> (r: i32)
    ensures
        r == evaluation(game_state@),
        -6 * side_bound() <= r <= 6 * side_bound(),
{
    let mut evaluation: i32 = 0;
    evaluation = evaluation + evaluate_pawns(game_state);
    evaluation = evaluation + evaluate_knights(game_state);
    evaluation = evaluation + evaluate_bishops(game_state);
    evaluation = evaluation + evaluate_rooks(game_state);
    evaluation = evaluation + evaluate_queens(game_state);
    evaluation = evaluation + evaluate_kings(game_state);
    evaluation
}

} // verus!
