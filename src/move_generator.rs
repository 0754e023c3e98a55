use vstd::prelude::*;

use crate::attack_trace::{
    attack_trace_for_bishop, attack_trace_for_knight, attack_trace_for_queen,
    attack_trace_for_rook, bishop_rays, file_of_square, jump, knight_rays, on_board, push_jump,
    queen_rays, rank_of_square, rays_view, rook_rays, square_of, trace_view,
};
use crate::game_state::{
    apply_model, bit_mask_to_positions, has_bit, indices_of, piece_at, piece_index, set_bits_below,
    side_mask, square_bit, BoardModel, Color, GameState, Move, MoveType, Piece, Position,
};

verus! {

pub const MASK_FILE1: u64 = 0x0101010101010101;
pub const MASK_FILE8: u64 = 0x8080808080808080;
pub const MASK_RANK3: u64 = 0x0000000000ff0000;
pub const MASK_RANK6: u64 = 0x0000ff0000000000;

/// The color whose piece stands on `sq`, White looked up first.
pub open spec fn collision(masks: Seq<u64>, sq: int) -> Option<Color> {
    if has_bit(side_mask(masks, Color::WHITE), sq) {
        Some(Color::WHITE)
    } else if has_bit(side_mask(masks, Color::BLACK), sq) {
        Some(Color::BLACK)
    } else {
        None
    }
}

/// The squares a piece of `color` reaches along `ray`: the empty squares up to the
/// first occupied one, and that one too when it holds an opposing piece.
pub open spec fn ray_reach(masks: Seq<u64>, color: Color, ray: Seq<int>) -> u64
    decreases ray.len(),
{
    if ray.len() == 0 {
        0
    } else {
        match collision(masks, ray[0]) {
            None => square_bit(ray[0]) | ray_reach(masks, color, ray.drop_first()),
            Some(c) => if c == color {
                0
            } else {
                square_bit(ray[0])
            },
        }
    }
}

pub open spec fn rays_reach(masks: Seq<u64>, color: Color, rays: Seq<Seq<int>>) -> u64
    decreases rays.len(),
{
    if rays.len() == 0 {
        0
    } else {
        rays_reach(masks, color, rays.drop_last()) | ray_reach(masks, color, rays.last())
    }
}

/// The one-square rays of a king on `sq`.
pub open spec fn king_rays(sq: int) -> Seq<Seq<int>> {
    jump(sq, 0, 1) + jump(sq, 0, -1) + jump(sq, 1, 0) + jump(sq, -1, 0) + jump(sq, 1, 1) + jump(
        sq,
        -1,
        -1,
    ) + jump(sq, -1, 1) + jump(sq, 1, -1)
}

pub open spec fn rays_for(piece: Piece, sq: int) -> Seq<Seq<int>> {
    match piece {
        Piece::QUEEN => queen_rays(sq),
        Piece::ROOK => rook_rays(sq),
        Piece::BISHOP => bishop_rays(sq),
        Piece::KNIGHT => knight_rays(sq),
        Piece::KING => king_rays(sq),
        Piece::PAWN => seq![],
    }
}

/// The squares reached from every square of `squares` by a `piece` of `color`.
pub open spec fn pieces_reach(masks: Seq<u64>, color: Color, squares: Seq<int>, piece: Piece) -> u64
    decreases squares.len(),
{
    if squares.len() == 0 {
        0
    } else {
        pieces_reach(masks, color, squares.drop_last(), piece) | rays_reach(
            masks,
            color,
            rays_for(piece, squares.last()),
        )
    }
}

pub open spec fn piece_squares(masks: Seq<u64>, piece: Piece, color: Color) -> Seq<int> {
    set_bits_below(masks[piece_index(piece, color)], 64)
}

/// The squares diagonally in front of the pawns of `pawns`, without wrapping
/// around the a and h files.
pub open spec fn pawn_attacks(pawns: u64, color: Color) -> u64 {
    if color == Color::WHITE {
        ((pawns & !MASK_FILE1) << 7u64) | ((pawns & !MASK_FILE8) << 9u64)
    } else {
        ((pawns & !MASK_FILE1) >> 9u64) | ((pawns & !MASK_FILE8) >> 7u64)
    }
}

pub open spec fn reach_of(masks: Seq<u64>, color: Color, piece: Piece) -> u64 {
    pieces_reach(masks, color, piece_squares(masks, piece, color), piece)
}

/// Every square that `color` attacks.
pub open spec fn threat_mask(masks: Seq<u64>, color: Color) -> u64 {
    reach_of(masks, color, Piece::QUEEN) | reach_of(masks, color, Piece::ROOK) | reach_of(
        masks,
        color,
        Piece::BISHOP,
    ) | reach_of(masks, color, Piece::KNIGHT) | pawn_attacks(
        masks[piece_index(Piece::PAWN, color)],
        color,
    ) | reach_of(masks, color, Piece::KING)
}

/// Whether the king of `color` stands on a square that its opponent attacks.
pub open spec fn in_check(b: BoardModel, color: Color) -> bool {
    b.masks[piece_index(Piece::KING, color)] & threat_mask(b.masks, color.other()) != 0
}

/// Castling on the king side (`king_side`) or the queen side is allowed for `color`:
/// it has a king, the right is held, the squares between king and rook are empty, and
/// neither the king's square nor the two squares it moves over are attacked.
pub open spec fn castling_allowed(b: BoardModel, color: Color, king_side: bool) -> bool {
    let kings = piece_squares(b.masks, Piece::KING, color);
    let k = kings[0];
    let file = k % 8 + 1;
    let dir: int = if king_side {
        1
    } else {
        -1
    };
    let threats = threat_mask(b.masks, color.other());
    &&& kings.len() > 0
    &&& if king_side {
        b.castling_rights.king_side(color)
    } else {
        b.castling_rights.queen_side(color)
    }
    &&& if king_side {
        file + 2 <= 8
    } else {
        file - 3 >= 1
    }
    &&& !has_bit(threats, k)
    &&& !has_bit(threats, k + dir)
    &&& !has_bit(threats, k + 2 * dir)
    &&& piece_at(b, k + dir) == None::<(Piece, Color)>
    &&& piece_at(b, k + 2 * dir) == None::<(Piece, Color)>
    &&& !king_side ==> piece_at(b, k - 3) == None::<(Piece, Color)>
}

/// The move carries the en-passant square and castling rights of board `b`.
pub open spec fn carries_snapshot(m: Move, b: BoardModel) -> bool {
    m.last_en_passant == b.en_passant && m.last_castling_rights == b.castling_rights
}

pub open spec fn all_carry(moves: Seq<Move>, b: BoardModel) -> bool {
    forall|i: int| 0 <= i < moves.len() ==> carries_snapshot(#[trigger] moves[i], b)
}

/// Every move leaves the king of `color` out of check.
pub open spec fn all_legal(moves: Seq<Move>, b: BoardModel, color: Color) -> bool {
    forall|i: int| 0 <= i < moves.len() ==> !in_check(apply_model(b, #[trigger] moves[i]), color)
}

proof fn lemma_or_assoc(a: u64, b: u64, c: u64)
    ensures
        (a | b) | c == a | (b | c),
        a | 0 == a,
        0 | a == a,
{
    assert((a | b) | c == a | (b | c)) by (bit_vector);
    assert(a | 0 == a) by (bit_vector);
    assert(0 | a == a) by (bit_vector);
}

/// What a move is with square indices for squares: origin, destination, kind,
/// promotion and moving piece.
pub type MoveShape = (int, int, MoveType, Option<Piece>, Piece);

pub open spec fn shape(m: Move) -> MoveShape {
    (m.from.index(), m.to.index(), m.move_type, m.promotes_to, m.moving_piece)
}

pub open spec fn shapes(moves: Seq<Move>) -> Seq<MoveShape> {
    moves.map_values(|m: Move| shape(m))
}

/// The moves of a `piece` of `color` on `from` along `ray`: a step to each empty square
/// up to the first occupied one, and a capture there when it holds an opposing piece.
pub open spec fn ray_moves(b: BoardModel, color: Color, from: int, piece: Piece, ray: Seq<int>) -> Seq<
    MoveShape,
>
    decreases ray.len(),
{
    if ray.len() == 0 {
        seq![]
    } else {
        match piece_at(b, ray[0]) {
            None => seq![(from, ray[0], MoveType::Step, None::<Piece>, piece)] + ray_moves(
                b,
                color,
                from,
                piece,
                ray.drop_first(),
            ),
            Some((p, owner)) => if owner == color.other() {
                seq![(from, ray[0], MoveType::Capture(p), None::<Piece>, piece)]
            } else {
                seq![]
            },
        }
    }
}

/// The moves of a `piece` of `color` on `from` along each of `rays` in turn.
pub open spec fn rays_moves(
    b: BoardModel,
    color: Color,
    from: int,
    piece: Piece,
    rays: Seq<Seq<int>>,
) -> Seq<MoveShape>
    decreases rays.len(),
{
    if rays.len() == 0 {
        seq![]
    } else {
        rays_moves(b, color, from, piece, rays.drop_last()) + ray_moves(
            b,
            color,
            from,
            piece,
            rays.last(),
        )
    }
}

/// The moves of the pieces of one type on `squares`, square by square.
pub open spec fn pieces_moves(b: BoardModel, color: Color, piece: Piece, squares: Seq<int>) -> Seq<
    MoveShape,
>
    decreases squares.len(),
{
    if squares.len() == 0 {
        seq![]
    } else {
        pieces_moves(b, color, piece, squares.drop_last()) + rays_moves(
            b,
            color,
            squares.last(),
            piece,
            rays_for(piece, squares.last()),
        )
    }
}

/// The moves of the king of `color`, from the first square its mask holds.
pub open spec fn king_moves(b: BoardModel, color: Color) -> Seq<MoveShape> {
    let kings = piece_squares(b.masks, Piece::KING, color);
    if kings.len() == 0 {
        seq![]
    } else {
        rays_moves(b, color, kings[0], Piece::KING, king_rays(kings[0]))
    }
}

/// The square (file + df, rank + dr) from `sq`, when it is on the board.
pub open spec fn offset_square(sq: int, df: int, dr: int) -> Option<int> {
    let f = file_of_square(sq) + df;
    let r = rank_of_square(sq) + dr;
    if on_board(f, r) {
        Some(square_of(f, r))
    } else {
        None
    }
}

/// One rank forward for `color`: +1 for White, -1 for Black.
pub open spec fn forward(color: Color) -> int {
    if color == Color::WHITE {
        1
    } else {
        -1
    }
}

/// The moves of a pawn of `color` from `from` to `to`, of kind `kind`: the four
/// promotions (queen, rook, bishop, knight) when `to` is on its last rank, else one move.
pub open spec fn pawn_moves_to(color: Color, from: int, to: int, kind: MoveType) -> Seq<MoveShape> {
    let last_rank = if color == Color::WHITE {
        to / 8 == 7
    } else {
        to / 8 == 0
    };
    if last_rank {
        seq![
            (from, to, kind, Some(Piece::QUEEN), Piece::PAWN),
            (from, to, kind, Some(Piece::ROOK), Piece::PAWN),
            (from, to, kind, Some(Piece::BISHOP), Piece::PAWN),
            (from, to, kind, Some(Piece::KNIGHT), Piece::PAWN),
        ]
    } else {
        seq![(from, to, kind, None::<Piece>, Piece::PAWN)]
    }
}

pub open spec fn occupancy(masks: Seq<u64>) -> u64 {
    side_mask(masks, Color::WHITE) | side_mask(masks, Color::BLACK)
}

/// The pawns of `pawns` moved one rank forward for `color`.
pub open spec fn pawn_push(pawns: u64, color: Color) -> u64 {
    if color == Color::WHITE {
        pawns << 8u64
    } else {
        pawns >> 8u64
    }
}

/// The empty squares one rank in front of the pawns of `color`.
pub open spec fn single_step_targets(masks: Seq<u64>, color: Color) -> u64 {
    let pushed = pawn_push(masks[piece_index(Piece::PAWN, color)], color);
    pushed & !(pushed & occupancy(masks))
}

/// The empty squares in front of the single-step targets on the third rank (sixth for
/// Black).
pub open spec fn double_step_targets(masks: Seq<u64>, color: Color) -> u64 {
    let start = if color == Color::WHITE {
        MASK_RANK3
    } else {
        MASK_RANK6
    };
    let pushed = pawn_push(single_step_targets(masks, color) & start, color);
    pushed & !(pushed & occupancy(masks))
}

/// The pawn steps of `color` onto `targets`, `ranks` ranks long, each from a square
/// holding a pawn of `color` onto an empty square.
pub open spec fn pawn_steps_onto(b: BoardModel, color: Color, targets: Seq<int>, ranks: int) -> Seq<
    MoveShape,
>
    decreases targets.len(),
{
    if targets.len() == 0 {
        seq![]
    } else {
        let to = targets.last();
        let here = match offset_square(to, 0, -ranks * forward(color)) {
            Some(from) => if has_bit(b.masks[piece_index(Piece::PAWN, color)], from) && piece_at(
                b,
                to,
            ) == None::<(Piece, Color)> {
                if ranks == 1 {
                    pawn_moves_to(color, from, to, MoveType::Step)
                } else {
                    seq![(from, to, MoveType::Step, None::<Piece>, Piece::PAWN)]
                }
            } else {
                seq![]
            },
            None => seq![],
        };
        pawn_steps_onto(b, color, targets.drop_last(), ranks) + here
    }
}

/// The pawn steps of `color`: single steps first, then double steps.
pub open spec fn pawn_step_moves(b: BoardModel, color: Color) -> Seq<MoveShape> {
    pawn_steps_onto(b, color, set_bits_below(single_step_targets(b.masks, color), 64), 1)
        + pawn_steps_onto(b, color, set_bits_below(double_step_targets(b.masks, color), 64), 2)
}

/// The capture of the piece on `to` by a pawn of `color` on the square (file + df) behind
/// it, if that pawn is there.
pub open spec fn pawn_capture_from(b: BoardModel, color: Color, to: int, df: int, captured: Piece) -> Seq<
    MoveShape,
> {
    match offset_square(to, df, -forward(color)) {
        Some(from) => if has_bit(b.masks[piece_index(Piece::PAWN, color)], from) {
            pawn_moves_to(color, from, to, MoveType::Capture(captured))
        } else {
            seq![]
        },
        None => seq![],
    }
}

/// The pawn captures of `color` onto `targets`, from the left then from the right.
pub open spec fn pawn_captures_onto(b: BoardModel, color: Color, targets: Seq<int>) -> Seq<MoveShape>
    decreases targets.len(),
{
    if targets.len() == 0 {
        seq![]
    } else {
        let to = targets.last();
        let here = match piece_at(b, to) {
            Some((captured, owner)) => if owner == color.other() {
                pawn_capture_from(b, color, to, -1, captured) + pawn_capture_from(
                    b,
                    color,
                    to,
                    1,
                    captured,
                )
            } else {
                seq![]
            },
            None => seq![],
        };
        pawn_captures_onto(b, color, targets.drop_last()) + here
    }
}

/// The pawn captures of `color` onto the opposing pieces its pawns attack.
pub open spec fn pawn_capture_moves(b: BoardModel, color: Color) -> Seq<MoveShape> {
    pawn_captures_onto(
        b,
        color,
        set_bits_below(
            pawn_attacks(b.masks[piece_index(Piece::PAWN, color)], color) & side_mask(
                b.masks,
                color.other(),
            ),
            64,
        ),
    )
}

/// The en-passant captures of `color`: a pawn beside the en-passant square (left one
/// first) moves behind it.
pub open spec fn en_passant_moves(b: BoardModel, color: Color) -> Seq<MoveShape> {
    match b.en_passant {
        None => seq![],
        Some(t) => match offset_square(t.index(), 0, forward(color)) {
            None => seq![],
            Some(to) => {
                let pawns = b.masks[piece_index(Piece::PAWN, color)];
                let left = match offset_square(t.index(), -1, 0) {
                    Some(from) => if has_bit(pawns, from) {
                        seq![(from, to, MoveType::EnPassant, None::<Piece>, Piece::PAWN)]
                    } else {
                        seq![]
                    },
                    None => seq![],
                };
                let right = match offset_square(t.index(), 1, 0) {
                    Some(from) => if has_bit(pawns, from) {
                        seq![(from, to, MoveType::EnPassant, None::<Piece>, Piece::PAWN)]
                    } else {
                        seq![]
                    },
                    None => seq![],
                };
                left + right
            },
        },
    }
}

/// The castling moves of `color`: king side first, then queen side.
pub open spec fn castling_moves(b: BoardModel, color: Color) -> Seq<MoveShape> {
    let k = piece_squares(b.masks, Piece::KING, color)[0];
    (if castling_allowed(b, color, true) {
        seq![(k, k + 2, MoveType::Castling, None::<Piece>, Piece::KING)]
    } else {
        seq![]
    }) + (if castling_allowed(b, color, false) {
        seq![(k, k - 2, MoveType::Castling, None::<Piece>, Piece::KING)]
    } else {
        seq![]
    })
}

/// The pseudo-legal moves of the side to move, in the order they are generated:
/// queens, rooks, bishops, knights, pawns (steps, captures, en passant), king, castling.
pub open spec fn pseudo_legal_moves(b: BoardModel) -> Seq<MoveShape> {
    let c = b.to_move;
    pieces_moves(b, c, Piece::QUEEN, piece_squares(b.masks, Piece::QUEEN, c)) + pieces_moves(
        b,
        c,
        Piece::ROOK,
        piece_squares(b.masks, Piece::ROOK, c),
    ) + pieces_moves(b, c, Piece::BISHOP, piece_squares(b.masks, Piece::BISHOP, c))
        + pieces_moves(b, c, Piece::KNIGHT, piece_squares(b.masks, Piece::KNIGHT, c)) + (
    pawn_step_moves(b, c) + pawn_capture_moves(b, c) + en_passant_moves(b, c)) + king_moves(b, c)
        + castling_moves(b, c)
}

/// Moves after which the side to move of `b` is not in check.
pub open spec fn keeps_king_safe(b: BoardModel) -> spec_fn(Move) -> bool {
    |m: Move| !in_check(apply_model(b, m), b.to_move)
}

/// `moves` are the pseudo-legal moves of `b` that leave its side to move out of check,
/// in generation order.
pub open spec fn legal_moves_of(b: BoardModel, moves: Seq<Move>) -> bool {
    exists|candidates: Seq<Move>|
        #[trigger] shapes(candidates) == pseudo_legal_moves(b) && all_carry(candidates, b)
            && moves == candidates.filter(keeps_king_safe(b))
}

/// The first move of `moves` from `from` to `to`.
pub open spec fn first_with_endpoints(moves: Seq<Move>, from: Position, to: Position) -> Option<Move>
    decreases moves.len(),
{
    if moves.len() == 0 {
        None
    } else if moves[0].from == from && moves[0].to == to {
        Some(moves[0])
    } else {
        first_with_endpoints(moves.drop_first(), from, to)
    }
}

/// A board has one list of legal moves.
pub proof fn lemma_legal_moves_unique(b: BoardModel, x: Seq<Move>, y: Seq<Move>)
    requires
        legal_moves_of(b, x),
        legal_moves_of(b, y),
    ensures
        x == y,
{
    let cx = choose|c: Seq<Move>|
        #[trigger] shapes(c) == pseudo_legal_moves(b) && all_carry(c, b) && x == c.filter(
            keeps_king_safe(b),
        );
    let cy = choose|c: Seq<Move>|
        #[trigger] shapes(c) == pseudo_legal_moves(b) && all_carry(c, b) && y == c.filter(
            keeps_king_safe(b),
        );
    assert(shapes(cx).len() == shapes(cy).len());
    assert forall|i: int| 0 <= i < cx.len() implies cx[i] == cy[i] by {
        assert(shapes(cx)[i] == shapes(cy)[i]);
        assert(carries_snapshot(cx[i], b));
        assert(carries_snapshot(cy[i], b));
        Position::lemma_index_injective(cx[i].from, cy[i].from);
        Position::lemma_index_injective(cx[i].to, cy[i].to);
    }
    assert(cx =~= cy);
}

/// When the pawn that just made a double step has a pawn of `color` beside it (`df` is
/// -1 or 1) and the square behind it is on the board, `color` has the en-passant capture
/// from that pawn's square to the square behind.
pub proof fn lemma_en_passant_available(b: BoardModel, color: Color, df: int)
    requires
        df == -1 || df == 1,
        b.en_passant is Some,
        offset_square(b.en_passant.unwrap().index(), df, 0) is Some,
        offset_square(b.en_passant.unwrap().index(), 0, forward(color)) is Some,
        has_bit(
            b.masks[piece_index(Piece::PAWN, color)],
            offset_square(b.en_passant.unwrap().index(), df, 0).unwrap(),
        ),
    ensures
        en_passant_moves(b, color).contains(
            (
                offset_square(b.en_passant.unwrap().index(), df, 0).unwrap(),
                offset_square(b.en_passant.unwrap().index(), 0, forward(color)).unwrap(),
                MoveType::EnPassant,
                None::<Piece>,
                Piece::PAWN,
            ),
        ),
{
    let t = b.en_passant.unwrap().index();
    let x = (
        offset_square(t, df, 0).unwrap(),
        offset_square(t, 0, forward(color)).unwrap(),
        MoveType::EnPassant,
        None::<Piece>,
        Piece::PAWN,
    );
    let ms = en_passant_moves(b, color);
    if df == -1 {
        assert(ms[0] == x);
    } else {
        assert(ms[ms.len() - 1] == x);
    }
}

proof fn lemma_shapes_append(a: Seq<Move>, c: Seq<Move>)
    ensures
        shapes(a + c) == shapes(a) + shapes(c),
{
    assert(shapes(a + c) =~= shapes(a) + shapes(c));
}

proof fn lemma_shapes_push(a: Seq<Move>, m: Move)
    ensures
        shapes(a.push(m)) == shapes(a).push(shape(m)),
{
    assert(shapes(a.push(m)) =~= shapes(a).push(shape(m)));
}

/// Move `m` by `color` starts from a square holding its moving piece of `color`; a
/// step lands on an empty square, a capture on a square holding the captured piece of
/// the opponent.
pub open spec fn sound_move(b: BoardModel, m: Move, color: Color) -> bool {
    &&& has_bit(b.masks[piece_index(m.moving_piece, color)], m.from.index())
    &&& match m.move_type {
        MoveType::Step => piece_at(b, m.to.index()) == None::<(Piece, Color)>,
        MoveType::Capture(p) => piece_at(b, m.to.index()) == Some((p, color.other())),
        _ => true,
    }
}

/// Every move carries the board's snapshot and is a sound move of `color`.
pub open spec fn all_sound(moves: Seq<Move>, b: BoardModel, color: Color) -> bool {
    forall|i: int|
        0 <= i < moves.len() ==> carries_snapshot(#[trigger] moves[i], b) && sound_move(
            b,
            moves[i],
            color,
        )
}

proof fn lemma_all_sound_append(a: Seq<Move>, c: Seq<Move>, b: BoardModel, color: Color)
    requires
        all_sound(a, b, color),
        all_sound(c, b, color),
    ensures
        all_sound(a + c, b, color),
{
    assert forall|i: int| 0 <= i < (a + c).len() implies carries_snapshot(#[trigger] (a + c)[i], b)
        && sound_move(b, (a + c)[i], color) by {
        if i < a.len() {
            assert((a + c)[i] == a[i]);
        } else {
            assert((a + c)[i] == c[i - a.len()]);
        }
    }
}

/// The squares listed for a mask all hold a bit of it.
proof fn lemma_set_bits_are_set(mask: u64, n: int)
    ensures
        forall|i: int|
            0 <= i < set_bits_below(mask, n).len() ==> has_bit(
                mask,
                #[trigger] set_bits_below(mask, n)[i],
            ),
    decreases n,
{
    if n > 0 {
        lemma_set_bits_are_set(mask, n - 1);
        let prev = set_bits_below(mask, n - 1);
        if has_bit(mask, n - 1) {
            assert forall|i: int| 0 <= i < prev.len() + 1 implies has_bit(
                mask,
                #[trigger] prev.push(n - 1)[i],
            ) by {
                if i < prev.len() {
                    assert(prev.push(n - 1)[i] == prev[i]);
                }
            }
        }
    }
}

fn append_moves(
    moves: &mut Vec<Move>,
    more: &mut Vec<Move>,
    Ghost(b): Ghost<BoardModel>,
    Ghost(color): Ghost<Color>,
)
    requires
        all_sound(old(moves)@, b, color),
        all_sound(old(more)@, b, color),
    ensures
        all_sound(final(moves)@, b, color),
        final(moves)@ == old(moves)@ + old(more)@,
        shapes(final(moves)@) == shapes(old(moves)@) + shapes(old(more)@),
{
    proof {
        lemma_all_sound_append(old(moves)@, old(more)@, b, color);
        lemma_shapes_append(old(moves)@, old(more)@);
    }
    moves.append(more);
}

/// The square (file + df, rank + dr) from `p`, when it is on the board.
fn offset(p: Position, df: i8, dr: i8) -> (r: Option<Position>)
    ensures
        match r {
            Some(q) => offset_square(p.index(), df as int, dr as int) == Some(q.index()),
            None => offset_square(p.index(), df as int, dr as int) is None,
        },
{
    let r = p.delta(df, dr);
    assert(p.file_of() == file_of_square(p.index()));
    assert(p.rank_of() == rank_of_square(p.index()));
    r
}

pub struct GeneratedMoves {
    pub moves: Vec<Move>,
    pub is_check: bool,
}

impl GeneratedMoves {
    /// Checkmate: in check with no legal move.
    pub fn is_checkmate(&self) -> (r: bool)
        ensures
            r == (self.is_check && self.moves@.len() == 0),
    {
        self.is_check && self.moves.len() == 0
    }
}

/// Legal-move generator over precomputed attack traces.
pub struct MoveGenerator {
    rook_trace: Vec<Vec<Vec<Position>>>,
    bishop_trace: Vec<Vec<Vec<Position>>>,
    queen_trace: Vec<Vec<Vec<Position>>>,
    knight_trace: Vec<Vec<Vec<Position>>>,
}

impl MoveGenerator {
    #[verifier::type_invariant]
    spec fn inv(self) -> bool {
        &&& trace_view(self.rook_trace@) == Seq::new(64, |sq: int| rays_for(Piece::ROOK, sq))
        &&& trace_view(self.bishop_trace@) == Seq::new(64, |sq: int| rays_for(Piece::BISHOP, sq))
        &&& trace_view(self.queen_trace@) == Seq::new(64, |sq: int| rays_for(Piece::QUEEN, sq))
        &&& trace_view(self.knight_trace@) == Seq::new(64, |sq: int| rays_for(Piece::KNIGHT, sq))
    }

    pub fn new() -> (r: MoveGenerator) {
        let rook_trace = attack_trace_for_rook();
        let bishop_trace = attack_trace_for_bishop();
        let queen_trace = attack_trace_for_queen();
        let knight_trace = attack_trace_for_knight();
        assert(Seq::new(64, |sq: int| rook_rays(sq)) =~= Seq::new(
            64,
            |sq: int| rays_for(Piece::ROOK, sq),
        ));
        assert(Seq::new(64, |sq: int| bishop_rays(sq)) =~= Seq::new(
            64,
            |sq: int| rays_for(Piece::BISHOP, sq),
        ));
        assert(Seq::new(64, |sq: int| queen_rays(sq)) =~= Seq::new(
            64,
            |sq: int| rays_for(Piece::QUEEN, sq),
        ));
        assert(Seq::new(64, |sq: int| knight_rays(sq)) =~= Seq::new(
            64,
            |sq: int| rays_for(Piece::KNIGHT, sq),
        ));
        MoveGenerator { rook_trace, bishop_trace, queen_trace, knight_trace }
    }

    fn trace_of(&self, piece: Piece) -> (r: &Vec<Vec<Vec<Position>>>)
        requires
            piece == Piece::ROOK || piece == Piece::BISHOP || piece == Piece::QUEEN || piece
                == Piece::KNIGHT,
        ensures
            trace_view(r@) == Seq::new(64, |sq: int| rays_for(piece, sq)),
    {
        proof {
            use_type_invariant(self);
        }
        match piece {
            Piece::ROOK => &self.rook_trace,
            Piece::BISHOP => &self.bishop_trace,
            Piece::QUEEN => &self.queen_trace,
            _ => &self.knight_trace,
        }
    }

    /// The first legal move from `from` to `to`, if there is one.
    pub fn get_move(&self, board: &GameState, from: Position, to: Position) -> (r: Option<Move>)
        ensures
            r matches Some(m) ==> m.from == from && m.to == to && carries_snapshot(m, board@)
                && sound_move(board@, m, board@.to_move) && !in_check(
                apply_model(board@, m),
                board@.to_move,
            ),
            exists|moves: Seq<Move>|
                legal_moves_of(board@, moves) && r == #[trigger] first_with_endpoints(
                    moves,
                    from,
                    to,
                ),
    {
        let generated = self.generate_moves(board);
        let moves = generated.moves;
        let mut i: usize = 0;
        assert(moves@.subrange(0, moves@.len() as int) =~= moves@);
        while i < moves.len()
            invariant
                i <= moves@.len(),
                all_sound(moves@, board@, board@.to_move),
                all_legal(moves@, board@, board@.to_move),
                legal_moves_of(board@, moves@),
                first_with_endpoints(moves@, from, to) == first_with_endpoints(
                    moves@.subrange(i as int, moves@.len() as int),
                    from,
                    to,
                ),
            decreases moves@.len() - i,
        {
            let m = moves[i];
            let ghost rest = moves@.subrange(i as int, moves@.len() as int);
            assert(rest[0] == m);
            assert(rest.drop_first() =~= moves@.subrange(i + 1, moves@.len() as int));
            if m.to == to && m.from == from {
                return Some(m);
            }
            i = i + 1;
        }
        assert(moves@.subrange(i as int, moves@.len() as int) =~= Seq::<Move>::empty());
        None
    }

    /// The legal moves of the side to move, and whether it is in check.
    pub fn generate_moves(&self, board: &GameState) -> (r: GeneratedMoves)
        ensures
            r.is_check == in_check(board@, board@.to_move),
            all_carry(r.moves@, board@),
            all_sound(r.moves@, board@, board@.to_move),
            all_legal(r.moves@, board@, board@.to_move),
            legal_moves_of(board@, r.moves@),
    {
        let candidate_moves = self.generate_moves_unchecked(board);
        let ghost keep = keeps_king_safe(board@);
        let to_move = board.to_move();
        let is_check = self.is_check(board, to_move);
        let mut moves: Vec<Move> = Vec::new();
        proof {
            reveal(Seq::filter);
        }
        assert(moves@ =~= candidate_moves@.subrange(0, 0).filter(keep));
        let mut i: usize = 0;
        while i < candidate_moves.len()
            invariant
                i <= candidate_moves@.len(),
                all_sound(candidate_moves@, board@, to_move),
                all_sound(moves@, board@, to_move),
                all_legal(moves@, board@, to_move),
                to_move == board@.to_move,
                keep == keeps_king_safe(board@),
                moves@ == candidate_moves@.subrange(0, i as int).filter(keep),
            decreases candidate_moves@.len() - i,
        {
            let m = candidate_moves[i];
            assert(candidate_moves@.subrange(0, i + 1).drop_last() =~= candidate_moves@.subrange(
                0,
                i as int,
            ));
            assert(candidate_moves@.subrange(0, i + 1).last() == m);
            let next = board.apply_move(m);
            if !self.is_check(&next, to_move) {
                moves.push(m);
                assert(moves@.last() == m);
            }
            proof {
                reveal(Seq::filter);
                assert(keep(m) == !in_check(apply_model(board@, m), to_move));
            }
            assert(moves@ =~= candidate_moves@.subrange(0, i + 1).filter(keep));
            i = i + 1;
        }
        assert(candidate_moves@.subrange(0, i as int) =~= candidate_moves@);
        assert(all_carry(candidate_moves@, board@)) by {
            assert forall|k: int| 0 <= k < candidate_moves@.len() implies carries_snapshot(
                #[trigger] candidate_moves@[k],
                board@,
            ) by {}
        }
        assert forall|i: int| 0 <= i < moves@.len() implies carries_snapshot(
            #[trigger] moves@[i],
            board@,
        ) by {}
        GeneratedMoves { moves, is_check }
    }

    /// Whether the king of `color` is attacked.
    pub fn is_check(&self, board: &GameState, color: Color) -> (r: bool)
        ensures
            r == in_check(board@, color),
    {
        (*board.get_piece_mask(Piece::KING, color) & self.generate_threats(board, color.opposite()))
            != 0
    }

    /// Pseudo-legal moves of the side to move: they may leave its king in check.
    pub fn generate_moves_unchecked(&self, board: &GameState) -> (r: Vec<Move>)
        ensures
            all_sound(r@, board@, board@.to_move),
            shapes(r@) == pseudo_legal_moves(board@),
    {
        let to_move = board.to_move();
        let ghost b = board@;
        let mut moves: Vec<Move> = Vec::new();
        assert(shapes(moves@) =~= seq![]);
        let mut more = self.generate_queen_moves(board, to_move);
        append_moves(&mut moves, &mut more, Ghost(b), Ghost(to_move));
        let mut more = self.generate_rook_moves(board, to_move);
        append_moves(&mut moves, &mut more, Ghost(b), Ghost(to_move));
        let mut more = self.generate_bishop_moves(board, to_move);
        append_moves(&mut moves, &mut more, Ghost(b), Ghost(to_move));
        let mut more = self.generate_knight_moves(board, to_move);
        append_moves(&mut moves, &mut more, Ghost(b), Ghost(to_move));
        let mut more = self.generate_pawn_moves(board, to_move);
        append_moves(&mut moves, &mut more, Ghost(b), Ghost(to_move));
        let mut more = self.generate_king_moves(board, to_move);
        append_moves(&mut moves, &mut more, Ghost(b), Ghost(to_move));
        let mut more = self.generate_castling_moves(board, to_move);
        append_moves(&mut moves, &mut more, Ghost(b), Ghost(to_move));
        moves
    }

    /// The squares `color` reaches along one ray.
    fn reach_along(&self, board: &GameState, color: Color, ray: &Vec<Position>) -> (r: u64)
        ensures
            r == ray_reach(board@.masks, color, indices_of(ray@)),
    {
        let ghost masks = board@.masks;
        let ghost full = indices_of(ray@);
        let mut acc: u64 = 0;
        let mut j: usize = 0;
        proof {
            assert(full.subrange(0, full.len() as int) =~= full);
            lemma_or_assoc(ray_reach(masks, color, full), 0, 0);
        }
        while j < ray.len()
            invariant
                j <= ray@.len(),
                masks == board@.masks,
                full == indices_of(ray@),
                acc | ray_reach(masks, color, full.subrange(j as int, full.len() as int))
                    == ray_reach(masks, color, full),
            decreases ray@.len() - j,
        {
            let square = ray[j];
            let ghost rest = full.subrange(j as int, full.len() as int);
            assert(rest[0] == square.index());
            assert(rest.drop_first() =~= full.subrange(j + 1, full.len() as int));
            let bit = square.to_bit_mask();
            match board.collide(square) {
                None => {
                    proof {
                        lemma_or_assoc(
                            acc,
                            bit,
                            ray_reach(masks, color, full.subrange(j + 1, full.len() as int)),
                        );
                    }
                    acc = acc | bit;
                },
                Some(c) => {
                    if c != color {
                        acc = acc | bit;
                    }
                    proof {
                        lemma_or_assoc(acc, 0, 0);
                    }
                    return acc;
                },
            }
            j = j + 1;
        }
        proof {
            assert(full.subrange(j as int, full.len() as int) =~= Seq::<int>::empty());
            lemma_or_assoc(acc, 0, 0);
        }
        acc
    }

    /// The squares `color` reaches along all rays of one square.
    fn reach_from(&self, board: &GameState, color: Color, rays: &Vec<Vec<Position>>) -> (r: u64)
        ensures
            r == rays_reach(board@.masks, color, rays_view(rays@)),
    {
        let ghost all = rays_view(rays@);
        let mut acc: u64 = 0;
        let mut j: usize = 0;
        while j < rays.len()
            invariant
                j <= rays@.len(),
                all == rays_view(rays@),
                acc == rays_reach(board@.masks, color, all.subrange(0, j as int)),
            decreases rays@.len() - j,
        {
            let r = self.reach_along(board, color, &rays[j]);
            assert(all.subrange(0, j + 1).drop_last() =~= all.subrange(0, j as int));
            assert(all[j as int] == indices_of(rays@[j as int]@));
            acc = acc | r;
            j = j + 1;
        }
        assert(all.subrange(0, j as int) =~= all);
        acc
    }

    /// The one-square rays of a king on `king`.
    fn king_rays_at(king: Position) -> (r: Vec<Vec<Position>>)
        ensures
            rays_view(r@) == king_rays(king.index()),
    {
        let mut rays: Vec<Vec<Position>> = Vec::new();
        assert(rays_view(rays@) =~= seq![]);
        push_jump(&mut rays, king, 0, 1);
        push_jump(&mut rays, king, 0, -1);
        push_jump(&mut rays, king, 1, 0);
        push_jump(&mut rays, king, -1, 0);
        push_jump(&mut rays, king, 1, 1);
        push_jump(&mut rays, king, -1, -1);
        push_jump(&mut rays, king, -1, 1);
        push_jump(&mut rays, king, 1, -1);
        assert(rays_view(rays@) =~= king_rays(king.index()));
        rays
    }

    /// The squares reached by all pieces of one type and color.
    fn reach_of_pieces(&self, board: &GameState, color: Color, piece: Piece) -> (r: u64)
        requires
            piece != Piece::PAWN,
        ensures
            r == reach_of(board@.masks, color, piece),
    {
        let positions = board.get_piece_position(piece, color);
        let ghost squares = piece_squares(board@.masks, piece, color);
        let mut acc: u64 = 0;
        let mut j: usize = 0;
        while j < positions.len()
            invariant
                j <= positions@.len(),
                piece != Piece::PAWN,
                indices_of(positions@) == squares,
                squares == piece_squares(board@.masks, piece, color),
                acc == pieces_reach(board@.masks, color, squares.subrange(0, j as int), piece),
            decreases positions@.len() - j,
        {
            let p = positions[j];
            assert(squares[j as int] == p.index());
            let sq = p.to_numeric() as usize;
            let r = if piece == Piece::KING {
                let rays = MoveGenerator::king_rays_at(p);
                assert(rays_for(piece, sq as int) == king_rays(sq as int));
                self.reach_from(board, color, &rays)
            } else {
                let trace = self.trace_of(piece);
                assert(trace_view(trace@).len() == trace@.len());
                assert(trace_view(trace@)[sq as int] == rays_for(piece, sq as int));
                assert(trace_view(trace@)[sq as int] == rays_view(trace@[sq as int]@));
                self.reach_from(board, color, &trace[sq])
            };
            assert(r == rays_reach(board@.masks, color, rays_for(piece, squares[j as int])));
            assert(squares.subrange(0, j + 1).drop_last() =~= squares.subrange(0, j as int));
            acc = acc | r;
            j = j + 1;
        }
        assert(squares.subrange(0, j as int) =~= squares);
        acc
    }

    /// Every square that `color` attacks.
    pub fn generate_threats(&self, board: &GameState, color: Color) -> (r: u64)
        ensures
            r == threat_mask(board@.masks, color),
    {
        let pawns = *board.get_piece_mask(Piece::PAWN, color);
        let pawn_threats = match color {
            Color::WHITE => ((pawns & !MASK_FILE1) << 7u64) | ((pawns & !MASK_FILE8) << 9u64),
            Color::BLACK => ((pawns & !MASK_FILE1) >> 9u64) | ((pawns & !MASK_FILE8) >> 7u64),
        };
        self.reach_of_pieces(board, color, Piece::QUEEN) | self.reach_of_pieces(
            board,
            color,
            Piece::ROOK,
        ) | self.reach_of_pieces(board, color, Piece::BISHOP) | self.reach_of_pieces(
            board,
            color,
            Piece::KNIGHT,
        ) | pawn_threats | self.reach_of_pieces(board, color, Piece::KING)
    }

    pub fn generate_rook_moves(&self, board: &GameState, to_move: Color) -> (r: Vec<Move>)
        ensures
            all_sound(r@, board@, to_move),
            shapes(r@) == pieces_moves(
                board@,
                to_move,
                Piece::ROOK,
                piece_squares(board@.masks, Piece::ROOK, to_move),
            ),
    {
        self.generate_moves_from_trace_and_piece_positions(board, to_move, Piece::ROOK)
    }

    pub fn generate_bishop_moves(&self, board: &GameState, to_move: Color) -> (r: Vec<Move>)
        ensures
            all_sound(r@, board@, to_move),
            shapes(r@) == pieces_moves(
                board@,
                to_move,
                Piece::BISHOP,
                piece_squares(board@.masks, Piece::BISHOP, to_move),
            ),
    {
        self.generate_moves_from_trace_and_piece_positions(board, to_move, Piece::BISHOP)
    }

    pub fn generate_knight_moves(&self, board: &GameState, to_move: Color) -> (r: Vec<Move>)
        ensures
            all_sound(r@, board@, to_move),
            shapes(r@) == pieces_moves(
                board@,
                to_move,
                Piece::KNIGHT,
                piece_squares(board@.masks, Piece::KNIGHT, to_move),
            ),
    {
        self.generate_moves_from_trace_and_piece_positions(board, to_move, Piece::KNIGHT)
    }

    pub fn generate_queen_moves(&self, board: &GameState, to_move: Color) -> (r: Vec<Move>)
        ensures
            all_sound(r@, board@, to_move),
            shapes(r@) == pieces_moves(
                board@,
                to_move,
                Piece::QUEEN,
                piece_squares(board@.masks, Piece::QUEEN, to_move),
            ),
    {
        self.generate_moves_from_trace_and_piece_positions(board, to_move, Piece::QUEEN)
    }

    /// Castling for `to_move` on either side: the right is held, the squares between
    /// king and rook are empty, and neither the king's square nor the squares it
    /// crosses or lands on are attacked.
    pub fn generate_castling_moves(&self, board: &GameState, to_move: Color) -> (r: Vec<Move>)
        ensures
            all_sound(r@, board@, to_move),
            r@.len() <= 2,
            forall|i: int|
                0 <= i < r@.len() ==> {
                    let m = #[trigger] r@[i];
                    &&& m.move_type == MoveType::Castling
                    &&& m.moving_piece == Piece::KING
                    &&& m.promotes_to == None::<Piece>
                    &&& m.from.index() == piece_squares(board@.masks, Piece::KING, to_move)[0]
                },
            (exists|i: int|
                0 <= i < r@.len() && (#[trigger] r@[i]).to.index() == r@[i].from.index() + 2)
                == castling_allowed(board@, to_move, true),
            (exists|i: int|
                0 <= i < r@.len() && (#[trigger] r@[i]).to.index() == r@[i].from.index() - 2)
                == castling_allowed(board@, to_move, false),
            shapes(r@) == castling_moves(board@, to_move),
    {
        let mut moves: Vec<Move> = Vec::new();
        let kings = board.get_piece_position(Piece::KING, to_move);
        if kings.len() == 0 {
            assert(shapes(moves@) =~= castling_moves(board@, to_move));
            return moves;
        }
        let king = kings[0];
        proof {
            lemma_set_bits_are_set(board@.masks[piece_index(Piece::KING, to_move)], 64);
        }
        let ghost ks = king.index();
        assert(indices_of(kings@)[0] == ks);
        let opponent_threats = self.generate_threats(board, to_move.opposite());
        let rights = board.castling_rights();
        let king_safe = opponent_threats & king.to_bit_mask() == 0;
        let king_side = match to_move {
            Color::WHITE => rights.white_king_side,
            Color::BLACK => rights.black_king_side,
        };
        let queen_side = match to_move {
            Color::WHITE => rights.white_queen_side,
            Color::BLACK => rights.black_queen_side,
        };
        let beside = king.delta(1, 0);
        let next_beside = king.delta(2, 0);
        if king_side && king_safe {
            if let (Some(one_step), Some(two_steps)) = (beside, next_beside) {
                let no_threat = (opponent_threats & one_step.to_bit_mask()) == 0 && (
                opponent_threats & two_steps.to_bit_mask()) == 0;
                let room = board.get_piece(one_step).is_none() && board.get_piece(
                    two_steps,
                ).is_none();
                if no_threat && room {
                    moves.push(
                        Move {
                            move_type: MoveType::Castling,
                            moving_piece: Piece::KING,
                            from: king,
                            to: two_steps,
                            promotes_to: None,
                            last_en_passant: board.en_passant(),
                            last_castling_rights: rights,
                        },
                    );
                }
            }
        }
        let ghost king_side_moves = moves@;
        assert(king_side_moves.len() <= 1);
        assert(shapes(king_side_moves) =~= if castling_allowed(board@, to_move, true) {
            seq![(ks, ks + 2, MoveType::Castling, None::<Piece>, Piece::KING)]
        } else {
            seq![]
        }) by {
            if king_side_moves.len() == 1 {
                assert(king_side_moves[0].to.index() == king_side_moves[0].from.index() + 2);
            }
        }
        assert((exists|i: int|
            0 <= i < king_side_moves.len() && (#[trigger] king_side_moves[i]).to.index()
                == king_side_moves[i].from.index() + 2) == castling_allowed(
            board@,
            to_move,
            true,
        )) by {
            if king_side_moves.len() == 1 {
                assert(king_side_moves[0].to.index() == king_side_moves[0].from.index() + 2);
            }
        }
        let left = king.delta(-1, 0);
        let next_left = king.delta(-2, 0);
        let far_left = king.delta(-3, 0);
        if queen_side && king_safe {
            if let (Some(one_step), Some(two_steps), Some(three_steps)) = (
                left,
                next_left,
                far_left,
            ) {
                let no_threat = (opponent_threats & one_step.to_bit_mask()) == 0 && (
                opponent_threats & two_steps.to_bit_mask()) == 0;
                let room = board.get_piece(one_step).is_none() && board.get_piece(
                    two_steps,
                ).is_none() && board.get_piece(three_steps).is_none();
                if no_threat && room {
                    moves.push(
                        Move {
                            move_type: MoveType::Castling,
                            moving_piece: Piece::KING,
                            from: king,
                            to: two_steps,
                            promotes_to: None,
                            last_en_passant: board.en_passant(),
                            last_castling_rights: rights,
                        },
                    );
                }
            }
        }
        assert forall|i: int| 0 <= i < moves@.len() implies carries_snapshot(
            #[trigger] moves@[i],
            board@,
        ) by {}
        assert(shapes(moves@) =~= castling_moves(board@, to_move)) by {
            if moves@.len() > king_side_moves.len() {
                let last = moves@.len() - 1;
                assert(moves@.subrange(0, last) =~= king_side_moves);
                assert(moves@[last].to.index() == moves@[last].from.index() - 2);
            } else {
                assert(moves@ =~= king_side_moves);
            }
        }
        assert((exists|i: int|
            0 <= i < moves@.len() && (#[trigger] moves@[i]).to.index() == moves@[i].from.index()
                + 2) == castling_allowed(board@, to_move, true)) by {
            if castling_allowed(board@, to_move, true) {
                assert(moves@[0] == king_side_moves[0]);
                assert(moves@[0].to.index() == moves@[0].from.index() + 2);
            }
        }
        assert((exists|i: int|
            0 <= i < moves@.len() && (#[trigger] moves@[i]).to.index() == moves@[i].from.index()
                - 2) == castling_allowed(board@, to_move, false)) by {
            if castling_allowed(board@, to_move, false) {
                let last = moves@.len() - 1;
                assert(moves@[last].to.index() == moves@[last].from.index() - 2);
            }
        }
        moves
    }

    /// Pawn steps, captures and en-passant captures of `to_move`.
    pub fn generate_pawn_moves(&self, board: &GameState, to_move: Color) -> (r: Vec<Move>)
        ensures
            all_sound(r@, board@, to_move),
            shapes(r@) == pawn_step_moves(board@, to_move) + pawn_capture_moves(board@, to_move)
                + en_passant_moves(board@, to_move),
    {
        let ghost b = board@;
        let mut moves: Vec<Move> = Vec::new();
        assert(shapes(moves@) =~= seq![]);
        let mut more = self.generate_pawn_steps(board, to_move);
        append_moves(&mut moves, &mut more, Ghost(b), Ghost(to_move));
        let mut more = self.generate_pawn_captures(board, to_move);
        append_moves(&mut moves, &mut more, Ghost(b), Ghost(to_move));
        let mut more = self.generate_en_passant_captures(board, to_move);
        append_moves(&mut moves, &mut more, Ghost(b), Ghost(to_move));
        moves
    }

    /// One-square king steps and captures of `to_move`.
    pub fn generate_king_moves(&self, board: &GameState, to_move: Color) -> (r: Vec<Move>)
        ensures
            all_sound(r@, board@, to_move),
            shapes(r@) == king_moves(board@, to_move),
    {
        let kings = board.get_piece_position(Piece::KING, to_move);
        if kings.len() == 0 {
            let none: Vec<Move> = Vec::new();
            assert(shapes(none@) =~= seq![]);
            return none;
        }
        let king = kings[0];
        proof {
            lemma_set_bits_are_set(board@.masks[piece_index(Piece::KING, to_move)], 64);
            assert(indices_of(kings@)[0] == king.index());
        }
        let rays = MoveGenerator::king_rays_at(king);
        let ghost b = board@;
        let mut moves: Vec<Move> = Vec::new();
        assert(shapes(moves@) =~= seq![]);
        let mut j: usize = 0;
        while j < rays.len()
            invariant
                j <= rays@.len(),
                b == board@,
                all_sound(moves@, b, to_move),
                has_bit(b.masks[piece_index(Piece::KING, to_move)], king.index()),
                rays_view(rays@) == king_rays(king.index()),
                shapes(moves@) == rays_moves(
                    b,
                    to_move,
                    king.index(),
                    Piece::KING,
                    rays_view(rays@).subrange(0, j as int),
                ),
            decreases rays@.len() - j,
        {
            assert(rays_view(rays@)[j as int] == indices_of(rays@[j as int]@));
            assert(rays_view(rays@).subrange(0, j + 1).drop_last() =~= rays_view(rays@).subrange(
                0,
                j as int,
            ));
            let mut more = self.generate_moves_from_target_squares(
                board,
                to_move,
                king,
                Piece::KING,
                &rays[j],
            );
            append_moves(&mut moves, &mut more, Ghost(b), Ghost(to_move));
            j = j + 1;
        }
        assert(rays_view(rays@).subrange(0, j as int) =~= rays_view(rays@));
        moves
    }

    fn generate_moves_from_trace_and_piece_positions(
        &self,
        board: &GameState,
        to_move: Color,
        piece: Piece,
    ) -> (r: Vec<Move>)
        requires
            piece == Piece::ROOK || piece == Piece::BISHOP || piece == Piece::QUEEN || piece
                == Piece::KNIGHT,
        ensures
            all_sound(r@, board@, to_move),
            shapes(r@) == pieces_moves(
                board@,
                to_move,
                piece,
                piece_squares(board@.masks, piece, to_move),
            ),
    {
        let piece_positions = board.get_piece_position(piece, to_move);
        let ghost b = board@;
        let ghost squares = piece_squares(b.masks, piece, to_move);
        proof {
            lemma_set_bits_are_set(b.masks[piece_index(piece, to_move)], 64);
        }
        let mut moves: Vec<Move> = Vec::new();
        assert(shapes(moves@) =~= seq![]);
        let mut j: usize = 0;
        while j < piece_positions.len()
            invariant
                j <= piece_positions@.len(),
                b == board@,
                all_sound(moves@, b, to_move),
                piece == Piece::ROOK || piece == Piece::BISHOP || piece == Piece::QUEEN || piece
                    == Piece::KNIGHT,
                indices_of(piece_positions@) == set_bits_below(b.masks[piece_index(piece, to_move)], 64),
                forall|i: int|
                    0 <= i < set_bits_below(b.masks[piece_index(piece, to_move)], 64).len()
                        ==> has_bit(
                        b.masks[piece_index(piece, to_move)],
                        #[trigger] set_bits_below(b.masks[piece_index(piece, to_move)], 64)[i],
                    ),
                squares == piece_squares(b.masks, piece, to_move),
                shapes(moves@) == pieces_moves(b, to_move, piece, squares.subrange(0, j as int)),
            decreases piece_positions@.len() - j,
        {
            assert(indices_of(piece_positions@)[j as int] == piece_positions@[j as int].index());
            assert(squares.subrange(0, j + 1).drop_last() =~= squares.subrange(0, j as int));
            let mut more = self.generate_moves_from_trace_and_position(
                board,
                to_move,
                piece_positions[j],
                piece,
            );
            append_moves(&mut moves, &mut more, Ghost(b), Ghost(to_move));
            j = j + 1;
        }
        assert(squares.subrange(0, j as int) =~= squares);
        moves
    }

    /// Moves of `piece` from `position` along one ray: steps to the empty squares up
    /// to the first occupied one, and a capture there if it holds an opposing piece.
    fn generate_moves_from_target_squares(
        &self,
        board: &GameState,
        to_move: Color,
        position: Position,
        piece: Piece,
        target_squares: &Vec<Position>,
    ) -> (r: Vec<Move>)
        requires
            has_bit(board@.masks[piece_index(piece, to_move)], position.index()),
        ensures
            all_sound(r@, board@, to_move),
            shapes(r@) == ray_moves(
                board@,
                to_move,
                position.index(),
                piece,
                indices_of(target_squares@),
            ),
    {
        let opposite_color = to_move.opposite();
        let mut moves: Vec<Move> = Vec::new();
        let ghost ray = indices_of(target_squares@);
        let ghost from = position.index();
        assert(shapes(moves@) =~= seq![]);
        assert(ray.subrange(0, ray.len() as int) =~= ray);
        assert(shapes(moves@) + ray_moves(board@, to_move, from, piece, ray.subrange(
            0,
            ray.len() as int,
        )) =~= ray_moves(board@, to_move, from, piece, ray));
        let mut j: usize = 0;
        while j < target_squares.len()
            invariant
                j <= target_squares@.len(),
                opposite_color == to_move.other(),
                has_bit(board@.masks[piece_index(piece, to_move)], position.index()),
                all_sound(moves@, board@, to_move),
                ray == indices_of(target_squares@),
                from == position.index(),
                shapes(moves@) + ray_moves(board@, to_move, from, piece, ray.subrange(
                    j as int,
                    ray.len() as int,
                )) == ray_moves(board@, to_move, from, piece, ray),
            decreases target_squares@.len() - j,
        {
            let square = target_squares[j];
            let ghost rest = ray.subrange(j as int, ray.len() as int);
            let ghost before = moves@;
            assert(rest[0] == square.index());
            assert(rest.drop_first() =~= ray.subrange(j + 1, ray.len() as int));
            match board.get_piece(square) {
                None => {
                    moves.push(
                        Move {
                            move_type: MoveType::Step,
                            moving_piece: piece,
                            from: position,
                            to: square,
                            promotes_to: None,
                            last_en_passant: board.en_passant(),
                            last_castling_rights: board.castling_rights(),
                        },
                    );
                    assert(moves@.last() == moves@[moves@.len() - 1]);
                    proof {
                        lemma_shapes_push(before, moves@.last());
                        assert(shapes(moves@) + ray_moves(board@, to_move, from, piece, ray.subrange(
                            j + 1,
                            ray.len() as int,
                        )) =~= shapes(before) + ray_moves(board@, to_move, from, piece, rest));
                    }
                },
                Some((captured, color)) => {
                    if color == opposite_color {
                        moves.push(
                            Move {
                                move_type: MoveType::Capture(captured),
                                moving_piece: piece,
                                from: position,
                                to: square,
                                promotes_to: None,
                                last_en_passant: board.en_passant(),
                                last_castling_rights: board.castling_rights(),
                            },
                        );
                        assert(moves@.last() == moves@[moves@.len() - 1]);
                        proof {
                            lemma_shapes_push(before, moves@.last());
                        }
                        assert(shapes(moves@) =~= shapes(before) + ray_moves(board@, to_move, from, piece, rest));
                    } else {
                        assert(shapes(moves@) =~= shapes(before) + ray_moves(board@, to_move, from, piece, rest));
                    }
                    return moves;
                },
            }
            j = j + 1;
        }
        assert(ray.subrange(j as int, ray.len() as int) =~= seq![]);
        assert(shapes(moves@) =~= shapes(moves@) + ray_moves(board@, to_move, from, piece, seq![]));
        moves
    }

    fn generate_moves_from_trace_and_position(
        &self,
        board: &GameState,
        to_move: Color,
        position: Position,
        piece: Piece,
    ) -> (r: Vec<Move>)
        requires
            piece == Piece::ROOK || piece == Piece::BISHOP || piece == Piece::QUEEN || piece
                == Piece::KNIGHT,
            has_bit(board@.masks[piece_index(piece, to_move)], position.index()),
        ensures
            all_sound(r@, board@, to_move),
            shapes(r@) == rays_moves(
                board@,
                to_move,
                position.index(),
                piece,
                rays_for(piece, position.index()),
            ),
    {
        let trace = self.trace_of(piece);
        let sq = position.to_numeric() as usize;
        assert(trace_view(trace@).len() == trace@.len());
        let rays = &trace[sq];
        assert(trace_view(trace@)[sq as int] == rays_for(piece, sq as int));
        assert(trace_view(trace@)[sq as int] == rays_view(trace@[sq as int]@));
        let ghost all = rays_view(rays@);
        let ghost b = board@;
        let mut moves: Vec<Move> = Vec::new();
        assert(shapes(moves@) =~= seq![]);
        let mut j: usize = 0;
        while j < rays.len()
            invariant
                j <= rays@.len(),
                b == board@,
                all_sound(moves@, b, to_move),
                has_bit(b.masks[piece_index(piece, to_move)], position.index()),
                all == rays_view(rays@),
                shapes(moves@) == rays_moves(b, to_move, position.index(), piece, all.subrange(
                    0,
                    j as int,
                )),
            decreases rays@.len() - j,
        {
            assert(all[j as int] == indices_of(rays@[j as int]@));
            assert(all.subrange(0, j + 1).drop_last() =~= all.subrange(0, j as int));
            let mut more = self.generate_moves_from_target_squares(
                board,
                to_move,
                position,
                piece,
                &rays[j],
            );
            append_moves(&mut moves, &mut more, Ghost(b), Ghost(to_move));
            j = j + 1;
        }
        assert(all.subrange(0, j as int) =~= all);
        moves
    }

    /// The pawn move from `from` to `to`, or its four promotions when `to` is on the
    /// last rank for `color`.
    fn push_pawn_move(
        &self,
        moves: &mut Vec<Move>,
        board: &GameState,
        color: Color,
        from: Position,
        to: Position,
        capture: Option<Piece>,
    )
        requires
            all_sound(old(moves)@, board@, color),
            has_bit(board@.masks[piece_index(Piece::PAWN, color)], from.index()),
            capture matches Some(p) ==> piece_at(board@, to.index()) == Some((p, color.other())),
            capture is None ==> piece_at(board@, to.index()) == None::<(Piece, Color)>,
        ensures
            all_sound(final(moves)@, board@, color),
            shapes(final(moves)@) == shapes(old(moves)@) + pawn_moves_to(
                color,
                from.index(),
                to.index(),
                match capture {
                    Some(p) => MoveType::Capture(p),
                    None => MoveType::Step,
                },
            ),
    {
        let rank = to.rank();
        let promotes = (rank == 8 && color == Color::WHITE) || (rank == 1 && color
            == Color::BLACK);
        if promotes {
            let mut more = self.get_pawn_promotions(board, color, from, to, capture);
            append_moves(moves, &mut more, Ghost(board@), Ghost(color));
        } else {
            let move_type = match capture {
                Some(p) => MoveType::Capture(p),
                None => MoveType::Step,
            };
            moves.push(
                Move {
                    move_type,
                    moving_piece: Piece::PAWN,
                    from,
                    to,
                    promotes_to: None,
                    last_en_passant: board.en_passant(),
                    last_castling_rights: board.castling_rights(),
                },
            );
            assert(moves@.last() == moves@[moves@.len() - 1]);
            proof {
                lemma_shapes_push(old(moves)@, moves@.last());
            }
            assert(shapes(moves@) =~= shapes(old(moves)@) + pawn_moves_to(
                color,
                from.index(),
                to.index(),
                move_type,
            ));
        }
    }

    /// Single and double pawn steps onto empty squares, with promotions.
    fn generate_pawn_steps(&self, board: &GameState, color: Color) -> (r: Vec<Move>)
        ensures
            all_sound(r@, board@, color),
            shapes(r@) == pawn_step_moves(board@, color),
    {
        let current_pawns = *board.get_piece_mask(Piece::PAWN, color);
        let pawns_one_step = match color {
            Color::WHITE => current_pawns << 8u64,
            Color::BLACK => current_pawns >> 8u64,
        };
        let valid_one_step_moves = pawns_one_step & !board.collide_mask(pawns_one_step);
        let second_step_mask = match color {
            Color::WHITE => MASK_RANK3,
            Color::BLACK => MASK_RANK6,
        };
        let pawns_second_step = match color {
            Color::WHITE => (valid_one_step_moves & second_step_mask) << 8u64,
            Color::BLACK => (valid_one_step_moves & second_step_mask) >> 8u64,
        };
        let valid_second_step_moves = pawns_second_step & !board.collide_mask(pawns_second_step);
        assert(valid_one_step_moves == single_step_targets(board@.masks, color));
        assert(valid_second_step_moves == double_step_targets(board@.masks, color));
        let back: i8 = match color {
            Color::WHITE => -1,
            Color::BLACK => 1,
        };
        let back_two: i8 = match color {
            Color::WHITE => -2,
            Color::BLACK => 2,
        };
        let ghost b = board@;
        let mut moves: Vec<Move> = Vec::new();
        assert(shapes(moves@) =~= seq![]);
        let one_step = bit_mask_to_positions(valid_one_step_moves);
        let ghost singles = indices_of(one_step@);
        let mut j: usize = 0;
        while j < one_step.len()
            invariant
                j <= one_step@.len(),
                b == board@,
                back == -forward(color),
                current_pawns == board@.masks[piece_index(Piece::PAWN, color)],
                singles == indices_of(one_step@),
                all_sound(moves@, board@, color),
                shapes(moves@) == pawn_steps_onto(b, color, singles.subrange(0, j as int), 1),
            decreases one_step@.len() - j,
        {
            let to = one_step[j];
            assert(singles[j as int] == to.index());
            assert(singles.subrange(0, j + 1).drop_last() =~= singles.subrange(0, j as int));
            if let Some(from) = offset(to, 0, back) {
                if current_pawns & from.to_bit_mask() != 0 && board.get_piece(to).is_none() {
                    self.push_pawn_move(&mut moves, board, color, from, to, None);
                } else {
                    assert(shapes(moves@) =~= shapes(moves@) + seq![]);
                }
            } else {
                assert(shapes(moves@) =~= shapes(moves@) + seq![]);
            }
            j = j + 1;
        }
        assert(singles.subrange(0, j as int) =~= singles);
        let ghost first_part = shapes(moves@);
        let two_step = bit_mask_to_positions(valid_second_step_moves);
        let ghost doubles = indices_of(two_step@);
        let mut j: usize = 0;
        assert(first_part =~= first_part + pawn_steps_onto(b, color, doubles.subrange(0, 0), 2));
        while j < two_step.len()
            invariant
                j <= two_step@.len(),
                b == board@,
                back_two == -2 * forward(color),
                current_pawns == board@.masks[piece_index(Piece::PAWN, color)],
                doubles == indices_of(two_step@),
                all_sound(moves@, board@, color),
                shapes(moves@) == first_part + pawn_steps_onto(
                    b,
                    color,
                    doubles.subrange(0, j as int),
                    2,
                ),
            decreases two_step@.len() - j,
        {
            let to = two_step[j];
            assert(doubles[j as int] == to.index());
            assert(doubles.subrange(0, j + 1).drop_last() =~= doubles.subrange(0, j as int));
            let ghost prev = moves@;
            if let Some(from) = offset(to, 0, back_two) {
                if current_pawns & from.to_bit_mask() != 0 && board.get_piece(to).is_none() {
                    moves.push(
                        Move {
                            move_type: MoveType::Step,
                            moving_piece: Piece::PAWN,
                            from,
                            to,
                            promotes_to: None,
                            last_en_passant: board.en_passant(),
                            last_castling_rights: board.castling_rights(),
                        },
                    );
                    assert(moves@.last() == moves@[moves@.len() - 1]);
                    proof {
                        lemma_shapes_push(prev, moves@.last());
                    }
                    assert(shapes(moves@) =~= first_part + pawn_steps_onto(
                        b,
                        color,
                        doubles.subrange(0, j as int),
                        2,
                    ) + seq![(from.index(), to.index(), MoveType::Step, None::<Piece>, Piece::PAWN)]);
                } else {
                    assert(shapes(moves@) =~= shapes(moves@) + seq![]);
                }
            } else {
                assert(shapes(moves@) =~= shapes(moves@) + seq![]);
            }
            j = j + 1;
        }
        assert(doubles.subrange(0, j as int) =~= doubles);
        moves
    }

    /// Diagonal pawn captures of opposing pieces, with promotions (en passant aside).
    fn generate_pawn_captures(&self, board: &GameState, color: Color) -> (r: Vec<Move>)
        ensures
            all_sound(r@, board@, color),
            shapes(r@) == pawn_capture_moves(board@, color),
    {
        let pawns = *board.get_piece_mask(Piece::PAWN, color);
        let attack_mask = match color {
            Color::WHITE => ((pawns & !MASK_FILE1) << 7u64) | ((pawns & !MASK_FILE8) << 9u64),
            Color::BLACK => ((pawns & !MASK_FILE1) >> 9u64) | ((pawns & !MASK_FILE8) >> 7u64),
        };
        let opposite = color.opposite();
        let valid_captures = board.collide_mask_color(attack_mask, opposite);
        let back: i8 = match color {
            Color::WHITE => -1,
            Color::BLACK => 1,
        };
        let ghost b = board@;
        let mut moves: Vec<Move> = Vec::new();
        assert(shapes(moves@) =~= seq![]);
        let targets = bit_mask_to_positions(valid_captures);
        let ghost squares = indices_of(targets@);
        let mut j: usize = 0;
        while j < targets.len()
            invariant
                j <= targets@.len(),
                b == board@,
                back == -forward(color),
                pawns == board@.masks[piece_index(Piece::PAWN, color)],
                opposite == color.other(),
                squares == indices_of(targets@),
                all_sound(moves@, board@, color),
                shapes(moves@) == pawn_captures_onto(b, color, squares.subrange(0, j as int)),
            decreases targets@.len() - j,
        {
            let square = targets[j];
            assert(squares[j as int] == square.index());
            assert(squares.subrange(0, j + 1).drop_last() =~= squares.subrange(0, j as int));
            let ghost start = shapes(moves@);
            if let Some((captured, owner)) = board.get_piece(square) {
                if owner == opposite {
                    if let Some(left) = offset(square, -1, back) {
                        if pawns & left.to_bit_mask() != 0 {
                            self.push_pawn_move(
                                &mut moves,
                                board,
                                color,
                                left,
                                square,
                                Some(captured),
                            );
                        }
                    }
                    let ghost middle = shapes(moves@);
                    assert(middle == start + pawn_capture_from(
                        b,
                        color,
                        square.index(),
                        -1,
                        captured,
                    )) by {
                        assert(start =~= start + seq![]);
                    }
                    if let Some(right) = offset(square, 1, back) {
                        if pawns & right.to_bit_mask() != 0 {
                            self.push_pawn_move(
                                &mut moves,
                                board,
                                color,
                                right,
                                square,
                                Some(captured),
                            );
                        }
                    }
                    assert(shapes(moves@) == middle + pawn_capture_from(
                        b,
                        color,
                        square.index(),
                        1,
                        captured,
                    )) by {
                        assert(middle =~= middle + seq![]);
                    }
                    assert(shapes(moves@) =~= start + (pawn_capture_from(
                        b,
                        color,
                        square.index(),
                        -1,
                        captured,
                    ) + pawn_capture_from(b, color, square.index(), 1, captured)));
                } else {
                    assert(shapes(moves@) =~= start + seq![]);
                }
            } else {
                assert(shapes(moves@) =~= start + seq![]);
            }
            j = j + 1;
        }
        assert(squares.subrange(0, j as int) =~= squares);
        moves
    }

    /// The four promotions (queen, rook, bishop, knight) of a pawn move.
    fn get_pawn_promotions(
        &self,
        board: &GameState,
        color: Color,
        from: Position,
        to: Position,
        capture: Option<Piece>,
    ) -> (r: Vec<Move>)
        requires
            has_bit(board@.masks[piece_index(Piece::PAWN, color)], from.index()),
            capture matches Some(p) ==> piece_at(board@, to.index()) == Some((p, color.other())),
            capture is None ==> piece_at(board@, to.index()) == None::<(Piece, Color)>,
        ensures
            all_sound(r@, board@, color),
            r@.len() == 4,
            ({
                let kind = match capture {
                    Some(p) => MoveType::Capture(p),
                    None => MoveType::Step,
                };
                shapes(r@) == seq![
                    (from.index(), to.index(), kind, Some(Piece::QUEEN), Piece::PAWN),
                    (from.index(), to.index(), kind, Some(Piece::ROOK), Piece::PAWN),
                    (from.index(), to.index(), kind, Some(Piece::BISHOP), Piece::PAWN),
                    (from.index(), to.index(), kind, Some(Piece::KNIGHT), Piece::PAWN),
                ]
            }),
    {
        let move_type = match capture {
            Some(p) => MoveType::Capture(p),
            None => MoveType::Step,
        };
        let pieces = [Piece::QUEEN, Piece::ROOK, Piece::BISHOP, Piece::KNIGHT];
        assert(pieces@ =~= seq![Piece::QUEEN, Piece::ROOK, Piece::BISHOP, Piece::KNIGHT]);
        let mut promotions: Vec<Move> = Vec::new();
        let mut j: usize = 0;
        while j < 4
            invariant
                j <= 4,
                promotions@.len() == j,
                has_bit(board@.masks[piece_index(Piece::PAWN, color)], from.index()),
                capture matches Some(p) ==> piece_at(board@, to.index()) == Some(
                    (p, color.other()),
                ),
                capture is None ==> piece_at(board@, to.index()) == None::<(Piece, Color)>,
                move_type == match capture {
                    Some(p) => MoveType::Capture(p),
                    None => MoveType::Step,
                },
                all_sound(promotions@, board@, color),
                pieces@ == seq![Piece::QUEEN, Piece::ROOK, Piece::BISHOP, Piece::KNIGHT],
                forall|i: int|
                    0 <= i < j ==> #[trigger] shapes(promotions@)[i] == (
                        from.index(),
                        to.index(),
                        move_type,
                        Some(pieces@[i]),
                        Piece::PAWN,
                    ),
            decreases 4 - j,
        {
            let ghost prev = promotions@;
            promotions.push(
                Move {
                    move_type,
                    moving_piece: Piece::PAWN,
                    from,
                    to,
                    promotes_to: Some(pieces[j]),
                    last_en_passant: board.en_passant(),
                    last_castling_rights: board.castling_rights(),
                },
            );
            assert(promotions@.last() == promotions@[promotions@.len() - 1]);
            proof {
                lemma_shapes_push(prev, promotions@.last());
            }
            j = j + 1;
        }
        assert(shapes(promotions@) =~= seq![
            (from.index(), to.index(), move_type, Some(Piece::QUEEN), Piece::PAWN),
            (from.index(), to.index(), move_type, Some(Piece::ROOK), Piece::PAWN),
            (from.index(), to.index(), move_type, Some(Piece::BISHOP), Piece::PAWN),
            (from.index(), to.index(), move_type, Some(Piece::KNIGHT), Piece::PAWN),
        ]);
        promotions
    }

    /// En-passant captures by `to_move` of the pawn that just made a double step: a pawn
    /// of `to_move` beside it moves diagonally behind it.
    fn generate_en_passant_captures(&self, board: &GameState, to_move: Color) -> (r: Vec<Move>)
        ensures
            all_sound(r@, board@, to_move),
            shapes(r@) == en_passant_moves(board@, to_move),
    {
        let current_pawns = *board.get_piece_mask(Piece::PAWN, to_move);
        let forward_rank: i8 = match to_move {
            Color::WHITE => 1,
            Color::BLACK => -1,
        };
        let mut moves: Vec<Move> = Vec::new();
        assert(shapes(moves@) =~= seq![]);
        if let Some(target) = board.en_passant() {
            if let Some(to) = offset(target, 0, forward_rank) {
                if let Some(from) = offset(target, -1, 0) {
                    if current_pawns & from.to_bit_mask() != 0 {
                        moves.push(
                            Move {
                                move_type: MoveType::EnPassant,
                                moving_piece: Piece::PAWN,
                                from,
                                to,
                                promotes_to: None,
                                last_en_passant: board.en_passant(),
                                last_castling_rights: board.castling_rights(),
                            },
                        );
                        assert(moves@.last() == moves@[moves@.len() - 1]);
                        assert(shapes(moves@) =~= seq![
                            (from.index(), to.index(), MoveType::EnPassant, None::<Piece>, Piece::PAWN),
                        ]);
                    }
                }
                let ghost left = shapes(moves@);
                if let Some(from) = offset(target, 1, 0) {
                    if current_pawns & from.to_bit_mask() != 0 {
                        moves.push(
                            Move {
                                move_type: MoveType::EnPassant,
                                moving_piece: Piece::PAWN,
                                from,
                                to,
                                promotes_to: None,
                                last_en_passant: board.en_passant(),
                                last_castling_rights: board.castling_rights(),
                            },
                        );
                        assert(moves@.last() == moves@[moves@.len() - 1]);
                        proof {
                            lemma_shapes_push(moves@.drop_last(), moves@.last());
                            assert(moves@.drop_last() =~= moves@.subrange(0, moves@.len() - 1));
                        }
                        assert(shapes(moves@) =~= left + seq![
                            (from.index(), to.index(), MoveType::EnPassant, None::<Piece>, Piece::PAWN),
                        ]);
                    } else {
                        assert(shapes(moves@) =~= left + seq![]);
                    }
                } else {
                    assert(shapes(moves@) =~= left + seq![]);
                }
            }
        }
        moves
    }
}

} // verus!
