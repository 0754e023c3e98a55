use rand::rngs::StdRng;
use rand::{RngCore, SeedableRng};
use vstd::prelude::*;

use crate::game_state::{
    apply_model, castling_rights_after, castling_rook_squares, en_passant_victim,
    en_passant_victim_square, final_piece, has_bit, is_double_pawn_step, is_double_step,
    move_mask_delta, piece_index, rights_after, rook_destination, rook_home, square_bit,
    zobrist_index_for_piece, BoardModel, CastlingRights, Color, GameState, Move, MoveType, Piece,
    Position,
};

verus! {

#[verifier::external_type_specification]
#[verifier::external_body]
pub struct ExStdRng(StdRng);

/// Relies on rand's `SeedableRng::seed_from_u64` for `StdRng`: a generator whose
/// sequence is fixed by the seed.
#[verifier::external_body]
fn seeded_rng(seed: u64) -> StdRng {
    StdRng::seed_from_u64(seed)
}

/// Relies on rand's `RngCore::next_u64` for `StdRng`: the next number of its sequence.
#[verifier::external_body]
fn next_random(rng: &mut StdRng) -> u64 {
    rng.next_u64()
}

/// Number of keys: 12 per square for the pieces, 64 for en-passant squares,
/// 4 for the castling rights and 1 for White to move.
pub const KEY_COUNT: usize = 837;

pub const EN_PASSANT_KEYS: usize = 768;

pub const CASTLING_KEYS: usize = 832;

pub const WHITE_TO_MOVE_KEY: usize = 836;

/// A fixed table of random keys, one per board feature.
#[derive(PartialEq, Eq, Debug)]
pub struct ZobristHasher {
    keys: Vec<u64>,
}

impl View for ZobristHasher {
    type V = Seq<u64>;

    closed spec fn view(&self) -> Seq<u64> {
        self.keys@
    }
}

/// The key of mask slot `k` on square `sq` (zero off the board).
pub open spec fn slot_key(keys: Seq<u64>, sq: int, k: int) -> u64 {
    if 0 <= sq < 64 {
        keys[sq * 12 + k]
    } else {
        0
    }
}

pub open spec fn piece_key(keys: Seq<u64>, sq: int, piece: Piece, color: Color) -> u64 {
    slot_key(keys, sq, piece_index(piece, color))
}

pub open spec fn en_passant_key(keys: Seq<u64>, sq: int) -> u64 {
    keys[EN_PASSANT_KEYS + sq]
}

pub open spec fn castling_key(keys: Seq<u64>, i: int) -> u64 {
    keys[CASTLING_KEYS + i]
}

pub open spec fn white_key(keys: Seq<u64>) -> u64 {
    keys[WHITE_TO_MOVE_KEY as int]
}

/// The keys of the castling rights that differ between `a` and `b`, combined.
pub open spec fn castling_delta(keys: Seq<u64>, a: CastlingRights, b: CastlingRights) -> u64 {
    let k0: u64 = if a.white_king_side != b.white_king_side {
        castling_key(keys, 0)
    } else {
        0
    };
    let k1: u64 = if a.white_queen_side != b.white_queen_side {
        castling_key(keys, 1)
    } else {
        0
    };
    let k2: u64 = if a.black_king_side != b.black_king_side {
        castling_key(keys, 2)
    } else {
        0
    };
    let k3: u64 = if a.black_queen_side != b.black_queen_side {
        castling_key(keys, 3)
    } else {
        0
    };
    ((k0 ^ k1) ^ k2) ^ k3
}

/// The keys of the pieces that move `m` by `color` takes away, moves or puts down.
pub open spec fn move_piece_delta(keys: Seq<u64>, m: Move, color: Color) -> u64 {
    let o = color.other();
    let d0: u64 = match m.move_type {
        MoveType::Capture(captured) => piece_key(keys, m.to.index(), captured, o),
        MoveType::EnPassant => piece_key(keys, en_passant_victim(m.to, color), Piece::PAWN, o),
        MoveType::Castling => piece_key(keys, rook_home(m), Piece::ROOK, color) ^ piece_key(
            keys,
            rook_destination(m),
            Piece::ROOK,
            color,
        ),
        _ => 0,
    };
    (d0 ^ piece_key(keys, m.from.index(), m.moving_piece, color)) ^ piece_key(
        keys,
        m.to.index(),
        final_piece(m),
        color,
    )
}

/// The keys that move `m` by `color` toggles, castling rights aside: the pieces
/// that leave, land or are taken, the old and new en-passant squares, and the side
/// to move.
pub open spec fn move_key_delta(keys: Seq<u64>, m: Move, color: Color) -> u64 {
    let d1 = move_piece_delta(keys, m, color);
    let d2 = match m.last_en_passant {
        Some(e) => d1 ^ en_passant_key(keys, e.index()),
        None => d1,
    };
    let d3 = if is_double_step(m) {
        d2 ^ en_passant_key(keys, m.to.index())
    } else {
        d2
    };
    d3 ^ white_key(keys)
}

/// The hash after move `m` by `color`, from hash `h` and rights `rights`.
pub open spec fn hash_after(
    keys: Seq<u64>,
    h: u64,
    m: Move,
    color: Color,
    rights: CastlingRights,
) -> u64 {
    (h ^ move_key_delta(keys, m, color)) ^ castling_delta(
        keys,
        rights,
        rights_after(rights, m, color),
    )
}

/// The hash before move `m` by `color`, from hash `h` and rights `rights` after it.
pub open spec fn hash_before(
    keys: Seq<u64>,
    h: u64,
    m: Move,
    color: Color,
    rights: CastlingRights,
) -> u64 {
    (h ^ move_key_delta(keys, m, color)) ^ castling_delta(keys, rights, m.last_castling_rights)
}

/// Taking a move back on the hash restores the hash it was played on.
pub proof fn lemma_hash_before_after(
    keys: Seq<u64>,
    h: u64,
    m: Move,
    color: Color,
    rights: CastlingRights,
)
    requires
        m.last_castling_rights == rights,
    ensures
        hash_before(keys, hash_after(keys, h, m, color, rights), m, color, rights_after(rights, m, color)) == h,
{
    let d = move_key_delta(keys, m, color);
    let c = castling_delta(keys, rights, rights_after(rights, m, color));
    assert(castling_delta(keys, rights_after(rights, m, color), rights) == c);
    assert(((h ^ d) ^ c) ^ d ^ c == h) by (bit_vector);
}

/// The values `f(0)`, ..., `f(n - 1)` combined with exclusive or.
pub open spec fn xor_fold(f: spec_fn(int) -> u64, n: int) -> u64
    decreases n,
{
    if n <= 0 {
        0
    } else {
        xor_fold(f, n - 1) ^ f(n - 1)
    }
}

/// The keys of mask slot `k` on the squares below `n` whose bit is set in `mask`.
pub open spec fn mask_hash(keys: Seq<u64>, k: int, mask: u64, n: int) -> u64
    decreases n,
{
    if n <= 0 {
        0
    } else {
        mask_hash(keys, k, mask, n - 1) ^ if has_bit(mask, n - 1) {
            slot_key(keys, n - 1, k)
        } else {
            0
        }
    }
}

pub open spec fn slot_hashes(keys: Seq<u64>, masks: Seq<u64>) -> spec_fn(int) -> u64 {
    |k: int| mask_hash(keys, k, masks[k], 64)
}

/// The keys of every (square, piece) that the masks hold.
pub open spec fn pieces_hash(keys: Seq<u64>, masks: Seq<u64>) -> u64 {
    xor_fold(slot_hashes(keys, masks), 12)
}

/// The hash of a board from scratch: its pieces, its en-passant square, White to
/// move, and the castling rights it has lost.
pub open spec fn full_hash(b: BoardModel) -> u64 {
    let e: u64 = match b.en_passant {
        Some(p) => en_passant_key(b.keys, p.index()),
        None => 0,
    };
    let w: u64 = if b.to_move == Color::WHITE {
        white_key(b.keys)
    } else {
        0
    };
    ((pieces_hash(b.keys, b.masks) ^ e) ^ w) ^ castling_delta(b.keys, CastlingRights::all(), b.castling_rights)
}

proof fn lemma_bit_of_xor(x: u64, y: u64, t: int)
    ensures
        has_bit(x ^ y, t) == (has_bit(x, t) != has_bit(y, t)),
        !has_bit(0u64, t),
{
    if 0 <= t < 64 {
        let tt = t as u64;
        assert(square_bit(t) == 1u64 << tt);
        assert((x ^ y) & (1u64 << tt) != 0 <==> ((x & (1u64 << tt) != 0) != (y & (1u64 << tt)
            != 0))) by (bit_vector)
            requires
                tt < 64,
        ;
        assert(0u64 & (1u64 << tt) == 0) by (bit_vector);
    } else {
        assert(square_bit(t) == 0);
        assert((x ^ y) & 0u64 == 0 && x & 0u64 == 0 && y & 0u64 == 0) by (bit_vector);
        assert(0u64 & 0u64 == 0) by (bit_vector);
    }
}

proof fn lemma_bit_of_square(s: int, t: int)
    ensures
        has_bit(square_bit(s), t) == (0 <= s < 64 && s == t),
{
    if 0 <= s < 64 && 0 <= t < 64 {
        let ss = s as u64;
        let tt = t as u64;
        assert(((1u64 << ss) & (1u64 << tt) != 0) <==> ss == tt) by (bit_vector)
            requires
                ss < 64,
                tt < 64,
        ;
    } else {
        let a = square_bit(s);
        let b = square_bit(t);
        assert(a == 0 || b == 0);
        assert(a == 0 ==> a & b == 0) by (bit_vector);
        assert(b == 0 ==> a & b == 0) by (bit_vector);
    }
}

proof fn lemma_xor_facts(a: u64, b: u64, c: u64, d: u64)
    ensures
        a ^ 0 == a,
        0 ^ a == a,
        a ^ a == 0,
        (a ^ b) ^ (c ^ d) == (a ^ c) ^ (b ^ d),
{
    assert(a ^ 0 == a) by (bit_vector);
    assert(0 ^ a == a) by (bit_vector);
    assert(a ^ a == 0) by (bit_vector);
    assert((a ^ b) ^ (c ^ d) == (a ^ c) ^ (b ^ d)) by (bit_vector);
}

/// Combining `if p {k} else {0}` and `if q {k} else {0}` gives `if p != q {k} else {0}`.
proof fn lemma_xor_choice(k: u64, p: bool, q: bool)
    ensures
        (if p {
            k
        } else {
            0u64
        }) ^ (if q {
            k
        } else {
            0u64
        }) == if p != q {
            k
        } else {
            0u64
        },
{
    lemma_xor_facts(k, 0, 0, 0);
    lemma_xor_facts(0, 0, 0, 0);
}

proof fn lemma_fold_split(f: spec_fn(int) -> u64, g: spec_fn(int) -> u64, h: spec_fn(int) -> u64, n: int)
    requires
        forall|i: int| 0 <= i < n ==> #[trigger] h(i) == f(i) ^ g(i),
    ensures
        xor_fold(h, n) == xor_fold(f, n) ^ xor_fold(g, n),
    decreases n,
{
    if n > 0 {
        lemma_fold_split(f, g, h, n - 1);
        lemma_xor_facts(xor_fold(f, n - 1), xor_fold(g, n - 1), f(n - 1), g(n - 1));
    } else {
        lemma_xor_facts(0, 0, 0, 0);
    }
}

proof fn lemma_fold_single(f: spec_fn(int) -> u64, a: int, v: u64, n: int)
    requires
        forall|i: int|
            0 <= i < n ==> #[trigger] f(i) == if i == a {
                v
            } else {
                0
            },
    ensures
        xor_fold(f, n) == if 0 <= a < n {
            v
        } else {
            0
        },
    decreases n,
{
    if n > 0 {
        lemma_fold_single(f, a, v, n - 1);
        lemma_xor_facts(v, 0, 0, 0);
        lemma_xor_facts(0, 0, 0, 0);
    }
}

proof fn lemma_mask_hash_xor(keys: Seq<u64>, k: int, x: u64, y: u64, n: int)
    ensures
        mask_hash(keys, k, x ^ y, n) == mask_hash(keys, k, x, n) ^ mask_hash(keys, k, y, n),
    decreases n,
{
    if n > 0 {
        lemma_mask_hash_xor(keys, k, x, y, n - 1);
        lemma_bit_of_xor(x, y, n - 1);
        let key = slot_key(keys, n - 1, k);
        lemma_xor_choice(key, has_bit(x, n - 1), has_bit(y, n - 1));
        lemma_xor_facts(
            mask_hash(keys, k, x, n - 1),
            mask_hash(keys, k, y, n - 1),
            if has_bit(x, n - 1) {
                key
            } else {
                0
            },
            if has_bit(y, n - 1) {
                key
            } else {
                0
            },
        );
    } else {
        lemma_xor_facts(0, 0, 0, 0);
    }
}

proof fn lemma_mask_hash_square(keys: Seq<u64>, k: int, s: int, n: int)
    requires
        n <= 64,
    ensures
        mask_hash(keys, k, square_bit(s), n) == if 0 <= s < n {
            slot_key(keys, s, k)
        } else {
            0
        },
    decreases n,
{
    if n > 0 {
        lemma_mask_hash_square(keys, k, s, n - 1);
        lemma_bit_of_square(s, n - 1);
        lemma_xor_facts(slot_key(keys, s, k), 0, 0, 0);
        lemma_xor_facts(0, 0, 0, 0);
    }
}

proof fn lemma_mask_hash_zero(keys: Seq<u64>, k: int, n: int)
    ensures
        mask_hash(keys, k, 0, n) == 0,
    decreases n,
{
    if n > 0 {
        lemma_mask_hash_zero(keys, k, n - 1);
        lemma_bit_of_xor(0, 0, n - 1);
        lemma_xor_facts(0, 0, 0, 0);
    }
}

/// The key of square `s` in slot `k` when `k` is slot `a`, zero otherwise.
pub open spec fn slot_choice(keys: Seq<u64>, a: int, k: int, s: int) -> u64 {
    if k == a {
        slot_key(keys, s, k)
    } else {
        0
    }
}

proof fn lemma_mask_hash_choice(keys: Seq<u64>, a: int, k: int, s: int)
    ensures
        mask_hash(keys, k, if k == a {
            square_bit(s)
        } else {
            0
        }, 64) == slot_choice(keys, a, k, s),
{
    lemma_mask_hash_square(keys, k, s, 64);
    lemma_mask_hash_zero(keys, k, 64);
}

/// The slots that a move toggles hash to the keys of the pieces it moves.
proof fn lemma_move_pieces_hash(keys: Seq<u64>, m: Move, color: Color)
    ensures
        xor_fold(|k: int| mask_hash(keys, k, move_mask_delta(m, color, k), 64), 12)
            == move_piece_delta(keys, m, color),
{
    let o = color.other();
    let a = piece_index(m.moving_piece, color);
    let b = piece_index(final_piece(m), color);
    let from = m.from.index();
    let to = m.to.index();
    let h = |k: int| mask_hash(keys, k, move_mask_delta(m, color, k), 64);
    let t1 = |k: int| slot_choice(keys, a, k, from);
    let t2 = |k: int| slot_choice(keys, b, k, to);
    let t0 = |k: int|
        match m.move_type {
            MoveType::Capture(captured) => slot_choice(keys, piece_index(captured, o), k, to),
            MoveType::EnPassant => slot_choice(
                keys,
                piece_index(Piece::PAWN, o),
                k,
                en_passant_victim(m.to, color),
            ),
            MoveType::Castling => slot_choice(keys, piece_index(Piece::ROOK, color), k, rook_home(m))
                ^ slot_choice(keys, piece_index(Piece::ROOK, color), k, rook_destination(m)),
            _ => 0,
        };
    let t01 = |k: int| t0(k) ^ t1(k);
    assert forall|k: int| 0 <= k < 12 implies #[trigger] h(k) == t01(k) ^ t2(k) by {
        let d0: u64 = match m.move_type {
            MoveType::Capture(captured) => if piece_index(captured, o) == k {
                square_bit(to)
            } else {
                0
            },
            MoveType::EnPassant => if piece_index(Piece::PAWN, o) == k {
                square_bit(en_passant_victim(m.to, color))
            } else {
                0
            },
            MoveType::Castling => if piece_index(Piece::ROOK, color) == k {
                square_bit(rook_home(m)) ^ square_bit(rook_destination(m))
            } else {
                0
            },
            _ => 0,
        };
        let e1: u64 = if a == k {
            square_bit(from)
        } else {
            0
        };
        let e2: u64 = if b == k {
            square_bit(to)
        } else {
            0
        };
        lemma_xor_facts(d0, 0, 0, 0);
        lemma_xor_facts(d0 ^ e1, 0, 0, 0);
        assert(move_mask_delta(m, color, k) == (d0 ^ e1) ^ e2);
        lemma_mask_hash_xor(keys, k, d0 ^ e1, e2, 64);
        lemma_mask_hash_xor(keys, k, d0, e1, 64);
        lemma_mask_hash_choice(keys, a, k, from);
        lemma_mask_hash_choice(keys, b, k, to);
        match m.move_type {
            MoveType::Capture(captured) => {
                lemma_mask_hash_choice(keys, piece_index(captured, o), k, to);
            },
            MoveType::EnPassant => {
                lemma_mask_hash_choice(
                    keys,
                    piece_index(Piece::PAWN, o),
                    k,
                    en_passant_victim(m.to, color),
                );
            },
            MoveType::Castling => {
                let r = piece_index(Piece::ROOK, color);
                lemma_mask_hash_square(keys, k, rook_home(m), 64);
                lemma_mask_hash_square(keys, k, rook_destination(m), 64);
                lemma_mask_hash_zero(keys, k, 64);
                lemma_xor_facts(0, 0, 0, 0);
                lemma_mask_hash_xor(
                    keys,
                    k,
                    square_bit(rook_home(m)),
                    square_bit(rook_destination(m)),
                    64,
                );
            },
            _ => {
                lemma_mask_hash_zero(keys, k, 64);
            },
        }
    }
    lemma_fold_split(t01, t2, h, 12);
    assert forall|k: int| 0 <= k < 12 implies #[trigger] t01(k) == t0(k) ^ t1(k) by {}
    lemma_fold_split(t0, t1, t01, 12);
    lemma_fold_single(t1, a, slot_key(keys, from, a), 12);
    lemma_fold_single(t2, b, slot_key(keys, to, b), 12);
    match m.move_type {
        MoveType::Capture(captured) => {
            let c = piece_index(captured, o);
            lemma_fold_single(t0, c, slot_key(keys, to, c), 12);
        },
        MoveType::EnPassant => {
            let c = piece_index(Piece::PAWN, o);
            lemma_fold_single(t0, c, slot_key(keys, en_passant_victim(m.to, color), c), 12);
        },
        MoveType::Castling => {
            let r = piece_index(Piece::ROOK, color);
            let v = slot_key(keys, rook_home(m), r) ^ slot_key(keys, rook_destination(m), r);
            assert forall|k: int| 0 <= k < 12 implies #[trigger] t0(k) == if k == r {
                v
            } else {
                0
            } by {
                lemma_xor_facts(0, 0, 0, 0);
            }
            lemma_fold_single(t0, r, v, 12);
        },
        _ => {
            lemma_fold_single(t0, 0, 0, 12);
        },
    }
}

/// Losing castling rights moves the castling part of the full hash by the keys of the
/// rights that changed.
proof fn lemma_castling_delta_chain(keys: Seq<u64>, r: CastlingRights, r2: CastlingRights)
    ensures
        castling_delta(keys, CastlingRights::all(), r) ^ castling_delta(keys, r, r2)
            == castling_delta(keys, CastlingRights::all(), r2),
{
    let k0 = castling_key(keys, 0);
    let k1 = castling_key(keys, 1);
    let k2 = castling_key(keys, 2);
    let k3 = castling_key(keys, 3);
    lemma_xor_choice(k0, !r.white_king_side, r.white_king_side != r2.white_king_side);
    lemma_xor_choice(k1, !r.white_queen_side, r.white_queen_side != r2.white_queen_side);
    lemma_xor_choice(k2, !r.black_king_side, r.black_king_side != r2.black_king_side);
    lemma_xor_choice(k3, !r.black_queen_side, r.black_queen_side != r2.black_queen_side);
    let a0 = if !r.white_king_side { k0 } else { 0u64 };
    let a1 = if !r.white_queen_side { k1 } else { 0u64 };
    let a2 = if !r.black_king_side { k2 } else { 0u64 };
    let a3 = if !r.black_queen_side { k3 } else { 0u64 };
    let b0 = if r.white_king_side != r2.white_king_side { k0 } else { 0u64 };
    let b1 = if r.white_queen_side != r2.white_queen_side { k1 } else { 0u64 };
    let b2 = if r.black_king_side != r2.black_king_side { k2 } else { 0u64 };
    let b3 = if r.black_queen_side != r2.black_queen_side { k3 } else { 0u64 };
    assert((((a0 ^ a1) ^ a2) ^ a3) ^ (((b0 ^ b1) ^ b2) ^ b3) == (((a0 ^ b0) ^ (a1 ^ b1)) ^ (a2
        ^ b2)) ^ (a3 ^ b3)) by (bit_vector);
}

/// The hash a board carries stays the hash computed from scratch when a move is played
/// that carries the board's en-passant square and castling rights.
pub proof fn lemma_apply_keeps_full_hash(b: BoardModel, m: Move)
    requires
        b.masks.len() == 12,
        b.hash == full_hash(b),
        m.last_en_passant == b.en_passant,
        m.last_castling_rights == b.castling_rights,
    ensures
        apply_model(b, m).hash == full_hash(apply_model(b, m)),
{
    let a = apply_model(b, m);
    let c = b.to_move;
    let keys = b.keys;
    let h = |k: int| mask_hash(keys, k, move_mask_delta(m, c, k), 64);
    assert forall|k: int| 0 <= k < 12 implies #[trigger] slot_hashes(keys, a.masks)(k) == slot_hashes(
        keys,
        b.masks,
    )(k) ^ h(k) by {
        lemma_mask_hash_xor(keys, k, b.masks[k], move_mask_delta(m, c, k), 64);
    }
    lemma_fold_split(slot_hashes(keys, b.masks), h, slot_hashes(keys, a.masks), 12);
    lemma_move_pieces_hash(keys, m, c);
    let p = pieces_hash(keys, b.masks);
    let d1 = move_piece_delta(keys, m, c);
    assert(pieces_hash(keys, a.masks) == p ^ d1);
    let e: u64 = match b.en_passant {
        Some(q) => en_passant_key(keys, q.index()),
        None => 0,
    };
    let e2: u64 = if is_double_step(m) {
        en_passant_key(keys, m.to.index())
    } else {
        0
    };
    let w: u64 = if c == Color::WHITE {
        white_key(keys)
    } else {
        0
    };
    let wk = white_key(keys);
    let w2: u64 = if c == Color::WHITE {
        0
    } else {
        white_key(keys)
    };
    let cc = castling_delta(keys, CastlingRights::all(), b.castling_rights);
    let cd = castling_delta(keys, b.castling_rights, a.castling_rights);
    lemma_castling_delta_chain(keys, b.castling_rights, a.castling_rights);
    lemma_xor_facts(d1, 0, 0, 0);
    lemma_xor_facts(d1 ^ e, 0, 0, 0);
    lemma_xor_facts(wk, 0, 0, 0);
    assert(move_key_delta(keys, m, c) == ((d1 ^ e) ^ e2) ^ wk);
    assert(w2 == w ^ wk);
    assert(((((p ^ e) ^ w) ^ cc) ^ (((d1 ^ e) ^ e2) ^ wk)) ^ cd == (((p ^ d1) ^ e2) ^ (w ^ wk)) ^ (
    cc ^ cd)) by (bit_vector);
}

/// Two boards with the same pieces, en-passant square, castling rights, side to move
/// and keys, each carrying its full hash, carry the same hash, whatever moves led to them.
pub proof fn lemma_same_position_same_hash(b1: BoardModel, b2: BoardModel)
    requires
        b1.hash == full_hash(b1),
        b2.hash == full_hash(b2),
        b1.masks == b2.masks,
        b1.en_passant == b2.en_passant,
        b1.castling_rights == b2.castling_rights,
        b1.to_move == b2.to_move,
        b1.keys == b2.keys,
    ensures
        b1.hash == b2.hash,
{
}

impl ZobristHasher {
    #[verifier::type_invariant]
    spec fn inv(self) -> bool {
        self.keys@.len() == KEY_COUNT
    }

    /// A table of keys drawn from a generator seeded with `seed`.
    pub fn new(seed: u64) -> (r: ZobristHasher)
        ensures
            r@.len() == KEY_COUNT,
    {
        let mut rng = seeded_rng(seed);
        let mut keys: Vec<u64> = Vec::new();
        while keys.len() < KEY_COUNT
            invariant
                keys@.len() <= KEY_COUNT,
            decreases KEY_COUNT - keys@.len(),
        {
            keys.push(next_random(&mut rng));
        }
        ZobristHasher { keys }
    }

    fn key(&self, i: usize) -> (r: u64)
        requires
            i < KEY_COUNT,
        ensures
            r == self@[i as int],
    {
        proof {
            use_type_invariant(self);
        }
        self.keys[i]
    }

    fn piece_key_at(&self, sq: i16, piece: Piece, color: Color) -> (r: u64)
        ensures
            r == piece_key(self@, sq as int, piece, color),
    {
        proof {
            use_type_invariant(self);
        }
        if 0 <= sq && sq < 64 {
            self.key(sq as usize * 12 + zobrist_index_for_piece(piece, color))
        } else {
            0
        }
    }

    fn en_passant_key_at(&self, p: Position) -> (r: u64)
        ensures
            r == en_passant_key(self@, p.index()),
    {
        self.key(EN_PASSANT_KEYS + p.to_numeric() as usize)
    }

    /// The hash of a board computed from scratch.
    pub fn hash(&self, game_state: &GameState) -> (r: u64)
        requires
            game_state@.keys == self@,
        ensures
            r == full_hash(game_state@),
    {
        let ghost b = game_state@;
        let mut h: u64 = 0;
        let mut k: usize = 0;
        while k < 12
            invariant
                k <= 12,
                b == game_state@,
                b.keys == self@,
                h == xor_fold(slot_hashes(b.keys, b.masks), k as int),
            decreases 12 - k,
        {
            let mask = game_state.mask_slot(k);
            let mut t: u8 = 0;
            let mut slot: u64 = 0;
            while t < 64
                invariant
                    t <= 64,
                    k < 12,
                    b == game_state@,
                    b.keys == self@,
                    mask == b.masks[k as int],
                    slot == mask_hash(b.keys, k as int, mask, t as int),
                decreases 64 - t,
            {
                if mask & (1u64 << t) != 0 {
                    slot = slot ^ self.key(t as usize * 12 + k);
                } else {
                    slot = slot ^ 0;
                }
                t = t + 1;
            }
            h = h ^ slot;
            k = k + 1;
        }
        if let Some(e) = game_state.en_passant() {
            h = h ^ self.en_passant_key_at(e);
        } else {
            h = h ^ 0;
        }
        if game_state.to_move() == Color::WHITE {
            h = h ^ self.key(WHITE_TO_MOVE_KEY);
        } else {
            h = h ^ 0;
        }
        self.toggle_castling(h, CastlingRights::initial(), game_state.castling_rights())
    }

    fn toggle_castling(&self, h: u64, a: CastlingRights, b: CastlingRights) -> (r: u64)
        ensures
            r == h ^ castling_delta(self@, a, b),
    {
        let k0: u64 = if a.white_king_side != b.white_king_side {
            self.key(CASTLING_KEYS)
        } else {
            0
        };
        let k1: u64 = if a.white_queen_side != b.white_queen_side {
            self.key(CASTLING_KEYS + 1)
        } else {
            0
        };
        let k2: u64 = if a.black_king_side != b.black_king_side {
            self.key(CASTLING_KEYS + 2)
        } else {
            0
        };
        let k3: u64 = if a.black_queen_side != b.black_queen_side {
            self.key(CASTLING_KEYS + 3)
        } else {
            0
        };
        h ^ (((k0 ^ k1) ^ k2) ^ k3)
    }

    fn move_delta(&self, m: Move, color: Color) -> (r: u64)
        ensures
            r == move_key_delta(self@, m, color),
    {
        let o = color.opposite();
        let d0: u64 = match m.move_type {
            MoveType::Capture(captured) => self.piece_key_at(
                m.to.to_numeric() as i16,
                captured,
                o,
            ),
            MoveType::EnPassant => self.piece_key_at(
                en_passant_victim_square(m.to, color),
                Piece::PAWN,
                o,
            ),
            MoveType::Castling => {
                let (home, dest) = castling_rook_squares(&m);
                self.piece_key_at(home as i16, Piece::ROOK, color) ^ self.piece_key_at(
                    dest as i16,
                    Piece::ROOK,
                    color,
                )
            },
            _ => 0,
        };
        let last = match m.promotes_to {
            Some(p) => p,
            None => m.moving_piece,
        };
        let d1 = (d0 ^ self.piece_key_at(m.from.to_numeric() as i16, m.moving_piece, color))
            ^ self.piece_key_at(m.to.to_numeric() as i16, last, color);
        let d2 = match m.last_en_passant {
            Some(e) => d1 ^ self.en_passant_key_at(e),
            None => d1,
        };
        let d3 = if is_double_pawn_step(&m) {
            d2 ^ self.en_passant_key_at(m.to)
        } else {
            d2
        };
        d3 ^ self.key(WHITE_TO_MOVE_KEY)
    }

    /// Toggles the keys of a move by `to_move`, castling rights aside.
    pub fn apply_move(&self, current_hash: u64, to_apply: Move, to_move: Color) -> (r: u64)
        ensures
            r == current_hash ^ move_key_delta(self@, to_apply, to_move),
    {
        current_hash ^ self.move_delta(to_apply, to_move)
    }

    /// Toggles the keys of the last move back, castling rights aside; `to_move` is
    /// the side to move after it.
    pub fn unapply_move(&self, current_hash: u64, to_unapply: Move, to_move: Color) -> (r: u64)
        ensures
            r == current_hash ^ move_key_delta(self@, to_unapply, to_move.other()),
    {
        current_hash ^ self.move_delta(to_unapply, to_move.opposite())
    }

    /// Toggles the key of every castling right that the move takes away.
    pub fn apply_castling_rights(
        &self,
        current_hash: u64,
        castling_rights: CastlingRights,
        m: Move,
        to_move: Color,
    ) -> (r: u64)
        ensures
            r == current_hash ^ castling_delta(
                self@,
                castling_rights,
                rights_after(castling_rights, m, to_move),
            ),
    {
        let after = castling_rights_after(&castling_rights, &m, to_move);
        self.toggle_castling(current_hash, castling_rights, after)
    }

    /// Toggles the key of every castling right that the move's snapshot has and the
    /// current rights lack.
    pub fn unapply_castling_rights(
        &self,
        current_hash: u64,
        castling_rights: CastlingRights,
        m: Move,
    ) -> (r: u64)
        ensures
            r == current_hash ^ castling_delta(self@, castling_rights, m.last_castling_rights),
    {
        self.toggle_castling(current_hash, castling_rights, m.last_castling_rights)
    }
}

/// The hash of a board computed from scratch with its own keys.
pub fn hash(game_state: &GameState) -> (r: u64)
    ensures
        r == full_hash(game_state@),
{
    game_state.hasher().hash(game_state)
}

/// The hash after `to_apply` by `to_move`, from the hash and rights before it.
pub fn apply_move(
    hasher: &ZobristHasher,
    current_hash: u64,
    castling_rights: &CastlingRights,
    to_apply: Move,
    to_move: Color,
) -> (r: u64)
    ensures
        r == hash_after(hasher@, current_hash, to_apply, to_move, *castling_rights),
{
    let next_hash = hasher.apply_move(current_hash, to_apply, to_move);
    hasher.apply_castling_rights(next_hash, *castling_rights, to_apply, to_move)
}

/// The hash before `to_unapply`, from the hash and rights after it; `to_move` is the
/// side to move after it.
pub fn unapply_move(
    hasher: &ZobristHasher,
    current_hash: u64,
    castling_rights: &CastlingRights,
    to_unapply: Move,
    to_move: Color,
) -> (r: u64)
    ensures
        r == hash_before(hasher@, current_hash, to_unapply, to_move.other(), *castling_rights),
{
    let next_hash = hasher.unapply_move(current_hash, to_unapply, to_move);
    hasher.unapply_castling_rights(next_hash, *castling_rights, to_unapply)
}

} // verus!
