use std::sync::Arc;
use vstd::prelude::*;
use vstd::string::StringExecFns;

use crate::zobrist_hash::{self, ZobristHasher};

verus! {

#[derive(PartialEq, Eq, Structural, Clone, Copy, Debug)]
pub enum MoveType {
    Step,
    Capture(Piece),
    EnPassant,
    Promotion(Piece),
    Castling,
}

/// A move, with a snapshot of the en-passant target and castling rights of the
/// board it was generated on, so that it can be taken back exactly.
#[derive(PartialEq, Eq, Structural, Clone, Copy, Debug)]
pub struct Move {
    pub move_type: MoveType,
    pub moving_piece: Piece,
    pub from: Position,
    pub to: Position,
    pub promotes_to: Option<Piece>,
    pub last_en_passant: Option<Position>,
    pub last_castling_rights: CastlingRights,
}

#[derive(PartialEq, Eq, Structural, Clone, Copy, Debug)]
pub struct CastlingRights {
    pub white_king_side: bool,
    pub white_queen_side: bool,
    pub black_king_side: bool,
    pub black_queen_side: bool,
}

impl CastlingRights {
    pub open spec fn all() -> CastlingRights {
        CastlingRights {
            white_king_side: true,
            white_queen_side: true,
            black_king_side: true,
            black_queen_side: true,
        }
    }

    pub open spec fn king_side(self, color: Color) -> bool {
        if color == Color::WHITE {
            self.white_king_side
        } else {
            self.black_king_side
        }
    }

    pub open spec fn queen_side(self, color: Color) -> bool {
        if color == Color::WHITE {
            self.white_queen_side
        } else {
            self.black_queen_side
        }
    }

    pub fn initial() -> (r: CastlingRights)
        ensures
            r == CastlingRights::all(),
    {
        CastlingRights {
            white_king_side: true,
            white_queen_side: true,
            black_king_side: true,
            black_queen_side: true,
        }
    }

    /// Rights where `color` has none left and its opponent has all of them.
    pub fn none(color: Color) -> (r: CastlingRights)
        ensures
            r.white_king_side == (color == Color::BLACK),
            r.white_queen_side == (color == Color::BLACK),
            r.black_king_side == (color == Color::WHITE),
            r.black_queen_side == (color == Color::WHITE),
    {
        CastlingRights {
            white_king_side: color == Color::BLACK,
            white_queen_side: color == Color::BLACK,
            black_king_side: color == Color::WHITE,
            black_queen_side: color == Color::WHITE,
        }
    }

    pub fn get_king_side_mut(&mut self, color: Color) -> (r: &mut bool)
        ensures
            *r == old(self).king_side(color),
            color == Color::WHITE ==> final(self).white_king_side == *final(r)
                && final(self).white_queen_side == old(self).white_queen_side
                && final(self).black_king_side == old(self).black_king_side
                && final(self).black_queen_side == old(self).black_queen_side,
            color == Color::BLACK ==> final(self).black_king_side == *final(r)
                && final(self).white_queen_side == old(self).white_queen_side
                && final(self).white_king_side == old(self).white_king_side
                && final(self).black_queen_side == old(self).black_queen_side,
    {
        if color == Color::WHITE {
            &mut self.white_king_side
        } else {
            &mut self.black_king_side
        }
    }

    pub fn get_queen_side_mut(&mut self, color: Color) -> (r: &mut bool)
        ensures
            *r == old(self).queen_side(color),
            color == Color::WHITE ==> final(self).white_queen_side == *final(r)
                && final(self).white_king_side == old(self).white_king_side
                && final(self).black_king_side == old(self).black_king_side
                && final(self).black_queen_side == old(self).black_queen_side,
            color == Color::BLACK ==> final(self).black_queen_side == *final(r)
                && final(self).white_queen_side == old(self).white_queen_side
                && final(self).white_king_side == old(self).white_king_side
                && final(self).black_king_side == old(self).black_king_side,
    {
        if color == Color::WHITE {
            &mut self.white_queen_side
        } else {
            &mut self.black_queen_side
        }
    }
}

#[derive(PartialEq, Eq, Structural, Clone, Copy, Debug)]
pub enum Color {
    WHITE,
    BLACK,
}

impl Color {
    pub open spec fn other(self) -> Color {
        match self {
            Color::WHITE => Color::BLACK,
            Color::BLACK => Color::WHITE,
        }
    }

    pub fn opposite(&self) -> (r: Color)
        ensures
            r == self.other(),
    {
        match self {
            Color::WHITE => Color::BLACK,
            Color::BLACK => Color::WHITE,
        }
    }
}

/// A square of the board: index 0..63, `file = index % 8 + 1`, `rank = index / 8 + 1`.
#[derive(PartialEq, Eq, Structural, Clone, Copy, Debug, PartialOrd, Ord)]
pub struct Position {
    position: u8,
}

impl Position {
    #[verifier::type_invariant]
    spec fn inv(self) -> bool {
        self.position < 64
    }

    /// The square index, 0..63.
    pub closed spec fn index(self) -> int {
        self.position as int
    }

    pub open spec fn file_of(self) -> int {
        self.index() % 8 + 1
    }

    pub open spec fn rank_of(self) -> int {
        self.index() / 8 + 1
    }

    /// Two squares with the same index are the same square.
    pub proof fn lemma_index_injective(p: Position, q: Position)
        ensures
            p.index() == q.index() ==> p == q,
    {
    }

    pub fn new(file: u8, rank: u8) -> (r: Position)
        requires
            1 <= file <= 8,
            1 <= rank <= 8,
        ensures
            r.index() == (file - 1) + (rank - 1) * 8,
    {
        Position { position: (file - 1) + (rank - 1) * 8 }
    }

    pub fn to_bit_mask(&self) -> (r: u64)
        ensures
            r == square_bit(self.index()),
            0 <= self.index() < 64,
    {
        proof {
            use_type_invariant(self);
        }
        1u64 << self.position
    }

    pub fn delta(&self, delta_file: i8, delta_rank: i8) -> (r: Option<Position>)
        ensures
            0 <= self.index() < 64,
            ({
                let f = self.file_of() + delta_file;
                let k = self.rank_of() + delta_rank;
                match r {
                    Some(p) => 1 <= f <= 8 && 1 <= k <= 8 && p.index() == (f - 1) + (k - 1) * 8,
                    None => !(1 <= f <= 8 && 1 <= k <= 8),
                }
            }),
    {
        proof {
            use_type_invariant(self);
        }
        let new_file: i16 = self.file() as i16 + delta_file as i16;
        let new_rank: i16 = self.rank() as i16 + delta_rank as i16;
        if new_file < 1 || new_file > 8 {
            return None;
        }
        if new_rank < 1 || new_rank > 8 {
            return None;
        }
        Some(Position::new(new_file as u8, new_rank as u8))
    }

    pub fn to_numeric(&self) -> (r: u8)
        ensures
            r as int == self.index(),
            r < 64,
    {
        proof {
            use_type_invariant(self);
        }
        self.position
    }

    pub fn from_numeric(numeric_position: u8) -> (r: Position)
        requires
            numeric_position < 64,
        ensures
            r.index() == numeric_position,
    {
        Position { position: numeric_position }
    }

    pub fn rank(&self) -> (r: u8)
        ensures
            r == self.rank_of(),
            1 <= r <= 8,
    {
        proof {
            use_type_invariant(self);
        }
        self.position / 8 + 1
    }

    pub fn file(&self) -> (r: u8)
        ensures
            r == self.file_of(),
            1 <= r <= 8,
    {
        proof {
            use_type_invariant(self);
        }
        self.position % 8 + 1
    }

    /// The square on the same file, on the rank seen from the other side.
    pub fn mirror_rank(&self) -> (r: Position)
        ensures
            r.file_of() == self.file_of(),
            r.rank_of() == 9 - self.rank_of(),
            r.index() == self.index() % 8 + (7 - self.index() / 8) * 8,
    {
        Position::new(self.file(), 9 - self.rank())
    }

    /// The square as an upper-case file letter and a rank digit, such as `A1`.
    pub fn to_string(&self) -> (r: String)
        ensures
            r@ == seq![file_letter(self.file_of()), rank_digit(self.rank_of())],
    {
        let file = self.file();
        let rank = self.rank();
        let f = match file {
            1 => "A",
            2 => "B",
            3 => "C",
            4 => "D",
            5 => "E",
            6 => "F",
            7 => "G",
            _ => "H",
        };
        let k = match rank {
            1 => "1",
            2 => "2",
            3 => "3",
            4 => "4",
            5 => "5",
            6 => "6",
            7 => "7",
            _ => "8",
        };
        proof {
            reveal_strlit("A");
            reveal_strlit("B");
            reveal_strlit("C");
            reveal_strlit("D");
            reveal_strlit("E");
            reveal_strlit("F");
            reveal_strlit("G");
            reveal_strlit("H");
            reveal_strlit("1");
            reveal_strlit("2");
            reveal_strlit("3");
            reveal_strlit("4");
            reveal_strlit("5");
            reveal_strlit("6");
            reveal_strlit("7");
            reveal_strlit("8");
        }
        let s = String::from_str(f);
        let r = s.concat(k);
        assert(r@ =~= seq![file_letter(self.file_of()), rank_digit(self.rank_of())]);
        r
    }
}

pub open spec fn file_letter(file: int) -> char {
    (('A' as int) + file - 1) as char
}

pub open spec fn rank_digit(rank: int) -> char {
    (('0' as int) + rank) as char
}

#[derive(PartialEq, Eq, Structural, Clone, Copy, Debug)]
pub enum Piece {
    PAWN,
    KNIGHT,
    BISHOP,
    ROOK,
    QUEEN,
    KING,
}

/// Slot of a (piece, color) pair among the twelve occupancy masks.
pub open spec fn piece_index(piece: Piece, color: Color) -> int {
    let p = match piece {
        Piece::PAWN => 0int,
        Piece::KNIGHT => 1,
        Piece::BISHOP => 2,
        Piece::ROOK => 3,
        Piece::QUEEN => 4,
        Piece::KING => 5,
    };
    if color == Color::WHITE {
        p
    } else {
        p + 6
    }
}

/// The (piece, color) pair stored in a mask slot.
pub open spec fn piece_of_index(k: int) -> (Piece, Color) {
    let color = if k < 6 {
        Color::WHITE
    } else {
        Color::BLACK
    };
    let p = if k < 6 {
        k
    } else {
        k - 6
    };
    let piece = if p == 0 {
        Piece::PAWN
    } else if p == 1 {
        Piece::KNIGHT
    } else if p == 2 {
        Piece::BISHOP
    } else if p == 3 {
        Piece::ROOK
    } else if p == 4 {
        Piece::QUEEN
    } else {
        Piece::KING
    };
    (piece, color)
}

pub fn zobrist_index_for_piece(piece: Piece, color: Color) -> (r: usize)
    ensures
        r == piece_index(piece, color),
        r < 12,
{
    let p: usize = match piece {
        Piece::PAWN => 0,
        Piece::KNIGHT => 1,
        Piece::BISHOP => 2,
        Piece::ROOK => 3,
        Piece::QUEEN => 4,
        Piece::KING => 5,
    };
    match color {
        Color::WHITE => p,
        Color::BLACK => p + 6,
    }
}

/// The single-bit mask of square `sq` (zero off the board).
pub open spec fn square_bit(sq: int) -> u64 {
    if 0 <= sq < 64 {
        1u64 << (sq as u64)
    } else {
        0
    }
}

pub open spec fn has_bit(mask: u64, sq: int) -> bool {
    mask & square_bit(sq) != 0
}

/// What a board is: twelve occupancy masks (slot `piece_index`), the en-passant
/// square (the destination of the last double pawn step), castling rights, the
/// side to move, the incremental hash and the hash keys it is built from.
pub struct BoardModel {
    pub masks: Seq<u64>,
    pub en_passant: Option<Position>,
    pub castling_rights: CastlingRights,
    pub to_move: Color,
    pub hash: u64,
    pub keys: Seq<u64>,
}

pub open spec fn side_mask(masks: Seq<u64>, color: Color) -> u64 {
    let o: int = if color == Color::WHITE {
        0
    } else {
        6
    };
    masks[o] | masks[o + 1] | masks[o + 2] | masks[o + 3] | masks[o + 4] | masks[o + 5]
}

/// The first mask slot at or after `k` that holds square `sq`.
pub open spec fn occupant_from(masks: Seq<u64>, sq: int, k: int) -> Option<(Piece, Color)>
    decreases 12 - k,
{
    if k >= 12 || k < 0 {
        None
    } else if has_bit(masks[k], sq) {
        Some(piece_of_index(k))
    } else {
        occupant_from(masks, sq, k + 1)
    }
}

pub open spec fn piece_at(b: BoardModel, sq: int) -> Option<(Piece, Color)> {
    occupant_from(b.masks, sq, 0)
}

/// The indices of the set bits of `mask` below `n`, in increasing order.
pub open spec fn set_bits_below(mask: u64, n: int) -> Seq<int>
    decreases n,
{
    if n <= 0 {
        seq![]
    } else if has_bit(mask, n - 1) {
        set_bits_below(mask, n - 1).push(n - 1)
    } else {
        set_bits_below(mask, n - 1)
    }
}

pub open spec fn indices_of(ps: Seq<Position>) -> Seq<int> {
    ps.map_values(|p: Position| p.index())
}

pub open spec fn final_piece(m: Move) -> Piece {
    match m.promotes_to {
        Some(p) => p,
        None => m.moving_piece,
    }
}

/// Square of the pawn taken en passant by a pawn of `color` landing on `to`.
pub open spec fn en_passant_victim(to: Position, color: Color) -> int {
    if color == Color::WHITE {
        to.index() - 8
    } else {
        to.index() + 8
    }
}

pub open spec fn castles_queen_side(m: Move) -> bool {
    m.to.index() % 8 < 4
}

/// Home square of the rook that takes part in a castling move.
pub open spec fn rook_home(m: Move) -> int {
    (m.from.index() / 8) * 8 + if castles_queen_side(m) {
        0int
    } else {
        7
    }
}

/// Square the rook lands on in a castling move.
pub open spec fn rook_destination(m: Move) -> int {
    (m.from.index() / 8) * 8 + if castles_queen_side(m) {
        3int
    } else {
        5
    }
}

pub open spec fn is_double_step(m: Move) -> bool {
    m.moving_piece == Piece::PAWN && (m.from.index() - m.to.index() == 16 || m.to.index()
        - m.from.index() == 16)
}

/// The bits that move `m`, made by `color`, toggles in mask slot `k`.
pub open spec fn move_mask_delta(m: Move, color: Color, k: int) -> u64 {
    let o = color.other();
    let d0: u64 = match m.move_type {
        MoveType::Capture(captured) => if piece_index(captured, o) == k {
            square_bit(m.to.index())
        } else {
            0
        },
        MoveType::EnPassant => if piece_index(Piece::PAWN, o) == k {
            square_bit(en_passant_victim(m.to, color))
        } else {
            0
        },
        MoveType::Castling => if piece_index(Piece::ROOK, color) == k {
            square_bit(rook_home(m)) ^ square_bit(rook_destination(m))
        } else {
            0
        },
        _ => 0,
    };
    let d1: u64 = if piece_index(m.moving_piece, color) == k {
        d0 ^ square_bit(m.from.index())
    } else {
        d0
    };
    if piece_index(final_piece(m), color) == k {
        d1 ^ square_bit(m.to.index())
    } else {
        d1
    }
}

/// Whether move `m` by `color` removes the king-side (or queen-side) right of `side`.
pub open spec fn loses_right(m: Move, color: Color, side: Color, king_side: bool) -> bool {
    let home_file = if king_side {
        7int
    } else {
        0int
    };
    if side == color {
        m.moving_piece == Piece::KING || m.move_type == MoveType::Castling || (m.moving_piece
            == Piece::ROOK && m.from.index() % 8 == home_file)
    } else {
        let home_rank_start = if side == Color::WHITE {
            0int
        } else {
            56int
        };
        m.move_type == MoveType::Capture(Piece::ROOK) && m.to.index() == home_rank_start
            + home_file
    }
}

/// Castling rights after move `m` by `color`: a king move or castling takes both
/// rights of the mover, a rook leaving its home file takes that side's right, a rook
/// taken on its home corner takes the opponent's right on that side.
pub open spec fn rights_after(r: CastlingRights, m: Move, color: Color) -> CastlingRights {
    CastlingRights {
        white_king_side: r.white_king_side && !loses_right(m, color, Color::WHITE, true),
        white_queen_side: r.white_queen_side && !loses_right(m, color, Color::WHITE, false),
        black_king_side: r.black_king_side && !loses_right(m, color, Color::BLACK, true),
        black_queen_side: r.black_queen_side && !loses_right(m, color, Color::BLACK, false),
    }
}

/// The board after `m` is played on `b`.
pub open spec fn apply_model(b: BoardModel, m: Move) -> BoardModel {
    let c = b.to_move;
    let rights = rights_after(b.castling_rights, m, c);
    BoardModel {
        masks: Seq::new(12, |k: int| b.masks[k] ^ move_mask_delta(m, c, k)),
        en_passant: if is_double_step(m) {
            Some(m.to)
        } else {
            None
        },
        castling_rights: rights,
        to_move: c.other(),
        hash: zobrist_hash::hash_after(b.keys, b.hash, m, c, b.castling_rights),
        keys: b.keys,
    }
}

/// The board after `m`, the last move played on `b`, is taken back.
pub open spec fn unapply_model(b: BoardModel, m: Move) -> BoardModel {
    let c = b.to_move.other();
    BoardModel {
        masks: Seq::new(12, |k: int| b.masks[k] ^ move_mask_delta(m, c, k)),
        en_passant: m.last_en_passant,
        castling_rights: m.last_castling_rights,
        to_move: c,
        hash: zobrist_hash::hash_before(b.keys, b.hash, m, c, b.castling_rights),
        keys: b.keys,
    }
}

/// Taking back a move restores the board it was played on exactly, hash included,
/// when the move carries that board's en-passant square and castling rights.
pub proof fn lemma_unapply_inverts_apply(b: BoardModel, m: Move)
    requires
        b.masks.len() == 12,
        m.last_en_passant == b.en_passant,
        m.last_castling_rights == b.castling_rights,
    ensures
        unapply_model(apply_model(b, m), m) == b,
{
    let a = apply_model(b, m);
    let u = unapply_model(a, m);
    assert forall|k: int| 0 <= k < 12 implies u.masks[k] == b.masks[k] by {
        let x = b.masks[k];
        let d = move_mask_delta(m, b.to_move, k);
        assert((x ^ d) ^ d == x) by (bit_vector);
    }
    assert(u.masks =~= b.masks);
    zobrist_hash::lemma_hash_before_after(b.keys, b.hash, m, b.to_move, b.castling_rights);
}

pub const WHITE_PAWNS: u64 = 0x0000_0000_0000_ff00;
pub const WHITE_KNIGHTS: u64 = 0x0000_0000_0000_0042;
pub const WHITE_BISHOPS: u64 = 0x0000_0000_0000_0024;
pub const WHITE_ROOKS: u64 = 0x0000_0000_0000_0081;
pub const WHITE_QUEENS: u64 = 0x0000_0000_0000_0008;
pub const WHITE_KINGS: u64 = 0x0000_0000_0000_0010;
pub const BLACK_PAWNS: u64 = 0x00ff_0000_0000_0000;
pub const BLACK_KNIGHTS: u64 = 0x4200_0000_0000_0000;
pub const BLACK_BISHOPS: u64 = 0x2400_0000_0000_0000;
pub const BLACK_ROOKS: u64 = 0x8100_0000_0000_0000;
pub const BLACK_QUEENS: u64 = 0x0800_0000_0000_0000;
pub const BLACK_KINGS: u64 = 0x1000_0000_0000_0000;

pub open spec fn initial_masks() -> Seq<u64> {
    seq![
        WHITE_PAWNS,
        WHITE_KNIGHTS,
        WHITE_BISHOPS,
        WHITE_ROOKS,
        WHITE_QUEENS,
        WHITE_KINGS,
        BLACK_PAWNS,
        BLACK_KNIGHTS,
        BLACK_BISHOPS,
        BLACK_ROOKS,
        BLACK_QUEENS,
        BLACK_KINGS,
    ]
}

/// The glyph of a square's content.
pub open spec fn glyph(o: Option<(Piece, Color)>) -> Seq<char> {
    match o {
        Some((Piece::PAWN, Color::WHITE)) => seq!['\u{2659}'],
        Some((Piece::KNIGHT, Color::WHITE)) => seq!['\u{2658}'],
        Some((Piece::BISHOP, Color::WHITE)) => seq!['\u{2657}'],
        Some((Piece::ROOK, Color::WHITE)) => seq!['\u{2656}'],
        Some((Piece::QUEEN, Color::WHITE)) => seq!['\u{2655}'],
        Some((Piece::KING, Color::WHITE)) => seq!['\u{2654}'],
        Some((Piece::PAWN, Color::BLACK)) => seq!['\u{265f}', '\u{fe0e}'],
        Some((Piece::KNIGHT, Color::BLACK)) => seq!['\u{265e}'],
        Some((Piece::BISHOP, Color::BLACK)) => seq!['\u{265d}'],
        Some((Piece::ROOK, Color::BLACK)) => seq!['\u{265c}'],
        Some((Piece::QUEEN, Color::BLACK)) => seq!['\u{265b}'],
        Some((Piece::KING, Color::BLACK)) => seq!['\u{265a}'],
        None => seq![' '],
    }
}

/// The glyphs of files 1..=`file` on `rank`.
pub open spec fn row_text(b: BoardModel, rank: int, file: int) -> Seq<char>
    decreases file,
{
    if file <= 0 {
        seq![]
    } else {
        row_text(b, rank, file - 1) + glyph(piece_at(b, (file - 1) + (rank - 1) * 8))
    }
}

/// The lines of the ranks above `rank`, from rank 8 down, each followed by a line break
/// except the line of rank 1.
pub open spec fn rows_above(b: BoardModel, rank: int) -> Seq<char>
    decreases 8 - rank,
{
    if rank >= 8 {
        seq![]
    } else {
        rows_above(b, rank + 1) + row_text(b, rank + 1, 8) + if rank + 1 > 1 {
            seq!['\n']
        } else {
            seq![]
        }
    }
}

/// The whole board as text.
pub open spec fn board_text(b: BoardModel) -> Seq<char> {
    rows_above(b, 0)
}

pub const ZOBRIST_SEED: u64 = 123456;

#[derive(PartialEq, Eq, Clone, Debug)]
pub struct GameState {
    masks: [u64; 12],
    en_passant: Option<Position>,
    pub castling_rights: CastlingRights,
    pub to_move: Color,
    pub zobrist_hash: u64,
    hasher: Arc<ZobristHasher>,
}

impl View for GameState {
    type V = BoardModel;

    closed spec fn view(&self) -> BoardModel {
        BoardModel {
            masks: self.masks@,
            en_passant: self.en_passant,
            castling_rights: self.castling_rights,
            to_move: self.to_move,
            hash: self.zobrist_hash,
            keys: (*self.hasher)@,
        }
    }
}

impl GameState {
    /// A board always has twelve occupancy masks.
    pub broadcast proof fn lemma_masks_len(s: &GameState)
        ensures
            #[trigger] s@.masks.len() == 12,
    {
    }

    /// An empty board, White to move, with all castling rights and the given keys.
    fn new_empty(hasher: Arc<ZobristHasher>) -> (r: GameState)
        ensures
            r@.masks == Seq::new(12, |k: int| 0u64),
            r@.en_passant == None::<Position>,
            r@.castling_rights == CastlingRights::all(),
            r@.to_move == Color::WHITE,
            r@.hash == 0,
            r@.keys == (*hasher)@,
    {
        let r = GameState {
            masks: [0u64; 12],
            en_passant: None,
            castling_rights: CastlingRights::initial(),
            to_move: Color::WHITE,
            zobrist_hash: 0,
            hasher,
        };
        assert(r@.masks =~= Seq::new(12, |k: int| 0u64));
        r
    }

    /// The standard starting position, White to move, with its full hash.
    pub fn new() -> (r: GameState)
        ensures
            r@.masks == initial_masks(),
            r@.en_passant == None::<Position>,
            r@.castling_rights == CastlingRights::all(),
            r@.to_move == Color::WHITE,
            r@.hash == zobrist_hash::full_hash(r@),
    {
        let hasher = Arc::new(ZobristHasher::new(ZOBRIST_SEED));
        let mut state = GameState::new_empty(hasher);
        state.masks = [
            WHITE_PAWNS,
            WHITE_KNIGHTS,
            WHITE_BISHOPS,
            WHITE_ROOKS,
            WHITE_QUEENS,
            WHITE_KINGS,
            BLACK_PAWNS,
            BLACK_KNIGHTS,
            BLACK_BISHOPS,
            BLACK_ROOKS,
            BLACK_QUEENS,
            BLACK_KINGS,
        ];
        assert(state@.masks =~= initial_masks());
        let h = zobrist_hash::hash(&state);
        state.zobrist_hash = h;
        state
    }

    pub fn to_move(&self) -> (r: Color)
        ensures
            r == self@.to_move,
    {
        self.to_move
    }

    pub fn castling_rights(&self) -> (r: CastlingRights)
        ensures
            r == self@.castling_rights,
    {
        self.castling_rights
    }

    pub fn zobrist_hash(&self) -> (r: u64)
        ensures
            r == self@.hash,
    {
        self.zobrist_hash
    }

    pub fn en_passant(&self) -> (r: Option<Position>)
        ensures
            r == self@.en_passant,
    {
        self.en_passant
    }

    /// The keys the hash of this board is built from.
    pub fn hasher(&self) -> (r: &ZobristHasher)
        ensures
            r@ == self@.keys,
    {
        &self.hasher
    }

    /// Puts a piece on a square (the hash is left as it is).
    pub fn set_piece(&mut self, piece: Piece, color: Color, position: Position)
        ensures
            final(self)@ == (BoardModel {
                masks: old(self)@.masks.update(
                    piece_index(piece, color),
                    old(self)@.masks[piece_index(piece, color)] | square_bit(position.index()),
                ),
                ..old(self)@
            }),
    {
        let bit = position.to_bit_mask();
        let k = zobrist_index_for_piece(piece, color);
        let v = self.masks[k] | bit;
        self.masks[k] = v;
        assert(final(self)@.masks =~= old(self)@.masks.update(k as int, v));
    }

    /// The squares holding `piece` of `color`, in increasing order.
    pub fn get_piece_position(&self, piece: Piece, color: Color) -> (r: Vec<Position>)
        ensures
            indices_of(r@) == set_bits_below(self@.masks[piece_index(piece, color)], 64),
    {
        bit_mask_to_positions(*self.get_piece_mask(piece, color))
    }

    pub fn collide(&self, position: Position) -> (r: Option<Color>)
        ensures
            r == if has_bit(side_mask(self@.masks, Color::WHITE), position.index()) {
                Some(Color::WHITE)
            } else if has_bit(side_mask(self@.masks, Color::BLACK), position.index()) {
                Some(Color::BLACK)
            } else {
                None
            },
    {
        let white_mask = self.white_mask();
        let black_mask = self.black_mask();
        let bit = position.to_bit_mask();
        if white_mask & bit != 0 {
            Some(Color::WHITE)
        } else if black_mask & bit != 0 {
            Some(Color::BLACK)
        } else {
            None
        }
    }

    /// The squares of `to_test` that hold a piece of either color.
    pub fn collide_mask(&self, to_test: u64) -> (r: u64)
        ensures
            r == to_test & (side_mask(self@.masks, Color::WHITE) | side_mask(
                self@.masks,
                Color::BLACK,
            )),
    {
        to_test & (self.white_mask() | self.black_mask())
    }

    /// The squares of `to_test` that hold a piece of `color`.
    pub fn collide_mask_color(&self, to_test: u64, color: Color) -> (r: u64)
        ensures
            r == to_test & side_mask(self@.masks, color),
    {
        match color {
            Color::WHITE => to_test & self.white_mask(),
            Color::BLACK => to_test & self.black_mask(),
        }
    }

    fn white_mask(&self) -> (r: u64)
        ensures
            r == side_mask(self@.masks, Color::WHITE),
    {
        self.masks[0] | self.masks[1] | self.masks[2] | self.masks[3] | self.masks[4]
            | self.masks[5]
    }

    fn black_mask(&self) -> (r: u64)
        ensures
            r == side_mask(self@.masks, Color::BLACK),
    {
        self.masks[6] | self.masks[7] | self.masks[8] | self.masks[9] | self.masks[10]
            | self.masks[11]
    }

    /// The board after `to_apply`, leaving this one as it is.
    pub fn apply_move(&self, to_apply: Move) -> (r: GameState)
        ensures
            r@ == apply_model(self@, to_apply),
    {
        let mut new_state = self.clone_state();
        new_state.apply_move_mut(to_apply);
        new_state
    }

    /// A copy of this board that shares its keys.
    pub fn clone_state(&self) -> (r: GameState)
        ensures
            r@ == self@,
    {
        GameState {
            masks: self.masks,
            en_passant: self.en_passant,
            castling_rights: self.castling_rights,
            to_move: self.to_move,
            zobrist_hash: self.zobrist_hash,
            hasher: share_keys(&self.hasher),
        }
    }

    /// Plays `to_apply` in place: pieces, en-passant square, castling rights, side
    /// to move and hash all change as `apply_model` says.
    pub fn apply_move_mut(&mut self, to_apply: Move)
        ensures
            final(self)@ == apply_model(old(self)@, to_apply),
    {
        let mover = self.to_move;
        let h = zobrist_hash::apply_move(
            &self.hasher,
            self.zobrist_hash,
            &self.castling_rights,
            to_apply,
            mover,
        );
        self.toggle_masks(&to_apply, mover);
        self.en_passant = if is_double_pawn_step(&to_apply) {
            Some(to_apply.to)
        } else {
            None
        };
        self.castling_rights = castling_rights_after(&self.castling_rights, &to_apply, mover);
        self.to_move = mover.opposite();
        self.zobrist_hash = h;
    }

    /// Takes back `to_unapply`, the last move played, in place; en-passant square and
    /// castling rights come back from the move's snapshot.
    pub fn unapply_move_mut(&mut self, to_unapply: Move)
        ensures
            final(self)@ == unapply_model(old(self)@, to_unapply),
    {
        let mover = self.to_move.opposite();
        let h = zobrist_hash::unapply_move(
            &self.hasher,
            self.zobrist_hash,
            &self.castling_rights,
            to_unapply,
            self.to_move,
        );
        self.toggle_masks(&to_unapply, mover);
        self.en_passant = to_unapply.last_en_passant;
        self.castling_rights = to_unapply.last_castling_rights;
        self.to_move = mover;
        self.zobrist_hash = h;
    }

    fn toggle_masks(&mut self, m: &Move, mover: Color)
        ensures
            final(self)@ == (BoardModel {
                masks: Seq::new(12, |k: int| old(self)@.masks[k] ^ move_mask_delta(*m, mover, k)),
                ..old(self)@
            }),
    {
        let ghost start = self.masks@;
        let mut k: usize = 0;
        while k < 12
            invariant
                k <= 12,
                self.masks@.len() == 12,
                forall|j: int| 0 <= j < k ==> self.masks@[j] == start[j] ^ move_mask_delta(*m, mover, j),
                forall|j: int| k <= j < 12 ==> self.masks@[j] == start[j],
                self.en_passant == old(self).en_passant,
                self.castling_rights == old(self).castling_rights,
                self.to_move == old(self).to_move,
                self.zobrist_hash == old(self).zobrist_hash,
                self.hasher == old(self).hasher,
                start == old(self).masks@,
            decreases 12 - k,
        {
            let d = mask_delta(m, mover, k);
            let v = self.masks[k] ^ d;
            self.masks[k] = v;
            k = k + 1;
        }
        assert(self.masks@ =~= Seq::new(12, |j: int| start[j] ^ move_mask_delta(*m, mover, j)));
    }

    /// The mask in slot `k`.
    pub(crate) fn mask_slot(&self, k: usize) -> (r: u64)
        requires
            k < 12,
        ensures
            r == self@.masks[k as int],
    {
        self.masks[k]
    }

    pub fn get_piece_mask(&self, piece: Piece, color: Color) -> (r: &u64)
        ensures
            *r == self@.masks[piece_index(piece, color)],
    {
        let k = zobrist_index_for_piece(piece, color);
        &self.masks[k]
    }

    fn get_piece_mask_mut(&mut self, piece: Piece, color: Color) -> (r: &mut u64)
        ensures
            *r == old(self)@.masks[piece_index(piece, color)],
            final(self)@ == (BoardModel {
                masks: old(self)@.masks.update(piece_index(piece, color), *final(r)),
                ..old(self)@
            }),
    {
        let k = zobrist_index_for_piece(piece, color);
        &mut self.masks[k]
    }

    /// The piece on a square: the first mask slot, in `piece_index` order, holding it.
    pub fn get_piece(&self, position: Position) -> (r: Option<(Piece, Color)>)
        ensures
            r == piece_at(self@, position.index()),
    {
        let bit = position.to_bit_mask();
        let mut k: usize = 0;
        while k < 12
            invariant
                k <= 12,
                bit == square_bit(position.index()),
                occupant_from(self@.masks, position.index(), 0) == occupant_from(
                    self@.masks,
                    position.index(),
                    k as int,
                ),
            decreases 12 - k,
        {
            if self.masks[k] & bit != 0 {
                return Some(piece_of_slot(k));
            }
            k = k + 1;
        }
        None
    }

    /// The glyph of the piece on a square, a space when it is empty.
    fn square_to_unicode(&self, position: Position) -> (r: &'static str)
        ensures
            r@ == glyph(piece_at(self@, position.index())),
    {
        proof {
            reveal_strlit("\u{2659}");
            reveal_strlit("\u{2658}");
            reveal_strlit("\u{2657}");
            reveal_strlit("\u{2656}");
            reveal_strlit("\u{2655}");
            reveal_strlit("\u{2654}");
            reveal_strlit("\u{265f}\u{fe0e}");
            reveal_strlit("\u{265e}");
            reveal_strlit("\u{265d}");
            reveal_strlit("\u{265c}");
            reveal_strlit("\u{265b}");
            reveal_strlit("\u{265a}");
            reveal_strlit(" ");
        }
        match self.get_piece(position) {
            Some((Piece::PAWN, Color::WHITE)) => "\u{2659}",
            Some((Piece::KNIGHT, Color::WHITE)) => "\u{2658}",
            Some((Piece::BISHOP, Color::WHITE)) => "\u{2657}",
            Some((Piece::ROOK, Color::WHITE)) => "\u{2656}",
            Some((Piece::QUEEN, Color::WHITE)) => "\u{2655}",
            Some((Piece::KING, Color::WHITE)) => "\u{2654}",
            Some((Piece::PAWN, Color::BLACK)) => "\u{265f}\u{fe0e}",
            Some((Piece::KNIGHT, Color::BLACK)) => "\u{265e}",
            Some((Piece::BISHOP, Color::BLACK)) => "\u{265d}",
            Some((Piece::ROOK, Color::BLACK)) => "\u{265c}",
            Some((Piece::QUEEN, Color::BLACK)) => "\u{265b}",
            Some((Piece::KING, Color::BLACK)) => "\u{265a}",
            None => " ",
        }
    }

    /// The board as eight lines of glyphs, rank 8 first, files a to h left to right.
    pub fn to_string(&self) -> (r: String)
        ensures
            r@ == board_text(self@),
    {
        proof {
            reveal_strlit("\n");
        }
        let mut builder = String::from_str("");
        proof {
            reveal_strlit("");
        }
        let mut rank: u8 = 8;
        while rank >= 1
            invariant
                0 <= rank <= 8,
                builder@ == rows_above(self@, rank as int),
            decreases rank,
        {
            let mut file: u8 = 1;
            let ghost start = builder@;
            while file <= 8
                invariant
                    1 <= rank <= 8,
                    1 <= file <= 9,
                    builder@ == start + row_text(self@, rank as int, file as int - 1),
                decreases 9 - file,
            {
                let glyph_text = self.square_to_unicode(Position::new(file, rank));
                let ghost before = builder@;
                builder.append(glyph_text);
                assert(builder@ =~= start + row_text(self@, rank as int, file as int));
                file = file + 1;
            }
            let ghost line = builder@;
            assert(line == rows_above(self@, rank as int) + row_text(self@, rank as int, 8));
            if rank > 1 {
                proof {
                    reveal_strlit("\n");
                }
                builder.append("\n");
                assert(builder@ =~= line + seq!['\n']);
            } else {
                assert(line =~= line + seq![]);
            }
            assert(rows_above(self@, rank - 1) == rows_above(self@, rank as int) + row_text(
                self@,
                rank as int,
                8,
            ) + if rank > 1 {
                seq!['\n']
            } else {
                seq![]
            });
            assert(builder@ =~= rows_above(self@, rank - 1));
            rank = rank - 1;
        }
        builder
    }
}

/// Relies on Arc::clone: the new handle points to the same value.
#[verifier::external_body]
fn share_keys(keys: &Arc<ZobristHasher>) -> (r: Arc<ZobristHasher>)
    ensures
        *r == **keys,
{
    Arc::clone(keys)
}

fn piece_of_slot(k: usize) -> (r: (Piece, Color))
    requires
        k < 12,
    ensures
        r == piece_of_index(k as int),
{
    let color = if k < 6 {
        Color::WHITE
    } else {
        Color::BLACK
    };
    let p = if k < 6 {
        k
    } else {
        k - 6
    };
    let piece = if p == 0 {
        Piece::PAWN
    } else if p == 1 {
        Piece::KNIGHT
    } else if p == 2 {
        Piece::BISHOP
    } else if p == 3 {
        Piece::ROOK
    } else if p == 4 {
        Piece::QUEEN
    } else {
        Piece::KING
    };
    (piece, color)
}

fn square_bit_of(sq: i16) -> (r: u64)
    ensures
        r == square_bit(sq as int),
{
    if 0 <= sq && sq < 64 {
        1u64 << (sq as u64)
    } else {
        0
    }
}

pub fn is_double_pawn_step(m: &Move) -> (r: bool)
    ensures
        r == is_double_step(*m),
{
    let from = m.from.to_numeric() as i16;
    let to = m.to.to_numeric() as i16;
    m.moving_piece == Piece::PAWN && (from - to == 16 || to - from == 16)
}

/// Index of the rook's home square and its destination in a castling move.
pub fn castling_rook_squares(m: &Move) -> (r: (usize, usize))
    ensures
        r.0 == rook_home(*m),
        r.1 == rook_destination(*m),
        r.0 < 64,
        r.1 < 64,
{
    let base = (m.from.to_numeric() as usize / 8) * 8;
    if m.to.to_numeric() % 8 < 4 {
        (base, base + 3)
    } else {
        (base + 7, base + 5)
    }
}

/// Index of the square of the pawn taken en passant, as a signed number.
pub fn en_passant_victim_square(to: Position, color: Color) -> (r: i16)
    ensures
        r == en_passant_victim(to, color),
{
    let t = to.to_numeric() as i16;
    match color {
        Color::WHITE => t - 8,
        Color::BLACK => t + 8,
    }
}

fn mask_delta(m: &Move, color: Color, k: usize) -> (r: u64)
    ensures
        r == move_mask_delta(*m, color, k as int),
{
    let o = color.opposite();
    let mut d: u64 = match m.move_type {
        MoveType::Capture(captured) => if zobrist_index_for_piece(captured, o) == k {
            m.to.to_bit_mask()
        } else {
            0
        },
        MoveType::EnPassant => if zobrist_index_for_piece(Piece::PAWN, o) == k {
            square_bit_of(en_passant_victim_square(m.to, color))
        } else {
            0
        },
        MoveType::Castling => if zobrist_index_for_piece(Piece::ROOK, color) == k {
            let (home, dest) = castling_rook_squares(m);
            square_bit_of(home as i16) ^ square_bit_of(dest as i16)
        } else {
            0
        },
        _ => 0,
    };
    if zobrist_index_for_piece(m.moving_piece, color) == k {
        d = d ^ m.from.to_bit_mask();
    }
    let last = match m.promotes_to {
        Some(p) => p,
        None => m.moving_piece,
    };
    if zobrist_index_for_piece(last, color) == k {
        d = d ^ m.to.to_bit_mask();
    }
    d
}

fn loses_castling_right(m: &Move, color: Color, side: Color, king_side: bool) -> (r: bool)
    ensures
        r == loses_right(*m, color, side, king_side),
{
    let home_file: u8 = if king_side {
        7
    } else {
        0
    };
    if side == color {
        m.moving_piece == Piece::KING || m.move_type == MoveType::Castling || (m.moving_piece
            == Piece::ROOK && m.from.to_numeric() % 8 == home_file)
    } else {
        let home_rank_start: u8 = match side {
            Color::WHITE => 0,
            Color::BLACK => 56,
        };
        m.move_type == MoveType::Capture(Piece::ROOK) && m.to.to_numeric() == home_rank_start
            + home_file
    }
}

pub fn castling_rights_after(r: &CastlingRights, m: &Move, color: Color) -> (out: CastlingRights)
    ensures
        out == rights_after(*r, *m, color),
{
    CastlingRights {
        white_king_side: r.white_king_side && !loses_castling_right(m, color, Color::WHITE, true),
        white_queen_side: r.white_queen_side && !loses_castling_right(
            m,
            color,
            Color::WHITE,
            false,
        ),
        black_king_side: r.black_king_side && !loses_castling_right(m, color, Color::BLACK, true),
        black_queen_side: r.black_queen_side && !loses_castling_right(
            m,
            color,
            Color::BLACK,
            false,
        ),
    }
}

/// The squares whose bits are set in `bit_mask`, in increasing order.
pub fn bit_mask_to_positions(bit_mask: u64) -> (r: Vec<Position>)
    ensures
        indices_of(r@) == set_bits_below(bit_mask, 64),
{
    let mut v: Vec<Position> = Vec::new();
    let mut i: u8 = 0;
    while i < 64
        invariant
            i <= 64,
            indices_of(v@) == set_bits_below(bit_mask, i as int),
        decreases 64 - i,
    {
        if bit_mask & (1u64 << i) != 0 {
            let p = Position::from_numeric(i);
            v.push(p);
            assert(indices_of(v@) =~= indices_of(v@.drop_last()).push(i as int));
        }
        i = i + 1;
    }
    v
}

} // verus!
