use vstd::prelude::*;
use vstd::string::{StrSliceExecFns, StringExecFns};

use crate::game_state::{Move, Piece, Position};

verus! {

/// A move in square-pair notation: origin, destination and promotion piece.
pub struct UciMove(pub Position, pub Position, pub Option<Piece>);

/// The file (1..8) that a letter `a`..`h` names.
pub open spec fn file_value(c: char) -> Option<int> {
    if 'a' <= c <= 'h' {
        Some(c as int - 'a' as int + 1)
    } else {
        None
    }
}

/// The rank (1..8) that a digit `1`..`8` names.
pub open spec fn rank_value(c: char) -> Option<int> {
    if '1' <= c <= '8' {
        Some(c as int - '0' as int)
    } else {
        None
    }
}

pub open spec fn promotion_value(c: char) -> Option<Piece> {
    if c == 'q' {
        Some(Piece::QUEEN)
    } else if c == 'r' {
        Some(Piece::ROOK)
    } else if c == 'b' {
        Some(Piece::BISHOP)
    } else if c == 'n' {
        Some(Piece::KNIGHT)
    } else {
        None
    }
}

/// The square that a file letter and a rank digit name, if both are valid.
pub open spec fn square_value(f: char, r: char) -> Option<int> {
    match (file_value(f), rank_value(r)) {
        (Some(file), Some(rank)) => Some((file - 1) + (rank - 1) * 8),
        _ => None,
    }
}

/// Whether `s` is a move token: four characters naming two squares, and a fifth
/// naming a promotion piece if there is one.
pub open spec fn is_move_token(s: Seq<char>) -> bool {
    &&& 4 <= s.len() <= 5
    &&& square_value(s[0], s[1]).is_some()
    &&& square_value(s[2], s[3]).is_some()
    &&& s.len() == 5 ==> promotion_value(s[4]).is_some()
}

pub open spec fn file_char(file: int) -> char {
    (('a' as int) + file - 1) as char
}

pub open spec fn rank_char(rank: int) -> char {
    (('0' as int) + rank) as char
}

pub open spec fn promotion_char(p: Piece) -> Seq<char> {
    match p {
        Piece::QUEEN => seq!['q'],
        Piece::ROOK => seq!['r'],
        Piece::BISHOP => seq!['b'],
        Piece::KNIGHT => seq!['n'],
        _ => seq![],
    }
}

fn file_text(file: u8) -> (r: &'static str)
    requires
        1 <= file <= 8,
    ensures
        r@ == seq![file_char(file as int)],
{
    proof {
        reveal_strlit("a");
        reveal_strlit("b");
        reveal_strlit("c");
        reveal_strlit("d");
        reveal_strlit("e");
        reveal_strlit("f");
        reveal_strlit("g");
        reveal_strlit("h");
    }
    match file {
        1 => "a",
        2 => "b",
        3 => "c",
        4 => "d",
        5 => "e",
        6 => "f",
        7 => "g",
        _ => "h",
    }
}

fn rank_text(rank: u8) -> (r: &'static str)
    requires
        1 <= rank <= 8,
    ensures
        r@ == seq![rank_char(rank as int)],
{
    proof {
        reveal_strlit("1");
        reveal_strlit("2");
        reveal_strlit("3");
        reveal_strlit("4");
        reveal_strlit("5");
        reveal_strlit("6");
        reveal_strlit("7");
        reveal_strlit("8");
    }
    match rank {
        1 => "1",
        2 => "2",
        3 => "3",
        4 => "4",
        5 => "5",
        6 => "6",
        7 => "7",
        _ => "8",
    }
}

impl UciMove {
    /// The move written as `<file><rank><file><rank>[piece]`, such as `e2e4` or `a7a8q`.
    pub fn to_string(&self) -> (r: String)
        ensures
            r@ == seq![
                file_char(self.0.file_of()),
                rank_char(self.0.rank_of()),
                file_char(self.1.file_of()),
                rank_char(self.1.rank_of()),
            ] + match self.2 {
                Some(p) => promotion_char(p),
                None => seq![],
            },
    {
        proof {
            reveal_strlit("q");
            reveal_strlit("r");
            reveal_strlit("b");
            reveal_strlit("n");
            reveal_strlit("");
        }
        let s = String::from_str(file_text(self.0.file()));
        let s = s.concat(rank_text(self.0.rank()));
        let s = s.concat(file_text(self.1.file()));
        let s = s.concat(rank_text(self.1.rank()));
        let promotion = match self.2 {
            Some(Piece::QUEEN) => "q",
            Some(Piece::ROOK) => "r",
            Some(Piece::BISHOP) => "b",
            Some(Piece::KNIGHT) => "n",
            _ => "",
        };
        let r = s.concat(promotion);
        assert(r@ =~= seq![
            file_char(self.0.file_of()),
            rank_char(self.0.rank_of()),
            file_char(self.1.file_of()),
            rank_char(self.1.rank_of()),
        ] + match self.2 {
            Some(p) => promotion_char(p),
            None => seq![],
        });
        r
    }
}

/// The square-pair notation of a move.
pub fn move_to_uci(m: &Move) -> (r: UciMove)
    ensures
        r.0 == m.from,
        r.1 == m.to,
        r.2 == m.promotes_to,
{
    UciMove(m.from, m.to, m.promotes_to)
}

fn message(text: &str) -> (r: String)
    ensures
        r@ == text@,
{
    String::from_str(text)
}

/// Reads a move token; a token of the wrong length or with a bad file, rank or
/// promotion letter is an error.
pub fn parse_move(uci_move: &str) -> (r: Result<UciMove, String>)
    ensures
        r.is_ok() == is_move_token(uci_move@),
        r matches Ok(u) ==> {
            &&& Some(u.0.index()) == square_value(uci_move@[0], uci_move@[1])
            &&& Some(u.1.index()) == square_value(uci_move@[2], uci_move@[3])
            &&& u.2 == if uci_move@.len() == 5 {
                promotion_value(uci_move@[4])
            } else {
                None
            }
        },
{
    let len = uci_move.unicode_len();
    if len < 4 || len > 5 {
        return Err(message("UCI move must be of length 4 or 5"));
    }
    let from = parse_position(uci_move.get_char(0), uci_move.get_char(1));
    let to = parse_position(uci_move.get_char(2), uci_move.get_char(3));
    let promotes_to = if len == 5 {
        match parse_promotes_to(uci_move.get_char(4)) {
            Err(msg) => return Err(msg),
            Ok(piece) => Some(piece),
        }
    } else {
        None
    };
    match (from, to) {
        (Ok(from), Ok(to)) => Ok(UciMove(from, to, promotes_to)),
        (Err(msg), Ok(_)) => Err(msg),
        (Ok(_), Err(msg)) => Err(msg),
        (Err(msg), Err(_)) => Err(msg),
    }
}

/// Reads a square from a file letter `a`..`h` and a rank digit `1`..`8`.
pub fn parse_position(file_raw: char, rank_raw: char) -> (r: Result<Position, String>)
    ensures
        r.is_ok() == square_value(file_raw, rank_raw).is_some(),
        r matches Ok(p) ==> Some(p.index()) == square_value(file_raw, rank_raw),
{
    let file: u8 = if 'a' <= file_raw && file_raw <= 'h' {
        (file_raw as u32 - 'a' as u32 + 1) as u8
    } else {
        0
    };
    let rank: u8 = if '1' <= rank_raw && rank_raw <= '8' {
        (rank_raw as u32 - '0' as u32) as u8
    } else {
        0
    };
    if file == 0 && rank == 0 {
        Err(message("Invalid file, Invalid rank"))
    } else if file == 0 {
        Err(message("Invalid file"))
    } else if rank == 0 {
        Err(message("Invalid rank"))
    } else {
        Ok(Position::new(file, rank))
    }
}

/// Reads a promotion piece from `q`, `r`, `b` or `n`.
pub fn parse_promotes_to(promotes_to: char) -> (r: Result<Piece, String>)
    ensures
        r.is_ok() == promotion_value(promotes_to).is_some(),
        r matches Ok(p) ==> Some(p) == promotion_value(promotes_to),
{
    match promotes_to {
        'q' => Ok(Piece::QUEEN),
        'r' => Ok(Piece::ROOK),
        'b' => Ok(Piece::BISHOP),
        'n' => Ok(Piece::KNIGHT),
        _ => Err(message("Cannot promote to that piece")),
    }
}

} // verus!
