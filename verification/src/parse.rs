//! FEN parsing: the one fallible entry point, with a distinct error for
//! each way a record can be malformed.

use vstd::prelude::*;
use crate::pieces::{Colour, Piece, Position};
use crate::board::{Board, sq_set};
use crate::fen::Fen;
use crate::text::push_char;

verus! {

/// Why a FEN record was rejected, each variant carrying the offending
/// part.
#[derive(Debug)]
pub enum FenParseError {
    /// Not exactly six space-separated fields; holds how many there were.
    InsufficientParts(usize),
    /// A side-to-move field other than `w` or `b`.
    InvalidToMove(String),
    /// A castling-rights character outside `KQkq`.
    InvalidCastleCharacter(char),
    /// An en-passant square of the wrong length.
    InvalidSquareLen(usize),
    /// An en-passant file letter outside `a`..`h`.
    InvalidFile(char),
    /// An en-passant rank digit outside `1`..`8`.
    InvalidRank(char),
    /// A clock or move-count field that is not an unsigned number in
    /// range; holds the field.
    InvalidNumber(String),
    /// A placement field of other than eight ranks; holds how many.
    InsufficientRanks(usize),
    /// A placement character that is no piece letter, no empty-run digit,
    /// or does not fit on its rank.
    InvalidPiece(char),
}

/// A decimal digit.
pub open spec fn is_digit(c: char) -> bool {
    '0' as int <= c as int <= '9' as int
}

/// An empty-run digit of a placement rank.
pub open spec fn is_digit18(c: char) -> bool {
    '1' as int <= c as int <= '8' as int
}

/// A file letter of a square name.
pub open spec fn is_file_char(c: char) -> bool {
    'a' as int <= c as int <= 'h' as int
}

/// A rank digit of a square name.
pub open spec fn is_rank_char(c: char) -> bool {
    '1' as int <= c as int <= '8' as int
}

/// The digits of cs from i on, read onto acc; none past the largest value
/// a clock field can hold, and none where a character is no digit.
pub open spec fn dec_from(cs: Seq<char>, i: int, acc: int) -> Option<int>
    decreases cs.len() - i,
        when 0 <= i
{
    if i >= cs.len() {
        Some(acc)
    } else if !is_digit(cs[i]) {
        None
    } else {
        let a2 = acc * 10 + (cs[i] as int - '0' as int);
        if a2 > u32::MAX {
            None
        } else {
            dec_from(cs, i + 1, a2)
        }
    }
}

/// The value of an unsigned decimal field, with an optional leading plus
/// sign, as the standard library's number parsing reads it.
pub open spec fn dec_u32(cs: Seq<char>) -> Option<int> {
    if cs.len() == 0 {
        None
    } else if cs[0] == '+' {
        if cs.len() == 1 {
            None
        } else {
            dec_from(cs, 1, 0)
        }
    } else {
        dec_from(cs, 0, 0)
    }
}

/// Splitting from position i, with the part read so far and the parts
/// already taken.
pub open spec fn split_from(
    cs: Seq<char>,
    sep: char,
    i: int,
    cur: Seq<char>,
    acc: Seq<Seq<char>>,
) -> Seq<Seq<char>>
    decreases cs.len() - i,
        when 0 <= i
{
    if i >= cs.len() {
        acc.push(cur)
    } else if cs[i] == sep {
        split_from(cs, sep, i + 1, Seq::empty(), acc.push(cur))
    } else {
        split_from(cs, sep, i + 1, cur.push(cs[i]), acc)
    }
}

/// The parts of cs between occurrences of the separator; empty parts
/// count, so there is always one part more than there are separators.
pub open spec fn split_char(cs: Seq<char>, sep: char) -> Seq<Seq<char>> {
    split_from(cs, sep, 0, Seq::empty(), Seq::empty())
}

/// How many times c occurs in cs from position i on.
pub open spec fn count_from(cs: Seq<char>, c: char, i: int) -> int
    decreases cs.len() - i,
        when 0 <= i
{
    if i >= cs.len() {
        0
    } else {
        (if cs[i] == c {
            1int
        } else {
            0int
        }) + count_from(cs, c, i + 1)
    }
}

/// A split has one part more than there are separators left.
pub proof fn lemma_split_from_len(cs: Seq<char>, sep: char, i: int, cur: Seq<char>, acc: Seq<Seq<char>>)
    requires
        0 <= i,
    ensures
        split_from(cs, sep, i, cur, acc).len() == acc.len() + 1 + count_from(cs, sep, i),
    decreases cs.len() - i,
{
    if i < cs.len() {
        if cs[i] == sep {
            lemma_split_from_len(cs, sep, i + 1, Seq::empty(), acc.push(cur));
        } else {
            lemma_split_from_len(cs, sep, i + 1, cur.push(cs[i]), acc);
        }
    }
}

/// A count of occurrences is never negative.
pub proof fn lemma_count_nonneg(cs: Seq<char>, c: char, i: int)
    requires
        0 <= i,
    ensures
        count_from(cs, c, i) >= 0,
    decreases cs.len() - i,
{
    if i < cs.len() {
        lemma_count_nonneg(cs, c, i + 1);
    }
}

/// The piece a placement letter names, lower case for Black and upper
/// case for White.
pub open spec fn piece_of_char(c: char) -> Option<(Piece, Colour)> {
    if c == 'p' {
        Some((Piece::Pawn, Colour::Black))
    } else if c == 'P' {
        Some((Piece::Pawn, Colour::White))
    } else if c == 'r' {
        Some((Piece::Rook, Colour::Black))
    } else if c == 'R' {
        Some((Piece::Rook, Colour::White))
    } else if c == 'n' {
        Some((Piece::Knight, Colour::Black))
    } else if c == 'N' {
        Some((Piece::Knight, Colour::White))
    } else if c == 'b' {
        Some((Piece::Bishop, Colour::Black))
    } else if c == 'B' {
        Some((Piece::Bishop, Colour::White))
    } else if c == 'k' {
        Some((Piece::King, Colour::Black))
    } else if c == 'K' {
        Some((Piece::King, Colour::White))
    } else if c == 'q' {
        Some((Piece::Queen, Colour::Black))
    } else if c == 'Q' {
        Some((Piece::Queen, Colour::White))
    } else {
        None
    }
}

/// A file position capped where it has run off the rank: everything at or
/// past the edge behaves alike.
pub open spec fn capped(f: int) -> int {
    if f > 8 {
        8
    } else {
        f
    }
}

/// The board squares of 64 empty squares.
pub open spec fn empty64() -> Seq<Position> {
    Seq::new(64, |i: int| Position::Empty)
}

/// Reading a placement field from position i at (rank, file): `/` starts
/// the next rank, a digit skips that many squares, a piece letter fills
/// the square and moves on; a character that is neither, or a piece that
/// no longer fits its rank, is the error.
pub open spec fn place_from(
    s: Seq<Position>,
    cs: Seq<char>,
    i: int,
    rank: int,
    file: int,
) -> Result<Seq<Position>, char>
    decreases cs.len() - i,
        when 0 <= i
{
    if i >= cs.len() {
        Ok(s)
    } else {
        let c = cs[i];
        if c == '/' {
            place_from(s, cs, i + 1, rank + 1, 0)
        } else if is_digit18(c) {
            place_from(s, cs, i + 1, rank, capped(file + (c as int - '0' as int)))
        } else {
            match piece_of_char(c) {
                Some((p, col)) => if 0 <= rank < 8 && 0 <= file < 8 {
                    place_from(
                        sq_set(s, rank, file, Position::Occupied(p, col)),
                        cs,
                        i + 1,
                        rank,
                        file + 1,
                    )
                } else {
                    Err(c)
                },
                None => Err(c),
            }
        }
    }
}

/// A well-formed placement field: eight ranks whose characters all read.
pub open spec fn placement_ok(cs: Seq<char>) -> bool {
    count_from(cs, '/', 0) == 7 && place_from(empty64(), cs, 0, 0, 0) is Ok
}

/// A well-formed square name: a file letter then a rank digit.
pub open spec fn valid_square(cs: Seq<char>) -> bool {
    cs.len() == 2 && is_file_char(cs[0]) && is_rank_char(cs[1])
}

/// The rank a square name denotes; rank digit 8 is stored rank 0.
pub open spec fn square_rank(cs: Seq<char>) -> int {
    8 - (cs[1] as int - '0' as int)
}

/// The file a square name denotes.
pub open spec fn square_file(cs: Seq<char>) -> int {
    cs[0] as int - 'a' as int
}

/// The side a side-to-move field names.
pub open spec fn to_move_of(cs: Seq<char>) -> Option<Colour> {
    if cs.len() == 1 && cs[0] == 'w' {
        Some(Colour::White)
    } else if cs.len() == 1 && cs[0] == 'b' {
        Some(Colour::Black)
    } else {
        None
    }
}

/// Reading a castling-rights field from position i: each letter of `KQkq`
/// grants its right; anything else is the error.
pub open spec fn castle_flags_from(
    cs: Seq<char>,
    i: int,
    wk: bool,
    wq: bool,
    bk: bool,
    bq: bool,
) -> Result<(bool, bool, bool, bool), char>
    decreases cs.len() - i,
        when 0 <= i
{
    if i >= cs.len() {
        Ok((wk, wq, bk, bq))
    } else if cs[i] == 'K' {
        castle_flags_from(cs, i + 1, true, wq, bk, bq)
    } else if cs[i] == 'Q' {
        castle_flags_from(cs, i + 1, wk, true, bk, bq)
    } else if cs[i] == 'k' {
        castle_flags_from(cs, i + 1, wk, wq, true, bq)
    } else if cs[i] == 'q' {
        castle_flags_from(cs, i + 1, wk, wq, bk, true)
    } else {
        Err(cs[i])
    }
}

/// The rights a castling field grants: none for `-`, else one per letter.
pub open spec fn castle_flags(cs: Seq<char>) -> Result<(bool, bool, bool, bool), char> {
    if cs.len() == 1 && cs[0] == '-' {
        Ok((false, false, false, false))
    } else {
        castle_flags_from(cs, 0, false, false, false, false)
    }
}

/// A dash, standing for an absent en-passant target.
pub open spec fn ep_dash(cs: Seq<char>) -> bool {
    cs.len() == 1 && cs[0] == '-'
}

/// Reads a square name such as `e3`: the file letter then the rank digit,
/// each rejected on its own error.
pub fn parse_square(s: &str) -> (res: Result<(usize, usize), FenParseError>)
    ensures
        match res {
            Ok((r, f)) => valid_square(s@) && r < 8 && f < 8 && r == square_rank(s@) && f
                == square_file(s@),
            Err(e) => match e {
                FenParseError::InvalidSquareLen(n) => s@.len() != 2 && n == s@.len(),
                FenParseError::InvalidFile(c) => s@.len() == 2 && !is_file_char(s@[0]) && c
                    == s@[0],
                FenParseError::InvalidRank(c) => s@.len() == 2 && is_file_char(s@[0])
                    && !is_rank_char(s@[1]) && c == s@[1],
                _ => false,
            },
        },
{
    let n = s.unicode_len();
    if n != 2 {
        return Err(FenParseError::InvalidSquareLen(n));
    }
    let fc = s.get_char(0);
    let rc = s.get_char(1);
    let fu = fc as u32;
    let ru = rc as u32;
    if fu < 97 || fu > 104 {
        return Err(FenParseError::InvalidFile(fc));
    }
    if ru < 49 || ru > 56 {
        return Err(FenParseError::InvalidRank(rc));
    }
    Ok(((56 - ru) as usize, (fu - 97) as usize))
}

/// Reads a placement field into a board.
pub fn parse_position(s: &str) -> (res: Result<Board, FenParseError>)
    ensures
        match res {
            Ok(b) => count_from(s@, '/', 0) == 7 && place_from(empty64(), s@, 0, 0, 0)
                == Ok::<Seq<Position>, char>(b@),
            Err(e) => match e {
                FenParseError::InsufficientRanks(k) => count_from(s@, '/', 0) != 7 && k
                    == count_from(s@, '/', 0) + 1,
                FenParseError::InvalidPiece(c) => count_from(s@, '/', 0) == 7 && place_from(
                    empty64(),
                    s@,
                    0,
                    0,
                    0,
                ) == Err::<Seq<Position>, char>(c),
                _ => false,
            },
        },
{
    let n = s.unicode_len();
    let ranks = split_str(s, '/');
    proof {
        lemma_split_from_len(s@, '/', 0, Seq::empty(), Seq::empty());
        lemma_count_nonneg(s@, '/', 0);
    }
    if ranks.len() != 8 {
        return Err(FenParseError::InsufficientRanks(ranks.len()));
    }
    proof {
        assert(count_from(s@, '/', 0) == 7);
    }
    let mut board = Board::empty();
    let mut i: usize;
    proof {
        assert(board@ =~= empty64());
    }
    let ghost s0 = board@;
    let mut rank: usize = 0;
    let mut file: usize = 0;
    i = 0;
    proof {
        assert(count_from(s@, '/', 0) == 7 - rank);
    }
    while i < n
        invariant
            i <= n,
            n == s@.len(),
            rank <= 7,
            file <= 8,
            count_from(s@, '/', 0) == 7,
            count_from(s@, '/', i as int) == 7 - rank,
            place_from(s0, s@, 0, 0, 0) == place_from(board@, s@, i as int, rank as int,
                file as int),
            s0 == empty64(),
        decreases n - i,
    {
        let c = s.get_char(i);
        proof {
            lemma_count_nonneg(s@, '/', i as int + 1);
        }
        if c == '/' {
            rank = rank + 1;
            file = 0;
        } else {
            let cu = c as u32;
            if cu >= 49 && cu <= 56 {
                let d = (cu - 48) as usize;
                file = if file + d > 8 {
                    8
                } else {
                    file + d
                };
            } else {
                let pc = match c {
                    'p' => Some((Piece::Pawn, Colour::Black)),
                    'P' => Some((Piece::Pawn, Colour::White)),
                    'r' => Some((Piece::Rook, Colour::Black)),
                    'R' => Some((Piece::Rook, Colour::White)),
                    'n' => Some((Piece::Knight, Colour::Black)),
                    'N' => Some((Piece::Knight, Colour::White)),
                    'b' => Some((Piece::Bishop, Colour::Black)),
                    'B' => Some((Piece::Bishop, Colour::White)),
                    'k' => Some((Piece::King, Colour::Black)),
                    'K' => Some((Piece::King, Colour::White)),
                    'q' => Some((Piece::Queen, Colour::Black)),
                    'Q' => Some((Piece::Queen, Colour::White)),
                    _ => None,
                };
                proof {
                    assert(pc == piece_of_char(c));
                }
                match pc {
                    Some((p, col)) => {
                        if file < 8 {
                            board.set(rank, file, Position::Occupied(p, col));
                            file = file + 1;
                        } else {
                            proof {
                                assert(place_from(board@, s@, i as int, rank as int, file as int)
                                    == Err::<Seq<Position>, char>(c));
                                assert(place_from(empty64(), s@, 0, 0, 0) == Err::<
                                    Seq<Position>,
                                    char,
                                >(c));
                                assert(count_from(s@, '/', 0) == 7);
                            }
                            return Err(FenParseError::InvalidPiece(c));
                        }
                    },
                    None => {
                        proof {
                            assert(place_from(board@, s@, i as int, rank as int, file as int)
                                == Err::<Seq<Position>, char>(c));
                            assert(place_from(empty64(), s@, 0, 0, 0) == Err::<
                                Seq<Position>,
                                char,
                            >(c));
                            assert(count_from(s@, '/', 0) == 7);
                        }
                        return Err(FenParseError::InvalidPiece(c));
                    },
                }
            }
        }
        i += 1;
    }
    Ok(board)
}

/// Reads an unsigned decimal field, as a clock or move counter.
fn parse_u32(s: &str) -> (res: Option<u32>)
    ensures
        match res {
            Some(v) => dec_u32(s@) == Some(v as int),
            None => dec_u32(s@) is None,
        },
{
    let n = s.unicode_len();
    if n == 0 {
        return None;
    }
    let c0 = s.get_char(0);
    let start: usize = if c0 == '+' {
        if n == 1 {
            return None;
        }
        1
    } else {
        0
    };
    let mut acc: u32 = 0;
    let mut i: usize = start;
    while i < n
        invariant
            start <= i <= n,
            n == s@.len(),
            dec_u32(s@) == dec_from(s@, i as int, acc as int),
        decreases n - i,
    {
        let c = s.get_char(i);
        let cu = c as u32;
        if cu < 48 || cu > 57 {
            return None;
        }
        let a2 = acc as u64 * 10 + (cu - 48) as u64;
        if a2 > u32::MAX as u64 {
            return None;
        }
        acc = a2 as u32;
        i += 1;
    }
    Some(acc)
}

/// Splits a field list on a separator; empty fields count.
fn split_str(s: &str, sep: char) -> (parts: Vec<String>)
    ensures
        parts@.map_values(|p: String| p@) == split_char(s@, sep),
        parts@.len() >= 1,
{
    let n = s.unicode_len();
    let mut parts: Vec<String> = Vec::new();
    let mut cur = String::new();
    proof {
        assert(parts@.map_values(|p: String| p@) =~= Seq::<Seq<char>>::empty());
    }
    let mut i: usize = 0;
    while i < n
        invariant
            i <= n,
            n == s@.len(),
            split_char(s@, sep) == split_from(s@, sep, i as int, cur@, parts@.map_values(
                |p: String| p@,
            )),
        decreases n - i,
    {
        let ghost m0 = parts@.map_values(|p: String| p@);
        let ghost c0 = cur@;
        let c = s.get_char(i);
        if c == sep {
            parts.push(cur);
            cur = String::new();
            proof {
                assert(parts@.map_values(|p: String| p@) =~= m0.push(c0));
            }
        } else {
            push_char(&mut cur, c);
            proof {
                assert(cur@ =~= c0.push(c));
            }
        }
        i += 1;
    }
    let ghost m0 = parts@.map_values(|p: String| p@);
    let ghost c0 = cur@;
    parts.push(cur);
    proof {
        assert(parts@.map_values(|p: String| p@) =~= m0.push(c0));
    }
    parts
}

impl Fen {
    /// Reads a full FEN record: placement, side to move, castling rights,
    /// en-passant target, half-move clock and move counter, each field
    /// rejected with its own error, in field order.
    pub fn from_str(s: &str) -> (res: Result<Fen, FenParseError>)
        ensures
            ({
                let ps = split_char(s@, ' ');
                match res {
                    Ok(fen) => {
                        &&& ps.len() == 6
                        &&& count_from(ps[0], '/', 0) == 7
                        &&& place_from(empty64(), ps[0], 0, 0, 0) == Ok::<Seq<Position>, char>(
                            fen.board@,
                        )
                        &&& to_move_of(ps[1]) == Some(fen.to_move)
                        &&& castle_flags(ps[2]) == Ok::<(bool, bool, bool, bool), char>(
                            (
                                fen.white_king_castle,
                                fen.white_queen_castle,
                                fen.black_king_castle,
                                fen.black_queen_castle,
                            ),
                        )
                        &&& match fen.en_passant {
                            None => ep_dash(ps[3]),
                            Some((r, f)) => !ep_dash(ps[3]) && valid_square(ps[3]) && r < 8 && f
                                < 8 && r == square_rank(ps[3]) && f == square_file(ps[3]),
                        }
                        &&& dec_u32(ps[4]) == Some(fen.halfmove_clock as int)
                        &&& dec_u32(ps[5]) == Some(fen.move_cnt as int)
                    },
                    Err(e) => match e {
                        FenParseError::InsufficientParts(n) => ps.len() != 6 && n == ps.len(),
                        FenParseError::InsufficientRanks(k) => ps.len() == 6 && count_from(
                            ps[0],
                            '/',
                            0,
                        ) != 7 && k == count_from(ps[0], '/', 0) + 1,
                        FenParseError::InvalidPiece(c) => ps.len() == 6 && count_from(
                            ps[0],
                            '/',
                            0,
                        ) == 7 && place_from(empty64(), ps[0], 0, 0, 0) == Err::<
                            Seq<Position>,
                            char,
                        >(c),
                        FenParseError::InvalidToMove(t) => ps.len() == 6 && placement_ok(ps[0])
                            && to_move_of(ps[1]) is None && t@ == ps[1],
                        FenParseError::InvalidCastleCharacter(c) => ps.len() == 6 && placement_ok(
                            ps[0],
                        ) && to_move_of(ps[1]) is Some && castle_flags(ps[2]) == Err::<
                            (bool, bool, bool, bool),
                            char,
                        >(c),
                        FenParseError::InvalidSquareLen(n) => ps.len() == 6 && placement_ok(ps[0])
                            && to_move_of(ps[1]) is Some && castle_flags(ps[2]) is Ok && !ep_dash(
                            ps[3],
                        ) && ps[3].len() != 2 && n == ps[3].len(),
                        FenParseError::InvalidFile(c) => ps.len() == 6 && placement_ok(ps[0])
                            && to_move_of(ps[1]) is Some && castle_flags(ps[2]) is Ok && !ep_dash(
                            ps[3],
                        ) && ps[3].len() == 2 && !is_file_char(ps[3][0]) && c == ps[3][0],
                        FenParseError::InvalidRank(c) => ps.len() == 6 && placement_ok(ps[0])
                            && to_move_of(ps[1]) is Some && castle_flags(ps[2]) is Ok && !ep_dash(
                            ps[3],
                        ) && ps[3].len() == 2 && is_file_char(ps[3][0]) && !is_rank_char(ps[3][1])
                            && c == ps[3][1],
                        FenParseError::InvalidNumber(t) => ps.len() == 6 && placement_ok(ps[0])
                            && to_move_of(ps[1]) is Some && castle_flags(ps[2]) is Ok && (ep_dash(
                            ps[3],
                        ) || valid_square(ps[3])) && ((dec_u32(ps[4]) is None && t@ == ps[4]) || (
                        dec_u32(ps[4]) is Some && dec_u32(ps[5]) is None && t@ == ps[5])),
                    },
                }
            }),
    {
        let parts = split_str(s, ' ');
        if parts.len() != 6 {
            return Err(FenParseError::InsufficientParts(parts.len()));
        }
        let board = match parse_position(parts[0].as_str()) {
            Ok(b) => b,
            Err(e) => {
                return Err(e);
            },
        };

        let p1 = parts[1].as_str();
        let n1 = p1.unicode_len();
        let to_move = if n1 == 1 && p1.get_char(0) == 'w' {
            Colour::White
        } else if n1 == 1 && p1.get_char(0) == 'b' {
            Colour::Black
        } else {
            return Err(FenParseError::InvalidToMove(parts[1].clone()));
        };

        let mut white_king_castle = false;
        let mut white_queen_castle = false;
        let mut black_king_castle = false;
        let mut black_queen_castle = false;
        let p2 = parts[2].as_str();
        let n2 = p2.unicode_len();
        if !(n2 == 1 && p2.get_char(0) == '-') {
            let mut i: usize = 0;
            while i < n2
                invariant
                    i <= n2,
                    n2 == p2@.len(),
                    split_char(s@, ' ').len() == 6,
                    p2@ == split_char(s@, ' ')[2],
                    placement_ok(split_char(s@, ' ')[0]),
                    to_move_of(split_char(s@, ' ')[1]) is Some,
                    !(p2@.len() == 1 && p2@[0] == '-'),
                    castle_flags_from(p2@, 0, false, false, false, false) == castle_flags_from(
                        p2@,
                        i as int,
                        white_king_castle,
                        white_queen_castle,
                        black_king_castle,
                        black_queen_castle,
                    ),
                decreases n2 - i,
            {
                let c = p2.get_char(i);
                if c == 'K' {
                    white_king_castle = true;
                } else if c == 'Q' {
                    white_queen_castle = true;
                } else if c == 'k' {
                    black_king_castle = true;
                } else if c == 'q' {
                    black_queen_castle = true;
                } else {
                    proof {
                        assert(castle_flags_from(
                            p2@,
                            i as int,
                            white_king_castle,
                            white_queen_castle,
                            black_king_castle,
                            black_queen_castle,
                        ) == Err::<(bool, bool, bool, bool), char>(c));
                    }
                    return Err(FenParseError::InvalidCastleCharacter(c));
                }
                i += 1;
            }
        }

        let p3 = parts[3].as_str();
        let n3 = p3.unicode_len();
        let en_passant = if n3 == 1 && p3.get_char(0) == '-' {
            None
        } else {
            match parse_square(p3) {
                Ok(sq) => Some(sq),
                Err(e) => {
                    return Err(e);
                },
            }
        };

        let halfmove_clock = match parse_u32(parts[4].as_str()) {
            Some(v) => v,
            None => {
                return Err(FenParseError::InvalidNumber(parts[4].clone()));
            },
        };

        let move_cnt = match parse_u32(parts[5].as_str()) {
            Some(v) => v,
            None => {
                return Err(FenParseError::InvalidNumber(parts[5].clone()));
            },
        };

        Ok(
            Fen {
                board,
                to_move,
                white_king_castle,
                white_queen_castle,
                black_king_castle,
                black_queen_castle,
                en_passant,
                halfmove_clock,
                move_cnt,
            },
        )
    }
}

} // verus!
