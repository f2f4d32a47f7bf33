//! The board: an 8x8 grid of squares, pure move application and undo, and
//! check counting by ray and offset scans.

use vstd::prelude::*;
use crate::pieces::{Colour, Piece, Position};
use crate::moves::{CapturedPiece, Move};

verus! {

/// Whether (r, f) is a square of the board.
pub open spec fn in_bounds(r: int, f: int) -> bool {
    0 <= r < 8 && 0 <= f < 8
}

/// The index of square (r, f) in the row-major board array.
pub open spec fn sq_idx(r: int, f: int) -> int {
    r * 8 + f
}

/// The state of square (r, f).
pub open spec fn sq_at(s: Seq<Position>, r: int, f: int) -> Position {
    s[sq_idx(r, f)]
}

/// The board with square (r, f) replaced.
pub open spec fn sq_set(s: Seq<Position>, r: int, f: int, p: Position) -> Seq<Position> {
    s.update(sq_idx(r, f), p)
}

/// Whether a square lets sliding pieces pass: empty squares do, and so do
/// picked squares, so that a piece lifted mid-drag does not block the line
/// it stands on.
pub open spec fn is_clear(p: Position) -> bool {
    p is Empty || p is Picked
}

/// The 8x8 board, stored row-major: rank 0 (Black's back rank, as in FEN)
/// first.
#[derive(Clone, Copy, Debug)]
pub struct Board(pub [Position; 64]);

impl View for Board {
    type V = Seq<Position>;

    open spec fn view(&self) -> Seq<Position> {
        self.0@
    }
}

impl Board {
    /// A board of 64 empty squares.
    pub fn empty() -> (b: Board)
        ensures
            forall|i: int| 0 <= i < 64 ==> b@[i] is Empty,
            forall|r: int, f: int| in_bounds(r, f) ==> sq_at(b@, r, f) is Empty,
    {
        Board([Position::Empty; 64])
    }

    /// The state of square (rank, file).
    pub fn at(&self, rank: usize, file: usize) -> (p: Position)
        requires
            rank < 8,
            file < 8,
        ensures
            p == sq_at(self@, rank as int, file as int),
    {
        self.0[rank * 8 + file]
    }

    /// Replaces square (rank, file).
    pub fn set(&mut self, rank: usize, file: usize, p: Position)
        requires
            rank < 8,
            file < 8,
        ensures
            final(self)@ == sq_set(old(self)@, rank as int, file as int, p),
    {
        self.0[rank * 8 + file] = p;
    }
}

/// All squares a move names are on the board.
pub open spec fn move_in_bounds(m: Move) -> bool {
    &&& m.from_rank < 8 && m.from_file < 8
    &&& m.to_rank < 8 && m.to_file < 8
    &&& match m.capture {
        Some(cap) => cap.rank < 8 && cap.file < 8,
        None => true,
    }
}

/// The back rank of a colour, where its king starts and castling happens.
pub open spec fn castle_rank(c: Colour) -> int {
    if c is White {
        7
    } else {
        0
    }
}

/// Whether a move is the kingside castle of its colour: the king moving
/// from its home square two files toward the corner.
pub open spec fn is_ks_castle(m: Move) -> bool {
    &&& m.piece is King
    &&& m.from_rank == castle_rank(m.colour) && m.from_file == 4
    &&& m.to_rank == castle_rank(m.colour) && m.to_file == 6
}

/// Whether a move is the queenside castle of its colour.
pub open spec fn is_qs_castle(m: Move) -> bool {
    &&& m.piece is King
    &&& m.from_rank == castle_rank(m.colour) && m.from_file == 4
    &&& m.to_rank == castle_rank(m.colour) && m.to_file == 2
}

/// What the destination square holds after the move: the chosen promotion
/// if one is set, else the moved piece.
pub open spec fn move_placed(m: Move) -> Position {
    match m.promotion {
        Some(pc) => Position::Occupied(pc.piece, pc.colour),
        None => Position::Occupied(m.piece, m.colour),
    }
}

/// The board after a move: source cleared, captured square (if any)
/// cleared, destination set to the moved or promoted piece, and for the
/// four canonical castling moves the rook relocated as well.
pub open spec fn board_apply_move(s: Seq<Position>, m: Move) -> Seq<Position> {
    let cr = castle_rank(m.colour);
    let s1 = sq_set(s, m.from_rank as int, m.from_file as int, Position::Empty);
    let s2 = match m.capture {
        Some(cap) => sq_set(s1, cap.rank as int, cap.file as int, Position::Empty),
        None => s1,
    };
    let s3 = sq_set(s2, m.to_rank as int, m.to_file as int, move_placed(m));
    if is_ks_castle(m) {
        sq_set(sq_set(s3, cr, 7, Position::Empty), cr, 5, Position::Occupied(Piece::Rook, m.colour))
    } else if is_qs_castle(m) {
        sq_set(sq_set(s3, cr, 0, Position::Empty), cr, 3, Position::Occupied(Piece::Rook, m.colour))
    } else {
        s3
    }
}

/// The board before a move: destination cleared, captured piece restored
/// at its own square, the moved piece restored at the source, and for the
/// four canonical castling moves the rook moved back to its corner.
pub open spec fn board_unapply_move(s: Seq<Position>, m: Move) -> Seq<Position> {
    let cr = castle_rank(m.colour);
    let s1 = sq_set(s, m.to_rank as int, m.to_file as int, Position::Empty);
    let s2 = match m.capture {
        Some(cap) => sq_set(
            s1,
            cap.rank as int,
            cap.file as int,
            Position::Occupied(cap.piece, cap.colour),
        ),
        None => s1,
    };
    let s3 = sq_set(
        s2,
        m.from_rank as int,
        m.from_file as int,
        Position::Occupied(m.piece, m.colour),
    );
    if is_ks_castle(m) {
        sq_set(sq_set(s3, cr, 5, Position::Empty), cr, 7, Position::Occupied(Piece::Rook, m.colour))
    } else if is_qs_castle(m) {
        sq_set(sq_set(s3, cr, 3, Position::Empty), cr, 0, Position::Occupied(Piece::Rook, m.colour))
    } else {
        s3
    }
}

impl Board {
    /// Applies a move, without validating its legality: that is the
    /// caller's job.
    pub fn apply_move(&self, mov: Move) -> (b: Board)
        requires
            move_in_bounds(mov),
        ensures
            b@ == board_apply_move(self@, mov),
    {
        let mut board = *self;
        board.set(mov.from_rank, mov.from_file, Position::Empty);
        if let Some(cap) = mov.capture {
            board.set(cap.rank, cap.file, Position::Empty);
        }
        let placed = match mov.promotion {
            Some(pc) => Position::Occupied(pc.piece, pc.colour),
            None => Position::Occupied(mov.piece, mov.colour),
        };
        board.set(mov.to_rank, mov.to_file, placed);
        if mov.piece == Piece::King && mov.from_file == 4 {
            if mov.colour == Colour::White && mov.from_rank == 7 && mov.to_rank == 7 {
                if mov.to_file == 6 {
                    board.set(7, 7, Position::Empty);
                    board.set(7, 5, Position::Occupied(Piece::Rook, Colour::White));
                } else if mov.to_file == 2 {
                    board.set(7, 0, Position::Empty);
                    board.set(7, 3, Position::Occupied(Piece::Rook, Colour::White));
                }
            } else if mov.colour == Colour::Black && mov.from_rank == 0 && mov.to_rank == 0 {
                if mov.to_file == 6 {
                    board.set(0, 7, Position::Empty);
                    board.set(0, 5, Position::Occupied(Piece::Rook, Colour::Black));
                } else if mov.to_file == 2 {
                    board.set(0, 0, Position::Empty);
                    board.set(0, 3, Position::Occupied(Piece::Rook, Colour::Black));
                }
            }
        }
        board
    }

    /// The exact inverse of `apply_move` on the boards it fits (see
    /// `lemma_move_round_trip`).
    pub fn unapply_move(&self, mov: Move) -> (b: Board)
        requires
            move_in_bounds(mov),
        ensures
            b@ == board_unapply_move(self@, mov),
    {
        let mut board = *self;
        board.set(mov.to_rank, mov.to_file, Position::Empty);
        if let Some(cap) = mov.capture {
            board.set(cap.rank, cap.file, Position::Occupied(cap.piece, cap.colour));
        }
        board.set(mov.from_rank, mov.from_file, Position::Occupied(mov.piece, mov.colour));
        if mov.piece == Piece::King && mov.from_file == 4 {
            if mov.colour == Colour::White && mov.from_rank == 7 && mov.to_rank == 7 {
                if mov.to_file == 6 {
                    board.set(7, 5, Position::Empty);
                    board.set(7, 7, Position::Occupied(Piece::Rook, Colour::White));
                } else if mov.to_file == 2 {
                    board.set(7, 3, Position::Empty);
                    board.set(7, 0, Position::Occupied(Piece::Rook, Colour::White));
                }
            } else if mov.colour == Colour::Black && mov.from_rank == 0 && mov.to_rank == 0 {
                if mov.to_file == 6 {
                    board.set(0, 5, Position::Empty);
                    board.set(0, 7, Position::Occupied(Piece::Rook, Colour::Black));
                } else if mov.to_file == 2 {
                    board.set(0, 3, Position::Empty);
                    board.set(0, 0, Position::Occupied(Piece::Rook, Colour::Black));
                }
            }
        }
        board
    }
}

/// How many steps fit on the board from coordinate x in direction d before
/// the edge.
pub open spec fn steps_to_edge(x: int, d: int) -> int {
    if d > 0 {
        7 - x
    } else if d < 0 {
        x
    } else {
        0
    }
}

/// The first occupied square along the ray from (r, f) in direction
/// (dr, df), excluding (r, f) itself; picked and empty squares are passed
/// over.
pub open spec fn ray_attacker(
    s: Seq<Position>,
    r: int,
    f: int,
    dr: int,
    df: int,
) -> Option<(Piece, Colour)>
    decreases steps_to_edge(r, dr) + steps_to_edge(f, df),
        when in_bounds(r, f) && -1 <= dr <= 1 && -1 <= df <= 1 && !(dr == 0 && df == 0)
{
    if !in_bounds(r + dr, f + df) {
        None
    } else {
        match sq_at(s, r + dr, f + df) {
            Position::Occupied(p, c) => Some((p, c)),
            _ => ray_attacker(s, r + dr, f + df, dr, df),
        }
    }
}

/// Whether square (r, f) holds exactly the given occupied piece; false off
/// the board.
pub open spec fn occ_is(s: Seq<Position>, r: int, f: int, piece: Piece, colour: Colour) -> bool {
    in_bounds(r, f) && sq_at(s, r, f) == Position::Occupied(piece, colour)
}

/// 1 when the ray hit is one of the two given piece kinds of the attacking
/// colour, else 0.
pub open spec fn ray_gives(hit: Option<(Piece, Colour)>, p1: Piece, p2: Piece, att: Colour) -> int {
    match hit {
        Some((p, c)) => if c == att && (p == p1 || p == p2) {
            1int
        } else {
            0int
        },
        None => 0int,
    }
}

/// The number of knights of the attacking colour a knight's jump away from
/// (r, f).
pub open spec fn knight_attacks(s: Seq<Position>, r: int, f: int, att: Colour) -> int {
    (if occ_is(s, r - 2, f - 1, Piece::Knight, att) { 1int } else { 0int })
        + (if occ_is(s, r - 2, f + 1, Piece::Knight, att) { 1int } else { 0int })
        + (if occ_is(s, r + 2, f - 1, Piece::Knight, att) { 1int } else { 0int })
        + (if occ_is(s, r + 2, f + 1, Piece::Knight, att) { 1int } else { 0int })
        + (if occ_is(s, r - 1, f - 2, Piece::Knight, att) { 1int } else { 0int })
        + (if occ_is(s, r - 1, f + 2, Piece::Knight, att) { 1int } else { 0int })
        + (if occ_is(s, r + 1, f - 2, Piece::Knight, att) { 1int } else { 0int })
        + (if occ_is(s, r + 1, f + 2, Piece::Knight, att) { 1int } else { 0int })
}

/// The number of rooks or queens of the attacking colour first met along
/// the four orthogonal rays from (r, f).
pub open spec fn line_attacks(s: Seq<Position>, r: int, f: int, att: Colour) -> int {
    ray_gives(ray_attacker(s, r, f, -1, 0), Piece::Rook, Piece::Queen, att)
        + ray_gives(ray_attacker(s, r, f, 1, 0), Piece::Rook, Piece::Queen, att)
        + ray_gives(ray_attacker(s, r, f, 0, -1), Piece::Rook, Piece::Queen, att)
        + ray_gives(ray_attacker(s, r, f, 0, 1), Piece::Rook, Piece::Queen, att)
}

/// The number of bishops or queens of the attacking colour first met along
/// the four diagonal rays from (r, f).
pub open spec fn diag_attacks(s: Seq<Position>, r: int, f: int, att: Colour) -> int {
    ray_gives(ray_attacker(s, r, f, -1, -1), Piece::Bishop, Piece::Queen, att)
        + ray_gives(ray_attacker(s, r, f, 1, 1), Piece::Bishop, Piece::Queen, att)
        + ray_gives(ray_attacker(s, r, f, -1, 1), Piece::Bishop, Piece::Queen, att)
        + ray_gives(ray_attacker(s, r, f, 1, -1), Piece::Bishop, Piece::Queen, att)
}

/// The number of enemy pawns on the two squares from which a pawn attacks
/// (r, f): one rank toward the enemy side, one file to either side.
pub open spec fn pawn_attacks(s: Seq<Position>, r: int, f: int, colour: Colour) -> int {
    let att = colour.opposite();
    if colour is Black {
        (if occ_is(s, r + 1, f - 1, Piece::Pawn, att) { 1int } else { 0int })
            + (if occ_is(s, r + 1, f + 1, Piece::Pawn, att) { 1int } else { 0int })
    } else {
        (if occ_is(s, r - 1, f - 1, Piece::Pawn, att) { 1int } else { 0int })
            + (if occ_is(s, r - 1, f + 1, Piece::Pawn, att) { 1int } else { 0int })
    }
}

/// How many enemy pieces attack square (r, f), for a king of the given
/// colour standing there: knight jumps, orthogonal and diagonal rays
/// (stopping at the first occupied, non-picked square), and pawn captures.
pub open spec fn attack_count(s: Seq<Position>, r: int, f: int, colour: Colour) -> int {
    knight_attacks(s, r, f, colour.opposite()) + line_attacks(s, r, f, colour.opposite())
        + diag_attacks(s, r, f, colour.opposite()) + pawn_attacks(s, r, f, colour)
}

/// The highest index up to hi holding the occupied king of the given
/// colour; picked kings do not count here.
pub open spec fn king_idx_upto(s: Seq<Position>, hi: int, colour: Colour) -> Option<int>
    decreases hi + 1,
        when hi < s.len()
{
    if hi < 0 {
        None
    } else if s[hi] == Position::Occupied(Piece::King, colour) {
        Some(hi)
    } else {
        king_idx_upto(s, hi - 1, colour)
    }
}

/// The square of the occupied king of a colour, as a row-major index, when
/// the board holds one.
pub open spec fn king_idx(s: Seq<Position>, colour: Colour) -> Option<int> {
    king_idx_upto(s, 63, colour)
}

/// How many enemy pieces check the king of the given colour; 0 when no
/// occupied king of that colour stands on the board.
pub open spec fn side_check_cnt(s: Seq<Position>, colour: Colour) -> int {
    match king_idx(s, colour) {
        Some(i) => attack_count(s, i / 8, i % 8, colour),
        None => 0,
    }
}

/// Whether a square holds the king of a colour, occupied or picked.
pub open spec fn is_king_sq(p: Position, colour: Colour) -> bool {
    p == Position::Occupied(Piece::King, colour) || p == Position::Picked(Piece::King, colour)
}

/// The lowest row-major index from i upward holding the king of the given
/// colour, occupied or picked.
pub open spec fn king_pos_from(s: Seq<Position>, i: int, colour: Colour) -> Option<int>
    decreases 64 - i,
        when 0 <= i
{
    if i >= 64 {
        None
    } else if is_king_sq(s[i], colour) {
        Some(i)
    } else {
        king_pos_from(s, i + 1, colour)
    }
}

/// Whether a king of the given colour, occupied or picked, stands on the
/// board.
pub open spec fn has_king(s: Seq<Position>, colour: Colour) -> bool {
    king_pos_from(s, 0, colour) is Some
}

/// A square with its picked piece set back down; other squares unchanged.
pub open spec fn unpick_sq(p: Position) -> Position {
    match p {
        Position::Picked(pc, c) => Position::Occupied(pc, c),
        other => other,
    }
}

/// The board with every picked piece set back down.
pub open spec fn board_unpick(s: Seq<Position>) -> Seq<Position> {
    Seq::new(s.len(), |i: int| unpick_sq(s[i]))
}

/// A board with no square in the picked state.
pub open spec fn no_picked(s: Seq<Position>) -> bool {
    forall|i: int| 0 <= i < s.len() ==> !((#[trigger] s[i]) is Picked)
}

/// Setting pieces down changes nothing on a board with no picked square.
pub proof fn lemma_unpick_identity(s: Seq<Position>)
    requires
        no_picked(s),
    ensures
        board_unpick(s) == s,
{
    assert(board_unpick(s) =~= s);
}

/// Applying a move puts only empty or occupied squares down: a board with
/// no picked square keeps that.
pub proof fn lemma_apply_keeps_no_picked(s: Seq<Position>, m: Move)
    requires
        s.len() == 64,
        move_in_bounds(m),
        no_picked(s),
    ensures
        no_picked(board_apply_move(s, m)),
{
    let s2 = board_apply_move(s, m);
    assert forall|i: int| 0 <= i < s2.len() implies !((#[trigger] s2[i]) is Picked) by {
        if 0 <= i < s.len() {
            assert(!(s[i] is Picked));
        }
    }
}

/// The check counts of the two kings.
#[derive(Clone, Copy, PartialEq, Eq, Structural, Debug)]
pub struct KingCheckCnt {
    pub white: usize,
    pub black: usize,
}

impl KingCheckCnt {
    /// The count of the given side.
    pub open spec fn check_cnt_spec(&self, colour: Colour) -> usize {
        match colour {
            Colour::White => self.white,
            Colour::Black => self.black,
        }
    }

    #[verifier::when_used_as_spec(check_cnt_spec)]
    pub fn check_cnt(&self, colour: Colour) -> (n: usize)
        ensures
            n == self.check_cnt_spec(colour),
    {
        match colour {
            Colour::White => self.white,
            Colour::Black => self.black,
        }
    }
}

impl Board {
    /// Whether the square one offset away from (rank, file) holds exactly
    /// the given occupied piece; false off the board.
    fn offset_is(&self, rank: usize, file: usize, dr: i64, df: i64, piece: Piece, colour: Colour)
        -> (b: bool)
        requires
            rank < 8,
            file < 8,
            -2 <= dr <= 2,
            -2 <= df <= 2,
        ensures
            b == occ_is(self@, rank + dr, file + df, piece, colour),
    {
        let nr = rank as i64 + dr;
        let nf = file as i64 + df;
        if nr < 0 || nr >= 8 || nf < 0 || nf >= 8 {
            false
        } else {
            match self.at(nr as usize, nf as usize) {
                Position::Occupied(p, c) => p == piece && c == colour,
                _ => false,
            }
        }
    }

    /// The first occupied square along the ray from (rank, file) in
    /// direction (dr, df).
    fn ray_hit(&self, rank: usize, file: usize, dr: i64, df: i64) -> (hit: Option<(Piece, Colour)>)
        requires
            rank < 8,
            file < 8,
            -1 <= dr <= 1,
            -1 <= df <= 1,
            !(dr == 0 && df == 0),
        ensures
            hit == ray_attacker(self@, rank as int, file as int, dr as int, df as int),
        decreases steps_to_edge(rank as int, dr as int) + steps_to_edge(file as int, df as int),
    {
        let nr = rank as i64 + dr;
        let nf = file as i64 + df;
        if nr < 0 || nr >= 8 || nf < 0 || nf >= 8 {
            None
        } else {
            match self.at(nr as usize, nf as usize) {
                Position::Occupied(p, c) => Some((p, c)),
                _ => self.ray_hit(nr as usize, nf as usize, dr, df),
            }
        }
    }

    /// 1 when the ray from (rank, file) in direction (dr, df) first meets
    /// one of the two given piece kinds of the attacking colour, else 0.
    fn ray_counts(&self, rank: usize, file: usize, dr: i64, df: i64, p1: Piece, p2: Piece,
        att: Colour) -> (n: usize)
        requires
            rank < 8,
            file < 8,
            -1 <= dr <= 1,
            -1 <= df <= 1,
            !(dr == 0 && df == 0),
        ensures
            n == ray_gives(
                ray_attacker(self@, rank as int, file as int, dr as int, df as int),
                p1,
                p2,
                att,
            ),
    {
        match self.ray_hit(rank, file, dr, df) {
            Some((p, c)) => if c == att && (p == p1 || p == p2) {
                1
            } else {
                0
            },
            None => 0,
        }
    }

    /// The knight contribution to the attack count of (rank, file).
    fn count_knight_attacks(&self, rank: usize, file: usize, att: Colour) -> (cnt: usize)
        requires
            rank < 8,
            file < 8,
        ensures
            cnt == knight_attacks(self@, rank as int, file as int, att),
            cnt <= 8,
    {
        let mut cnt: usize = 0;
        if self.offset_is(rank, file, -2, -1, Piece::Knight, att) {
            cnt += 1;
        }
        if self.offset_is(rank, file, -2, 1, Piece::Knight, att) {
            cnt += 1;
        }
        if self.offset_is(rank, file, 2, -1, Piece::Knight, att) {
            cnt += 1;
        }
        if self.offset_is(rank, file, 2, 1, Piece::Knight, att) {
            cnt += 1;
        }
        if self.offset_is(rank, file, -1, -2, Piece::Knight, att) {
            cnt += 1;
        }
        if self.offset_is(rank, file, -1, 2, Piece::Knight, att) {
            cnt += 1;
        }
        if self.offset_is(rank, file, 1, -2, Piece::Knight, att) {
            cnt += 1;
        }
        if self.offset_is(rank, file, 1, 2, Piece::Knight, att) {
            cnt += 1;
        }
        cnt
    }

    /// The rook and queen contribution to the attack count of (rank, file).
    fn count_line_attacks(&self, rank: usize, file: usize, att: Colour) -> (cnt: usize)
        requires
            rank < 8,
            file < 8,
        ensures
            cnt == line_attacks(self@, rank as int, file as int, att),
            cnt <= 4,
    {
        let mut cnt: usize = 0;
        cnt += self.ray_counts(rank, file, -1, 0, Piece::Rook, Piece::Queen, att);
        cnt += self.ray_counts(rank, file, 1, 0, Piece::Rook, Piece::Queen, att);
        cnt += self.ray_counts(rank, file, 0, -1, Piece::Rook, Piece::Queen, att);
        cnt += self.ray_counts(rank, file, 0, 1, Piece::Rook, Piece::Queen, att);
        cnt
    }

    /// The bishop and queen contribution to the attack count of (rank,
    /// file).
    fn count_diag_attacks(&self, rank: usize, file: usize, att: Colour) -> (cnt: usize)
        requires
            rank < 8,
            file < 8,
        ensures
            cnt == diag_attacks(self@, rank as int, file as int, att),
            cnt <= 4,
    {
        let mut cnt: usize = 0;
        cnt += self.ray_counts(rank, file, -1, -1, Piece::Bishop, Piece::Queen, att);
        cnt += self.ray_counts(rank, file, 1, 1, Piece::Bishop, Piece::Queen, att);
        cnt += self.ray_counts(rank, file, -1, 1, Piece::Bishop, Piece::Queen, att);
        cnt += self.ray_counts(rank, file, 1, -1, Piece::Bishop, Piece::Queen, att);
        cnt
    }

    /// The pawn contribution to the attack count of (rank, file).
    fn count_pawn_attacks(&self, rank: usize, file: usize, colour: Colour) -> (cnt: usize)
        requires
            rank < 8,
            file < 8,
        ensures
            cnt == pawn_attacks(self@, rank as int, file as int, colour),
            cnt <= 2,
    {
        let att = colour.opposite();
        let mut cnt: usize = 0;
        if colour == Colour::Black {
            if self.offset_is(rank, file, 1, -1, Piece::Pawn, att) {
                cnt += 1;
            }
            if self.offset_is(rank, file, 1, 1, Piece::Pawn, att) {
                cnt += 1;
            }
        } else {
            if self.offset_is(rank, file, -1, -1, Piece::Pawn, att) {
                cnt += 1;
            }
            if self.offset_is(rank, file, -1, 1, Piece::Pawn, att) {
                cnt += 1;
            }
        }
        cnt
    }

    /// How many enemy pieces attack (rank, file), for a king of the given
    /// colour standing there.
    pub fn king_check_cnt_colour(&self, rank: usize, file: usize, colour: Colour) -> (cnt: usize)
        requires
            rank < 8,
            file < 8,
        ensures
            cnt == attack_count(self@, rank as int, file as int, colour),
    {
        let att = colour.opposite();
        let knights = self.count_knight_attacks(rank, file, att);
        let lines = self.count_line_attacks(rank, file, att);
        let diags = self.count_diag_attacks(rank, file, att);
        let pawns = self.count_pawn_attacks(rank, file, colour);
        knights + lines + diags + pawns
    }

    /// The check counts of both kings; a side with no occupied king counts
    /// 0.
    pub fn king_check_cnt(&self) -> (kic: KingCheckCnt)
        ensures
            kic.white == side_check_cnt(self@, Colour::White),
            kic.black == side_check_cnt(self@, Colour::Black),
    {
        let mut white: usize = 0;
        let mut black: usize = 0;
        let mut rank: usize = 0;
        while rank < 8
            invariant
                rank <= 8,
                white == match king_idx_upto(self@, rank * 8 - 1, Colour::White) {
                    Some(i) => attack_count(self@, i / 8, i % 8, Colour::White),
                    None => 0,
                },
                black == match king_idx_upto(self@, rank * 8 - 1, Colour::Black) {
                    Some(i) => attack_count(self@, i / 8, i % 8, Colour::Black),
                    None => 0,
                },
            decreases 8 - rank,
        {
            let mut file: usize = 0;
            while file < 8
                invariant
                    rank < 8,
                    file <= 8,
                    white == match king_idx_upto(self@, rank * 8 + file - 1, Colour::White) {
                        Some(i) => attack_count(self@, i / 8, i % 8, Colour::White),
                        None => 0,
                    },
                    black == match king_idx_upto(self@, rank * 8 + file - 1, Colour::Black) {
                        Some(i) => attack_count(self@, i / 8, i % 8, Colour::Black),
                        None => 0,
                    },
                decreases 8 - file,
            {
                let pos = self.at(rank, file);
                proof {
                    assert((rank * 8 + file) / 8 == rank as int && (rank * 8 + file) % 8
                        == file as int) by (nonlinear_arith)
                        requires rank < 8 && file < 8;
                }
                if pos == Position::Occupied(Piece::King, Colour::White) {
                    white = self.king_check_cnt_colour(rank, file, Colour::White);
                } else if pos == Position::Occupied(Piece::King, Colour::Black) {
                    black = self.king_check_cnt_colour(rank, file, Colour::Black);
                }
                file += 1;
            }
            rank += 1;
        }
        KingCheckCnt { white, black }
    }

    /// The square of the king of the given colour, occupied or picked,
    /// lowest rank first.  The board must hold one: a board reached from a
    /// position with both kings always does.
    pub fn king_position(&self, colour: Colour) -> (rf: (usize, usize))
        requires
            has_king(self@, colour),
        ensures
            rf.0 < 8 && rf.1 < 8,
            king_pos_from(self@, 0, colour) == Some(sq_idx(rf.0 as int, rf.1 as int)),
    {
        let mut rank: usize = 0;
        while rank < 8
            invariant
                rank <= 8,
                king_pos_from(self@, 0, colour) == king_pos_from(self@, rank * 8, colour),
                has_king(self@, colour),
            decreases 8 - rank,
        {
            let mut file: usize = 0;
            while file < 8
                invariant
                    rank < 8,
                    file <= 8,
                    king_pos_from(self@, 0, colour) == king_pos_from(
                        self@,
                        rank * 8 + file,
                        colour,
                    ),
                    has_king(self@, colour),
                decreases 8 - file,
            {
                let pos = self.at(rank, file);
                let found = match pos {
                    Position::Occupied(pc, c) => pc == Piece::King && c == colour,
                    Position::Picked(pc, c) => pc == Piece::King && c == colour,
                    Position::Empty => false,
                };
                if found {
                    return (rank, file);
                }
                file += 1;
            }
            rank += 1;
        }
        proof {
            assert(false);
        }
        (0, 0)
    }

    /// Sets every picked piece back down as occupied.
    pub fn unpick_pieces(&mut self)
        ensures
            final(self)@ == board_unpick(old(self)@),
    {
        let mut i: usize = 0;
        while i < 64
            invariant
                i <= 64,
                self@.len() == 64,
                forall|j: int| 0 <= j < i ==> self@[j] == unpick_sq(old(self)@[j]),
                forall|j: int| i <= j < 64 ==> self@[j] == old(self)@[j],
            decreases 64 - i,
        {
            let p = self.0[i];
            if let Position::Picked(pc, c) = p {
                self.0[i] = Position::Occupied(pc, c);
            }
            i += 1;
        }
        proof {
            assert(self@ =~= board_unpick(old(self)@));
        }
    }
}

/// A move whose record agrees with the board it is applied to: the moved
/// piece stands on the source square, the captured piece (if any) on its
/// recorded square, the destination is otherwise empty, and a castling
/// move finds its rook in the corner with the passed square free.  Every
/// move that move generation returns for a board without picked squares
/// satisfies this.
pub open spec fn move_fits_board(s: Seq<Position>, m: Move) -> bool {
    &&& move_in_bounds(m)
    &&& sq_at(s, m.from_rank as int, m.from_file as int) == Position::Occupied(m.piece, m.colour)
    &&& !(m.from_rank == m.to_rank && m.from_file == m.to_file)
    &&& match m.capture {
        Some(cap) => {
            &&& sq_at(s, cap.rank as int, cap.file as int) == Position::Occupied(
                cap.piece,
                cap.colour,
            )
            &&& !(cap.rank == m.from_rank && cap.file == m.from_file)
            &&& (!(cap.rank == m.to_rank && cap.file == m.to_file) ==> sq_at(
                s,
                m.to_rank as int,
                m.to_file as int,
            ) is Empty)
        },
        None => sq_at(s, m.to_rank as int, m.to_file as int) is Empty,
    }
    &&& is_ks_castle(m) ==> {
        &&& m.capture is None
        &&& sq_at(s, castle_rank(m.colour), 7) == Position::Occupied(Piece::Rook, m.colour)
        &&& sq_at(s, castle_rank(m.colour), 5) is Empty
    }
    &&& is_qs_castle(m) ==> {
        &&& m.capture is None
        &&& sq_at(s, castle_rank(m.colour), 0) == Position::Occupied(Piece::Rook, m.colour)
        &&& sq_at(s, castle_rank(m.colour), 3) is Empty
    }
}

/// Whether (nr, nf) is reached from (r, f) by one or more steps in
/// direction (dr, df), every square strictly between the two passed over
/// as clear.  The destination square itself may hold anything.
pub open spec fn ray_path_clear(
    s: Seq<Position>,
    r: int,
    f: int,
    nr: int,
    nf: int,
    dr: int,
    df: int,
) -> bool
    decreases steps_to_edge(r, dr) + steps_to_edge(f, df),
        when in_bounds(r, f) && -1 <= dr <= 1 && -1 <= df <= 1 && !(dr == 0 && df == 0)
{
    if !in_bounds(r + dr, f + df) {
        false
    } else if nr == r + dr && nf == f + df {
        true
    } else {
        is_clear(sq_at(s, r + dr, f + df)) && ray_path_clear(s, r + dr, f + df, nr, nf, dr, df)
    }
}

/// A ray leads strictly away from its origin: any square it reaches lies
/// on the board, further along the direction than the origin.
pub proof fn lemma_ray_path_monotone(
    s: Seq<Position>,
    r: int,
    f: int,
    nr: int,
    nf: int,
    dr: int,
    df: int,
)
    requires
        in_bounds(r, f),
        -1 <= dr <= 1,
        -1 <= df <= 1,
        !(dr == 0 && df == 0),
        ray_path_clear(s, r, f, nr, nf, dr, df),
    ensures
        in_bounds(nr, nf),
        dr > 0 ==> nr > r,
        dr < 0 ==> nr < r,
        dr == 0 ==> nr == r,
        df > 0 ==> nf > f,
        df < 0 ==> nf < f,
        df == 0 ==> nf == f,
    decreases steps_to_edge(r, dr) + steps_to_edge(f, df),
{
    if !(nr == r + dr && nf == f + df) {
        lemma_ray_path_monotone(s, r + dr, f + df, nr, nf, dr, df);
    }
}

/// Whether a sliding piece of the given colour may land on (nr, nf): the
/// square is empty or holds an enemy piece to capture; a picked square is
/// no destination.
pub open spec fn slide_dest_ok(s: Seq<Position>, colour: Colour, nr: int, nf: int) -> bool {
    match sq_at(s, nr, nf) {
        Position::Empty => true,
        Position::Occupied(_, c) => c == colour.opposite(),
        Position::Picked(_, _) => false,
    }
}

impl Board {
    /// Appends to `out` every square a sliding piece of the given colour
    /// may reach from (rank, file) along direction (dr, df): the clear
    /// squares up to, and the square of, the first enemy piece met.
    pub(crate) fn ray_positions(&self, rank: usize, file: usize, dr: i64, df: i64, colour: Colour,
        out: &mut Vec<(usize, usize)>)
        requires
            rank < 8,
            file < 8,
            -1 <= dr <= 1,
            -1 <= df <= 1,
            !(dr == 0 && df == 0),
        ensures
            final(out)@.len() >= old(out)@.len(),
            forall|k: int| 0 <= k < old(out)@.len() ==> final(out)@[k] == old(out)@[k],
            forall|k: int|
                old(out)@.len() <= k < final(out)@.len() ==> final(out)@[k].0 < 8
                    && final(out)@[k].1 < 8 && ray_path_clear(
                    self@,
                    rank as int,
                    file as int,
                    final(out)@[k].0 as int,
                    final(out)@[k].1 as int,
                    dr as int,
                    df as int,
                ) && slide_dest_ok(
                    self@,
                    colour,
                    final(out)@[k].0 as int,
                    final(out)@[k].1 as int,
                ),
            forall|nr: int, nf: int|
                in_bounds(nr, nf) && ray_path_clear(
                    self@,
                    rank as int,
                    file as int,
                    nr,
                    nf,
                    dr as int,
                    df as int,
                ) && slide_dest_ok(self@, colour, nr, nf) ==> exists|k: int|
                    old(out)@.len() <= k < final(out)@.len() && final(out)@[k] == (
                        nr as usize,
                        nf as usize,
                    ),
        decreases steps_to_edge(rank as int, dr as int) + steps_to_edge(file as int, df as int),
    {
        let ghost s = self@;
        let ghost r0 = rank as int;
        let ghost f0 = file as int;
        let ghost dri = dr as int;
        let ghost dfi = df as int;
        let nri = rank as i64 + dr;
        let nfi = file as i64 + df;
        if nri < 0 || nri >= 8 || nfi < 0 || nfi >= 8 {
            proof {
                assert forall|nr: int, nf: int|
                    !ray_path_clear(s, r0, f0, nr, nf, dri, dfi) by {
                    assert(!in_bounds(r0 + dri, f0 + dfi));
                }
            }
            return ;
        }
        let nr = nri as usize;
        let nf = nfi as usize;
        let ghost base = out@.len() as int;
        match self.at(nr, nf) {
            Position::Empty => {
                out.push((nr, nf));
                self.ray_positions(nr, nf, dr, df, colour, out);
                proof {
                    assert forall|x: int, y: int|
                        in_bounds(x, y) && ray_path_clear(s, r0, f0, x, y, dri, dfi)
                            && slide_dest_ok(s, colour, x, y) implies exists|k: int|
                        base <= k < out@.len() && out@[k] == (x as usize, y as usize) by {
                        if x == nr as int && y == nf as int {
                            assert(out@[base] == (x as usize, y as usize));
                        } else {
                            assert(ray_path_clear(s, nr as int, nf as int, x, y, dri, dfi));
                        }
                    }
                }
            },
            Position::Occupied(_, c) => {
                if c == colour.opposite() {
                    out.push((nr, nf));
                }
                proof {
                    assert forall|x: int, y: int|
                        in_bounds(x, y) && ray_path_clear(s, r0, f0, x, y, dri, dfi)
                            && slide_dest_ok(s, colour, x, y) implies exists|k: int|
                        base <= k < out@.len() && out@[k] == (x as usize, y as usize) by {
                        assert(x == nr as int && y == nf as int);
                        assert(out@[base] == (x as usize, y as usize));
                    }
                }
            },
            Position::Picked(_, _) => {
                self.ray_positions(nr, nf, dr, df, colour, out);
                proof {
                    assert forall|x: int, y: int|
                        in_bounds(x, y) && ray_path_clear(s, r0, f0, x, y, dri, dfi)
                            && slide_dest_ok(s, colour, x, y) implies exists|k: int|
                        base <= k < out@.len() && out@[k] == (x as usize, y as usize) by {
                        assert(!(x == nr as int && y == nf as int));
                        assert(ray_path_clear(s, nr as int, nf as int, x, y, dri, dfi));
                    }
                }
            },
        }
    }
}

/// The given move with its check count replaced.
pub open spec fn with_check_cnt(m: Move, n: int) -> Move {
    Move { check_cnt: n as usize, ..m }
}

/// Whether applying the move leaves the mover's own king free of check:
/// the rule that separates legal moves from merely well-shaped ones.
pub open spec fn move_self_check_free(s: Seq<Position>, m: Move) -> bool {
    side_check_cnt(board_apply_move(s, m), m.colour) == 0
}

/// The move with its check count set to the number of pieces checking the
/// opponent's king once it is applied.
pub open spec fn verified_move(s: Seq<Position>, m: Move) -> Move {
    with_check_cnt(m, side_check_cnt(board_apply_move(s, m), m.colour.opposite()))
}

/// The bare move of the given piece between the given squares, before
/// check verification: a capture is recorded when the destination holds an
/// enemy piece; a destination holding a piece of the mover's own colour,
/// or a picked piece, admits no move.
pub open spec fn plain_move_spec(
    s: Seq<Position>,
    piece: Piece,
    colour: Colour,
    r: int,
    f: int,
    nr: int,
    nf: int,
) -> Option<Move> {
    let base = Move {
        piece,
        colour,
        from_rank: r as usize,
        from_file: f as usize,
        to_rank: nr as usize,
        to_file: nf as usize,
        capture: None,
        check_cnt: 0,
        may_promote: false,
        promotion: None,
    };
    match sq_at(s, nr, nf) {
        Position::Empty => Some(base),
        Position::Occupied(np, nc) => if nc == colour {
            None
        } else {
            Some(
                Move {
                    capture: Some(
                        CapturedPiece {
                            piece: np,
                            colour: nc,
                            rank: nr as usize,
                            file: nf as usize,
                        },
                    ),
                    ..base
                },
            )
        },
        Position::Picked(_, _) => None,
    }
}

/// The move `make_move` returns: the bare move when it exists and leaves
/// the mover's own king out of check, with its check count filled in.
#[verifier::opaque]
pub open spec fn make_move_spec(
    s: Seq<Position>,
    piece: Piece,
    colour: Colour,
    r: int,
    f: int,
    nr: int,
    nf: int,
) -> Option<Move> {
    match plain_move_spec(s, piece, colour, r, f, nr, nf) {
        None => None,
        Some(m0) => if move_self_check_free(s, m0) {
            Some(verified_move(s, m0))
        } else {
            None
        },
    }
}

impl Board {
    /// Applies the move speculatively: rejects it when it would leave the
    /// mover's own king in check, and otherwise records in the move the
    /// number of pieces checking the opponent.
    pub fn move_verify_checks(&self, mov: &mut Move) -> (ok: bool)
        requires
            move_in_bounds(*old(mov)),
        ensures
            ok == move_self_check_free(self@, *old(mov)),
            ok ==> *final(mov) == verified_move(self@, *old(mov)),
            !ok ==> *final(mov) == *old(mov),
    {
        let nb = self.apply_move(*mov);
        let kic = nb.king_check_cnt();
        if kic.check_cnt(mov.colour) != 0 {
            false
        } else {
            mov.check_cnt = kic.check_cnt(mov.colour.opposite());
            true
        }
    }

    /// Builds the move of the given piece between the given squares, when
    /// the destination admits it and the mover's own king stays out of
    /// check.
    pub fn make_move(&self, piece: Piece, colour: Colour, rank: usize, file: usize,
        new_rank: usize, new_file: usize) -> (res: Option<Move>)
        requires
            rank < 8,
            file < 8,
            new_rank < 8,
            new_file < 8,
        ensures
            res == make_move_spec(
                self@,
                piece,
                colour,
                rank as int,
                file as int,
                new_rank as int,
                new_file as int,
            ),
    {
        proof {
            reveal(make_move_spec);
        }
        let pos = self.at(new_rank, new_file);
        let mut mov = match pos {
            Position::Empty => Move {
                piece,
                colour,
                from_rank: rank,
                from_file: file,
                to_rank: new_rank,
                to_file: new_file,
                capture: None,
                check_cnt: 0,
                may_promote: false,
                promotion: None,
            },
            Position::Occupied(np, nc) => {
                if nc == colour {
                    return None;
                }
                Move {
                    piece,
                    colour,
                    from_rank: rank,
                    from_file: file,
                    to_rank: new_rank,
                    to_file: new_file,
                    capture: Some(
                        CapturedPiece { piece: np, colour: nc, rank: new_rank, file: new_file },
                    ),
                    check_cnt: 0,
                    may_promote: false,
                    promotion: None,
                }
            },
            Position::Picked(_, _) => {
                return None;
            },
        };
        if self.move_verify_checks(&mut mov) {
            Some(mov)
        } else {
            None
        }
    }
}

/// Round trip: applying a move that fits a board and then unapplying it
/// reproduces the original board square for square.
pub proof fn lemma_move_round_trip(s: Seq<Position>, m: Move)
    requires
        s.len() == 64,
        move_fits_board(s, m),
    ensures
        board_unapply_move(board_apply_move(s, m), m) == s,
{
    let a = board_apply_move(s, m);
    let u = board_unapply_move(a, m);
    assert(u =~= s);
}

} // verus!
