//! The full game position: board plus side to move, castling rights,
//! en-passant target and move clocks; legal-move generation; mate
//! detection; algebraic notation.

use vstd::prelude::*;
use crate::pieces::{Colour, Piece, Position};
use crate::moves::{CapturedPiece, Move, MoveMap};
use crate::board::{
    Board, board_apply_move, castle_rank, in_bounds, is_ks_castle, is_qs_castle, make_move_spec,
    move_in_bounds, move_self_check_free, plain_move_spec, ray_path_clear, side_check_cnt,
    slide_dest_ok, sq_at, verified_move,
};
use crate::pieces::{file_char_spec, file_to_char, rank_char_spec, rank_to_char};
use crate::text::push_char;

verus! {

/// The mathematical content of a position: what `Fen` means in contracts.
#[verifier::ext_equal]
pub struct FenS {
    pub board: Seq<Position>,
    pub to_move: Colour,
    pub white_king_castle: bool,
    pub white_queen_castle: bool,
    pub black_king_castle: bool,
    pub black_queen_castle: bool,
    pub en_passant: Option<(int, int)>,
    pub halfmove_clock: int,
    pub move_cnt: int,
}

/// A position: the board and the full game-state metadata of a FEN record.
#[derive(Clone, Copy, Debug)]
pub struct Fen {
    pub board: Board,
    pub to_move: Colour,
    pub white_king_castle: bool,
    pub white_queen_castle: bool,
    pub black_king_castle: bool,
    pub black_queen_castle: bool,
    pub en_passant: Option<(usize, usize)>,
    pub halfmove_clock: u32,
    pub move_cnt: u32,
}

impl View for Fen {
    type V = FenS;

    open spec fn view(&self) -> FenS {
        FenS {
            board: self.board@,
            to_move: self.to_move,
            white_king_castle: self.white_king_castle,
            white_queen_castle: self.white_queen_castle,
            black_king_castle: self.black_king_castle,
            black_queen_castle: self.black_queen_castle,
            en_passant: match self.en_passant {
                Some((r, f)) => Some((r as int, f as int)),
                None => None,
            },
            halfmove_clock: self.halfmove_clock as int,
            move_cnt: self.move_cnt as int,
        }
    }
}

/// The castling rights of a position after a move: a side loses both
/// rights when its king moves, and the rights of a corner rook when that
/// rook moves from its home square.
pub open spec fn castle_rights_after(fen: FenS, m: Move) -> (bool, bool, bool, bool) {
    if m.colour is White {
        (
            fen.white_king_castle && !(m.piece is King) && !(m.piece is Rook && m.from_rank == 7
                && m.from_file == 7),
            fen.white_queen_castle && !(m.piece is King) && !(m.piece is Rook && m.from_rank == 7
                && m.from_file == 0),
            fen.black_king_castle,
            fen.black_queen_castle,
        )
    } else {
        (
            fen.white_king_castle,
            fen.white_queen_castle,
            fen.black_king_castle && !(m.piece is King) && !(m.piece is Rook && m.from_rank == 0
                && m.from_file == 7),
            fen.black_queen_castle && !(m.piece is King) && !(m.piece is Rook && m.from_rank == 0
                && m.from_file == 0),
        )
    }
}

/// The en-passant target after a move: set to the square passed over only
/// by a two-square pawn advance, cleared by every other move.
pub open spec fn en_passant_after(m: Move) -> Option<(int, int)> {
    if m.piece is Pawn && m.colour is White && m.to_rank == 4 && m.from_rank == 6 {
        Some((5int, m.to_file as int))
    } else if m.piece is Pawn && m.colour is Black && m.to_rank == 3 && m.from_rank == 1 {
        Some((2int, m.to_file as int))
    } else {
        None
    }
}

/// A counter one higher, held below the largest value a position can
/// store.
pub open spec fn clock_bump(n: int) -> int {
    if n < u32::MAX {
        n + 1
    } else {
        n
    }
}

/// The position after a move: the board transformed, the side to move
/// toggled, the full-move counter advanced after Black's move, castling
/// rights and the en-passant target updated, and the half-move clock reset
/// by a pawn move or a capture and advanced otherwise.
pub open spec fn fen_apply_spec(fen: FenS, m: Move) -> FenS {
    let rights = castle_rights_after(fen, m);
    FenS {
        board: board_apply_move(fen.board, m),
        to_move: fen.to_move.opposite(),
        white_king_castle: rights.0,
        white_queen_castle: rights.1,
        black_king_castle: rights.2,
        black_queen_castle: rights.3,
        en_passant: en_passant_after(m),
        halfmove_clock: if !(m.piece is Pawn) && m.capture is None {
            clock_bump(fen.halfmove_clock)
        } else {
            0
        },
        move_cnt: if m.colour is Black {
            clock_bump(fen.move_cnt)
        } else {
            fen.move_cnt
        },
    }
}

/// The absolute difference of two coordinates.
pub open spec fn absdiff(a: int, b: int) -> int {
    if a >= b {
        a - b
    } else {
        b - a
    }
}

/// The piece standing on a square, occupied or picked.
pub open spec fn piece_at(s: Seq<Position>, r: int, f: int) -> Option<(Piece, Colour)> {
    match sq_at(s, r, f) {
        Position::Occupied(p, c) => Some((p, c)),
        Position::Picked(p, c) => Some((p, c)),
        Position::Empty => None,
    }
}

/// Whether a square holds a piece of the enemy colour.
pub open spec fn is_enemy_occ(s: Seq<Position>, r: int, f: int, colour: Colour) -> bool {
    sq_at(s, r, f) matches Position::Occupied(_, c) && c == colour.opposite()
}

/// A knight's jump from (r, f) landing on the board.
pub open spec fn knight_target(r: int, f: int, nr: int, nf: int) -> bool {
    in_bounds(nr, nf) && ((absdiff(r, nr) == 2 && absdiff(f, nf) == 1) || (absdiff(r, nr) == 1
        && absdiff(f, nf) == 2))
}

/// A king's single step from (r, f) landing on the board.
pub open spec fn king_step_target(r: int, f: int, nr: int, nf: int) -> bool {
    in_bounds(nr, nf) && absdiff(r, nr) <= 1 && absdiff(f, nf) <= 1 && !(nr == r && nf == f)
}

/// Whether the kingside castle of a colour is offered: the right is still
/// held and the two squares between king and rook are empty.  Whether the
/// king passes through an attacked square is not examined here; the check
/// verification of the move itself guards only the destination.
pub open spec fn ks_castle_open(fen: FenS, colour: Colour) -> bool {
    if colour is White {
        fen.white_king_castle && sq_at(fen.board, 7, 5) is Empty && sq_at(fen.board, 7, 6) is Empty
    } else {
        fen.black_king_castle && sq_at(fen.board, 0, 5) is Empty && sq_at(fen.board, 0, 6) is Empty
    }
}

/// Whether the queenside castle of a colour is offered: the right is still
/// held and the three squares between king and rook are empty.
pub open spec fn qs_castle_open(fen: FenS, colour: Colour) -> bool {
    if colour is White {
        fen.white_queen_castle && sq_at(fen.board, 7, 1) is Empty && sq_at(fen.board, 7, 2) is Empty
            && sq_at(fen.board, 7, 3) is Empty
    } else {
        fen.black_queen_castle && sq_at(fen.board, 0, 1) is Empty && sq_at(fen.board, 0, 2) is Empty
            && sq_at(fen.board, 0, 3) is Empty
    }
}

/// A king's candidate destination: a single step, or a castle destination
/// while the castle is offered.
pub open spec fn king_target(fen: FenS, colour: Colour, r: int, f: int, nr: int, nf: int) -> bool {
    ||| king_step_target(r, f, nr, nf)
    ||| (ks_castle_open(fen, colour) && nr == castle_rank(colour) && nf == 6)
    ||| (qs_castle_open(fen, colour) && nr == castle_rank(colour) && nf == 2)
}

/// A rook's candidate destination: reached along one of the four
/// orthogonal rays with every square between passed over as clear, onto an
/// empty square or the first enemy piece.
pub open spec fn rook_target(s: Seq<Position>, r: int, f: int, colour: Colour, nr: int, nf: int)
    -> bool {
    (ray_path_clear(s, r, f, nr, nf, -1, 0) || ray_path_clear(s, r, f, nr, nf, 1, 0)
        || ray_path_clear(s, r, f, nr, nf, 0, -1) || ray_path_clear(s, r, f, nr, nf, 0, 1))
        && slide_dest_ok(s, colour, nr, nf)
}

/// A bishop's candidate destination, along the four diagonal rays.
pub open spec fn bishop_target(s: Seq<Position>, r: int, f: int, colour: Colour, nr: int, nf: int)
    -> bool {
    (ray_path_clear(s, r, f, nr, nf, -1, -1) || ray_path_clear(s, r, f, nr, nf, 1, 1)
        || ray_path_clear(s, r, f, nr, nf, -1, 1) || ray_path_clear(s, r, f, nr, nf, 1, -1))
        && slide_dest_ok(s, colour, nr, nf)
}

/// A pawn's candidate destination other than en passant: one square
/// forward onto an empty square, two squares forward from the home rank
/// across empty squares, or one square diagonally forward onto an enemy
/// piece.
pub open spec fn pawn_step_target(s: Seq<Position>, colour: Colour, r: int, f: int, nr: int,
    nf: int) -> bool {
    if colour is White {
        ||| (r > 0 && nr == r - 1 && nf == f && sq_at(s, r - 1, f) is Empty)
        ||| (r == 6 && nr == 4 && nf == f && sq_at(s, 5, f) is Empty && sq_at(s, 4, f) is Empty)
        ||| (r > 0 && f > 0 && nr == r - 1 && nf == f - 1 && is_enemy_occ(s, r - 1, f - 1, colour))
        ||| (r > 0 && f < 7 && nr == r - 1 && nf == f + 1 && is_enemy_occ(s, r - 1, f + 1, colour))
    } else {
        ||| (r < 7 && nr == r + 1 && nf == f && sq_at(s, r + 1, f) is Empty)
        ||| (r == 1 && nr == 3 && nf == f && sq_at(s, 2, f) is Empty && sq_at(s, 3, f) is Empty)
        ||| (r < 7 && f > 0 && nr == r + 1 && nf == f - 1 && is_enemy_occ(s, r + 1, f - 1, colour))
        ||| (r < 7 && f < 7 && nr == r + 1 && nf == f + 1 && is_enemy_occ(s, r + 1, f + 1, colour))
    }
}

/// The candidate destinations of a piece, before check verification.
pub open spec fn piece_target(fen: FenS, piece: Piece, colour: Colour, r: int, f: int, nr: int,
    nf: int) -> bool {
    match piece {
        Piece::Knight => knight_target(r, f, nr, nf),
        Piece::King => king_target(fen, colour, r, f, nr, nf),
        Piece::Rook => rook_target(fen.board, r, f, colour, nr, nf),
        Piece::Bishop => bishop_target(fen.board, r, f, colour, nr, nf),
        Piece::Queen => rook_target(fen.board, r, f, colour, nr, nf) || bishop_target(
            fen.board,
            r,
            f,
            colour,
            nr,
            nf,
        ),
        Piece::Pawn => pawn_step_target(fen.board, colour, r, f, nr, nf),
    }
}

/// A pawn's en-passant capture candidate: the stored target square, when
/// it sits diagonally ahead of a pawn of the colour whose double advance
/// has just been passed.
pub open spec fn ep_candidate(fen: FenS, colour: Colour, r: int, f: int, nr: int, nf: int)
    -> bool {
    match fen.en_passant {
        Some((epr, epf)) => {
            ||| (epr == 2 && colour is White && r == 3 && (f + 1 == epf || f == epf + 1) && nr == 2
                && nf == epf)
            ||| (epr == 5 && colour is Black && r == 4 && (f + 1 == epf || f == epf + 1) && nr == 5
                && nf == epf)
        },
        None => false,
    }
}

/// The en-passant capture move itself: the captured pawn stands beside the
/// mover, on the mover's own rank, not on the destination square.
pub open spec fn ep_move_spec(colour: Colour, r: int, f: int, nr: int, nf: int) -> Move {
    Move {
        piece: Piece::Pawn,
        colour,
        from_rank: r as usize,
        from_file: f as usize,
        to_rank: nr as usize,
        to_file: nf as usize,
        capture: Some(
            CapturedPiece {
                piece: Piece::Pawn,
                colour: colour.opposite(),
                rank: r as usize,
                file: nf as usize,
            },
        ),
        check_cnt: 0,
        may_promote: false,
        promotion: None,
    }
}

/// A pawn move flagged as promoting when its destination is the opponent's
/// back rank; the promotion piece is chosen later.
pub open spec fn pawn_flagged(m: Move) -> Move {
    if (m.colour is White && m.to_rank == 0) || (m.colour is Black && m.to_rank == 7) {
        Move { may_promote: true, ..m }
    } else {
        m
    }
}

/// The one legal move from (r, f) to (nr, nf), if there is one: the move
/// of the piece standing on (r, f), going to a candidate destination of
/// its movement rule, that leaves its own king out of check.  An
/// en-passant capture that verifies takes the destination square ahead of
/// a plain capture there.
#[verifier::opaque]
pub open spec fn legal_move_at(fen: FenS, r: int, f: int, nr: int, nf: int) -> Option<Move> {
    match piece_at(fen.board, r, f) {
        None => None,
        Some((piece, colour)) => {
            if piece is Pawn && ep_candidate(fen, colour, r, f, nr, nf) && move_self_check_free(
                fen.board,
                ep_move_spec(colour, r, f, nr, nf),
            ) {
                Some(verified_move(fen.board, ep_move_spec(colour, r, f, nr, nf)))
            } else if piece_target(fen, piece, colour, r, f, nr, nf) {
                match make_move_spec(fen.board, piece, colour, r, f, nr, nf) {
                    Some(m) => if piece is Pawn {
                        Some(pawn_flagged(m))
                    } else {
                        Some(m)
                    },
                    None => None,
                }
            } else {
                None
            }
        },
    }
}

/// Every move in the sequence is the legal move of its own destination
/// square.
pub open spec fn moves_consistent(fen: FenS, r: int, f: int, s: Seq<Move>) -> bool {
    forall|k: int|
        0 <= k < s.len() ==> Some(#[trigger] s[k]) == legal_move_at(
            fen,
            r,
            f,
            s[k].to_rank as int,
            s[k].to_file as int,
        )
}

/// For a piece other than a pawn, the legal move to a square is exactly
/// the verified move of its movement rule.
proof fn lemma_legal_move_nonpawn(fen: FenS, piece: Piece, colour: Colour, r: int, f: int, nr: int,
    nf: int)
    requires
        piece_at(fen.board, r, f) == Some((piece, colour)),
        !(piece is Pawn),
    ensures
        legal_move_at(fen, r, f, nr, nf) == (if piece_target(fen, piece, colour, r, f, nr, nf) {
            make_move_spec(fen.board, piece, colour, r, f, nr, nf)
        } else {
            None::<Move>
        }),
{
    reveal(legal_move_at);
}

impl Fen {
    /// Adds a move to the map unless its destination square is already
    /// taken; the map stays keyed by destination.
    fn insert_move(&self, mm: &mut MoveMap, rank: usize, file: usize, m: Move)
        requires
            m.to_rank < 8,
            m.to_file < 8,
            old(mm).wf(),
            moves_consistent(self@, rank as int, file as int, old(mm)@),
            !old(mm).contains_dest(m.to_rank as int, m.to_file as int) ==> Some(m)
                == legal_move_at(self@, rank as int, file as int, m.to_rank as int,
                m.to_file as int),
        ensures
            final(mm).wf(),
            moves_consistent(self@, rank as int, file as int, final(mm)@),
            final(mm).contains_dest(m.to_rank as int, m.to_file as int),
            forall|nr: int, nf: int|
                old(mm).contains_dest(nr, nf) ==> final(mm).contains_dest(nr, nf),
    {
        match mm.find_dest(m.to_rank, m.to_file) {
            Some(_) => {},
            None => {
                mm.push(m);
                proof {
                    let n = mm@.len() - 1;
                    assert(mm@[n] == m);
                    assert(forall|k: int| 0 <= k < n ==> mm@[k] == old(mm)@[k]);
                    assert(mm.contains_dest(m.to_rank as int, m.to_file as int));
                    assert forall|nr: int, nf: int|
                        old(mm).contains_dest(nr, nf) implies mm.contains_dest(nr, nf) by {
                        let k = choose|k: int|
                            0 <= k < old(mm)@.len() && old(mm)@[k].to_rank == nr
                                && old(mm)@[k].to_file == nf;
                        assert(mm@[k].to_rank == nr && mm@[k].to_file == nf);
                    }
                }
            },
        }
    }

    /// Tries the destination one offset away from (rank, file) and adds
    /// the verified move when the square admits one.
    fn try_offset(&self, mm: &mut MoveMap, piece: Piece, colour: Colour, rank: usize, file: usize,
        dr: i64, df: i64)
        requires
            rank < 8,
            file < 8,
            -2 <= dr <= 2,
            -2 <= df <= 2,
            old(mm).wf(),
            moves_consistent(self@, rank as int, file as int, old(mm)@),
            in_bounds(rank + dr, file + df) ==> legal_move_at(
                self@,
                rank as int,
                file as int,
                rank + dr,
                file + df,
            ) == make_move_spec(
                self.board@,
                piece,
                colour,
                rank as int,
                file as int,
                rank + dr,
                file + df,
            ),
        ensures
            final(mm).wf(),
            moves_consistent(self@, rank as int, file as int, final(mm)@),
            forall|nr: int, nf: int|
                old(mm).contains_dest(nr, nf) ==> final(mm).contains_dest(nr, nf),
            in_bounds(rank + dr, file + df) && legal_move_at(
                self@,
                rank as int,
                file as int,
                rank + dr,
                file + df,
            ) is Some ==> final(mm).contains_dest(rank + dr, file + df),
    {
        let nri = rank as i64 + dr;
        let nfi = file as i64 + df;
        if nri < 0 || nri >= 8 || nfi < 0 || nfi >= 8 {
            return ;
        }
        let nr = nri as usize;
        let nf = nfi as usize;
        match self.board.make_move(piece, colour, rank, file, nr, nf) {
            Some(m) => {
                proof {
                    reveal(make_move_spec);
                    assert(m.to_rank == nr && m.to_file == nf);
                }
                self.insert_move(mm, rank, file, m);
            },
            None => {},
        }
    }

    /// The legal moves of the knight standing on (rank, file).
    fn knight_moves(&self, rank: usize, file: usize, colour: Colour) -> (mm: MoveMap)
        requires
            rank < 8,
            file < 8,
            piece_at(self.board@, rank as int, file as int) == Some((Piece::Knight, colour)),
        ensures
            mm.wf(),
            moves_consistent(self@, rank as int, file as int, mm@),
            forall|nr: int, nf: int|
                in_bounds(nr, nf) && legal_move_at(self@, rank as int, file as int, nr, nf)
                    is Some ==> mm.contains_dest(nr, nf),
    {
        proof {
            assert forall|nr: int, nf: int|
                legal_move_at(self@, rank as int, file as int, nr, nf) == (if piece_target(
                    self@,
                    Piece::Knight,
                    colour,
                    rank as int,
                    file as int,
                    nr,
                    nf,
                ) {
                    make_move_spec(
                        self.board@,
                        Piece::Knight,
                        colour,
                        rank as int,
                        file as int,
                        nr,
                        nf,
                    )
                } else {
                    None::<Move>
                }) by {
                lemma_legal_move_nonpawn(
                    self@,
                    Piece::Knight,
                    colour,
                    rank as int,
                    file as int,
                    nr,
                    nf,
                );
            }
        }
        let mut mm = MoveMap::new();
        self.try_offset(&mut mm, Piece::Knight, colour, rank, file, -2, -1);
        self.try_offset(&mut mm, Piece::Knight, colour, rank, file, -2, 1);
        self.try_offset(&mut mm, Piece::Knight, colour, rank, file, 2, -1);
        self.try_offset(&mut mm, Piece::Knight, colour, rank, file, 2, 1);
        self.try_offset(&mut mm, Piece::Knight, colour, rank, file, -1, -2);
        self.try_offset(&mut mm, Piece::Knight, colour, rank, file, -1, 2);
        self.try_offset(&mut mm, Piece::Knight, colour, rank, file, 1, -2);
        self.try_offset(&mut mm, Piece::Knight, colour, rank, file, 1, 2);
        mm
    }

    /// The legal moves of the king standing on (rank, file): single steps,
    /// and the castle destinations still offered.
    fn king_moves(&self, rank: usize, file: usize, colour: Colour) -> (mm: MoveMap)
        requires
            rank < 8,
            file < 8,
            piece_at(self.board@, rank as int, file as int) == Some((Piece::King, colour)),
        ensures
            mm.wf(),
            moves_consistent(self@, rank as int, file as int, mm@),
            forall|nr: int, nf: int|
                in_bounds(nr, nf) && legal_move_at(self@, rank as int, file as int, nr, nf)
                    is Some ==> mm.contains_dest(nr, nf),
    {
        proof {
            assert forall|nr: int, nf: int|
                legal_move_at(self@, rank as int, file as int, nr, nf) == (if piece_target(
                    self@,
                    Piece::King,
                    colour,
                    rank as int,
                    file as int,
                    nr,
                    nf,
                ) {
                    make_move_spec(
                        self.board@,
                        Piece::King,
                        colour,
                        rank as int,
                        file as int,
                        nr,
                        nf,
                    )
                } else {
                    None::<Move>
                }) by {
                lemma_legal_move_nonpawn(
                    self@,
                    Piece::King,
                    colour,
                    rank as int,
                    file as int,
                    nr,
                    nf,
                );
            }
        }
        let mut mm = MoveMap::new();
        self.try_offset(&mut mm, Piece::King, colour, rank, file, -1, -1);
        self.try_offset(&mut mm, Piece::King, colour, rank, file, -1, 0);
        self.try_offset(&mut mm, Piece::King, colour, rank, file, -1, 1);
        self.try_offset(&mut mm, Piece::King, colour, rank, file, 0, -1);
        self.try_offset(&mut mm, Piece::King, colour, rank, file, 0, 1);
        self.try_offset(&mut mm, Piece::King, colour, rank, file, 1, -1);
        self.try_offset(&mut mm, Piece::King, colour, rank, file, 1, 0);
        self.try_offset(&mut mm, Piece::King, colour, rank, file, 1, 1);
        if colour == Colour::White {
            if self.white_king_castle && matches!(self.board.at(7, 5), Position::Empty) && matches!(
                self.board.at(7, 6),
                Position::Empty,
            ) {
                if let Some(m) = self.board.make_move(Piece::King, colour, rank, file, 7, 6) {
                    proof {
                        reveal(make_move_spec);
                        assert(m.to_rank == 7 && m.to_file == 6);
                    }
                    self.insert_move(&mut mm, rank, file, m);
                }
            }
            if self.white_queen_castle && matches!(self.board.at(7, 1), Position::Empty)
                && matches!(self.board.at(7, 2), Position::Empty) && matches!(
                self.board.at(7, 3),
                Position::Empty,
            ) {
                if let Some(m) = self.board.make_move(Piece::King, colour, rank, file, 7, 2) {
                    proof {
                        reveal(make_move_spec);
                        assert(m.to_rank == 7 && m.to_file == 2);
                    }
                    self.insert_move(&mut mm, rank, file, m);
                }
            }
        } else {
            if self.black_king_castle && matches!(self.board.at(0, 5), Position::Empty) && matches!(
                self.board.at(0, 6),
                Position::Empty,
            ) {
                if let Some(m) = self.board.make_move(Piece::King, colour, rank, file, 0, 6) {
                    proof {
                        reveal(make_move_spec);
                        assert(m.to_rank == 0 && m.to_file == 6);
                    }
                    self.insert_move(&mut mm, rank, file, m);
                }
            }
            if self.black_queen_castle && matches!(self.board.at(0, 1), Position::Empty)
                && matches!(self.board.at(0, 2), Position::Empty) && matches!(
                self.board.at(0, 3),
                Position::Empty,
            ) {
                if let Some(m) = self.board.make_move(Piece::King, colour, rank, file, 0, 2) {
                    proof {
                        reveal(make_move_spec);
                        assert(m.to_rank == 0 && m.to_file == 2);
                    }
                    self.insert_move(&mut mm, rank, file, m);
                }
            }
        }
        mm
    }

    /// Adds the verified move to each listed destination.
    fn push_positions(&self, mm: &mut MoveMap, piece: Piece, colour: Colour, rank: usize,
        file: usize, v: &Vec<(usize, usize)>)
        requires
            rank < 8,
            file < 8,
            old(mm).wf(),
            moves_consistent(self@, rank as int, file as int, old(mm)@),
            forall|k: int|
                0 <= k < v@.len() ==> v@[k].0 < 8 && v@[k].1 < 8 && legal_move_at(
                    self@,
                    rank as int,
                    file as int,
                    v@[k].0 as int,
                    v@[k].1 as int,
                ) == make_move_spec(
                    self.board@,
                    piece,
                    colour,
                    rank as int,
                    file as int,
                    v@[k].0 as int,
                    v@[k].1 as int,
                ),
        ensures
            final(mm).wf(),
            moves_consistent(self@, rank as int, file as int, final(mm)@),
            forall|nr: int, nf: int|
                old(mm).contains_dest(nr, nf) ==> final(mm).contains_dest(nr, nf),
            forall|k: int|
                0 <= k < v@.len() && legal_move_at(
                    self@,
                    rank as int,
                    file as int,
                    v@[k].0 as int,
                    v@[k].1 as int,
                ) is Some ==> final(mm).contains_dest(v@[k].0 as int, v@[k].1 as int),
    {
        let mut i: usize = 0;
        while i < v.len()
            invariant
                i <= v@.len(),
                rank < 8,
                file < 8,
                mm.wf(),
                moves_consistent(self@, rank as int, file as int, mm@),
                forall|nr: int, nf: int|
                    old(mm).contains_dest(nr, nf) ==> mm.contains_dest(nr, nf),
                forall|k: int|
                    0 <= k < i && legal_move_at(
                        self@,
                        rank as int,
                        file as int,
                        v@[k].0 as int,
                        v@[k].1 as int,
                    ) is Some ==> mm.contains_dest(v@[k].0 as int, v@[k].1 as int),
                forall|k: int|
                    0 <= k < v@.len() ==> v@[k].0 < 8 && v@[k].1 < 8 && legal_move_at(
                        self@,
                        rank as int,
                        file as int,
                        v@[k].0 as int,
                        v@[k].1 as int,
                    ) == make_move_spec(
                        self.board@,
                        piece,
                        colour,
                        rank as int,
                        file as int,
                        v@[k].0 as int,
                        v@[k].1 as int,
                    ),
            decreases v@.len() - i,
        {
            let (nr, nf) = v[i];
            match self.board.make_move(piece, colour, rank, file, nr, nf) {
                Some(m) => {
                    proof {
                        reveal(make_move_spec);
                        assert(m.to_rank == nr && m.to_file == nf);
                    }
                    self.insert_move(mm, rank, file, m);
                },
                None => {},
            }
            i += 1;
        }
    }

    /// The legal moves of the rook, bishop or queen standing on (rank,
    /// file).
    fn slider_moves(&self, piece: Piece, rank: usize, file: usize, colour: Colour) -> (mm: MoveMap)
        requires
            rank < 8,
            file < 8,
            piece is Rook || piece is Bishop || piece is Queen,
            piece_at(self.board@, rank as int, file as int) == Some((piece, colour)),
        ensures
            mm.wf(),
            moves_consistent(self@, rank as int, file as int, mm@),
            forall|nr: int, nf: int|
                in_bounds(nr, nf) && legal_move_at(self@, rank as int, file as int, nr, nf)
                    is Some ==> mm.contains_dest(nr, nf),
    {
        proof {
            assert forall|nr: int, nf: int|
                legal_move_at(self@, rank as int, file as int, nr, nf) == (if piece_target(
                    self@,
                    piece,
                    colour,
                    rank as int,
                    file as int,
                    nr,
                    nf,
                ) {
                    make_move_spec(self.board@, piece, colour, rank as int, file as int, nr, nf)
                } else {
                    None::<Move>
                }) by {
                lemma_legal_move_nonpawn(self@, piece, colour, rank as int, file as int, nr, nf);
            }
        }
        let mut mm = MoveMap::new();
        if !matches!(piece, Piece::Bishop) {
            let v = self.rook_move_positions(rank, file, colour);
            self.push_positions(&mut mm, piece, colour, rank, file, &v);
        }
        if !matches!(piece, Piece::Rook) {
            let v = self.bishop_move_positions(rank, file, colour);
            self.push_positions(&mut mm, piece, colour, rank, file, &v);
        }
        mm
    }
}

/// For a pawn, the legal move to a square is its verified en-passant
/// capture when that wins the square, else the verified move of its step
/// rule, flagged for promotion on the last rank.
proof fn lemma_legal_move_pawn(fen: FenS, colour: Colour, r: int, f: int, nr: int, nf: int)
    requires
        piece_at(fen.board, r, f) == Some((Piece::Pawn, colour)),
    ensures
        legal_move_at(fen, r, f, nr, nf) == (if ep_candidate(fen, colour, r, f, nr, nf)
            && move_self_check_free(fen.board, ep_move_spec(colour, r, f, nr, nf)) {
            Some(verified_move(fen.board, ep_move_spec(colour, r, f, nr, nf)))
        } else if pawn_step_target(fen.board, colour, r, f, nr, nf) {
            match make_move_spec(fen.board, Piece::Pawn, colour, r, f, nr, nf) {
                Some(m) => Some(pawn_flagged(m)),
                None => None,
            }
        } else {
            None::<Move>
        }),
{
    reveal(legal_move_at);
}

impl Fen {
    /// Tries one pawn step or capture destination and adds the verified
    /// move, flagged for promotion when it reaches the last rank.  A
    /// winning en-passant capture of the same square must already be in
    /// the map: it takes precedence.
    fn try_pawn_step(&self, mm: &mut MoveMap, colour: Colour, rank: usize, file: usize, nr: usize,
        nf: usize)
        requires
            rank < 8,
            file < 8,
            nr < 8,
            nf < 8,
            old(mm).wf(),
            moves_consistent(self@, rank as int, file as int, old(mm)@),
            piece_at(self.board@, rank as int, file as int) == Some((Piece::Pawn, colour)),
            pawn_step_target(self.board@, colour, rank as int, file as int, nr as int, nf as int),
            (ep_candidate(self@, colour, rank as int, file as int, nr as int, nf as int)
                && move_self_check_free(
                self.board@,
                ep_move_spec(colour, rank as int, file as int, nr as int, nf as int),
            )) ==> old(mm).contains_dest(nr as int, nf as int),
        ensures
            final(mm).wf(),
            moves_consistent(self@, rank as int, file as int, final(mm)@),
            forall|xr: int, xf: int|
                old(mm).contains_dest(xr, xf) ==> final(mm).contains_dest(xr, xf),
            legal_move_at(self@, rank as int, file as int, nr as int, nf as int) is Some
                ==> final(mm).contains_dest(nr as int, nf as int),
    {
        proof {
            lemma_legal_move_pawn(self@, colour, rank as int, file as int, nr as int, nf as int);
        }
        match self.board.make_move(Piece::Pawn, colour, rank, file, nr, nf) {
            Some(m) => {
                proof {
                    reveal(make_move_spec);
                    assert(m.to_rank == nr && m.to_file == nf);
                }
                let mut m2 = m;
                if (colour == Colour::White && nr == 0) || (colour == Colour::Black && nr == 7) {
                    m2.may_promote = true;
                }
                proof {
                    assert(m2 == pawn_flagged(m));
                }
                self.insert_move(mm, rank, file, m2);
            },
            None => {},
        }
    }

    /// The legal moves of the pawn standing on (rank, file): single and
    /// double advances, diagonal captures, and the en-passant capture.
    #[verifier::rlimit(60)]
    fn pawn_moves(&self, rank: usize, file: usize, colour: Colour) -> (mm: MoveMap)
        requires
            rank < 8,
            file < 8,
            piece_at(self.board@, rank as int, file as int) == Some((Piece::Pawn, colour)),
        ensures
            mm.wf(),
            moves_consistent(self@, rank as int, file as int, mm@),
            forall|nr: int, nf: int|
                in_bounds(nr, nf) && legal_move_at(self@, rank as int, file as int, nr, nf)
                    is Some ==> mm.contains_dest(nr, nf),
    {
        let mut mm = MoveMap::new();
        // The en-passant capture comes first: when its verification
        // succeeds it owns the destination square, ahead of a plain
        // capture there.
        if let Some((epr, epf)) = self.en_passant {
            if colour == Colour::White && epr == 2 && epf < 8 && rank == 3 && (file + 1 == epf
                || file == epf + 1) {
                let mut mov = Move {
                    piece: Piece::Pawn,
                    colour,
                    from_rank: rank,
                    from_file: file,
                    to_rank: 2,
                    to_file: epf,
                    capture: Some(
                        CapturedPiece {
                            piece: Piece::Pawn,
                            colour: Colour::Black,
                            rank: 3,
                            file: epf,
                        },
                    ),
                    check_cnt: 0,
                    may_promote: false,
                    promotion: None,
                };
                proof {
                    assert(mov == ep_move_spec(colour, rank as int, file as int, 2, epf as int));
                    lemma_legal_move_pawn(self@, colour, rank as int, file as int, 2, epf as int);
                }
                if self.board.move_verify_checks(&mut mov) {
                    self.insert_move(&mut mm, rank, file, mov);
                }
            } else if colour == Colour::Black && epr == 5 && epf < 8 && rank == 4 && (file + 1
                == epf || file == epf + 1) {
                let mut mov = Move {
                    piece: Piece::Pawn,
                    colour,
                    from_rank: rank,
                    from_file: file,
                    to_rank: 5,
                    to_file: epf,
                    capture: Some(
                        CapturedPiece {
                            piece: Piece::Pawn,
                            colour: Colour::White,
                            rank: 4,
                            file: epf,
                        },
                    ),
                    check_cnt: 0,
                    may_promote: false,
                    promotion: None,
                };
                proof {
                    assert(mov == ep_move_spec(colour, rank as int, file as int, 5, epf as int));
                    lemma_legal_move_pawn(self@, colour, rank as int, file as int, 5, epf as int);
                }
                if self.board.move_verify_checks(&mut mov) {
                    self.insert_move(&mut mm, rank, file, mov);
                }
            }
        }
        if colour == Colour::White {
            if rank > 0 && matches!(self.board.at(rank - 1, file), Position::Empty) {
                self.try_pawn_step(&mut mm, colour, rank, file, rank - 1, file);
            }
            if rank == 6 && matches!(self.board.at(5, file), Position::Empty) && matches!(
                self.board.at(4, file),
                Position::Empty,
            ) {
                self.try_pawn_step(&mut mm, colour, rank, file, 4, file);
            }
            if rank > 0 && file > 0 {
                if let Position::Occupied(_, nc) = self.board.at(rank - 1, file - 1) {
                    if nc == Colour::Black {
                        self.try_pawn_step(&mut mm, colour, rank, file, rank - 1, file - 1);
                    }
                }
            }
            if rank > 0 && file < 7 {
                if let Position::Occupied(_, nc) = self.board.at(rank - 1, file + 1) {
                    if nc == Colour::Black {
                        self.try_pawn_step(&mut mm, colour, rank, file, rank - 1, file + 1);
                    }
                }
            }
        } else {
            if rank < 7 && matches!(self.board.at(rank + 1, file), Position::Empty) {
                self.try_pawn_step(&mut mm, colour, rank, file, rank + 1, file);
            }
            if rank == 1 && matches!(self.board.at(2, file), Position::Empty) && matches!(
                self.board.at(3, file),
                Position::Empty,
            ) {
                self.try_pawn_step(&mut mm, colour, rank, file, 3, file);
            }
            if rank < 7 && file > 0 {
                if let Position::Occupied(_, nc) = self.board.at(rank + 1, file - 1) {
                    if nc == Colour::White {
                        self.try_pawn_step(&mut mm, colour, rank, file, rank + 1, file - 1);
                    }
                }
            }
            if rank < 7 && file < 7 {
                if let Position::Occupied(_, nc) = self.board.at(rank + 1, file + 1) {
                    if nc == Colour::White {
                        self.try_pawn_step(&mut mm, colour, rank, file, rank + 1, file + 1);
                    }
                }
            }
        }
        proof {
            assert forall|nr: int, nf: int|
                in_bounds(nr, nf) && legal_move_at(self@, rank as int, file as int, nr, nf)
                    is Some implies mm.contains_dest(nr, nf) by {
                lemma_legal_move_pawn(self@, colour, rank as int, file as int, nr, nf);
            }
        }
        mm
    }

    /// The squares a rook of the given colour standing on (rank, file)
    /// could move to.
    pub fn rook_move_positions(&self, rank: usize, file: usize, colour: Colour) -> (v: Vec<
        (usize, usize),
    >)
        requires
            rank < 8,
            file < 8,
        ensures
            forall|k: int|
                0 <= k < v@.len() ==> v@[k].0 < 8 && v@[k].1 < 8 && rook_target(
                    self.board@,
                    rank as int,
                    file as int,
                    colour,
                    v@[k].0 as int,
                    v@[k].1 as int,
                ),
            forall|nr: int, nf: int|
                in_bounds(nr, nf) && rook_target(
                    self.board@,
                    rank as int,
                    file as int,
                    colour,
                    nr,
                    nf,
                ) ==> exists|k: int| 0 <= k < v@.len() && v@[k] == (nr as usize, nf as usize),
    {
        let mut v: Vec<(usize, usize)> = Vec::new();
        self.board.ray_positions(rank, file, -1, 0, colour, &mut v);
        self.board.ray_positions(rank, file, 1, 0, colour, &mut v);
        self.board.ray_positions(rank, file, 0, -1, colour, &mut v);
        self.board.ray_positions(rank, file, 0, 1, colour, &mut v);
        v
    }

    /// The squares a bishop of the given colour standing on (rank, file)
    /// could move to.
    pub fn bishop_move_positions(&self, rank: usize, file: usize, colour: Colour) -> (v: Vec<
        (usize, usize),
    >)
        requires
            rank < 8,
            file < 8,
        ensures
            forall|k: int|
                0 <= k < v@.len() ==> v@[k].0 < 8 && v@[k].1 < 8 && bishop_target(
                    self.board@,
                    rank as int,
                    file as int,
                    colour,
                    v@[k].0 as int,
                    v@[k].1 as int,
                ),
            forall|nr: int, nf: int|
                in_bounds(nr, nf) && bishop_target(
                    self.board@,
                    rank as int,
                    file as int,
                    colour,
                    nr,
                    nf,
                ) ==> exists|k: int| 0 <= k < v@.len() && v@[k] == (nr as usize, nf as usize),
    {
        let mut v: Vec<(usize, usize)> = Vec::new();
        self.board.ray_positions(rank, file, -1, -1, colour, &mut v);
        self.board.ray_positions(rank, file, 1, 1, colour, &mut v);
        self.board.ray_positions(rank, file, -1, 1, colour, &mut v);
        self.board.ray_positions(rank, file, 1, -1, colour, &mut v);
        v
    }

    /// The legal moves of whatever piece stands, occupied or picked, on
    /// (rank, file), keyed by destination: every move returned goes to a
    /// candidate destination of the piece's movement rule and leaves the
    /// mover's own king out of check, and every such move is returned.
    pub fn legal_moves(&self, rank: usize, file: usize) -> (mm: MoveMap)
        requires
            rank < 8,
            file < 8,
        ensures
            mm.wf(),
            moves_consistent(self@, rank as int, file as int, mm@),
            forall|nr: int, nf: int|
                in_bounds(nr, nf) && legal_move_at(self@, rank as int, file as int, nr, nf)
                    is Some ==> mm.contains_dest(nr, nf),
    {
        let (piece, colour) = match self.board.at(rank, file) {
            Position::Occupied(p, c) => (p, c),
            Position::Picked(p, c) => (p, c),
            Position::Empty => {
                proof {
                    reveal(legal_move_at);
                }
                return MoveMap::new();
            },
        };
        match piece {
            Piece::Knight => self.knight_moves(rank, file, colour),
            Piece::King => self.king_moves(rank, file, colour),
            Piece::Pawn => self.pawn_moves(rank, file, colour),
            _ => self.slider_moves(piece, rank, file, colour),
        }
    }

    /// The position after the given move; pure, the receiver is unchanged.
    pub fn apply_move(&self, mov: Move) -> (res: Fen)
        requires
            move_in_bounds(mov),
        ensures
            res@ == fen_apply_spec(self@, mov),
    {
        let mut fen = *self;

        if mov.colour == Colour::Black {
            if fen.move_cnt < u32::MAX {
                fen.move_cnt = fen.move_cnt + 1;
            }
        }
        fen.board = fen.board.apply_move(mov);
        fen.to_move = fen.to_move.opposite();

        // Update castling rights
        if mov.colour == Colour::White {
            if mov.piece == Piece::King {
                fen.white_king_castle = false;
                fen.white_queen_castle = false;
            }
            if mov.piece == Piece::Rook && mov.from_rank == 7 && mov.from_file == 7 {
                fen.white_king_castle = false;
            }
            if mov.piece == Piece::Rook && mov.from_rank == 7 && mov.from_file == 0 {
                fen.white_queen_castle = false;
            }
        } else {
            if mov.piece == Piece::King {
                fen.black_king_castle = false;
                fen.black_queen_castle = false;
            }
            if mov.piece == Piece::Rook && mov.from_rank == 0 && mov.from_file == 7 {
                fen.black_king_castle = false;
            }
            if mov.piece == Piece::Rook && mov.from_rank == 0 && mov.from_file == 0 {
                fen.black_queen_castle = false;
            }
        }

        // Update the en-passant target
        if mov.piece == Piece::Pawn {
            if mov.colour == Colour::White && mov.to_rank == 4 && mov.from_rank == 6 {
                fen.en_passant = Some((5, mov.to_file));
            } else if mov.colour == Colour::Black && mov.to_rank == 3 && mov.from_rank == 1 {
                fen.en_passant = Some((2, mov.to_file));
            } else {
                fen.en_passant = None;
            }
        } else {
            fen.en_passant = None;
        }

        if mov.piece != Piece::Pawn && mov.capture.is_none() {
            if fen.halfmove_clock < u32::MAX {
                fen.halfmove_clock = fen.halfmove_clock + 1;
            }
        } else {
            fen.halfmove_clock = 0;
        }

        fen
    }
}

/// Check safety: every move that legal-move generation returns, applied to
/// the board it was generated for, leaves the mover's own king attacked by
/// nothing.
pub proof fn lemma_legal_move_check_safe(fen: FenS, r: int, f: int, nr: int, nf: int, m: Move)
    requires
        legal_move_at(fen, r, f, nr, nf) == Some(m),
    ensures
        side_check_cnt(board_apply_move(fen.board, m), m.colour) == 0,
{
    reveal(legal_move_at);
    reveal(make_move_spec);
    let (piece, colour) = piece_at(fen.board, r, f).unwrap();
    if piece is Pawn && ep_candidate(fen, colour, r, f, nr, nf) && move_self_check_free(
        fen.board,
        ep_move_spec(colour, r, f, nr, nf),
    ) {
        let m0 = ep_move_spec(colour, r, f, nr, nf);
        assert(board_apply_move(fen.board, m) =~= board_apply_move(fen.board, m0));
    } else {
        let m0 = plain_move_spec(fen.board, piece, colour, r, f, nr, nf).unwrap();
        assert(board_apply_move(fen.board, m) =~= board_apply_move(fen.board, m0));
    }
}

/// Castling is gated by its right: a king standing on its home square is
/// offered no move onto a castle destination once the corresponding right
/// has been cleared, however the squares between stand.
pub proof fn lemma_castle_right_gates_moves(fen: FenS, colour: Colour)
    requires
        piece_at(fen.board, castle_rank(colour), 4) == Some((Piece::King, colour)),
    ensures
        !(if colour is White {
            fen.white_king_castle
        } else {
            fen.black_king_castle
        }) ==> legal_move_at(fen, castle_rank(colour), 4, castle_rank(colour), 6) is None,
        !(if colour is White {
            fen.white_queen_castle
        } else {
            fen.black_queen_castle
        }) ==> legal_move_at(fen, castle_rank(colour), 4, castle_rank(colour), 2) is None,
{
    reveal(legal_move_at);
}

/// A legal move generated on a board whose source square is occupied (not
/// picked) fits that board in the sense of the round-trip law, provided a
/// castling move finds its rook at home and an en-passant capture finds
/// the passed pawn on its square and an empty target square: the three
/// facts the position's own bookkeeping supplies during play.
pub proof fn lemma_legal_move_fits(fen: FenS, r: int, f: int, nr: int, nf: int, m: Move)
    requires
        in_bounds(r, f),
        in_bounds(nr, nf),
        legal_move_at(fen, r, f, nr, nf) == Some(m),
        sq_at(fen.board, r, f) is Occupied,
        is_ks_castle(m) ==> sq_at(fen.board, castle_rank(m.colour), 7) == Position::Occupied(
            Piece::Rook,
            m.colour,
        ),
        is_qs_castle(m) ==> sq_at(fen.board, castle_rank(m.colour), 0) == Position::Occupied(
            Piece::Rook,
            m.colour,
        ),
        (m.capture matches Some(cap) && !(cap.rank == m.to_rank && cap.file == m.to_file)) ==> (
        sq_at(fen.board, m.capture.unwrap().rank as int, m.capture.unwrap().file as int)
            == Position::Occupied(m.capture.unwrap().piece, m.capture.unwrap().colour) && sq_at(
            fen.board,
            m.to_rank as int,
            m.to_file as int,
        ) is Empty),
    ensures
        crate::board::move_fits_board(fen.board, m),
{
    reveal(legal_move_at);
    reveal(make_move_spec);
    let (piece, colour) = piece_at(fen.board, r, f).unwrap();
    if piece is Rook || piece is Bishop || piece is Queen {
        let s = fen.board;
        if ray_path_clear(s, r, f, nr, nf, -1, 0) {
            crate::board::lemma_ray_path_monotone(s, r, f, nr, nf, -1, 0);
        }
        if ray_path_clear(s, r, f, nr, nf, 1, 0) {
            crate::board::lemma_ray_path_monotone(s, r, f, nr, nf, 1, 0);
        }
        if ray_path_clear(s, r, f, nr, nf, 0, -1) {
            crate::board::lemma_ray_path_monotone(s, r, f, nr, nf, 0, -1);
        }
        if ray_path_clear(s, r, f, nr, nf, 0, 1) {
            crate::board::lemma_ray_path_monotone(s, r, f, nr, nf, 0, 1);
        }
        if ray_path_clear(s, r, f, nr, nf, -1, -1) {
            crate::board::lemma_ray_path_monotone(s, r, f, nr, nf, -1, -1);
        }
        if ray_path_clear(s, r, f, nr, nf, 1, 1) {
            crate::board::lemma_ray_path_monotone(s, r, f, nr, nf, 1, 1);
        }
        if ray_path_clear(s, r, f, nr, nf, -1, 1) {
            crate::board::lemma_ray_path_monotone(s, r, f, nr, nf, -1, 1);
        }
        if ray_path_clear(s, r, f, nr, nf, 1, -1) {
            crate::board::lemma_ray_path_monotone(s, r, f, nr, nf, 1, -1);
        }
    }
}

/// Round trip through generation: a legal move, applied to the board it
/// was generated for and then unapplied, reproduces that board square for
/// square, under the same side conditions as `lemma_legal_move_fits`.
pub proof fn lemma_legal_move_round_trip(fen: FenS, r: int, f: int, nr: int, nf: int, m: Move)
    requires
        fen.board.len() == 64,
        in_bounds(r, f),
        in_bounds(nr, nf),
        legal_move_at(fen, r, f, nr, nf) == Some(m),
        sq_at(fen.board, r, f) is Occupied,
        is_ks_castle(m) ==> sq_at(fen.board, castle_rank(m.colour), 7) == Position::Occupied(
            Piece::Rook,
            m.colour,
        ),
        is_qs_castle(m) ==> sq_at(fen.board, castle_rank(m.colour), 0) == Position::Occupied(
            Piece::Rook,
            m.colour,
        ),
        (m.capture matches Some(cap) && !(cap.rank == m.to_rank && cap.file == m.to_file)) ==> (
        sq_at(fen.board, m.capture.unwrap().rank as int, m.capture.unwrap().file as int)
            == Position::Occupied(m.capture.unwrap().piece, m.capture.unwrap().colour) && sq_at(
            fen.board,
            m.to_rank as int,
            m.to_file as int,
        ) is Empty),
    ensures
        crate::board::board_unapply_move(board_apply_move(fen.board, m), m) == fen.board,
{
    lemma_legal_move_fits(fen, r, f, nr, nf, m);
    crate::board::lemma_move_round_trip(fen.board, m);
}

/// Whether the side to move stands in check.
pub open spec fn in_check(fen: FenS) -> bool {
    side_check_cnt(fen.board, fen.to_move) > 0
}

/// Whether the side to move has a legal move from (r, f): the square
/// holds an occupied piece of that side with at least one legal
/// destination.
pub open spec fn side_has_move_from(fen: FenS, r: int, f: int) -> bool {
    (sq_at(fen.board, r, f) matches Position::Occupied(_, c) && c == fen.to_move) && exists|
        nr: int,
        nf: int,
    |
        in_bounds(nr, nf) && legal_move_at(fen, r, f, nr, nf) is Some
}

/// Checkmate: the side to move is in check and no occupied piece of that
/// side has any legal move.
pub open spec fn is_mate_spec(fen: FenS) -> bool {
    in_check(fen) && !(exists|r: int, f: int|
        in_bounds(r, f) && side_has_move_from(fen, r, f))
}

impl Fen {
    /// Whether the position is checkmate for the side to move.
    pub fn is_mate(&self) -> (b: bool)
        ensures
            b == is_mate_spec(self@),
    {
        let kic = self.board.king_check_cnt();
        if kic.check_cnt(self.to_move) == 0 {
            return false;
        }
        let mut rank: usize = 0;
        while rank < 8
            invariant
                rank <= 8,
                in_check(self@),
                forall|r: int, f: int|
                    in_bounds(r, f) && r * 8 + f < rank * 8 ==> !side_has_move_from(self@, r, f),
            decreases 8 - rank,
        {
            let mut file: usize = 0;
            while file < 8
                invariant
                    rank < 8,
                    file <= 8,
                    in_check(self@),
                    forall|r: int, f: int|
                        in_bounds(r, f) && r * 8 + f < rank * 8 + file ==> !side_has_move_from(
                            self@,
                            r,
                            f,
                        ),
                decreases 8 - file,
            {
                let pos = self.board.at(rank, file);
                let own = match pos {
                    Position::Occupied(_, c) => c == self.to_move,
                    _ => false,
                };
                if own {
                    let mm = self.legal_moves(rank, file);
                    if mm.len() > 0 {
                        proof {
                            let m = mm@[0];
                            assert(Some(m) == legal_move_at(
                                self@,
                                rank as int,
                                file as int,
                                m.to_rank as int,
                                m.to_file as int,
                            ));
                            assert(m.to_rank < 8 && m.to_file < 8);
                            assert(in_bounds(m.to_rank as int, m.to_file as int)
                                && legal_move_at(
                                self@,
                                rank as int,
                                file as int,
                                m.to_rank as int,
                                m.to_file as int,
                            ) is Some);
                            assert(sq_at(self@.board, rank as int, file as int) == pos);
                            assert(side_has_move_from(self@, rank as int, file as int));
                            assert(in_bounds(rank as int, file as int) && side_has_move_from(
                                self@,
                                rank as int,
                                file as int,
                            ));
                            assert(exists|r: int, f: int|
                                in_bounds(r, f) && side_has_move_from(self@, r, f));
                        }
                        return false;
                    }
                    proof {
                        assert forall|nr: int, nf: int| in_bounds(nr, nf) implies !(
                        legal_move_at(self@, rank as int, file as int, nr, nf) is Some) by {
                            if legal_move_at(self@, rank as int, file as int, nr, nf) is Some {
                                assert(mm.contains_dest(nr, nf));
                            }
                        }
                        assert(!side_has_move_from(self@, rank as int, file as int));
                    }
                }
                file += 1;
            }
            rank += 1;
        }
        true
    }
}

/// The algebraic notation of a move played in a position: the castle
/// notations for the two castling moves; otherwise the piece letter (for a
/// pawn, its file letter instead), an `x` when capturing, the destination
/// square (a pawn advance names only its rank), then `#` when the move
/// mates, else one `+` for each piece giving check.  Two like pieces able
/// to reach the same square are not disambiguated.
pub open spec fn move_string_spec(fen: FenS, m: Move) -> Seq<char> {
    if m.piece is King && is_ks_castle(m) {
        seq!['O', '-', 'O']
    } else if m.piece is King && is_qs_castle(m) {
        seq!['O', '-', 'O', '-', 'O']
    } else {
        let head = match m.piece.to_char() {
            Some(pc) => seq![pc],
            None => seq![file_char_spec(m.from_file as int)],
        };
        let cap = if m.capture is Some {
            seq!['x']
        } else {
            Seq::<char>::empty()
        };
        let dfile = if !(m.piece is Pawn && m.capture is None) {
            seq![file_char_spec(m.to_file as int)]
        } else {
            Seq::<char>::empty()
        };
        let drank = seq![rank_char_spec(m.to_rank as int)];
        let tail = if is_mate_spec(fen_apply_spec(fen, m)) {
            seq!['#']
        } else {
            Seq::new(m.check_cnt as nat, |k: int| '+')
        };
        head + cap + dfile + drank + tail
    }
}

impl Fen {
    /// The algebraic notation of the given move played in this position.
    pub fn move_string(&self, mov: Move) -> (s: String)
        requires
            move_in_bounds(mov),
        ensures
            s@ == move_string_spec(self@, mov),
    {
        let mut ms = String::new();
        if mov.piece == Piece::King {
            if (mov.colour == Colour::Black && mov.from_rank == 0 && mov.from_file == 4
                && mov.to_rank == 0 && mov.to_file == 6) || (mov.colour == Colour::White
                && mov.from_rank == 7 && mov.from_file == 4 && mov.to_rank == 7 && mov.to_file
                == 6) {
                push_char(&mut ms, 'O');
                push_char(&mut ms, '-');
                push_char(&mut ms, 'O');
                proof {
                    assert(ms@ =~= seq!['O', '-', 'O']);
                }
                return ms;
            } else if (mov.colour == Colour::Black && mov.from_rank == 0 && mov.from_file == 4
                && mov.to_rank == 0 && mov.to_file == 2) || (mov.colour == Colour::White
                && mov.from_rank == 7 && mov.from_file == 4 && mov.to_rank == 7 && mov.to_file
                == 2) {
                push_char(&mut ms, 'O');
                push_char(&mut ms, '-');
                push_char(&mut ms, 'O');
                push_char(&mut ms, '-');
                push_char(&mut ms, 'O');
                proof {
                    assert(ms@ =~= seq!['O', '-', 'O', '-', 'O']);
                }
                return ms;
            }
        }
        match mov.piece.to_char() {
            Some(pc) => push_char(&mut ms, pc),
            None => push_char(&mut ms, file_to_char(mov.from_file)),
        }
        if mov.capture.is_some() {
            push_char(&mut ms, 'x');
        }
        if !(mov.piece == Piece::Pawn && mov.capture.is_none()) {
            push_char(&mut ms, file_to_char(mov.to_file));
        }
        push_char(&mut ms, rank_to_char(mov.to_rank));
        let ghost body = ms@;
        let new_fen = self.apply_move(mov);
        if new_fen.is_mate() {
            push_char(&mut ms, '#');
        } else {
            let mut i: usize = 0;
            while i < mov.check_cnt
                invariant
                    i <= mov.check_cnt,
                    ms@ == body + Seq::new(i as nat, |k: int| '+'),
                decreases mov.check_cnt - i,
            {
                push_char(&mut ms, '+');
                proof {
                    assert(ms@ =~= body + Seq::new((i + 1) as nat, |k: int| '+'));
                }
                i += 1;
            }
        }
        proof {
            assert(ms@ =~= move_string_spec(self@, mov));
        }
        ms
    }
}

} // verus!
