//! The game facade: the current position as the platform layer sees it,
//! every mutation funnelled through the history tree.

use vstd::prelude::*;
use crate::pieces::{Colour, Piece, Position};
use crate::board::{Board, has_king, in_bounds, king_pos_from, move_in_bounds, sq_idx};
use crate::fen::{Fen, FenS, legal_move_at, moves_consistent};
use crate::moves::{Move, MoveMap};
use crate::tree::{
    FenTree, NodeS, TreeS, node_of, tree_apply_spec, tree_back_spec, tree_forward_move_spec,
    tree_forward_spec, tree_next_variation_spec, tree_prev_variation_spec,
};

verus! {

/// The piece standing on a back-rank file in the starting position.
pub open spec fn back_rank_piece(f: int) -> Piece {
    if f == 0 || f == 7 {
        Piece::Rook
    } else if f == 1 || f == 6 {
        Piece::Knight
    } else if f == 2 || f == 5 {
        Piece::Bishop
    } else if f == 3 {
        Piece::Queen
    } else {
        Piece::King
    }
}

/// Square i of the standard starting array: Black's pieces on ranks 0 and
/// 1, White's on ranks 6 and 7.
pub open spec fn start_square(i: int) -> Position {
    let r = i / 8;
    let f = i % 8;
    if r == 0 {
        Position::Occupied(back_rank_piece(f), Colour::Black)
    } else if r == 1 {
        Position::Occupied(Piece::Pawn, Colour::Black)
    } else if r == 6 {
        Position::Occupied(Piece::Pawn, Colour::White)
    } else if r == 7 {
        Position::Occupied(back_rank_piece(f), Colour::White)
    } else {
        Position::Empty
    }
}

/// The standard starting position: the standard array, White to move, all
/// four castling rights held, no en-passant target, a fresh half-move
/// clock and move counter 1.
pub open spec fn start_fen() -> FenS {
    FenS {
        board: Seq::new(64, |i: int| start_square(i)),
        to_move: Colour::White,
        white_king_castle: true,
        white_queen_castle: true,
        black_king_castle: true,
        black_queen_castle: true,
        en_passant: None,
        halfmove_clock: 0,
        move_cnt: 1,
    }
}

/// The piece standing on a back-rank file in the starting position.
fn back_rank_piece_exec(f: usize) -> (p: Piece)
    requires
        f < 8,
    ensures
        p == back_rank_piece(f as int),
{
    match f {
        0 | 7 => Piece::Rook,
        1 | 6 => Piece::Knight,
        2 | 5 => Piece::Bishop,
        3 => Piece::Queen,
        _ => Piece::King,
    }
}

/// The standard starting position.
pub fn starting_position() -> (fen: Fen)
    ensures
        fen@ == start_fen(),
{
    let mut b = Board::empty();
    let mut i: usize = 0;
    while i < 64
        invariant
            i <= 64,
            forall|j: int| 0 <= j < i ==> b@[j] == start_square(j),
            forall|j: int| i <= j < 64 ==> b@[j] is Empty,
        decreases 64 - i,
    {
        let r = i / 8;
        let f = i % 8;
        let p = if r == 0 {
            Position::Occupied(back_rank_piece_exec(f), Colour::Black)
        } else if r == 1 {
            Position::Occupied(Piece::Pawn, Colour::Black)
        } else if r == 6 {
            Position::Occupied(Piece::Pawn, Colour::White)
        } else if r == 7 {
            Position::Occupied(back_rank_piece_exec(f), Colour::White)
        } else {
            Position::Empty
        };
        b.0[i] = p;
        i += 1;
    }
    let fen = Fen {
        board: b,
        to_move: Colour::White,
        white_king_castle: true,
        white_queen_castle: true,
        black_king_castle: true,
        black_queen_castle: true,
        en_passant: None,
        halfmove_clock: 0,
        move_cnt: 1,
    };
    proof {
        assert(fen@.board =~= start_fen().board);
        assert(fen@ =~~= start_fen());
    }
    fen
}

/// The position of the current node of a tree.
pub open spec fn cur_fen(t: TreeS) -> FenS {
    node_of(t, t.curr).fen
}

/// The game: the history tree behind the current position, the one
/// component the platform layer touches.
#[derive(Debug)]
pub struct Game {
    tree: FenTree,
}

impl View for Game {
    type V = TreeS;

    closed spec fn view(&self) -> TreeS {
        self.tree@
    }
}

impl Game {
    /// The tree invariant, established by `new` and preserved by every
    /// navigation and move method.
    pub closed spec fn wf(&self) -> bool {
        self.tree.wf()
    }

    /// A fresh game at the standard starting position.
    pub fn new() -> (g: Game)
        ensures
            g.wf(),
            g@.root == 0,
            g@.curr == 0,
            g@.nodes =~= seq![
                Some(
                    NodeS {
                        fen: start_fen(),
                        is_check: false,
                        is_mate: false,
                        parent: None,
                        children: Seq::<(Move, int)>::empty(),
                        next_child: None,
                    },
                ),
            ],
    {
        let fen = starting_position();
        let tree = FenTree::new(fen, false, false);
        Game { tree }
    }

    /// The current board.
    pub fn board(&self) -> (b: &Board)
        requires
            self.wf(),
        ensures
            b@ == cur_fen(self@).board,
    {
        &self.tree.curr_fen().board
    }

    /// A mutable borrow of the current board, for the platform layer's
    /// picked-piece interaction; the history and metadata are untouched.
    pub fn board_mut(&mut self) -> (b: &mut Board)
        requires
            old(self).wf(),
        ensures
            (*b)@ == cur_fen(old(self)@).board,
            final(self)@.root == old(self)@.root,
            final(self)@.curr == old(self)@.curr,
            final(self)@.nodes =~= old(self)@.nodes.update(
                old(self)@.curr,
                Some(
                    NodeS {
                        fen: FenS {
                            board: (*final(b))@,
                            ..cur_fen(old(self)@)
                        },
                        ..node_of(old(self)@, old(self)@.curr)
                    },
                ),
            ),
    {
        &mut self.tree.curr_fen_mut().board
    }

    /// The side to move.
    pub fn to_move(&self) -> (c: Colour)
        requires
            self.wf(),
        ensures
            c == cur_fen(self@).to_move,
    {
        self.tree.curr_fen().to_move
    }

    /// The legal moves of the piece on (rank, file) in the current
    /// position, keyed by destination.
    pub fn legal_moves(&self, rank: usize, file: usize) -> (mm: MoveMap)
        requires
            self.wf(),
            rank < 8,
            file < 8,
        ensures
            mm.wf(),
            moves_consistent(cur_fen(self@), rank as int, file as int, mm@),
            forall|nr: int, nf: int|
                in_bounds(nr, nf) && legal_move_at(cur_fen(self@), rank as int, file as int, nr,
                nf) is Some ==> mm.contains_dest(nr, nf),
    {
        self.tree.curr_fen().legal_moves(rank, file)
    }

    /// Plays a move from the current position, as the history tree
    /// records it.
    pub fn apply_move(&mut self, mov: Move)
        requires
            old(self).wf(),
            move_in_bounds(mov),
        ensures
            final(self).wf(),
            final(self)@ == tree_apply_spec(old(self)@, mov),
    {
        self.tree.apply_move(mov);
    }

    /// Steps back one move; nothing at the starting position.
    pub fn back(&mut self)
        requires
            old(self).wf(),
        ensures
            final(self).wf(),
            final(self)@ == tree_back_spec(old(self)@),
    {
        self.tree.unapply_move();
    }

    /// Replays one move forward along the last-explored line and returns
    /// it; nothing at the end of a line.
    pub fn forward(&mut self) -> (res: Option<Move>)
        requires
            old(self).wf(),
        ensures
            final(self).wf(),
            final(self)@ == tree_forward_spec(old(self)@),
            res == tree_forward_move_spec(old(self)@),
    {
        self.tree.next_move()
    }

    /// Switches to the next sibling variation of the current node.
    pub fn next_variation(&mut self)
        requires
            old(self).wf(),
        ensures
            final(self).wf(),
            final(self)@ == tree_next_variation_spec(old(self)@),
    {
        self.tree.next_variation();
    }

    /// Switches to the previous sibling variation of the current node.
    pub fn prev_variation(&mut self)
        requires
            old(self).wf(),
        ensures
            final(self).wf(),
            final(self)@ == tree_prev_variation_spec(old(self)@),
    {
        self.tree.prev_variation();
    }

    /// Whether the side to move stands in check, as recorded when the
    /// current position was reached.
    pub fn is_check(&self) -> (b: bool)
        requires
            self.wf(),
        ensures
            b == node_of(self@, self@.curr).is_check,
    {
        self.tree.curr_is_check()
    }

    /// The square of the side to move's king.  A game holds both kings in
    /// every position reached by its own moves.
    pub fn king_position(&self) -> (rf: (usize, usize))
        requires
            self.wf(),
            has_king(cur_fen(self@).board, cur_fen(self@).to_move),
        ensures
            rf.0 < 8 && rf.1 < 8,
            king_pos_from(cur_fen(self@).board, 0, cur_fen(self@).to_move) == Some(
                sq_idx(rf.0 as int, rf.1 as int),
            ),
    {
        let fen = self.tree.curr_fen();
        fen.board.king_position(fen.to_move)
    }
}

/// The board edge in pixels: the largest multiple of the board's eight
/// files that fits both window dimensions.
pub fn board_size(width: u32, height: u32) -> (s: u32)
    ensures
        s == (if width <= height {
            width as int
        } else {
            height as int
        }) / 8 * 8,
{
    let min_dim = if width <= height {
        width
    } else {
        height
    };
    let res = min_dim % 8;
    min_dim - res
}

/// One choice offered while a promotion is pending: a piece drawn on a
/// square of the choice column.
#[derive(Clone, Copy, PartialEq, Eq, Structural, Debug)]
pub struct PromotionPiece {
    pub rank: usize,
    pub file: usize,
    pub piece: Piece,
    pub colour: Colour,
    pub highlighted: bool,
}

/// A pending promotion: the move waiting for its piece, and the four
/// choices laid out down the destination file.
#[derive(Debug)]
pub struct PromotionState {
    pub mov: Move,
    pub pieces: Vec<PromotionPiece>,
}

/// The choice shown on rank i of the promotion column.
pub open spec fn promotion_choice(m: Move, i: int) -> PromotionPiece {
    PromotionPiece {
        rank: i as usize,
        file: m.to_file,
        piece: if i == 0 {
            Piece::Queen
        } else if i == 1 {
            Piece::Knight
        } else if i == 2 {
            Piece::Rook
        } else {
            Piece::Bishop
        },
        colour: m.colour,
        highlighted: false,
    }
}

impl PromotionState {
    /// The pending promotion of a move: queen, knight, rook and bishop of
    /// the mover's colour, laid out from the top of the destination file.
    pub fn new(mov: Move) -> (ps: PromotionState)
        ensures
            ps.mov == mov,
            ps.pieces@.len() == 4,
            forall|i: int| 0 <= i < 4 ==> ps.pieces@[i] == promotion_choice(mov, i),
    {
        let mut pieces: Vec<PromotionPiece> = Vec::new();
        pieces.push(
            PromotionPiece {
                rank: 0,
                file: mov.to_file,
                piece: Piece::Queen,
                colour: mov.colour,
                highlighted: false,
            },
        );
        pieces.push(
            PromotionPiece {
                rank: 1,
                file: mov.to_file,
                piece: Piece::Knight,
                colour: mov.colour,
                highlighted: false,
            },
        );
        pieces.push(
            PromotionPiece {
                rank: 2,
                file: mov.to_file,
                piece: Piece::Rook,
                colour: mov.colour,
                highlighted: false,
            },
        );
        pieces.push(
            PromotionPiece {
                rank: 3,
                file: mov.to_file,
                piece: Piece::Bishop,
                colour: mov.colour,
                highlighted: false,
            },
        );
        PromotionState { mov, pieces }
    }

    /// The promotion choice laid on the given square, if any.
    pub fn choice_at(&self, rank: usize, file: usize) -> (res: Option<(Piece, Colour)>)
        ensures
            match res {
                Some((p, c)) => exists|i: int|
                    0 <= i < self.pieces@.len() && self.pieces@[i].rank == rank
                        && self.pieces@[i].file == file && (#[trigger] self.pieces@[i]).piece == p
                        && self.pieces@[i].colour == c,
                None => forall|i: int|
                    0 <= i < self.pieces@.len() ==> !((#[trigger] self.pieces@[i]).rank == rank
                        && self.pieces@[i].file == file),
            },
    {
        let mut i: usize = 0;
        while i < self.pieces.len()
            invariant
                i <= self.pieces@.len(),
                forall|j: int|
                    0 <= j < i ==> !((#[trigger] self.pieces@[j]).rank == rank
                        && self.pieces@[j].file == file),
            decreases self.pieces@.len() - i,
        {
            let pp = self.pieces[i];
            if pp.rank == rank && pp.file == file {
                return Some((pp.piece, pp.colour));
            }
            i += 1;
        }
        None
    }
}

} // verus!
