//! Moves: an immutable record of a single ply, and a small map from
//! destination squares to moves.

use vstd::prelude::*;
use crate::pieces::{Colour, Piece};

verus! {

/// A piece removed from the board by a move.  Its square differs from the
/// move's destination only for an en-passant capture.
#[derive(Clone, Copy, PartialEq, Eq, Structural, Debug)]
pub struct CapturedPiece {
    pub piece: Piece,
    pub colour: Colour,
    pub rank: usize,
    pub file: usize,
}

/// A promotion choice supplied after a pawn reaches the last rank.
#[derive(Clone, Copy, PartialEq, Eq, Structural, Debug)]
pub struct PromotionChoice {
    pub piece: Piece,
    pub colour: Colour,
}

/// A single ply: the moved piece, its colour, source and destination
/// squares, an optional capture, the number of checking pieces the move
/// creates against the opponent, whether the move may still promote, and
/// the promotion finally chosen.
#[derive(Clone, Copy, PartialEq, Eq, Structural, Debug)]
pub struct Move {
    pub piece: Piece,
    pub colour: Colour,
    pub from_rank: usize,
    pub from_file: usize,
    pub to_rank: usize,
    pub to_file: usize,
    pub capture: Option<CapturedPiece>,
    pub check_cnt: usize,
    pub may_promote: bool,
    pub promotion: Option<PromotionChoice>,
}

impl Move {
    /// Whether the move captures a piece.
    pub open spec fn has_capture_spec(&self) -> bool {
        self.capture is Some
    }

    #[verifier::when_used_as_spec(has_capture_spec)]
    pub fn has_capture(&self) -> (b: bool)
        ensures
            b == self.has_capture_spec(),
    {
        self.capture.is_some()
    }

    /// Whether the move gives check.
    pub open spec fn has_check_spec(&self) -> bool {
        self.check_cnt > 0
    }

    #[verifier::when_used_as_spec(has_check_spec)]
    pub fn has_check(&self) -> (b: bool)
        ensures
            b == self.has_check_spec(),
    {
        self.check_cnt > 0
    }

    /// Whether the move is a pawn move onto the last rank, whose promotion
    /// piece is still to be chosen.
    pub fn may_promote(&self) -> (b: bool)
        ensures
            b == self.may_promote,
    {
        self.may_promote
    }

    /// Records the promotion chosen for this move.
    pub fn set_promotion(&mut self, piece: Piece, colour: Colour)
        ensures
            *final(self) == (Move {
                promotion: Some(PromotionChoice { piece, colour }),
                ..*old(self)
            }),
    {
        self.promotion = Some(PromotionChoice { piece, colour });
    }

    /// The destination square.
    pub fn to(&self) -> (rf: (usize, usize))
        ensures
            rf.0 == self.to_rank,
            rf.1 == self.to_file,
    {
        (self.to_rank, self.to_file)
    }

    /// The colour of the moved piece.
    pub fn colour(&self) -> (c: Colour)
        ensures
            c == self.colour,
    {
        self.colour
    }
}

/// The legal moves generated for one square, keyed by destination.
/// Destinations are pairwise distinct, so the collection is a map from
/// destination square to move.
#[derive(Debug)]
pub struct MoveMap {
    items: Vec<Move>,
}

impl View for MoveMap {
    type V = Seq<Move>;

    closed spec fn view(&self) -> Seq<Move> {
        self.items@
    }
}

impl MoveMap {
    /// Destinations are in bounds and pairwise distinct.
    pub open spec fn wf(self) -> bool {
        &&& forall|i: int|
            0 <= i < self@.len() ==> self@[i].to_rank < 8 && self@[i].to_file < 8
        &&& forall|i: int, j: int|
            0 <= i < j < self@.len() ==> !(self@[i].to_rank == self@[j].to_rank
                && self@[i].to_file == self@[j].to_file)
    }

    /// Whether some move in the map goes to the given square.
    pub open spec fn contains_dest(self, nr: int, nf: int) -> bool {
        exists|i: int|
            0 <= i < self@.len() && self@[i].to_rank == nr && self@[i].to_file == nf
    }

    pub fn new() -> (mm: MoveMap)
        ensures
            mm@ =~= Seq::<Move>::empty(),
    {
        MoveMap { items: Vec::new() }
    }

    pub fn len(&self) -> (n: usize)
        ensures
            n == self@.len(),
    {
        self.items.len()
    }

    pub fn is_empty(&self) -> (b: bool)
        ensures
            b == (self@.len() == 0),
    {
        self.items.len() == 0
    }

    /// The move with the given index.
    pub fn index(&self, i: usize) -> (m: Move)
        requires
            i < self@.len(),
        ensures
            m == self@[i as int],
    {
        self.items[i]
    }

    /// The move to the given destination, if the map holds one.
    pub fn get(&self, nr: usize, nf: usize) -> (res: Option<Move>)
        ensures
            match res {
                Some(m) => exists|i: int|
                    0 <= i < self@.len() && self@[i] == m && m.to_rank == nr
                        && m.to_file == nf,
                None => !self.contains_dest(nr as int, nf as int),
            },
    {
        let mut i: usize = 0;
        while i < self.items.len()
            invariant
                i <= self@.len(),
                forall|j: int|
                    0 <= j < i ==> !(self@[j].to_rank == nr && self@[j].to_file == nf),
            decreases self@.len() - i,
        {
            if self.items[i].to_rank == nr && self.items[i].to_file == nf {
                return Some(self.items[i]);
            }
            i += 1;
        }
        None
    }

    /// The index of the move to the given destination, if any.
    pub(crate) fn find_dest(&self, nr: usize, nf: usize) -> (res: Option<usize>)
        ensures
            match res {
                Some(i) => i < self@.len() && self@[i as int].to_rank == nr
                    && self@[i as int].to_file == nf,
                None => !self.contains_dest(nr as int, nf as int),
            },
    {
        let mut i: usize = 0;
        while i < self.items.len()
            invariant
                i <= self@.len(),
                forall|j: int|
                    0 <= j < i ==> !(self@[j].to_rank == nr && self@[j].to_file == nf),
            decreases self@.len() - i,
        {
            if self.items[i].to_rank == nr && self.items[i].to_file == nf {
                return Some(i);
            }
            i += 1;
        }
        None
    }

    pub(crate) fn push(&mut self, m: Move)
        ensures
            final(self)@ == old(self)@.push(m),
    {
        self.items.push(m);
    }

    pub(crate) fn set_at(&mut self, i: usize, m: Move)
        requires
            i < old(self)@.len(),
        ensures
            final(self)@ == old(self)@.update(i as int, m),
    {
        self.items.set(i, m);
    }
}

} // verus!
