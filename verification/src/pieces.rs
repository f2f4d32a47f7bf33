//! Piece kinds, colours, and the state of a single square.

use vstd::prelude::*;

verus! {

/// The six kinds of chess piece.
#[derive(Clone, Copy, PartialEq, Eq, Structural, Debug)]
pub enum Piece {
    Pawn,
    Rook,
    Knight,
    Bishop,
    King,
    Queen,
}

impl Piece {
    /// The letter used for this piece in algebraic notation; pawns have none.
    pub open spec fn to_char_spec(self) -> Option<char> {
        match self {
            Piece::Pawn => None,
            Piece::Rook => Some('R'),
            Piece::Knight => Some('N'),
            Piece::Bishop => Some('B'),
            Piece::King => Some('K'),
            Piece::Queen => Some('Q'),
        }
    }

    #[verifier::when_used_as_spec(to_char_spec)]
    pub fn to_char(self) -> (c: Option<char>)
        ensures
            c == self.to_char_spec(),
    {
        match self {
            Piece::Pawn => None,
            Piece::Rook => Some('R'),
            Piece::Knight => Some('N'),
            Piece::Bishop => Some('B'),
            Piece::King => Some('K'),
            Piece::Queen => Some('Q'),
        }
    }
}

/// The two sides.
#[derive(Clone, Copy, PartialEq, Eq, Structural, Debug)]
pub enum Colour {
    White,
    Black,
}

impl Colour {
    /// The other side.
    pub open spec fn opposite_spec(self) -> Colour {
        match self {
            Colour::White => Colour::Black,
            Colour::Black => Colour::White,
        }
    }

    #[verifier::when_used_as_spec(opposite_spec)]
    pub fn opposite(self) -> (c: Colour)
        ensures
            c == self.opposite_spec(),
    {
        match self {
            Colour::White => Colour::Black,
            Colour::Black => Colour::White,
        }
    }
}

/// What a single square of the board holds.  A `Picked` square carries a
/// piece that has been lifted for an in-progress drag: sliding-piece scans
/// treat it as empty, and it is restored to `Occupied` when the interaction
/// is cancelled.
#[derive(Clone, Copy, PartialEq, Eq, Structural, Debug)]
pub enum Position {
    Empty,
    Occupied(Piece, Colour),
    Picked(Piece, Colour),
}

/// The number of ranks and files of the board.
pub const BOARD_SIZE: usize = 8;

/// The digit naming a rank in algebraic notation; rank 0 is Black's back
/// rank, written `8`.
pub open spec fn rank_char_spec(rank: int) -> char {
    if rank == 0 {
        '8'
    } else if rank == 1 {
        '7'
    } else if rank == 2 {
        '6'
    } else if rank == 3 {
        '5'
    } else if rank == 4 {
        '4'
    } else if rank == 5 {
        '3'
    } else if rank == 6 {
        '2'
    } else {
        '1'
    }
}

pub fn rank_to_char(rank: usize) -> (c: char)
    requires
        rank < 8,
    ensures
        c == rank_char_spec(rank as int),
{
    match rank {
        0 => '8',
        1 => '7',
        2 => '6',
        3 => '5',
        4 => '4',
        5 => '3',
        6 => '2',
        _ => '1',
    }
}

/// The letter naming a file in algebraic notation; file 0 is written `a`.
pub open spec fn file_char_spec(file: int) -> char {
    if file == 0 {
        'a'
    } else if file == 1 {
        'b'
    } else if file == 2 {
        'c'
    } else if file == 3 {
        'd'
    } else if file == 4 {
        'e'
    } else if file == 5 {
        'f'
    } else if file == 6 {
        'g'
    } else {
        'h'
    }
}

pub fn file_to_char(file: usize) -> (c: char)
    requires
        file < 8,
    ensures
        c == file_char_spec(file as int),
{
    match file {
        0 => 'a',
        1 => 'b',
        2 => 'c',
        3 => 'd',
        4 => 'e',
        5 => 'f',
        6 => 'g',
        _ => 'h',
    }
}

} // verus!
