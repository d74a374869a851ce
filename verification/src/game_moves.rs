//! Typed candidate moves, algebraic square labels, and move generation.

use crate::game_structures::{
    deserialize, lemma_squares_member, occupies, slot_of, squares_of, ChessBoard, GameErrors,
    Piece,
};
use vstd::prelude::*;
use vstd::string::StringExecFns;

verus! {

/// The category of a candidate move.
pub enum MoveType {
    Normal,
    Capture,
    Special,
}

/// The display name of each move category.
pub open spec fn move_type_label(t: MoveType) -> Seq<char> {
    match t {
        MoveType::Normal => "Normal"@,
        MoveType::Capture => "Capture"@,
        MoveType::Special => "Special"@,
    }
}

impl MoveType {
    /// The printable name of this category.
    pub fn name(&self) -> (r: &'static str)
        ensures
            r@ == move_type_label(*self),
    {
        match self {
            MoveType::Normal => "Normal",
            MoveType::Capture => "Capture",
            MoveType::Special => "Special",
        }
    }
}

/// A candidate move: a category, an origin square, and a destination square.
/// The generator does not bound-check destinations against the grid edges.
pub struct Move {
    pub move_type: MoveType,
    pub from: u8,
    pub to: u8,
}

/// The file letter of square `s`: A for file 0 through H for file 7, the
/// file being `s % 8`.
pub open spec fn file_label(s: int) -> Seq<char> {
    if s % 8 == 0 {
        "A"@
    } else if s % 8 == 1 {
        "B"@
    } else if s % 8 == 2 {
        "C"@
    } else if s % 8 == 3 {
        "D"@
    } else if s % 8 == 4 {
        "E"@
    } else if s % 8 == 5 {
        "F"@
    } else if s % 8 == 6 {
        "G"@
    } else {
        "H"@
    }
}

/// The rank digit of square `s`: `8 - s / 8`.
pub open spec fn rank_label(s: int) -> Seq<char> {
    if s / 8 == 0 {
        "8"@
    } else if s / 8 == 1 {
        "7"@
    } else if s / 8 == 2 {
        "6"@
    } else if s / 8 == 3 {
        "5"@
    } else if s / 8 == 4 {
        "4"@
    } else if s / 8 == 5 {
        "3"@
    } else if s / 8 == 6 {
        "2"@
    } else {
        "1"@
    }
}

/// The algebraic label of square `s`: its file letter then its rank digit.
pub open spec fn square_label(s: int) -> Seq<char> {
    file_label(s) + rank_label(s)
}

/// Converts a square index to its algebraic label, the file from `n % 8` and
/// the rank from `8 - n / 8`. Callers keep `n` below 64.
pub fn getboard_index(n: u8) -> (r: String)
    requires
        n < 64,
    ensures
        r@ == square_label(n as int),
{
    let file: &'static str = match n % 8 {
        0 => "A",
        1 => "B",
        2 => "C",
        3 => "D",
        4 => "E",
        5 => "F",
        6 => "G",
        _ => "H",
    };
    let rank: &'static str = match n / 8 {
        0 => "8",
        1 => "7",
        2 => "6",
        3 => "5",
        4 => "4",
        5 => "3",
        6 => "2",
        _ => "1",
    };
    let mut s = file.to_owned();
    s.append(rank);
    s
}

/// The rendered form of a move: its category name, then its origin and
/// destination squares in algebraic notation.
pub open spec fn move_label(m: Move) -> Seq<char> {
    move_type_label(m.move_type) + " Move from "@ + square_label(m.from as int) + " => "@
        + square_label(m.to as int)
}

impl Move {
    /// Renders the move as "<Category> Move from <origin> => <destination>".
    /// Callers keep both squares below 64.
    pub fn render(&self) -> (r: String)
        requires
            self.from < 64,
            self.to < 64,
        ensures
            r@ == move_label(*self),
    {
        let mut s = self.move_type.name().to_owned();
        s.append(" Move from ");
        let from_square = getboard_index(self.from);
        s.append(from_square.as_str());
        s.append(" => ");
        let to_square = getboard_index(self.to);
        s.append(to_square.as_str());
        proof {
            assert(s@ =~= move_label(*self));
        }
        s
    }
}

/// The three candidate moves of a pawn standing on square `p`: one forward
/// step and two diagonal captures, White toward decreasing squares, Black
/// toward increasing ones, with no edge masking.
pub open spec fn pawn_moves_from(side: bool, p: usize) -> Seq<Move> {
    if !side {
        seq![
            (Move { move_type: MoveType::Normal, from: p as u8, to: (p + 8) as u8 }),
            (Move { move_type: MoveType::Capture, from: p as u8, to: (p + 9) as u8 }),
            (Move { move_type: MoveType::Capture, from: p as u8, to: (p + 7) as u8 }),
        ]
    } else {
        seq![
            (Move { move_type: MoveType::Normal, from: p as u8, to: (p - 8) as u8 }),
            (Move { move_type: MoveType::Capture, from: p as u8, to: (p - 9) as u8 }),
            (Move { move_type: MoveType::Capture, from: p as u8, to: (p - 7) as u8 }),
        ]
    }
}

/// All candidate pawn moves of a side, three per origin square, in origin
/// order.
pub open spec fn pawn_moves(side: bool, origins: Seq<usize>) -> Seq<Move>
    decreases origins.len(),
{
    if origins.len() == 0 {
        Seq::empty()
    } else {
        pawn_moves(side, origins.drop_last()) + pawn_moves_from(side, origins.last())
    }
}

/// Generates the candidate moves for `piece` on `board`. Pawn generation is
/// implemented: the pawn board of the requested side is decoded into origin
/// squares and each origin yields its three unconditioned moves. Every other
/// kind reports a typed failure instead of aborting. A Black pawn board may
/// hold no square below 9, since a move toward decreasing squares could not
/// be represented from there.
pub fn get_moves(board: ChessBoard, piece: Piece) -> (r: Result<Vec<Move>, GameErrors>)
    requires
        piece matches Piece::P(side) ==> (side ==> forall|s: int|
            0 <= s < 64 && occupies(board@[slot_of(piece)].board, s) ==> s >= 9),
    ensures
        piece matches Piece::P(side) ==> (r matches Ok(moves) && moves@ == pawn_moves(
            side,
            squares_of(board@[slot_of(piece)].board),
        )),
        (piece is K || piece is Q || piece is R || piece is B || piece is N) ==> (r matches Err(e)
            && e is UnsupportedPiece),
        piece is Multiple ==> (r matches Err(e) && e is NoPieceBoard),
{
    match piece {
        Piece::P(side) => {
            let bb = match board.get_board(Piece::P(side)) {
                Ok(b) => b,
                Err(_) => unreached(),
            };
            let ghost mask = bb.board;
            let (_, positions) = deserialize(bb);
            proof {
                assert forall|j: int| 0 <= j < positions@.len() implies positions@[j] < 64 && (side
                    ==> positions@[j] >= 9) by {
                    assert(positions@.contains(positions@[j]));
                    lemma_squares_member(mask, positions@[j]);
                }
            }
            let mut moves: Vec<Move> = Vec::new();
            let mut i: usize = 0;
            while i < positions.len()
                invariant
                    i <= positions@.len(),
                    forall|j: int|
                        0 <= j < positions@.len() ==> positions@[j] < 64 && (side ==> positions@[j]
                            >= 9),
                    moves@ == pawn_moves(side, positions@.take(i as int)),
                decreases positions@.len() - i,
            {
                let p = positions[i];
                if !side {
                    moves.push(Move { move_type: MoveType::Normal, from: p as u8, to: (p + 8) as u8 });
                    moves.push(Move { move_type: MoveType::Capture, from: p as u8, to: (p + 9) as u8 });
                    moves.push(Move { move_type: MoveType::Capture, from: p as u8, to: (p + 7) as u8 });
                } else {
                    moves.push(Move { move_type: MoveType::Normal, from: p as u8, to: (p - 8) as u8 });
                    moves.push(Move { move_type: MoveType::Capture, from: p as u8, to: (p - 9) as u8 });
                    moves.push(Move { move_type: MoveType::Capture, from: p as u8, to: (p - 7) as u8 });
                }
                proof {
                    assert(positions@.take(i as int + 1).drop_last() =~= positions@.take(i as int));
                    assert(positions@.take(i as int + 1).last() == positions@[i as int]);
                    assert(moves@ =~= pawn_moves(side, positions@.take(i as int + 1)));
                }
                i = i + 1;
            }
            proof {
                assert(positions@.take(positions@.len() as int) =~= positions@);
            }
            Ok(moves)
        },
        Piece::B(_) => Err(GameErrors::UnsupportedPiece),
        Piece::K(_) => Err(GameErrors::UnsupportedPiece),
        Piece::N(_) => Err(GameErrors::UnsupportedPiece),
        Piece::Q(_) => Err(GameErrors::UnsupportedPiece),
        Piece::R(_) => Err(GameErrors::UnsupportedPiece),
        Piece::Multiple(_) => Err(GameErrors::NoPieceBoard),
    }
}

} // verus!
