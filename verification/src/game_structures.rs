//! Piece identities, occupancy bitboards, the square codec, board algebra,
//! and the standard chess position.

use vstd::prelude::*;

verus! {

/// Failures reported by board construction, lookup, and move generation.
#[derive(Debug)]
pub enum GameErrors {
    /// A square index beyond 63 was supplied.
    OutOfBound,
    /// No BitBoard slot exists for the requested piece identity.
    NoPieceBoard,
    /// Move generation is not implemented for the requested piece kind.
    UnsupportedPiece,
}

/// The text shown for each failure kind.
pub open spec fn error_label(e: GameErrors) -> Seq<char> {
    match e {
        GameErrors::OutOfBound => "Are you playing mind-chess? A chess board only has 64 squares"@,
        GameErrors::NoPieceBoard => "No BitBoard for chess piece"@,
        GameErrors::UnsupportedPiece => "No move generation for this chess piece"@,
    }
}

impl GameErrors {
    /// The printable message of this failure.
    pub fn message(&self) -> (r: &'static str)
        ensures
            r@ == error_label(*self),
    {
        match self {
            GameErrors::OutOfBound => "Are you playing mind-chess? A chess board only has 64 squares",
            GameErrors::NoPieceBoard => "No BitBoard for chess piece",
            GameErrors::UnsupportedPiece => "No move generation for this chess piece",
        }
    }
}

/// A piece identity: one of the six kinds, each carrying a side flag
/// (false = White, true = Black), or a composite of several identities.
/// Composites arise only from combining two BitBoards and stay flat:
/// a composite never holds another composite.
#[derive(PartialEq)]
pub enum Piece {
    K(bool),
    Q(bool),
    R(bool),
    B(bool),
    N(bool),
    P(bool),
    Multiple(Vec<Piece>),
}

/// Whether a piece identity is flat: a composite holds only simple members.
pub open spec fn is_flat(p: Piece) -> bool {
    match p {
        Piece::Multiple(v) => forall|i: int| 0 <= i < v@.len() ==> !((#[trigger] v@[i]) is Multiple),
        _ => true,
    }
}

/// The constituents of a piece identity: a composite's members, or the piece
/// itself as a one-element list.
pub open spec fn parts_of(p: Piece) -> Seq<Piece> {
    match p {
        Piece::Multiple(v) => v@,
        _ => seq![p],
    }
}

/// The name of a side: false renders as "White", true as "Black".
pub open spec fn side_label(side: bool) -> Seq<char> {
    if side {
        "Black"@
    } else {
        "White"@
    }
}

/// The rendering of a simple piece identity: the side name followed by the
/// kind name (the rook label carries a leading space). A composite has no
/// simple rendering and maps to the empty text.
pub open spec fn simple_label(p: Piece) -> Seq<char> {
    match p {
        Piece::K(side) => side_label(side) + " King"@,
        Piece::Q(side) => side_label(side) + " Queen"@,
        Piece::R(side) => " "@ + side_label(side) + " Rook"@,
        Piece::B(side) => side_label(side) + " Bishop"@,
        Piece::N(side) => side_label(side) + " Knight"@,
        Piece::P(side) => side_label(side) + " Pawn"@,
        Piece::Multiple(_) => Seq::empty(),
    }
}

/// The rendering of a constituent list: each member's simple rendering
/// followed by ", ", in order.
pub open spec fn joined_label(ps: Seq<Piece>) -> Seq<char>
    decreases ps.len(),
{
    if ps.len() == 0 {
        Seq::empty()
    } else {
        joined_label(ps.drop_last()) + simple_label(ps.last()) + ", "@
    }
}

/// The rendering of a piece identity: its simple rendering, or for a
/// composite the comma-joined listing of its members.
pub open spec fn piece_label(p: Piece) -> Seq<char> {
    match p {
        Piece::Multiple(v) => joined_label(v@),
        _ => simple_label(p),
    }
}

/// The rendering of a piece as one constituent of a composite listing: its
/// members' listings for a composite, itself followed by ", " otherwise.
pub open spec fn listing_label(p: Piece) -> Seq<char> {
    joined_label(parts_of(p))
}

/// The printable side name.
fn side_name(side: bool) -> (r: &'static str)
    ensures
        r@ == side_label(side),
{
    if side {
        "Black"
    } else {
        "White"
    }
}

/// Renders a simple piece identity.
fn simple_render(p: &Piece) -> (r: String)
    requires
        !(*p is Multiple),
    ensures
        r@ == simple_label(*p),
{
    match p {
        Piece::K(side) => {
            let mut s = side_name(*side).to_owned();
            s.append(" King");
            s
        },
        Piece::Q(side) => {
            let mut s = side_name(*side).to_owned();
            s.append(" Queen");
            s
        },
        Piece::R(side) => {
            let mut s = " ".to_owned();
            s.append(side_name(*side));
            s.append(" Rook");
            s
        },
        Piece::B(side) => {
            let mut s = side_name(*side).to_owned();
            s.append(" Bishop");
            s
        },
        Piece::N(side) => {
            let mut s = side_name(*side).to_owned();
            s.append(" Knight");
            s
        },
        Piece::P(side) => {
            let mut s = side_name(*side).to_owned();
            s.append(" Pawn");
            s
        },
        Piece::Multiple(_) => unreached(),
    }
}

impl Piece {
    /// Renders the identity: the side name and the kind name; a composite
    /// renders its members in order, each followed by ", ".
    pub fn render(&self) -> (r: String)
        requires
            is_flat(*self),
        ensures
            r@ == piece_label(*self),
    {
        match self {
            Piece::Multiple(v) => {
                let mut s = String::new();
                let mut i: usize = 0;
                while i < v.len()
                    invariant
                        is_flat(*self),
                        *self matches Piece::Multiple(w) && w@ == v@,
                        i <= v@.len(),
                        s@ == joined_label(v@.take(i as int)),
                    decreases v@.len() - i,
                {
                    let part = simple_render(&v[i]);
                    s.append(part.as_str());
                    s.append(", ");
                    proof {
                        assert(v@.take(i as int + 1).drop_last() =~= v@.take(i as int));
                        assert(v@.take(i as int + 1).last() == v@[i as int]);
                    }
                    i = i + 1;
                }
                proof {
                    assert(v@.take(v@.len() as int) =~= v@);
                }
                s
            },
            simple => simple_render(simple),
        }
    }
}

/// A 64-bit occupancy mask tagged with the piece identity it describes.
/// Bit `63 - s` of the mask stands for square `s` (squares run 0..64).
pub struct BitBoard {
    pub board: u64,
    pub piece: Piece,
}

/// The character of one binary digit.
pub open spec fn bit_char(b: int) -> char {
    if b == 1 {
        '1'
    } else {
        '0'
    }
}

/// The binary numeral of `m`, most significant digit first, with no leading
/// zeros; zero itself renders as "0".
pub open spec fn bin_label(m: u64) -> Seq<char>
    decreases m,
{
    if m < 2 {
        seq![bit_char(m as int)]
    } else {
        bin_label(m / 2).push(bit_char((m % 2) as int))
    }
}

/// The rendered form of a BitBoard: its piece identity, then its mask as a
/// binary numeral.
pub open spec fn bitboard_label(b: BitBoard) -> Seq<char> {
    piece_label(b.piece) + " BitBoard: "@ + bin_label(b.board)
}

/// Renders a mask as its binary numeral.
fn bin_string(m: u64) -> (r: String)
    ensures
        r@ == bin_label(m),
    decreases m,
{
    if m < 2 {
        let s = if m == 0 {
            "0".to_owned()
        } else {
            "1".to_owned()
        };
        proof {
            reveal_strlit("0");
            reveal_strlit("1");
            assert(s@ =~= bin_label(m));
        }
        s
    } else {
        let mut s = bin_string(m / 2);
        let digit: &'static str = if m % 2 == 1 {
            "1"
        } else {
            "0"
        };
        s.append(digit);
        proof {
            reveal_strlit("0");
            reveal_strlit("1");
            assert(s@ =~= bin_label(m));
        }
        s
    }
}

impl BitBoard {
    /// Renders the board as its piece identity followed by the occupancy
    /// mask in binary.
    pub fn render(&self) -> (r: String)
        requires
            is_flat(self.piece),
        ensures
            r@ == bitboard_label(*self),
    {
        let mut s = self.piece.render();
        s.append(" BitBoard: ");
        let bits = bin_string(self.board);
        s.append(bits.as_str());
        proof {
            assert(s@ =~= bitboard_label(*self));
        }
        s
    }
}

/// The mask bit that stands for square `s`: bit `63 - s`.
pub open spec fn square_bit(s: int) -> u64 {
    1u64 << ((63 - s) as u64)
}

/// Whether `mask` records square `s` as occupied.
pub open spec fn occupies(mask: u64, s: int) -> bool {
    mask & square_bit(s) != 0
}

/// The mask that records exactly the squares listed in `positions`.
pub open spec fn mask_of(positions: Seq<usize>) -> u64
    decreases positions.len(),
{
    if positions.len() == 0 {
        0u64
    } else {
        mask_of(positions.drop_last()) | square_bit(positions.last() as int)
    }
}

/// The squares below `n` that `mask` records, in increasing order.
pub open spec fn squares_below(mask: u64, n: int) -> Seq<usize>
    decreases n,
{
    if n <= 0 {
        Seq::empty()
    } else {
        let rest = squares_below(mask, n - 1);
        if occupies(mask, n - 1) {
            rest.push((n - 1) as usize)
        } else {
            rest
        }
    }
}

/// All squares that `mask` records, in increasing order.
pub open spec fn squares_of(mask: u64) -> Seq<usize> {
    squares_below(mask, 64)
}

/// Builds the occupancy mask with bit `63 - p` set for every listed square
/// `p`, tagged with `board_piece`. Duplicate squares are idempotent. Any
/// square beyond 63 fails the whole call with `OutOfBound`: no partial board
/// is produced.
pub fn serialize(board_piece: Piece, positions: Vec<usize>) -> (r: Result<BitBoard, GameErrors>)
    ensures
        (forall|i: int| 0 <= i < positions@.len() ==> positions@[i] <= 63) ==> (r matches Ok(b)
            && b.board == mask_of(positions@) && b.piece == board_piece),
        (exists|i: int| 0 <= i < positions@.len() && positions@[i] > 63) ==> (r matches Err(e)
            && e is OutOfBound),
{
    let mut mask: u64 = 0;
    let mut i: usize = 0;
    while i < positions.len()
        invariant
            i <= positions@.len(),
            forall|j: int| 0 <= j < i ==> positions@[j] <= 63,
            mask == mask_of(positions@.take(i as int)),
        decreases positions@.len() - i,
    {
        let p = positions[i];
        if p > 63 {
            return Err(GameErrors::OutOfBound);
        }
        let bit: u64 = 1u64 << ((63 - p) as u64);
        proof {
            assert(positions@.take(i as int + 1).drop_last() =~= positions@.take(i as int));
            assert(positions@.take(i as int + 1).last() == positions@[i as int]);
        }
        mask = mask | bit;
        i = i + 1;
    }
    proof {
        assert(positions@.take(positions@.len() as int) =~= positions@);
    }
    Ok(BitBoard { board: mask, piece: board_piece })
}

/// Reads a BitBoard back into its piece identity and the occupied squares,
/// scanning the mask from its most significant bit down, so the squares come
/// out in increasing order. This is the exact inverse of `serialize`'s
/// `63 - s` convention.
pub fn deserialize(board: BitBoard) -> (r: (Piece, Vec<usize>))
    ensures
        r.0 == board.piece,
        r.1@ == squares_of(board.board),
{
    let mask = board.board;
    let mut positions: Vec<usize> = Vec::new();
    let mut s: usize = 0;
    while s < 64
        invariant
            s <= 64,
            positions@ == squares_below(mask, s as int),
        decreases 64 - s,
    {
        let bit: u64 = 1u64 << ((63 - s) as u64);
        if mask & bit != 0 {
            positions.push(s);
        }
        s = s + 1;
    }
    (board.piece, positions)
}

/// Moves a piece identity into its constituent list: a composite gives up its
/// members, a simple piece becomes a one-element list.
fn into_parts(p: Piece) -> (r: Vec<Piece>)
    ensures
        r@ == parts_of(p),
{
    match p {
        Piece::Multiple(v) => v,
        simple => {
            let mut v: Vec<Piece> = Vec::new();
            v.push(simple);
            proof {
                assert(v@ =~= parts_of(p));
            }
            v
        },
    }
}

impl BitBoard {
    /// Union of two occupancy boards: the bitwise OR of both masks, tagged
    /// with the flat composite of both piece identities.
    pub fn union(self, other: Self) -> (r: Self)
        ensures
            r.board == self.board | other.board,
            r.piece matches Piece::Multiple(v) && v@ == parts_of(self.piece) + parts_of(
                other.piece,
            ),
            is_flat(self.piece) && is_flat(other.piece) ==> is_flat(r.piece),
    {
        let BitBoard { board: b1, piece: p1 } = self;
        let BitBoard { board: b2, piece: p2 } = other;
        let mut parts = into_parts(p1);
        let mut more = into_parts(p2);
        parts.append(&mut more);
        proof {
            lemma_flat_parts(self.piece, other.piece, parts@);
        }
        BitBoard { board: b1 | b2, piece: Piece::Multiple(parts) }
    }

    /// Intersection of two occupancy boards: the bitwise AND of both masks,
    /// tagged with the flat composite of both piece identities.
    pub fn intersect(self, other: Self) -> (r: Self)
        ensures
            r.board == self.board & other.board,
            r.piece matches Piece::Multiple(v) && v@ == parts_of(self.piece) + parts_of(
                other.piece,
            ),
            is_flat(self.piece) && is_flat(other.piece) ==> is_flat(r.piece),
    {
        let BitBoard { board: b1, piece: p1 } = self;
        let BitBoard { board: b2, piece: p2 } = other;
        let mut parts = into_parts(p1);
        let mut more = into_parts(p2);
        parts.append(&mut more);
        proof {
            lemma_flat_parts(self.piece, other.piece, parts@);
        }
        BitBoard { board: b1 & b2, piece: Piece::Multiple(parts) }
    }
}

/// The constituents of two flat identities joined are all simple, so the
/// composite built from them is flat again.
proof fn lemma_flat_parts(a: Piece, b: Piece, joined: Seq<Piece>)
    requires
        joined == parts_of(a) + parts_of(b),
    ensures
        is_flat(a) && is_flat(b) ==> forall|i: int|
            0 <= i < joined.len() ==> !((#[trigger] joined[i]) is Multiple),
{
    if is_flat(a) && is_flat(b) {
        assert forall|i: int| 0 <= i < joined.len() implies !((#[trigger] joined[i]) is Multiple) by {
            if i < parts_of(a).len() {
                assert(joined[i] == parts_of(a)[i]);
            } else {
                assert(joined[i] == parts_of(b)[i - parts_of(a).len()]);
            }
        }
    }
}

/// An aggregate of twelve BitBoards, one per (kind, side) pair. The white
/// slots come first (pawn, rook, knight, bishop, queen, king), then the black
/// slots in the same kind order.
pub struct ChessBoard {
    all_boards: [BitBoard; 12],
}

impl View for ChessBoard {
    type V = Seq<BitBoard>;

    closed spec fn view(&self) -> Seq<BitBoard> {
        self.all_boards@
    }
}

/// The slot of a simple piece identity: a side offset of 6 for Black, plus a
/// fixed per-kind index (pawn 0, rook 1, knight 2, bishop 3, queen 4,
/// king 5). A composite has no slot and is mapped outside the board.
pub open spec fn slot_of(piece: Piece) -> int {
    match piece {
        Piece::P(side) => if side { 6int } else { 0int },
        Piece::R(side) => if side { 7int } else { 1int },
        Piece::N(side) => if side { 8int } else { 2int },
        Piece::B(side) => if side { 9int } else { 3int },
        Piece::Q(side) => if side { 10int } else { 4int },
        Piece::K(side) => if side { 11int } else { 5int },
        Piece::Multiple(_) => -1int,
    }
}

/// The starting squares of each slot of the standard position.
pub open spec fn standard_squares(slot: int) -> Seq<usize> {
    if slot == 0 {
        seq![8usize, 9, 10, 11, 12, 13, 14, 15]
    } else if slot == 1 {
        seq![0usize, 7]
    } else if slot == 2 {
        seq![1usize, 6]
    } else if slot == 3 {
        seq![2usize, 5]
    } else if slot == 4 {
        seq![3usize]
    } else if slot == 5 {
        seq![4usize]
    } else if slot == 6 {
        seq![48usize, 49, 50, 51, 52, 53, 54, 55]
    } else if slot == 7 {
        seq![56usize, 63]
    } else if slot == 8 {
        seq![57usize, 62]
    } else if slot == 9 {
        seq![58usize, 61]
    } else if slot == 10 {
        seq![59usize]
    } else if slot == 11 {
        seq![60usize]
    } else {
        Seq::empty()
    }
}

/// The piece identity stored in each slot of the standard position.
pub open spec fn standard_piece(slot: int) -> Piece {
    if slot == 0 {
        Piece::P(false)
    } else if slot == 1 {
        Piece::R(false)
    } else if slot == 2 {
        Piece::N(false)
    } else if slot == 3 {
        Piece::B(false)
    } else if slot == 4 {
        Piece::Q(false)
    } else if slot == 5 {
        Piece::K(false)
    } else if slot == 6 {
        Piece::P(true)
    } else if slot == 7 {
        Piece::R(true)
    } else if slot == 8 {
        Piece::N(true)
    } else if slot == 9 {
        Piece::B(true)
    } else if slot == 10 {
        Piece::Q(true)
    } else if slot == 11 {
        Piece::K(true)
    } else {
        Piece::P(false)
    }
}

/// The occupancy mask of each slot of the standard position.
pub open spec fn standard_mask(slot: int) -> u64 {
    mask_of(standard_squares(slot))
}

/// The selection of initial position to build.
pub enum Board {
    Standard,
}

impl Board {
    /// Builds the standard starting position: twelve BitBoards, one per
    /// (kind, side) pair, each encoding its canonical starting squares.
    pub fn init(&self) -> (r: Result<ChessBoard, GameErrors>)
        ensures
            r matches Ok(cb) && cb@.len() == 12 && (forall|i: int|
                0 <= i < 12 ==> (#[trigger] cb@[i]).piece == standard_piece(i) && cb@[i].board
                    == standard_mask(i)),
    {
        let wp_squares: Vec<usize> = vec![8, 9, 10, 11, 12, 13, 14, 15];
        let wr_squares: Vec<usize> = vec![0, 7];
        let wn_squares: Vec<usize> = vec![1, 6];
        let wb_squares: Vec<usize> = vec![2, 5];
        let wq_squares: Vec<usize> = vec![3];
        let wk_squares: Vec<usize> = vec![4];
        let bp_squares: Vec<usize> = vec![48, 49, 50, 51, 52, 53, 54, 55];
        let br_squares: Vec<usize> = vec![56, 63];
        let bn_squares: Vec<usize> = vec![57, 62];
        let bb_squares: Vec<usize> = vec![58, 61];
        let bq_squares: Vec<usize> = vec![59];
        let bk_squares: Vec<usize> = vec![60];
        proof {
            assert(wp_squares@ =~= standard_squares(0));
            assert(wr_squares@ =~= standard_squares(1));
            assert(wn_squares@ =~= standard_squares(2));
            assert(wb_squares@ =~= standard_squares(3));
            assert(wq_squares@ =~= standard_squares(4));
            assert(wk_squares@ =~= standard_squares(5));
            assert(bp_squares@ =~= standard_squares(6));
            assert(br_squares@ =~= standard_squares(7));
            assert(bn_squares@ =~= standard_squares(8));
            assert(bb_squares@ =~= standard_squares(9));
            assert(bq_squares@ =~= standard_squares(10));
            assert(bk_squares@ =~= standard_squares(11));
        }
        let white_pawns = match serialize(Piece::P(false), wp_squares) {
            Ok(b) => b,
            Err(_) => unreached(),
        };
        let white_rooks = match serialize(Piece::R(false), wr_squares) {
            Ok(b) => b,
            Err(_) => unreached(),
        };
        let white_knights = match serialize(Piece::N(false), wn_squares) {
            Ok(b) => b,
            Err(_) => unreached(),
        };
        let white_bishops = match serialize(Piece::B(false), wb_squares) {
            Ok(b) => b,
            Err(_) => unreached(),
        };
        let white_queens = match serialize(Piece::Q(false), wq_squares) {
            Ok(b) => b,
            Err(_) => unreached(),
        };
        let white_kings = match serialize(Piece::K(false), wk_squares) {
            Ok(b) => b,
            Err(_) => unreached(),
        };
        let black_pawns = match serialize(Piece::P(true), bp_squares) {
            Ok(b) => b,
            Err(_) => unreached(),
        };
        let black_rooks = match serialize(Piece::R(true), br_squares) {
            Ok(b) => b,
            Err(_) => unreached(),
        };
        let black_knights = match serialize(Piece::N(true), bn_squares) {
            Ok(b) => b,
            Err(_) => unreached(),
        };
        let black_bishops = match serialize(Piece::B(true), bb_squares) {
            Ok(b) => b,
            Err(_) => unreached(),
        };
        let black_queens = match serialize(Piece::Q(true), bq_squares) {
            Ok(b) => b,
            Err(_) => unreached(),
        };
        let black_kings = match serialize(Piece::K(true), bk_squares) {
            Ok(b) => b,
            Err(_) => unreached(),
        };
        let boards = [
            white_pawns,
            white_rooks,
            white_knights,
            white_bishops,
            white_queens,
            white_kings,
            black_pawns,
            black_rooks,
            black_knights,
            black_bishops,
            black_queens,
            black_kings,
        ];
        proof {
            assert forall|i: int| 0 <= i < 12 implies (#[trigger] boards@[i]).piece
                == standard_piece(i) && boards@[i].board == standard_mask(i) by {
                assert(boards@[0] == white_pawns);
                assert(boards@[1] == white_rooks);
                assert(boards@[2] == white_knights);
                assert(boards@[3] == white_bishops);
                assert(boards@[4] == white_queens);
                assert(boards@[5] == white_kings);
                assert(boards@[6] == black_pawns);
                assert(boards@[7] == black_rooks);
                assert(boards@[8] == black_knights);
                assert(boards@[9] == black_bishops);
                assert(boards@[10] == black_queens);
                assert(boards@[11] == black_kings);
            }
        }
        Ok(ChessBoard { all_boards: boards })
    }
}

impl ChessBoard {
    /// Looks up the BitBoard slot of a simple piece identity and returns a
    /// copy of its mask tagged with that identity. A composite identity has
    /// no slot and reports `NoPieceBoard`.
    pub fn get_board(&self, piece: Piece) -> (r: Result<BitBoard, GameErrors>)
        ensures
            piece is Multiple ==> (r matches Err(e) && e is NoPieceBoard),
            !(piece is Multiple) ==> (r matches Ok(b) && b.board == self@[slot_of(piece)].board
                && b.piece == piece),
    {
        let slot: usize = match &piece {
            Piece::P(side) => if *side { 6 } else { 0 },
            Piece::R(side) => if *side { 7 } else { 1 },
            Piece::N(side) => if *side { 8 } else { 2 },
            Piece::B(side) => if *side { 9 } else { 3 },
            Piece::Q(side) => if *side { 10 } else { 4 },
            Piece::K(side) => if *side { 11 } else { 5 },
            Piece::Multiple(_) => {
                return Err(GameErrors::NoPieceBoard);
            },
        };
        let req_board = self.all_boards[slot].board;
        Ok(BitBoard { board: req_board, piece })
    }
}

/// Two single-bit masks share a bit exactly when they are the same bit.
proof fn lemma_single_bits_distinct(a: u64, b: u64)
    by (bit_vector)
    requires
        a < 64,
        b < 64,
    ensures
        (((1u64 << a) & (1u64 << b)) != 0) == (a == b),
{
}

/// A bit is set in a bitwise OR exactly when it is set in either operand.
proof fn lemma_or_bit(m1: u64, m2: u64, b: u64)
    by (bit_vector)
    ensures
        (((m1 | m2) & b) != 0) == ((m1 & b != 0) || (m2 & b != 0)),
{
}

/// The empty mask records no square.
proof fn lemma_zero_bit(b: u64)
    by (bit_vector)
    ensures
        (0u64 & b) == 0,
{
}

/// A pushed element is in a list exactly when it equals the new last element
/// or was there before.
proof fn lemma_push_contains(s: Seq<usize>, v: usize, x: usize)
    ensures
        s.push(v).contains(x) == (s.contains(x) || x == v),
{
    if s.push(v).contains(x) {
        let i = choose|i: int| 0 <= i < s.push(v).len() && s.push(v)[i] == x;
        if i < s.len() {
            assert(s[i] == x);
        }
    }
    if s.contains(x) {
        let i = choose|i: int| 0 <= i < s.len() && s[i] == x;
        assert(s.push(v)[i] == x);
    }
    if x == v {
        assert(s.push(v)[s.len() as int] == x);
    }
}

/// The mask built from a square list records exactly the listed squares.
proof fn lemma_mask_of_occupies(ps: Seq<usize>, s: int)
    requires
        0 <= s < 64,
        forall|i: int| 0 <= i < ps.len() ==> ps[i] <= 63,
    ensures
        occupies(mask_of(ps), s) == ps.contains(s as usize),
    decreases ps.len(),
{
    if ps.len() == 0 {
        lemma_zero_bit(square_bit(s));
        assert(!ps.contains(s as usize));
    } else {
        let rest = ps.drop_last();
        let last = ps.last();
        lemma_mask_of_occupies(rest, s);
        lemma_or_bit(mask_of(rest), square_bit(last as int), square_bit(s));
        lemma_single_bits_distinct((63 - last) as u64, (63 - s) as u64);
        assert(ps =~= rest.push(last));
        lemma_push_contains(rest, last, s as usize);
    }
}

/// The squares read out of a mask below `n` are exactly the occupied squares
/// below `n`.
proof fn lemma_squares_below_contains(mask: u64, n: int, x: usize)
    requires
        0 <= n <= 64,
    ensures
        squares_below(mask, n).contains(x) == (x < n && occupies(mask, x as int)),
    decreases n,
{
    if n > 0 {
        lemma_squares_below_contains(mask, n - 1, x);
        if occupies(mask, n - 1) {
            lemma_push_contains(squares_below(mask, n - 1), (n - 1) as usize, x);
        }
    }
}

/// The squares read out of a mask are exactly the occupied squares: every
/// decoded square is below 64 and occupied, and every occupied square is
/// decoded.
pub proof fn lemma_squares_member(mask: u64, x: usize)
    ensures
        squares_of(mask).contains(x) == (x < 64 && occupies(mask, x as int)),
{
    lemma_squares_below_contains(mask, 64, x);
}

/// Round-trip law: decoding the mask encoded from any list of valid squares
/// yields exactly the same set of squares, duplicates collapsed.
pub proof fn lemma_codec_round_trip(positions: Seq<usize>)
    requires
        forall|i: int| 0 <= i < positions.len() ==> positions[i] <= 63,
    ensures
        squares_of(mask_of(positions)).to_set() == positions.to_set(),
{
    let m = mask_of(positions);
    assert forall|x: usize| squares_of(m).contains(x) == positions.contains(x) by {
        lemma_squares_below_contains(m, 64, x);
        if x < 64 {
            lemma_mask_of_occupies(positions, x as int);
        } else {
            if positions.contains(x) {
                let i = choose|i: int| 0 <= i < positions.len() && positions[i] == x;
                assert(positions[i] <= 63);
            }
        }
    }
    assert(squares_of(m).to_set() =~= positions.to_set());
}

/// The listing of two constituent lists joined is both listings joined.
proof fn lemma_joined_label_concat(xs: Seq<Piece>, ys: Seq<Piece>)
    ensures
        joined_label(xs + ys) == joined_label(xs) + joined_label(ys),
    decreases ys.len(),
{
    if ys.len() == 0 {
        assert(xs + ys =~= xs);
        assert(joined_label(xs) + joined_label(ys) =~= joined_label(xs));
    } else {
        lemma_joined_label_concat(xs, ys.drop_last());
        assert((xs + ys).drop_last() =~= xs + ys.drop_last());
        assert((xs + ys).last() == ys.last());
        assert(joined_label(xs) + (joined_label(ys.drop_last()) + simple_label(ys.last())
            + ", "@) =~= (joined_label(xs) + joined_label(ys.drop_last())) + simple_label(
            ys.last(),
        ) + ", "@);
    }
}

/// Combination law for renderings: the composite tag that `union` and
/// `intersect` build renders as the comma-joined listing of both inputs'
/// piece renderings — each input contributes its own rendering followed by
/// ", ", composites contributing their members in order.
pub proof fn lemma_combined_listing(a: Piece, b: Piece)
    ensures
        joined_label(parts_of(a) + parts_of(b)) == listing_label(a) + listing_label(b),
        !(a is Multiple) ==> listing_label(a) == piece_label(a) + ", "@,
        !(b is Multiple) ==> listing_label(b) == piece_label(b) + ", "@,
{
    lemma_joined_label_concat(parts_of(a), parts_of(b));
    lemma_simple_listing(a);
    lemma_simple_listing(b);
}

/// A simple piece's constituent listing is its own rendering followed by ", ".
proof fn lemma_simple_listing(p: Piece)
    ensures
        !(p is Multiple) ==> listing_label(p) == piece_label(p) + ", "@,
{
    if !(p is Multiple) {
        let one = parts_of(p);
        assert(one.drop_last() =~= Seq::empty());
        assert(one.last() == p);
        assert(joined_label(Seq::empty()) + simple_label(p) + ", "@ =~= simple_label(p) + ", "@);
    }
}



/// The two ordered half-open spans of starting squares of each slot; a slot
/// with a single span carries the empty span (64, 64) second.
pub open spec fn slot_spans(slot: int) -> ((int, int), (int, int)) {
    if slot == 0 {
        ((8, 16), (64, 64))
    } else if slot == 1 {
        ((0, 1), (7, 8))
    } else if slot == 2 {
        ((1, 2), (6, 7))
    } else if slot == 3 {
        ((2, 3), (5, 6))
    } else if slot == 4 {
        ((3, 4), (64, 64))
    } else if slot == 5 {
        ((4, 5), (64, 64))
    } else if slot == 6 {
        ((48, 56), (64, 64))
    } else if slot == 7 {
        ((56, 57), (63, 64))
    } else if slot == 8 {
        ((57, 58), (62, 63))
    } else if slot == 9 {
        ((58, 59), (61, 62))
    } else if slot == 10 {
        ((59, 60), (64, 64))
    } else if slot == 11 {
        ((60, 61), (64, 64))
    } else {
        ((64, 64), (64, 64))
    }
}

/// Whether square `s` is a starting square of the given slot.
pub open spec fn standard_has(slot: int, s: int) -> bool {
    let ((a, b), (c, d)) = slot_spans(slot);
    a <= s < b || c <= s < d
}

/// The number of starting squares of each slot.
pub open spec fn standard_count(slot: int) -> int {
    let ((a, b), (c, d)) = slot_spans(slot);
    (b - a) + (d - c)
}

/// The bitwise OR of all twelve standard masks.
pub open spec fn standard_union_mask() -> u64 {
    standard_mask(0) | standard_mask(1) | standard_mask(2) | standard_mask(3) | standard_mask(4)
        | standard_mask(5) | standard_mask(6) | standard_mask(7) | standard_mask(8)
        | standard_mask(9) | standard_mask(10) | standard_mask(11)
}

/// The starting-square lists and the starting-square spans agree.
proof fn lemma_standard_contains(slot: int, x: usize)
    requires
        0 <= slot < 12,
    ensures
        standard_squares(slot).contains(x) == standard_has(slot, x as int),
{
    let sq = standard_squares(slot);
    if standard_has(slot, x as int) {
        let ((a, b), (c, d)) = slot_spans(slot);
        if a <= x < b {
            assert(sq[x - a] == x);
        } else {
            assert(sq[(b - a) + (x - c)] == x);
        }
    }
    if sq.contains(x) {
        let k = choose|k: int| 0 <= k < sq.len() && sq[k] == x;
        assert(standard_has(slot, sq[k] as int));
    }
}

/// Each standard mask records exactly the starting squares of its slot.
pub proof fn lemma_standard_occupies(slot: int, s: int)
    requires
        0 <= slot < 12,
        0 <= s < 64,
    ensures
        occupies(standard_mask(slot), s) == standard_has(slot, s),
{
    let sq = standard_squares(slot);
    assert forall|k: int| 0 <= k < sq.len() implies sq[k] <= 63 by {
        assert(sq.contains(sq[k]));
        lemma_standard_contains(slot, sq[k]);
    }
    lemma_mask_of_occupies(sq, s);
    lemma_standard_contains(slot, s as usize);
}

/// A single bit is set in a bitwise AND exactly when it is set in both
/// operands.
proof fn lemma_and_bit(m1: u64, m2: u64, b: u64)
    by (bit_vector)
    requires
        b < 64,
    ensures
        (((m1 & m2) & (1u64 << b)) != 0) == ((m1 & (1u64 << b) != 0) && (m2 & (1u64 << b) != 0)),
{
}

/// The mask of the low bits up to and including bit `n`.
pub open spec fn low_mask(n: u64) -> u64 {
    (1u64 << n) | (((1u64 << n) - 1) as u64)
}

/// A mask whose low bits up to and including bit `n` are all clear is clear
/// on that whole low span.
proof fn lemma_low_bits_zero(m: u64, n: u64)
    requires
        n <= 63,
        forall|b: u64| b < 64 ==> m & (1u64 << b) == 0,
    ensures
        m & low_mask(n) == 0,
    decreases n,
{
    if n == 0 {
        assert(m & 1u64 == 0 ==> m & low_mask(0u64) == 0) by (bit_vector);
        assert(m & (1u64 << 0u64) == 0);
        assert(m & 1u64 == 0) by (bit_vector)
            requires
                m & (1u64 << 0u64) == 0,
        ;
    } else {
        lemma_low_bits_zero(m, (n - 1) as u64);
        assert(m & (1u64 << n) == 0);
        assert(m & low_mask(n) == 0) by (bit_vector)
            requires
                1 <= n <= 63,
                m & low_mask((n - 1) as u64) == 0,
                m & (1u64 << n) == 0,
        ;
    }
}

/// A mask that records no square at all is zero.
proof fn lemma_no_square_bits_zero(m: u64)
    requires
        forall|s: int| 0 <= s < 64 ==> !occupies(m, s),
    ensures
        m == 0,
{
    assert forall|b: u64| b < 64 implies m & (1u64 << b) == 0 by {
        assert(!occupies(m, 63 - b));
        assert(square_bit(63 - b) == 1u64 << b);
    }
    lemma_low_bits_zero(m, 63);
    assert(m == 0) by (bit_vector)
        requires
            m & low_mask(63u64) == 0,
    ;
}

/// Two distinct standard slots never share a square, so their masks do not
/// overlap.
proof fn lemma_masks_disjoint(i: int, j: int)
    requires
        0 <= i < 12,
        0 <= j < 12,
        i != j,
    ensures
        standard_mask(i) & standard_mask(j) == 0,
{
    let m = standard_mask(i) & standard_mask(j);
    assert forall|s: int| 0 <= s < 64 implies !occupies(m, s) by {
        lemma_standard_occupies(i, s);
        lemma_standard_occupies(j, s);
        lemma_and_bit(standard_mask(i), standard_mask(j), (63 - s) as u64);
        assert(square_bit(s) == 1u64 << ((63 - s) as u64));
    }
    lemma_no_square_bits_zero(m);
}

/// The number of squares of the span `lo..hi` that lie below `n`.
pub open spec fn span_count(lo: int, hi: int, n: int) -> int {
    if n <= lo {
        0
    } else if n < hi {
        n - lo
    } else {
        hi - lo
    }
}

/// A mask that records exactly two ordered spans decodes, below `n`, to one
/// square per span entry below `n`.
proof fn lemma_count_spans(m: u64, a: int, b: int, c: int, d: int, n: int)
    requires
        0 <= a <= b <= c <= d <= 64,
        forall|s: int| 0 <= s < 64 ==> occupies(m, s) == (a <= s < b || c <= s < d),
        0 <= n <= 64,
    ensures
        squares_below(m, n).len() == span_count(a, b, n) + span_count(c, d, n),
    decreases n,
{
    if n > 0 {
        lemma_count_spans(m, a, b, c, d, n - 1);
    }
}

/// The OR of all twelve standard masks records exactly the four outer ranks:
/// squares 0..16 and 48..64.
proof fn lemma_union_occupies(s: int)
    requires
        0 <= s < 64,
    ensures
        occupies(standard_union_mask(), s) == (s < 16 || 48 <= s),
{
    let sb = square_bit(s);
    let m0 = standard_mask(0);
    let m1 = standard_mask(1);
    let m2 = standard_mask(2);
    let m3 = standard_mask(3);
    let m4 = standard_mask(4);
    let m5 = standard_mask(5);
    let m6 = standard_mask(6);
    let m7 = standard_mask(7);
    let m8 = standard_mask(8);
    let m9 = standard_mask(9);
    let m10 = standard_mask(10);
    let m11 = standard_mask(11);
    lemma_or_bit(m0, m1, sb);
    lemma_or_bit(m0 | m1, m2, sb);
    lemma_or_bit(m0 | m1 | m2, m3, sb);
    lemma_or_bit(m0 | m1 | m2 | m3, m4, sb);
    lemma_or_bit(m0 | m1 | m2 | m3 | m4, m5, sb);
    lemma_or_bit(m0 | m1 | m2 | m3 | m4 | m5, m6, sb);
    lemma_or_bit(m0 | m1 | m2 | m3 | m4 | m5 | m6, m7, sb);
    lemma_or_bit(m0 | m1 | m2 | m3 | m4 | m5 | m6 | m7, m8, sb);
    lemma_or_bit(m0 | m1 | m2 | m3 | m4 | m5 | m6 | m7 | m8, m9, sb);
    lemma_or_bit(m0 | m1 | m2 | m3 | m4 | m5 | m6 | m7 | m8 | m9, m10, sb);
    lemma_or_bit(m0 | m1 | m2 | m3 | m4 | m5 | m6 | m7 | m8 | m9 | m10, m11, sb);
    lemma_standard_occupies(0, s);
    lemma_standard_occupies(1, s);
    lemma_standard_occupies(2, s);
    lemma_standard_occupies(3, s);
    lemma_standard_occupies(4, s);
    lemma_standard_occupies(5, s);
    lemma_standard_occupies(6, s);
    lemma_standard_occupies(7, s);
    lemma_standard_occupies(8, s);
    lemma_standard_occupies(9, s);
    lemma_standard_occupies(10, s);
    lemma_standard_occupies(11, s);
}

/// Coverage law for the standard position: the twelve masks are pairwise
/// non-overlapping; per side the pawn slot decodes to eight squares, the
/// rook, knight and bishop slots to two each, the queen and king slots to one
/// each; and the OR of all twelve records exactly 32 squares.
pub proof fn lemma_standard_board_coverage()
    ensures
        forall|i: int, j: int|
            #![trigger standard_mask(i), standard_mask(j)]
            0 <= i < j < 12 ==> standard_mask(i) & standard_mask(j) == 0,
        forall|i: int|
            0 <= i < 12 ==> squares_of(#[trigger] standard_mask(i)).len() == standard_count(i),
        squares_of(standard_union_mask()).len() == 32,
{
    assert forall|i: int, j: int| 0 <= i < j < 12 implies standard_mask(i) & standard_mask(j)
        == 0 by {
        lemma_masks_disjoint(i, j);
    }
    assert forall|i: int| 0 <= i < 12 implies squares_of(#[trigger] standard_mask(i)).len()
        == standard_count(i) by {
        let ((a, b), (c, d)) = slot_spans(i);
        assert forall|s: int| 0 <= s < 64 implies occupies(standard_mask(i), s) == (a <= s < b
            || c <= s < d) by {
            lemma_standard_occupies(i, s);
        }
        lemma_count_spans(standard_mask(i), a, b, c, d, 64);
    }
    assert forall|s: int| 0 <= s < 64 implies occupies(standard_union_mask(), s) == (0 <= s < 16
        || 48 <= s < 64) by {
        lemma_union_occupies(s);
    }
    lemma_count_spans(standard_union_mask(), 0, 16, 48, 64, 64);
}

} // verus!
