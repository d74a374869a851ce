use bitboard_chess::game_moves::{get_moves, getboard_index, Move, MoveType};
use bitboard_chess::game_structures::{
    deserialize, serialize, Board, BitBoard, GameErrors, Piece,
};

#[test]
fn encode_rejects_square_past_the_board() {
    let r = serialize(Piece::P(false), vec![64]);
    assert!(matches!(r, Err(GameErrors::OutOfBound)));
    let r = serialize(Piece::P(false), vec![0, 31, 64]);
    assert!(matches!(r, Err(GameErrors::OutOfBound)));
}

#[test]
fn encode_accepts_the_last_square() {
    let b = serialize(Piece::P(false), vec![63]).unwrap();
    assert_eq!(b.board, 1u64);
    assert!(b.piece == Piece::P(false));
}

#[test]
fn encode_is_idempotent_on_duplicates() {
    let once = serialize(Piece::N(true), vec![3]).unwrap();
    let twice = serialize(Piece::N(true), vec![3, 3]).unwrap();
    assert_eq!(once.board, twice.board);
    assert_eq!(once.board, 1u64 << 60);
}

#[test]
fn encode_of_no_squares_is_empty() {
    let b = serialize(Piece::K(false), vec![]).unwrap();
    assert_eq!(b.board, 0u64);
}

#[test]
fn codec_round_trip_returns_the_square_set() {
    let b = serialize(Piece::Q(true), vec![0, 5, 63, 5]).unwrap();
    let (piece, squares) = deserialize(b);
    assert!(piece == Piece::Q(true));
    assert_eq!(squares, vec![0, 5, 63]);
}

#[test]
fn decode_lists_squares_in_increasing_order() {
    let b = serialize(Piece::R(false), vec![62, 1, 33]).unwrap();
    let (_, squares) = deserialize(b);
    assert_eq!(squares, vec![1, 33, 62]);
}

#[test]
fn union_masks_are_bitwise_or() {
    let a = serialize(Piece::P(false), vec![8]).unwrap();
    let b = serialize(Piece::R(true), vec![0]).unwrap();
    let u = a.union(b);
    assert_eq!(u.board, (1u64 << 55) | (1u64 << 63));
    assert!(u.piece == Piece::Multiple(vec![Piece::P(false), Piece::R(true)]));
    assert_eq!(u.piece.render(), "White Pawn,  Black Rook, ");
}

#[test]
fn intersect_masks_are_bitwise_and() {
    let a = serialize(Piece::P(false), vec![8, 9]).unwrap();
    let b = serialize(Piece::P(true), vec![9, 10]).unwrap();
    let i = a.intersect(b);
    assert_eq!(i.board, 1u64 << 54);
    assert!(i.piece == Piece::Multiple(vec![Piece::P(false), Piece::P(true)]));
    assert_eq!(i.piece.render(), "White Pawn, Black Pawn, ");
}

#[test]
fn union_flattens_composites() {
    let a = serialize(Piece::P(false), vec![8]).unwrap();
    let b = serialize(Piece::R(true), vec![0]).unwrap();
    let u = a.union(b);
    let c = serialize(Piece::K(false), vec![4]).unwrap();
    let uu = u.union(c);
    assert!(
        uu.piece
            == Piece::Multiple(vec![Piece::P(false), Piece::R(true), Piece::K(false)])
    );
}

#[test]
fn standard_board_masks_are_the_back_ranks() {
    let board = Board::Standard.init().unwrap();
    let white_pawns = board.get_board(Piece::P(false)).unwrap();
    assert_eq!(white_pawns.board, 0x00FF_0000_0000_0000u64);
    let black_pawns = board.get_board(Piece::P(true)).unwrap();
    assert_eq!(black_pawns.board, 0x0000_0000_0000_FF00u64);
    let white_rooks = board.get_board(Piece::R(false)).unwrap();
    assert_eq!(white_rooks.board, 0x8100_0000_0000_0000u64);
    let black_kings = board.get_board(Piece::K(true)).unwrap();
    assert_eq!(black_kings.board, 1u64 << 3);
}

#[test]
fn standard_board_has_disjoint_slots_covering_32_squares() {
    let board = Board::Standard.init().unwrap();
    let mut masks: Vec<u64> = Vec::new();
    for side in [false, true] {
        masks.push(board.get_board(Piece::P(side)).unwrap().board);
        masks.push(board.get_board(Piece::R(side)).unwrap().board);
        masks.push(board.get_board(Piece::N(side)).unwrap().board);
        masks.push(board.get_board(Piece::B(side)).unwrap().board);
        masks.push(board.get_board(Piece::Q(side)).unwrap().board);
        masks.push(board.get_board(Piece::K(side)).unwrap().board);
    }
    for i in 0..12 {
        for j in (i + 1)..12 {
            assert_eq!(masks[i] & masks[j], 0, "slots {} and {} overlap", i, j);
        }
    }
    let expected_counts = [8, 2, 2, 2, 1, 1, 8, 2, 2, 2, 1, 1];
    for i in 0..12 {
        assert_eq!(masks[i].count_ones(), expected_counts[i]);
    }
    let all = masks.iter().fold(0u64, |acc, m| acc | m);
    assert_eq!(all, 0xFFFF_0000_0000_FFFFu64);
    assert_eq!(all.count_ones(), 32);
}

#[test]
fn composite_lookup_reports_no_board() {
    let board = Board::Standard.init().unwrap();
    let r = board.get_board(Piece::Multiple(vec![Piece::P(false), Piece::K(true)]));
    assert!(matches!(r, Err(GameErrors::NoPieceBoard)));
}

#[test]
fn square_labels_name_the_opposite_corners() {
    assert_eq!(getboard_index(0), "A8");
    assert_eq!(getboard_index(63), "H1");
    assert_eq!(getboard_index(8), "A7");
    assert_eq!(getboard_index(16), "A6");
    assert_eq!(getboard_index(7), "H8");
}

#[test]
fn white_pawn_moves_from_standard_board() {
    let board = Board::Standard.init().unwrap();
    let moves = get_moves(board, Piece::P(false)).unwrap();
    assert_eq!(moves.len(), 24);
    assert!(matches!(moves[0].move_type, MoveType::Normal));
    assert_eq!((moves[0].from, moves[0].to), (8, 16));
    assert!(matches!(moves[1].move_type, MoveType::Capture));
    assert_eq!((moves[1].from, moves[1].to), (8, 17));
    assert!(matches!(moves[2].move_type, MoveType::Capture));
    assert_eq!((moves[2].from, moves[2].to), (8, 15));
}

#[test]
fn black_pawn_moves_from_standard_board() {
    let board = Board::Standard.init().unwrap();
    let moves = get_moves(board, Piece::P(true)).unwrap();
    assert_eq!(moves.len(), 24);
    assert!(matches!(moves[0].move_type, MoveType::Normal));
    assert_eq!((moves[0].from, moves[0].to), (48, 40));
    assert!(matches!(moves[1].move_type, MoveType::Capture));
    assert_eq!((moves[1].from, moves[1].to), (48, 39));
    assert!(matches!(moves[2].move_type, MoveType::Capture));
    assert_eq!((moves[2].from, moves[2].to), (48, 41));
}

#[test]
fn unimplemented_kinds_report_a_typed_failure() {
    for piece in [
        Piece::K(false),
        Piece::Q(false),
        Piece::R(true),
        Piece::B(true),
        Piece::N(false),
    ] {
        let board = Board::Standard.init().unwrap();
        let r = get_moves(board, piece);
        assert!(matches!(r, Err(GameErrors::UnsupportedPiece)));
    }
    let board = Board::Standard.init().unwrap();
    let r = get_moves(board, Piece::Multiple(vec![]));
    assert!(matches!(r, Err(GameErrors::NoPieceBoard)));
}

#[test]
fn moves_render_with_algebraic_squares() {
    let m = Move { move_type: MoveType::Normal, from: 8, to: 16 };
    assert_eq!(m.render(), "Normal Move from A7 => A6");
    let c = Move { move_type: MoveType::Capture, from: 8, to: 17 };
    assert_eq!(c.render(), "Capture Move from A7 => B6");
    assert_eq!(MoveType::Special.name(), "Special");
}

#[test]
fn piece_renderings_carry_side_names() {
    assert_eq!(Piece::K(false).render(), "White King");
    assert_eq!(Piece::Q(true).render(), "Black Queen");
    assert_eq!(Piece::R(false).render(), " White Rook");
    assert_eq!(Piece::B(true).render(), "Black Bishop");
    assert_eq!(Piece::N(false).render(), "White Knight");
    assert_eq!(Piece::P(true).render(), "Black Pawn");
}

#[test]
fn error_messages_name_each_failure() {
    assert_eq!(
        GameErrors::OutOfBound.message(),
        "Are you playing mind-chess? A chess board only has 64 squares"
    );
    assert_eq!(GameErrors::NoPieceBoard.message(), "No BitBoard for chess piece");
    assert_eq!(
        GameErrors::UnsupportedPiece.message(),
        "No move generation for this chess piece"
    );
}

#[test]
fn bitboards_render_their_mask_in_binary() {
    let b = BitBoard { board: 5, piece: Piece::K(false) };
    assert_eq!(b.render(), "White King BitBoard: 101");
    let empty = BitBoard { board: 0, piece: Piece::Q(true) };
    assert_eq!(empty.render(), "Black Queen BitBoard: 0");
    let last = serialize(Piece::P(false), vec![63]).unwrap();
    assert_eq!(last.render(), "White Pawn BitBoard: 1");
}

#[test]
fn deserialize_keeps_the_piece_identity() {
    let b = BitBoard { board: 0x8000_0000_0000_0001u64, piece: Piece::B(true) };
    let (piece, squares) = deserialize(b);
    assert!(piece == Piece::B(true));
    assert_eq!(squares, vec![0, 63]);
}
