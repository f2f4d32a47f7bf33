//! Board, move generation, check and mate behaviour.

use chanal::board::Board;
use chanal::fen::Fen;
use chanal::game::Game;
use chanal::moves::Move;
use chanal::pieces::{file_to_char, rank_to_char, Colour, Piece, Position};

const START: &str = "rnbqkbnr/pppppppp/8/8/8/8/PPPPPPPP/RNBQKBNR w KQkq - 0 1";

fn fen_of(s: &str) -> Fen {
    Fen::from_str(s).expect("well-formed FEN")
}

fn boards_equal(a: &Board, b: &Board) -> bool {
    for r in 0..8 {
        for f in 0..8 {
            if a.at(r, f) != b.at(r, f) {
                return false;
            }
        }
    }
    true
}

fn legal(fen: &Fen, fr: usize, ff: usize, tr: usize, tf: usize) -> Move {
    fen.legal_moves(fr, ff)
        .get(tr, tf)
        .expect("the move should be legal")
}

#[test]
fn starting_pawns_have_two_moves() {
    let g = Game::new();
    for f in 0..8 {
        let mm = g.legal_moves(6, f);
        assert_eq!(mm.len(), 2);
        assert!(mm.get(5, f).is_some());
        assert!(mm.get(4, f).is_some());
    }
}

#[test]
fn starting_back_rank_is_blocked_except_knights() {
    let g = Game::new();
    for f in 0..8 {
        let mm = g.legal_moves(7, f);
        if f == 1 || f == 6 {
            // the knights jump over the pawn rank
            assert_eq!(mm.len(), 2);
        } else {
            assert_eq!(mm.len(), 0);
        }
    }
}

#[test]
fn knight_moves_from_corner() {
    let fen = fen_of("4k3/8/8/8/8/8/8/N3K3 w - - 0 1");
    let mm = fen.legal_moves(7, 0);
    assert_eq!(mm.len(), 2);
    assert!(mm.get(5, 1).is_some());
    assert!(mm.get(6, 2).is_some());
}

#[test]
fn rook_stops_at_first_piece() {
    // Rook a1, own pawn a3, enemy pawn d1.
    let fen = fen_of("4k3/8/8/8/8/P7/8/R2pK3 w - - 0 1");
    let mm = fen.legal_moves(7, 0);
    // Up the file: a2 only (own pawn blocks); along the rank: b1, c1 and
    // the capture on d1.
    assert_eq!(mm.len(), 4);
    assert!(mm.get(6, 0).is_some());
    assert!(mm.get(5, 0).is_none());
    assert!(mm.get(7, 1).is_some());
    assert!(mm.get(7, 2).is_some());
    let cap = mm.get(7, 3).expect("capture on d1");
    assert!(cap.has_capture());
    assert!(mm.get(7, 4).is_none());
}

#[test]
fn moves_never_leave_own_king_in_check() {
    // A bishop pinned against its king generates no move at all.
    let fen = fen_of("4k3/8/8/8/4r3/8/4B3/4K3 w - - 0 1");
    assert!(fen.legal_moves(6, 4).is_empty());
    // And across a whole middlegame position, every generated move keeps
    // the mover's king safe once applied.
    let fen = fen_of("r1bqkbnr/pppp1ppp/2n5/1B2p3/4P3/5N2/PPPP1PPP/RNBQK2R b KQkq - 3 3");
    for r in 0..8 {
        for f in 0..8 {
            let mm = fen.legal_moves(r, f);
            for i in 0..mm.len() {
                let m = mm.index(i);
                let after = fen.board.apply_move(m);
                let kic = after.king_check_cnt();
                assert_eq!(kic.check_cnt(m.colour), 0);
            }
        }
    }
}

#[test]
fn apply_then_unapply_restores_board() {
    let fen = fen_of("r1bqkbnr/pppp1ppp/2n5/1B2p3/4P3/5N2/PPPP1PPP/RNBQK2R b KQkq - 3 3");
    for r in 0..8 {
        for f in 0..8 {
            let mm = fen.legal_moves(r, f);
            for i in 0..mm.len() {
                let m = mm.index(i);
                let applied = fen.board.apply_move(m);
                let restored = applied.unapply_move(m);
                assert!(boards_equal(&restored, &fen.board));
            }
        }
    }
}

#[test]
fn castling_both_sides_when_rights_held() {
    let fen = fen_of("r3k2r/8/8/8/8/8/8/R3K2R w KQkq - 0 1");
    let mm = fen.legal_moves(7, 4);
    let ks = mm.get(7, 6).expect("kingside castle");
    let qs = mm.get(7, 2).expect("queenside castle");
    let after_ks = fen.board.apply_move(ks);
    assert_eq!(after_ks.at(7, 6), Position::Occupied(Piece::King, Colour::White));
    assert_eq!(after_ks.at(7, 5), Position::Occupied(Piece::Rook, Colour::White));
    assert_eq!(after_ks.at(7, 7), Position::Empty);
    let after_qs = fen.board.apply_move(qs);
    assert_eq!(after_qs.at(7, 2), Position::Occupied(Piece::King, Colour::White));
    assert_eq!(after_qs.at(7, 3), Position::Occupied(Piece::Rook, Colour::White));
    assert_eq!(after_qs.at(7, 0), Position::Empty);
}

#[test]
fn castle_gated_by_cleared_right() {
    // Path squares empty, rooks at home, but White's rights are gone.
    let fen = fen_of("r3k2r/8/8/8/8/8/8/R3K2R w kq - 0 1");
    let mm = fen.legal_moves(7, 4);
    assert!(mm.get(7, 6).is_none());
    assert!(mm.get(7, 2).is_none());
    // Black still castles either way.
    let mmb = fen.legal_moves(0, 4);
    assert!(mmb.get(0, 6).is_some());
    assert!(mmb.get(0, 2).is_some());
}

#[test]
fn castle_blocked_by_occupied_path() {
    let fen = fen_of("4k3/8/8/8/8/8/8/RN2K1NR w KQ - 0 1");
    let mm = fen.legal_moves(7, 4);
    assert!(mm.get(7, 6).is_none());
    assert!(mm.get(7, 2).is_none());
}

#[test]
fn rights_cleared_by_king_and_rook_moves() {
    let fen = fen_of("r3k2r/8/8/8/8/8/8/R3K2R w KQkq - 0 1");
    // Moving the h1 rook clears only White's kingside right.
    let m = legal(&fen, 7, 7, 7, 6);
    let next = fen.apply_move(m);
    assert!(!next.white_king_castle);
    assert!(next.white_queen_castle);
    assert!(next.black_king_castle);
    assert!(next.black_queen_castle);
    // Moving the king clears both of White's rights.
    let m = legal(&fen, 7, 4, 6, 4);
    let next = fen.apply_move(m);
    assert!(!next.white_king_castle);
    assert!(!next.white_queen_castle);
    assert!(next.black_king_castle);
    assert!(next.black_queen_castle);
}

#[test]
fn en_passant_capture() {
    // 1.e4 a6 2.e5 d5: the double advance sets the target square d6.
    let f0 = fen_of(START);
    let f1 = f0.apply_move(legal(&f0, 6, 4, 4, 4));
    let f2 = f1.apply_move(legal(&f1, 1, 0, 2, 0));
    let f3 = f2.apply_move(legal(&f2, 4, 4, 3, 4));
    assert_eq!(f3.en_passant, None);
    let f4 = f3.apply_move(legal(&f3, 1, 3, 3, 3));
    assert_eq!(f4.en_passant, Some((2, 3)));
    // The white pawn on e5 may capture onto d6.
    let ep = legal(&f4, 3, 4, 2, 3);
    assert!(ep.has_capture());
    let cap = ep.capture.expect("en passant captures");
    assert_eq!((cap.rank, cap.file), (3, 3));
    assert_eq!(cap.piece, Piece::Pawn);
    assert_eq!(cap.colour, Colour::Black);
    let f5 = f4.apply_move(ep);
    // The captured pawn leaves the rank it stood on, not the target square.
    assert_eq!(f5.board.at(3, 3), Position::Empty);
    assert_eq!(f5.board.at(2, 3), Position::Occupied(Piece::Pawn, Colour::White));
    assert_eq!(f5.board.at(3, 4), Position::Empty);
    assert_eq!(f5.en_passant, None);
}

#[test]
fn en_passant_round_trip() {
    let f0 = fen_of(START);
    let f1 = f0.apply_move(legal(&f0, 6, 4, 4, 4));
    let f2 = f1.apply_move(legal(&f1, 1, 0, 2, 0));
    let f3 = f2.apply_move(legal(&f2, 4, 4, 3, 4));
    let f4 = f3.apply_move(legal(&f3, 1, 3, 3, 3));
    let ep = legal(&f4, 3, 4, 2, 3);
    let applied = f4.board.apply_move(ep);
    let restored = applied.unapply_move(ep);
    assert!(boards_equal(&restored, &f4.board));
}

#[test]
fn en_passant_capture_by_black() {
    // 1.Nf3 e5 2.Ng1 e4 3.d4 exd3: White's double advance is captured in
    // passing by the black pawn beside it.
    let f0 = fen_of(START);
    let f1 = f0.apply_move(legal(&f0, 7, 6, 5, 5));
    let f2 = f1.apply_move(legal(&f1, 1, 4, 3, 4));
    let f3 = f2.apply_move(legal(&f2, 5, 5, 7, 6));
    let f4 = f3.apply_move(legal(&f3, 3, 4, 4, 4));
    let f5 = f4.apply_move(legal(&f4, 6, 3, 4, 3));
    assert_eq!(f5.en_passant, Some((5, 3)));
    let ep = legal(&f5, 4, 4, 5, 3);
    let cap = ep.capture.expect("en passant captures");
    assert_eq!((cap.rank, cap.file), (4, 3));
    assert_eq!(cap.piece, Piece::Pawn);
    assert_eq!(cap.colour, Colour::White);
    let f6 = f5.apply_move(ep);
    assert_eq!(f6.board.at(4, 3), Position::Empty);
    assert_eq!(f6.board.at(5, 3), Position::Occupied(Piece::Pawn, Colour::Black));
    // The record is a complete delta: undoing it restores the white pawn.
    let restored = f6.board.unapply_move(ep);
    assert!(boards_equal(&restored, &f5.board));
}

#[test]
fn notation_does_not_disambiguate_like_pieces() {
    // Both knights can reach b3; the notation names them alike, a known
    // limitation.
    let fen = fen_of("4k3/8/8/8/8/8/8/N1N1K3 w - - 0 1");
    let from_a = legal(&fen, 7, 0, 5, 1);
    let from_c = legal(&fen, 7, 2, 5, 1);
    assert_eq!(fen.move_string(from_a), "Nb3");
    assert_eq!(fen.move_string(from_c), "Nb3");
}

#[test]
fn fools_mate() {
    // 1.f3 e5 2.g4 Qh4#
    let f0 = fen_of(START);
    let f1 = f0.apply_move(legal(&f0, 6, 5, 5, 5));
    let f2 = f1.apply_move(legal(&f1, 1, 4, 3, 4));
    let f3 = f2.apply_move(legal(&f2, 6, 6, 4, 6));
    let qh4 = legal(&f3, 0, 3, 4, 7);
    assert_eq!(f3.move_string(qh4), "Qh4#");
    let f4 = f3.apply_move(qh4);
    assert!(f4.is_mate());
    for r in 0..8 {
        for f in 0..8 {
            if let Position::Occupied(_, Colour::White) = f4.board.at(r, f) {
                assert!(f4.legal_moves(r, f).is_empty());
            }
        }
    }
    // One move earlier nothing is mate.
    assert!(!f3.is_mate());
}

#[test]
fn check_detection_and_king_position() {
    let fen = fen_of("4k3/8/8/8/8/8/4r3/4K3 w - - 0 1");
    let kic = fen.board.king_check_cnt();
    assert_eq!(kic.white, 1);
    assert_eq!(kic.black, 0);
    assert_eq!(fen.board.king_position(Colour::White), (7, 4));
    assert_eq!(fen.board.king_position(Colour::Black), (0, 4));
    assert!(!fen.is_mate());
}

#[test]
fn double_check_counts_two_attackers() {
    // Rook on e2 and knight on f3 both give check to the king on e1.
    let fen = fen_of("4k3/8/8/8/8/5n2/4r3/4K3 w - - 0 1");
    assert_eq!(fen.board.king_check_cnt().white, 2);
}

#[test]
fn move_string_notation() {
    let f0 = fen_of(START);
    let e4 = legal(&f0, 6, 4, 4, 4);
    assert_eq!(f0.move_string(e4), "e4");
    let nf3 = legal(&f0, 7, 6, 5, 5);
    assert_eq!(f0.move_string(nf3), "Nf3");
    // A pawn capture names its file: 1.e4 d5 2.exd5.
    let f1 = f0.apply_move(e4);
    let f2 = f1.apply_move(legal(&f1, 1, 3, 3, 3));
    let exd5 = legal(&f2, 4, 4, 3, 3);
    assert_eq!(f2.move_string(exd5), "exd5");
    // Castling.
    let fc = fen_of("r3k2r/8/8/8/8/8/8/R3K2R w KQkq - 0 1");
    assert_eq!(fc.move_string(legal(&fc, 7, 4, 7, 6)), "O-O");
    assert_eq!(fc.move_string(legal(&fc, 7, 4, 7, 2)), "O-O-O");
    // A checking move carries a plus.
    let fr = fen_of("4k3/8/8/8/8/8/R7/4K3 w - - 0 1");
    assert_eq!(fr.move_string(legal(&fr, 6, 0, 6, 4)), "Re2+");
}

#[test]
fn rank_and_file_letters() {
    assert_eq!(rank_to_char(0), '8');
    assert_eq!(rank_to_char(7), '1');
    assert_eq!(file_to_char(0), 'a');
    assert_eq!(file_to_char(7), 'h');
}

#[test]
fn move_accessors() {
    let f0 = fen_of(START);
    let mut e4 = legal(&f0, 6, 4, 4, 4);
    assert!(!e4.has_capture());
    assert!(!e4.has_check());
    assert!(!e4.may_promote());
    assert_eq!(e4.to(), (4, 4));
    assert_eq!(e4.colour(), Colour::White);
    e4.set_promotion(Piece::Queen, Colour::White);
    assert_eq!(
        e4.promotion.map(|p| (p.piece, p.colour)),
        Some((Piece::Queen, Colour::White))
    );
}

#[test]
fn promotion_flag_and_application() {
    let fen = fen_of("8/P6k/8/8/8/8/8/K7 w - - 0 1");
    let mut up = legal(&fen, 1, 0, 0, 0);
    assert!(up.may_promote());
    up.set_promotion(Piece::Queen, Colour::White);
    let next = fen.apply_move(up);
    assert_eq!(next.board.at(0, 0), Position::Occupied(Piece::Queen, Colour::White));
    assert_eq!(next.board.at(1, 0), Position::Empty);
}

#[test]
fn picked_squares_are_transparent_to_rays() {
    let fen = fen_of("4k3/8/8/8/8/8/4P3/4R2K w - - 0 1");
    let mut lifted = fen;
    lifted.board.set(6, 4, Position::Picked(Piece::Pawn, Colour::White));
    let mm = lifted.legal_moves(7, 4);
    // The rook now sees up the e-file, through the lifted pawn, but the
    // picked square itself is no destination.
    assert!(mm.get(5, 4).is_some());
    assert!(mm.get(6, 4).is_none());
    // With the pawn set down the file is blocked again.
    let mm = fen.legal_moves(7, 4);
    assert!(mm.get(5, 4).is_none());
    assert!(mm.get(6, 4).is_none());
}

#[test]
fn unpick_restores_picked_pieces() {
    let fen = fen_of(START);
    let mut board = fen.board;
    board.set(6, 4, Position::Picked(Piece::Pawn, Colour::White));
    board.unpick_pieces();
    assert_eq!(board.at(6, 4), Position::Occupied(Piece::Pawn, Colour::White));
    assert!(boards_equal(&board, &fen.board));
}

#[test]
fn halfmove_clock_and_move_counter() {
    let f0 = fen_of(START);
    let f1 = f0.apply_move(legal(&f0, 7, 6, 5, 5)); // Nf3: no pawn move, no capture
    assert_eq!(f1.halfmove_clock, 1);
    assert_eq!(f1.move_cnt, 1);
    let f2 = f1.apply_move(legal(&f1, 1, 4, 3, 4)); // e5 resets the clock, Black moved
    assert_eq!(f2.halfmove_clock, 0);
    assert_eq!(f2.move_cnt, 2);
    assert_eq!(f2.to_move, Colour::White);
}
