//! The game facade and its history tree: undo, redo and variations.

use chanal::game::{board_size, Game, PromotionState};
use chanal::moves::Move;
use chanal::pieces::{Colour, Piece, Position};
use chanal::tree::IndexedStore;

fn legal(g: &Game, fr: usize, ff: usize, tr: usize, tf: usize) -> Move {
    g.legal_moves(fr, ff)
        .get(tr, tf)
        .expect("the move should be legal")
}

#[test]
fn back_then_forward_restores_positions() {
    let mut g = Game::new();
    let a = legal(&g, 6, 4, 4, 4); // e4
    g.apply_move(a);
    let b = legal(&g, 1, 4, 3, 4); // e5
    g.apply_move(b);
    assert_eq!(g.board().at(4, 4), Position::Occupied(Piece::Pawn, Colour::White));
    assert_eq!(g.board().at(3, 4), Position::Occupied(Piece::Pawn, Colour::Black));
    g.back();
    // The position after the first move, exactly.
    assert_eq!(g.board().at(4, 4), Position::Occupied(Piece::Pawn, Colour::White));
    assert_eq!(g.board().at(3, 4), Position::Empty);
    assert_eq!(g.board().at(1, 4), Position::Occupied(Piece::Pawn, Colour::Black));
    assert_eq!(g.to_move(), Colour::Black);
    // Forward replays the very move that was undone.
    let replayed = g.forward();
    assert_eq!(replayed, Some(b));
    assert_eq!(g.board().at(3, 4), Position::Occupied(Piece::Pawn, Colour::Black));
    assert_eq!(g.to_move(), Colour::White);
}

#[test]
fn back_at_root_and_forward_at_leaf_do_nothing() {
    let mut g = Game::new();
    g.back();
    assert_eq!(g.to_move(), Colour::White);
    assert_eq!(g.forward(), None);
    let a = legal(&g, 6, 4, 4, 4);
    g.apply_move(a);
    assert_eq!(g.forward(), None);
}

#[test]
fn variations_toggle_between_branches() {
    let mut g = Game::new();
    let a = legal(&g, 6, 4, 4, 4); // e4
    g.apply_move(a);
    let b = legal(&g, 1, 4, 3, 4); // e5: the first branch
    g.apply_move(b);
    g.back();
    let b2 = legal(&g, 1, 2, 3, 2); // c5: a sibling variation
    g.apply_move(b2);
    assert_eq!(g.board().at(3, 2), Position::Occupied(Piece::Pawn, Colour::Black));
    // The previous sibling is the e5 branch.
    g.prev_variation();
    assert_eq!(g.board().at(3, 4), Position::Occupied(Piece::Pawn, Colour::Black));
    assert_eq!(g.board().at(3, 2), Position::Empty);
    // And forward again to the c5 branch.
    g.next_variation();
    assert_eq!(g.board().at(3, 2), Position::Occupied(Piece::Pawn, Colour::Black));
    assert_eq!(g.board().at(3, 4), Position::Empty);
    // At either end the pointer stays put.
    g.next_variation();
    assert_eq!(g.board().at(3, 2), Position::Occupied(Piece::Pawn, Colour::Black));
    g.prev_variation();
    g.prev_variation();
    assert_eq!(g.board().at(3, 4), Position::Occupied(Piece::Pawn, Colour::Black));
}

#[test]
fn reapplying_a_move_reenters_its_branch() {
    let mut g = Game::new();
    let a = legal(&g, 6, 4, 4, 4);
    g.apply_move(a);
    let b = legal(&g, 1, 4, 3, 4);
    g.apply_move(b);
    g.back();
    let b2 = legal(&g, 1, 2, 3, 2);
    g.apply_move(b2);
    g.back();
    // Re-applying the first move re-enters its node instead of adding one:
    // the sibling list still holds exactly the two branches, so one
    // next_variation step reaches the c5 branch and a second changes
    // nothing.
    g.apply_move(b);
    assert_eq!(g.board().at(3, 4), Position::Occupied(Piece::Pawn, Colour::Black));
    g.next_variation();
    assert_eq!(g.board().at(3, 2), Position::Occupied(Piece::Pawn, Colour::Black));
    g.next_variation();
    assert_eq!(g.board().at(3, 2), Position::Occupied(Piece::Pawn, Colour::Black));
}

#[test]
fn forward_prefers_the_last_explored_branch() {
    let mut g = Game::new();
    let a = legal(&g, 6, 4, 4, 4);
    g.apply_move(a);
    let b = legal(&g, 1, 4, 3, 4);
    g.apply_move(b);
    g.back();
    let b2 = legal(&g, 1, 2, 3, 2);
    g.apply_move(b2); // the c5 branch is now the most recently explored
    g.back();
    let replayed = g.forward();
    assert_eq!(replayed, Some(b2));
    assert_eq!(g.board().at(3, 2), Position::Occupied(Piece::Pawn, Colour::Black));
}

#[test]
fn applying_at_checkmate_changes_nothing() {
    let mut g = Game::new();
    let moves = [
        ((6usize, 5usize), (5usize, 5usize)), // f3
        ((1, 4), (3, 4)),                     // e5
        ((6, 6), (4, 6)),                     // g4
        ((0, 3), (4, 7)),                     // Qh4#
    ];
    for ((fr, ff), (tr, tf)) in moves {
        let m = legal(&g, fr, ff, tr, tf);
        g.apply_move(m);
    }
    assert!(g.is_check());
    // The mated side has a pawn move in shape, but the game is over: the
    // tree refuses to advance.
    let m = Move {
        piece: Piece::Pawn,
        colour: Colour::White,
        from_rank: 6,
        from_file: 0,
        to_rank: 5,
        to_file: 0,
        capture: None,
        check_cnt: 0,
        may_promote: false,
        promotion: None,
    };
    g.apply_move(m);
    assert_eq!(g.board().at(6, 0), Position::Occupied(Piece::Pawn, Colour::White));
    assert_eq!(g.board().at(5, 0), Position::Empty);
}

#[test]
fn check_flag_and_king_position() {
    let mut g = Game::new();
    assert!(!g.is_check());
    assert_eq!(g.king_position(), (7, 4));
    let moves = [
        ((6usize, 4usize), (4usize, 4usize)), // e4
        ((1, 5), (2, 5)),                     // f6
        ((7, 3), (3, 7)),                     // Qh5+
    ];
    for ((fr, ff), (tr, tf)) in moves {
        let m = legal(&g, fr, ff, tr, tf);
        g.apply_move(m);
    }
    assert!(g.is_check());
    assert_eq!(g.king_position(), (0, 4));
}

#[test]
fn board_mut_supports_the_drag_interaction() {
    let mut g = Game::new();
    let b = g.board_mut();
    b.set(6, 4, Position::Picked(Piece::Pawn, Colour::White));
    assert_eq!(g.board().at(6, 4), Position::Picked(Piece::Pawn, Colour::White));
    let mm = g.legal_moves(6, 4);
    assert_eq!(mm.len(), 2);
    // Applying the chosen move sets every remaining picked piece down.
    let m = mm.get(4, 4).expect("the double advance");
    g.apply_move(m);
    assert_eq!(g.board().at(4, 4), Position::Occupied(Piece::Pawn, Colour::White));
    assert_eq!(g.board().at(6, 4), Position::Empty);
}

#[test]
fn slot_store_reuses_freed_slots() {
    let mut st: IndexedStore<u32> = IndexedStore::new();
    assert_eq!(st.insert(10), 0);
    assert_eq!(st.insert(11), 1);
    assert_eq!(st.insert(12), 2);
    assert_eq!(*st.get(1), 11);
    st.delete(1);
    assert_eq!(st.insert(13), 1);
    assert_eq!(*st.get(1), 13);
    st.delete(2);
    st.delete(0);
    assert_eq!(st.insert(14), 0);
    assert_eq!(st.insert(15), 2);
    assert_eq!(st.insert(16), 3);
    *st.get_mut(3) = 17;
    assert_eq!(*st.get(3), 17);
}

#[test]
fn board_size_is_the_largest_multiple_of_eight() {
    assert_eq!(board_size(496, 500), 496);
    assert_eq!(board_size(100, 50), 48);
    assert_eq!(board_size(7, 7), 0);
    assert_eq!(board_size(64, 64), 64);
}

#[test]
fn promotion_state_lays_out_four_choices() {
    let mut g = Game::new();
    let m = legal(&g, 6, 3, 4, 3); // d4: any move will do as a carrier
    let ps = PromotionState::new(m);
    assert_eq!(ps.pieces.len(), 4);
    let expected = [Piece::Queen, Piece::Knight, Piece::Rook, Piece::Bishop];
    for (i, pp) in ps.pieces.iter().enumerate() {
        assert_eq!(pp.rank, i);
        assert_eq!(pp.file, 3);
        assert_eq!(pp.piece, expected[i]);
        assert_eq!(pp.colour, Colour::White);
        assert!(!pp.highlighted);
    }
    assert_eq!(ps.choice_at(1, 3), Some((Piece::Knight, Colour::White)));
    assert_eq!(ps.choice_at(5, 5), None);
    g.apply_move(m);
}
