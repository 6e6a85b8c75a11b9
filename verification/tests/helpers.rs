//! Tests of the small helpers: squares, colours, pieces, the packed
//! move encoding and its coordinate form.

use rschessbook::board::Sboard;
use rschessbook::color::{colour_is_black, colour_is_ok, colour_is_white, BLACK, WHITE};
use rschessbook::moves::{get_uci_format, Shist, Smove, SundoMove, Enroques};
use rschessbook::piece::{char_is_piece, to_piece_poly, KING, KNIGHT, PAWN, QUEEN};
use rschessbook::square::{
    char_is_file, char_is_rank, square_from_string, square_side_rank, square_to_string,
    SQUARE_NONE,
};
use rschessbook::util::{get_col, get_row};

#[test]
fn encode_move_packs_the_fields() {
    // e2 (index 52) to e4 (index 36), a plain move
    let mut m = Smove::new();
    m.from = 52;
    m.dest = 36;
    m.tipe = 1;
    m.encode_move();
    assert_eq!(m.encoded_move, 796);
    assert_eq!(get_uci_format(m.encoded_move), "e2e4 ");

    // white castles short: encoded as the king landing on h1
    let mut c = Smove::new();
    c.from = 60;
    c.dest = 62;
    c.tipe = 2;
    c.encode_move();
    assert_eq!(get_uci_format(c.encoded_move), "e1h1 ");

    // a promotion to queen carries the promotion piece
    let mut p = Smove::new();
    p.from = 8;
    p.dest = 0;
    p.tipe = 5;
    p.encode_move();
    assert_eq!(get_uci_format(p.encoded_move), "a7a8q");
}

#[test]
fn squares_and_chars() {
    let mut s = String::new();
    assert!(square_to_string(36, &mut s, 3));
    assert_eq!(s, "e4");

    let mut name = String::from("e4");
    assert_eq!(square_from_string(&mut name), 36);
    let mut bad = String::from("j9");
    assert_eq!(square_from_string(&mut bad), SQUARE_NONE);
    let mut long = String::from("e4x");
    assert_eq!(square_from_string(&mut long), SQUARE_NONE);

    assert!(char_is_rank('1') && char_is_rank('8') && !char_is_rank('9'));
    assert!(char_is_file('a') && char_is_file('h') && !char_is_file('i'));
    assert!(char_is_piece('Q') && !char_is_piece('q'));

    assert_eq!(square_side_rank(0, WHITE), 0);
    assert_eq!(square_side_rank(0, BLACK), 7);
    assert_eq!(get_col(36), 4);
    assert_eq!(get_row(36), 4);
}

#[test]
fn colours_and_pieces() {
    assert!(colour_is_ok(WHITE) && colour_is_ok(BLACK) && !colour_is_ok(7));
    assert!(colour_is_white(WHITE) && !colour_is_white(BLACK));
    assert!(colour_is_black(BLACK) && !colour_is_black(WHITE));

    assert_eq!(to_piece_poly(PAWN, WHITE), 1);
    assert_eq!(to_piece_poly(PAWN, BLACK), 0);
    assert_eq!(to_piece_poly(QUEEN, WHITE), 9);
    assert_eq!(to_piece_poly(KING, BLACK), 10);
    assert_eq!(to_piece_poly(KNIGHT, WHITE), 3);
}

#[test]
fn constructors_and_flags() {
    let h = Shist::new();
    assert_eq!(h.castle, 0);
    assert_eq!(h.ep_before, -1);
    let u = SundoMove::new();
    assert_eq!(u.passant, -1);

    assert_eq!(Enroques::Wkca.bit(), 1);
    assert_eq!(Enroques::Wqca.bit(), 2);
    assert_eq!(Enroques::Bkca.bit(), 4);
    assert_eq!(Enroques::Bqca.bit(), 8);

    let board = Sboard::new();
    assert_eq!(board.get_side(), WHITE);
    assert_eq!(board.get_board_flags(), 15);
    assert_eq!(board.castle_rights, 15);

    let mut cleared = Sboard::new();
    assert!(cleared.set_fen("8/8/8/8/8/8/8/k6K w - - 0 1"));
    assert_eq!(cleared.get_board_flags(), 0);
}
