//! Tests of the position engine: perft node counts, SAN game replay,
//! position-text round trips, make/undo exactness and hash stability.

use rschessbook::board::Sboard;
use rschessbook::moves::Smove;
use rschessbook::perft::Perft;
use rschessbook::san::move_from_san;

#[test]
fn test_perft() {
    let depth: i32 = 4;
    let mut board1: Sboard = Sboard::new();
    let expected: [u64; 4] = [20, 400, 8902, 197281];
    for i in 1..depth + 1 {
        let nodes = Perft::mini_max(&mut board1, i);
        assert_eq!(nodes, expected[(i - 1) as usize]);
    }
}

#[test]
fn test_valid_game() {
    let partida: Vec<&str> = vec![
        "d2-d4", "Nf6", "c4", "e6", "Nc3", "d5", "cxd5", "exd5", "Bg5", "c6", "e3", "Bf5", "Qf3",
        "Bg6", "Bxf6", "Qxf6", "Qxf6", "gxf6", "Nf3", "Nd7", "O-O-O", "Nb6", "Bd3", "Bb4", "Nh4",
        "Nc8", "Ne2", "Nd6", "Ng3", "O-O-O", "Nhf5", "Nxf5", "Nxf5", "Bxf5", "Bxf5+", "Kc7", "h4",
        "h6", "h5", "a5", "Rd3", "a4", "a3", "Be7", "Re1", "Rhe8", "Kc2", "Bd6", "Rc1", "Ra8",
        "Kb1", "b5", "f3", "b4", "axb4", "Bxb4", "e4", "Kd6", "Rc2", "Ra6", "Re3", "Ra7", "Rxc6+",
        "Kxc6", "exd5+", "Kxd5", "Rxe8", "Kxd4", "Rh8", "Bd2", "Bc2", "Ra5", "Rd8+", "Ke3", "Rd6",
        "a3", "Rd3+", "Ke2", "bxa3", "Rxh5", "Rd7", "Bc3", "Ka2", "Rc5", "Kb3", "h5", "Rxf7",
        "Kf2", "Rh7", "Kxg2", "Bg6", "Kxf3", "Rxh5", "Be5", "Kb4", "Rc1", "a4", "Kg4", "Rh7",
    ];

    let mut board: Sboard = Sboard::new();

    for jug in partida.iter() {
        let resul = move_from_san(jug.to_string(), &board);
        match resul {
            Some(mov) => {
                let applied = board.make_move(&mov);
                assert!(applied.is_some(), "move rejected: {}", jug);
                let fen = board.get_fen();
                assert!(fen.len() > 0);
            },
            None => {
                panic!("erroneous move in {}", jug);
            },
        };
    }
}

#[test]
fn test_set_get_fen() {
    let mut board: Sboard = Sboard::new();
    let mut move_buf: Vec<Smove> = Vec::new();

    let fen: &str = "r3k2r/8/8/8/8/8/8/R3K2R w KQkq - 0 1";

    let resul = board.set_fen(fen);
    assert!(resul);

    move_buf.clear();
    let num_jugadas = board.gen_moves(&mut move_buf);
    assert!(num_jugadas > 1);
    let resul = board.make_move(&move_buf[1]);
    match resul {
        Some(m) => {
            assert!(m.from < 64 && m.dest < 64);
            let fen2 = board.get_fen();
            assert!(fen2.len() > 0);
        },
        None => {
            panic!("invalid move");
        },
    };

    board.undo_move(&move_buf[1]);
    let resul = board.make_move(&move_buf[3]);
    match resul {
        Some(m) => {
            assert!(m.from < 64 && m.dest < 64);
            let fen3 = board.get_fen();
            assert!(fen3.len() > 0);
        },
        None => {
            panic!("invalid move");
        },
    };
}

// Position texts round-trip exactly through load and serialize.
#[test]
fn fen_round_trip() {
    let cases = [
        "rnbqkbnr/pppppppp/8/8/8/8/PPPPPPPP/RNBQKBNR w KQkq - 0 1",
        "r3k2r/8/8/8/8/8/8/R3K2R w KQkq - 0 1",
        "rnbqkbnr/pppppppp/8/8/4P3/8/PPPP1PPP/RNBQKBNR b KQkq e3 0 1",
        "r3k2r/pP4P1/8/3pP3/8/8/6p1/R3K2R w KQkq d6 4 23",
        "8/8/8/8/8/8/8/k6K w - - 99 255",
        "8/8/8/8/8/8/8/k6K b - - 0 4294967295",
    ];
    for fen in cases.iter() {
        let mut board = Sboard::new();
        assert!(board.set_fen(fen), "rejected: {}", fen);
        assert_eq!(board.get_fen(), *fen);
    }
}

// Malformed or non-canonical position texts are rejected and leave the
// position unchanged.
#[test]
fn fen_rejects_bad_text() {
    let mut board = Sboard::new();
    let before = board.get_fen();
    assert!(!board.set_fen("garbage"));
    assert!(!board.set_fen(""));
    // a non-canonical empty-square run
    assert!(!board.set_fen("rnbqkbnr/pppppppp/44/8/8/8/PPPPPPPP/RNBQKBNR w KQkq - 0 1"));
    // an en-passant square on the wrong rank
    assert!(!board.set_fen("rnbqkbnr/pppppppp/8/8/8/8/PPPPPPPP/RNBQKBNR w KQkq e4 0 1"));
    // castling rights without the rook at home
    assert!(!board.set_fen("rnbqkbn1/pppppppp/7r/8/8/8/PPPPPPPP/RNBQKBNR w KQkq - 0 1"));
    assert_eq!(board.get_fen(), before);
}

// Applying any generated move and taking it back restores every field,
// across plain moves, captures, castlings, promotions and en-passant
// captures.
#[test]
fn undo_restores_position() {
    let cases = [
        "rnbqkbnr/pppppppp/8/8/8/8/PPPPPPPP/RNBQKBNR w KQkq - 0 1",
        "r3k2r/pP4P1/8/3pP3/8/8/6p1/R3K2R w KQkq d6 4 23",
        "r3k2r/6p1/8/8/3Pp3/8/Pp4P1/R3K2R b KQkq d3 0 30",
    ];
    for fen in cases.iter() {
        let mut board = Sboard::new();
        assert!(board.set_fen(fen), "rejected: {}", fen);
        let before_fen = board.get_fen();
        let before_hash = board.hash_key;

        let mut moves: Vec<Smove> = Vec::new();
        let n = board.gen_moves(&mut moves);
        assert!(n > 0);
        for m in moves.iter() {
            board.make_move(m);
            board.undo_move(m);
            assert_eq!(board.get_fen(), before_fen, "undo of {}->{}", m.from, m.dest);
            assert_eq!(board.hash_key, before_hash);
        }
    }
}

// The hash maintained across moves equals the hash computed by loading
// the serialized position from scratch.
#[test]
fn hash_matches_rescan_after_moves() {
    let mut board = Sboard::new();
    for san in ["e4", "e5", "Nf3", "Nc6", "Bb5", "a6", "O-O", "Nf6", "d4", "exd4"].iter() {
        let mov = move_from_san(san.to_string(), &board).expect("unresolved move");
        assert!(board.make_move(&mov).is_some());
        let mut fresh = Sboard::new();
        assert!(fresh.set_fen(&board.get_fen()));
        assert_eq!(fresh.hash_key, board.hash_key, "after {}", san);
    }
}

// Wherever a pawn can reach the last rank, generation emits all four
// promotion moves for that origin and destination.
#[test]
fn promotions_come_in_fours() {
    let mut board = Sboard::new();
    // white pawn on b7 can push to b8 and capture on a8 and c8
    assert!(board.set_fen("n1n5/1P6/8/8/8/8/8/4K2k w - - 0 1"));
    let mut moves: Vec<Smove> = Vec::new();
    board.gen_moves(&mut moves);
    for dest in [0usize, 1, 2] {
        for tipe in [5usize, 6, 7, 8] {
            assert!(
                moves.iter().any(|m| m.from == 9 && m.dest == dest && m.tipe == tipe),
                "missing promotion {} -> {} type {}",
                9,
                dest,
                tipe
            );
        }
    }
}

// The resolver returns a real generated move, not its input.
#[test]
fn san_resolves_to_board_move() {
    let board = Sboard::new();
    let mov = move_from_san("Nf3".to_string(), &board).expect("Nf3 must resolve");
    assert_eq!(mov.from, 62);
    assert_eq!(mov.dest, 45);
    assert_eq!(mov.hash, board.hash_key);
    assert!(move_from_san("Zz9".to_string(), &board).is_none());
    assert!(move_from_san("Nf6".to_string(), &board).is_none());
}
