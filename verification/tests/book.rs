//! Tests of the book aggregation arithmetic and the binary record
//! format.

use rschessbook::book::{modify_node, records_to_bytes, write_integer, Sbook, Sentry, SfinalEntry};

// Inserting the same (hash, move) pair from one white win, one black
// win and one draw yields the same totals and weight in any order.
#[test]
fn aggregation_is_order_independent() {
    let orders: [[i32; 3]; 6] = [
        [1, -1, 0],
        [1, 0, -1],
        [-1, 1, 0],
        [-1, 0, 1],
        [0, 1, -1],
        [0, -1, 1],
    ];
    for order in orders.iter() {
        let mut book = Sbook::new();
        for r in order.iter() {
            book.insert_move(0xABCD, 0x1234, *r);
        }
        book.do_calculations();
        let bucket = book.btree.get(&0xABCD).expect("bucket must exist");
        assert_eq!(bucket.len(), 1);
        let e = &bucket[0];
        assert_eq!(e.total_games, 3);
        assert_eq!(e.win_white, 1);
        assert_eq!(e.win_black, 1);
        // weight = 2 * white wins + draws
        assert_eq!(e.weight, 2 * 1 + 1);
    }
}

// A draw advances only the game counter; distinct moves from the same
// position get their own entries.
#[test]
fn insert_move_counts() {
    let mut book = Sbook::new();
    book.insert_move(7, 100, 0);
    book.insert_move(7, 100, 0);
    book.insert_move(7, 200, 1);
    book.insert_move(9, 100, -1);
    book.do_calculations();
    let b7 = book.btree.get(&7).unwrap();
    assert_eq!(b7.len(), 2);
    assert_eq!(b7[0].move_, 100);
    assert_eq!(b7[0].total_games, 2);
    assert_eq!(b7[0].win_white, 0);
    assert_eq!(b7[0].win_black, 0);
    assert_eq!(b7[0].weight, 2);
    assert_eq!(b7[1].move_, 200);
    assert_eq!(b7[1].weight, 2);
    let b9 = book.btree.get(&9).unwrap();
    assert_eq!(b9[0].win_black, 1);
    assert_eq!(b9[0].weight, 0);
}

// A finalized entry serializes to exactly 16 bytes: hash, move and
// weight big-endian, then four zero bytes.
#[test]
fn record_is_sixteen_bytes_big_endian() {
    let e = SfinalEntry::new(0x0102030405060708, 0x1122, 0x3344, 0);
    let bytes = e.to_bytes();
    assert_eq!(
        bytes,
        vec![1u8, 2, 3, 4, 5, 6, 7, 8, 0x11, 0x22, 0x33, 0x44, 0, 0, 0, 0]
    );
}

#[test]
fn write_integer_is_big_endian() {
    let mut out: Vec<u8> = Vec::new();
    write_integer(&mut out, 2, 0xBEEF);
    write_integer(&mut out, 1, 7);
    assert_eq!(out, vec![0xBEu8, 0xEF, 7]);
}

// Flattening a finalized book gives one record per entry, serialized
// back to back.
#[test]
fn book_serializes_to_records() {
    let mut book = Sbook::new();
    book.insert_move(5, 41, 1);
    book.insert_move(5, 42, 1);
    book.insert_move(2, 43, 0);
    book.do_calculations();
    let records = book.book_records();
    assert_eq!(records.len(), 3);
    let bytes = records_to_bytes(&records);
    assert_eq!(bytes.len(), 48);
    // every record carries its own key in its first eight bytes
    for (i, rec) in records.iter().enumerate() {
        let mut key: u64 = 0;
        for b in &bytes[16 * i..16 * i + 8] {
            key = key << 8 | *b as u64;
        }
        assert_eq!(key, rec.key);
    }
}

#[test]
fn modify_node_appends_when_unmatched() {
    let mut elems: Vec<Sentry> = Vec::new();
    elems.push(Sentry::create_entry(1, 10, 1));
    modify_node(&mut elems, 1, 11, -1);
    assert_eq!(elems.len(), 2);
    modify_node(&mut elems, 1, 10, -1);
    assert_eq!(elems.len(), 2);
    assert_eq!(elems[0].total_games, 2);
    assert_eq!(elems[0].win_white, 1);
    assert_eq!(elems[0].win_black, 1);
}

// Larger mixed series: total and weight follow the counts exactly.
#[test]
fn aggregation_counts_larger_series() {
    let mut book = Sbook::new();
    let series: [i32; 9] = [1, 1, 1, -1, -1, 0, 0, 0, 0];
    for r in series.iter() {
        book.insert_move(99, 7, *r);
    }
    book.do_calculations();
    let e = &book.btree.get(&99).unwrap()[0];
    assert_eq!(e.total_games, 9);
    assert_eq!(e.win_white, 3);
    assert_eq!(e.win_black, 2);
    assert_eq!(e.weight, 2 * 3 + 4);
}

// The weight is truncated to its 16-bit field.
#[test]
fn weight_truncates_to_sixteen_bits() {
    let mut book = Sbook::new();
    for _ in 0..32768 {
        book.insert_move(1, 1, 1);
    }
    book.do_calculations();
    let e = &book.btree.get(&1).unwrap()[0];
    assert_eq!(e.total_games, 32768);
    assert_eq!(e.win_white, 32768);
    // 2 * 32768 wraps the 16-bit weight field to zero
    assert_eq!(e.weight, 0);
}
