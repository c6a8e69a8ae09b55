use barbel::moving::move_making::construct_move;
use barbel::moving::mv::Move;
use barbel::search::history::HistoryTable;
use barbel::search::killers::KillerTable;
use barbel::search::pv_table::PvTable;
use barbel::search::transposition::{Entry, TTEntryType, TTable};

fn entry(key: u64, depth_left: i32, score: i32, generation: i32) -> Entry {
    Entry { key, depth_left, score, generation, entry_type: TTEntryType::Exact, best_move: Move::null() }
}

#[test]
fn stored_entry_is_probed_back() {
    let mut tt = TTable::new();
    assert!(tt.probe(5).is_none());
    tt.store(entry(5, 3, 10, 1));
    let e = tt.probe(5).unwrap();
    assert_eq!(e.score, 10);
    assert_eq!(e.depth_left, 3);
    assert!(tt.probe(5 + (1u64 << 23)).is_none());
}

#[test]
fn shallower_entry_does_not_replace_until_it_is_much_younger() {
    let mut tt = TTable::new();
    tt.store(entry(7, 4, 10, 1));
    tt.store(entry(7, 2, 20, 3));
    assert_eq!(tt.probe(7).unwrap().score, 10);
    tt.store(entry(7, 4, 30, 3));
    assert_eq!(tt.probe(7).unwrap().score, 30);
    tt.store(entry(7, 0, 40, 8));
    assert_eq!(tt.probe(7).unwrap().score, 40);
}

#[test]
fn entry_of_another_key_in_the_slot_is_replaced_when_deeper() {
    let mut tt = TTable::new();
    let other = 9 + (1u64 << 23);
    tt.store(entry(9, 1, 10, 1));
    tt.store(entry(other, 2, 20, 1));
    assert!(tt.probe(9).is_none());
    assert_eq!(tt.probe(other).unwrap().score, 20);
}

#[test]
fn history_adds_depth_squared_plus_one() {
    let mut h = HistoryTable::new();
    let mv = construct_move("g1", "f3", 0);
    assert_eq!(h.get_val(&mv), 0);
    h.add(&mv, 3);
    assert_eq!(h.get_val(&mv), 10);
    h.add(&mv, 0);
    assert_eq!(h.get_val(&mv), 11);
    assert_eq!(h.get_val(&construct_move("b1", "c3", 0)), 0);
}

#[test]
fn killer_is_found_after_update() {
    let mut k = KillerTable::new();
    let mv = construct_move("g1", "f3", 0);
    let other = construct_move("b1", "c3", 0);
    assert!(!k.is_killer(3, &mv));
    k.update(3, mv);
    assert!(k.is_killer(3, &mv));
    assert!(!k.is_killer(3, &other));
    assert!(!k.is_killer(4, &mv));
    assert!(!k.is_killer(-1, &mv));
    assert!(!k.is_killer(100, &mv));
}

#[test]
fn killer_of_a_ply_outside_the_table_lands_in_the_last_row() {
    let mut k = KillerTable::new();
    let mv = construct_move("e2", "e4", 1);
    k.update(150, mv);
    assert!(k.is_killer(99, &mv));
    let mv2 = construct_move("d2", "d4", 1);
    k.update(-5, mv2);
    assert!(k.is_killer(99, &mv2));
    assert!(!k.is_killer(99, &mv));
}

#[test]
fn pv_table_builds_the_line_from_the_rows_below() {
    let mut pv = PvTable::new(4);
    let a = construct_move("e2", "e4", 1);
    let b = construct_move("e7", "e5", 1);
    let c = construct_move("g1", "f3", 0);
    let d = construct_move("b8", "c6", 0);
    pv.update(3, d);
    pv.update(2, c);
    pv.update(1, b);
    pv.update(0, a);
    assert_eq!(pv.get_best(0).to_str(), "e2e4");
    assert_eq!(pv.get_best(1).to_str(), "e7e5");
    assert_eq!(pv.get_pv_string(), "e2e4 e7e5 g1f3 b8c6 ");
}

#[test]
fn pv_line_stops_at_the_first_null_move() {
    let mut pv = PvTable::new(3);
    pv.update(0, construct_move("d2", "d4", 1));
    assert_eq!(pv.get_pv_string(), "d2d4 ");
    assert_eq!(PvTable::new(3).get_pv_string(), "");
}
