use grob::game::GameEnding;
use grob::hashmap::{KeyLookup, WeakHashMap};
use grob::move_list::MoveList;
use grob::movegen::{ChessMove, ChessMoveHint, PackedChessMove};
use grob::pv::PvTable;
use grob::score::Score;
use grob::search_score::Score as S;
use grob::transposition::TranspositionTableBase;
use grob::Square;
use std::cmp::Ordering;

fn mv(from: u8, to: u8) -> ChessMove {
    ChessMove {
        from: Square::from_repr(from).unwrap(),
        to: Square::from_repr(to).unwrap(),
        hint: ChessMoveHint::Quiet,
    }
}

#[test]
fn score_order_and_steps() {
    assert_eq!(Score::Mating(1).cmp(&Score::Mating(2)), Ordering::Greater);
    assert_eq!(Score::Mated(1).cmp(&Score::Mated(2)), Ordering::Less);
    assert_eq!(Score::Cp(5).cmp(&Score::Mating(9)), Ordering::Less);
    assert_eq!(Score::Cp(5).cmp(&Score::Mated(9)), Ordering::Greater);
    assert_eq!(Score::Cp(5).cmp(&Score::Cp(5)), Ordering::Equal);
    assert_eq!(Score::ending(GameEnding::Checkmate), Score::Mated(0));
    assert_eq!(Score::ending(GameEnding::Stalemate), Score::Cp(0));
    assert_eq!(Score::Mated(0).prev(), Score::Mating(1));
    assert_eq!(Score::Cp(30).prev(), Score::Cp(-30));
    assert_eq!(Score::Mating(1).next(), Score::Mated(0));
    assert_eq!(Score::Mated(3).prev().next(), Score::Mated(3));
}

#[test]
fn search_score_encoding() {
    assert_eq!(S::from_mating(3), S(i32::MAX - 3));
    assert_eq!(S::from_mated(3), S(i32::MIN + 3));
    assert_eq!(S::from_centipawns(i32::MAX), S(S::CENTIPAWNS_MAX));
    assert_eq!(S::from_centipawns(i32::MIN), S(S::CENTIPAWNS_MIN));
    assert_eq!(S::from_centipawns(42).as_centipawns(), Some(42));
    assert!(S::from_mating(3).is_mating());
    assert!(S::from_mated(3).is_mated());
    assert_eq!(S::from_mating(3).as_mating(), Some(3));
    assert_eq!(S::from_mated(3).as_mated(), Some(3));
    assert_eq!(S::from_mating(3).as_mated(), None);
    assert_eq!(S::from_centipawns(0).as_mated(), None);
    assert_eq!(S::from_ending(GameEnding::Checkmate), S::from_mated(0));
    assert_eq!(S::from_ending(GameEnding::Stalemate), S::from_centipawns(0));
    assert_eq!(S(100).prev(), S(-100));
    assert_eq!(S::from_mating(2).prev(), S(-(i32::MAX - 2) - 1));
    assert_eq!(S::from_mating(2).prev(), S::from_mated(2));
    assert_eq!(S::from_mated(0).prev(), S::from_mating(1));
    assert_eq!(S::from_mated(2).prev(), S::from_mating(3));
    assert_eq!(S::from_centipawns(50).prev(), S::from_centipawns(-50));
    assert_eq!(S::from_mating(2).next(), S(-(i32::MAX - 2) - 2));
    assert_eq!(S::from_mated(2).next(), S(-(i32::MIN + 2 + 1)));
    // A step back and forth gives a score back, but for the lowest centipawn score.
    for s in [S(0), S(123), S(-123), S::from_mating(4), S::from_mated(0), S::from_mated(7), S(S::CENTIPAWNS_MAX)] {
        assert_eq!(s.prev().next(), s);
    }
    for s in [S(0), S(123), S::from_mating(4), S::from_mated(0), S::from_mated(255), S(S::CENTIPAWNS_MAX)] {
        assert_eq!(s.next().prev(), s);
    }
    assert_eq!(S(S::CENTIPAWNS_MIN).prev().next(), S(S::CENTIPAWNS_MIN - 2));
}

#[test]
fn castling_fen_roundtrip() {
    for bits in 0..16u8 {
        let rights = grob::CastlingRights(bits);
        let text = rights.into_fen_segment();
        assert_eq!(grob::CastlingRights::from_fen_segment(&text), Some(rights));
    }
    assert_eq!(grob::CastlingRights(15).into_fen_segment(), "KQkq");
    assert_eq!(grob::CastlingRights(0).into_fen_segment(), "-");
    assert_eq!(grob::CastlingRights::from_fen_segment("kK"), None);
}

#[test]
fn move_list_groups() {
    let mut list = MoveList::empty();
    list.push_group();
    list.push_move(mv(12, 28));
    list.push_move(mv(6, 21));
    list.push_group();
    list.push_move(mv(52, 36));
    assert_eq!(list.pop_move(), Some(mv(52, 36)));
    assert_eq!(list.pop_move(), None);
    list.pop_group();
    assert_eq!(list.pop_move(), Some(mv(6, 21)));
    assert_eq!(list.pop_move(), Some(mv(12, 28)));
    assert_eq!(list.pop_move(), None);
}

#[test]
fn move_list_group_mut_reorders_the_current_group() {
    let mut list = MoveList::empty();
    list.push_group();
    list.push_move(mv(1, 18));
    list.push_group();
    list.push_move(mv(12, 28));
    list.push_move(mv(6, 21));
    list.push_move(mv(11, 27));
    let group = list.group_mut();
    assert_eq!(group.len(), 3);
    assert_eq!(group[0].get(), mv(12, 28));
    group.swap(0, 2);
    assert_eq!(list.pop_move(), Some(mv(12, 28)));
    assert_eq!(list.pop_move(), Some(mv(6, 21)));
    assert_eq!(list.pop_move(), Some(mv(11, 27)));
    assert_eq!(list.pop_move(), None);
    list.pop_group();
    assert_eq!(list.group_mut().len(), 1);
}

#[test]
fn packed_move_roundtrip() {
    let m = ChessMove {
        from: Square::from_repr(52).unwrap(),
        to: Square::from_repr(60).unwrap(),
        hint: ChessMoveHint::QueenPromotionCapture,
    };
    assert_eq!(PackedChessMove::new(m).get(), m);
}

#[test]
fn transposition_read_after_write() {
    let mut table: TranspositionTableBase<u32> = TranspositionTableBase::new(8);
    assert_eq!(table.capacity(), 8);
    assert!(table.get(17).is_none());
    assert_eq!(table.insert(17, 5), None);
    let entry = table.get(17).unwrap();
    assert!(entry.is_exact());
    assert_eq!(*entry.get(), 5);
    assert_eq!(table.insert(17, 6), Some(5));
    assert_eq!(*table.get(17).unwrap().get(), 6);
    // Key 25 lands on the same slot as 17 and replaces it.
    assert_eq!(table.insert(25, 7), Some(6));
    assert!(!table.get(17).unwrap().is_exact());
    table.clear();
    assert!(table.get(25).is_none());
}

#[test]
fn weak_hash_map_lookup() {
    let mut map: WeakHashMap<u32> = WeakHashMap::new(4);
    assert!(map.get(3).is_empty());
    let entry = map.entry(3);
    match entry {
        grob::hashmap::Entry::Empty(e) => {
            e.insert(&mut map, 9);
        }
        _ => panic!("slot should be empty"),
    }
    match map.get(3) {
        KeyLookup::Exact(k, v) => {
            assert_eq!(k, 3);
            assert_eq!(*v, 9);
        }
        _ => panic!("key should be found"),
    }
    assert!(map.get(7).is_clash());
    map.clear();
    assert!(map.get(3).is_empty());
}

#[test]
fn pv_table_collects_lines() {
    let mut pv = PvTable::new(2);
    assert_eq!(pv.pv_capacity(), 2);
    assert_eq!(pv.pv_len(), 0);
    assert_eq!(pv.pv(), Vec::<ChessMove>::new());
    pv.store(mv(12, 28), 0);
    pv.store(mv(52, 36), 1);
    pv.store(mv(6, 21), 0);
    assert_eq!(pv.pv_len(), 2);
    assert_eq!(pv.pv(), vec![mv(6, 21), mv(52, 36)]);
    pv.apply_pv_move();
    assert_eq!(pv.pv_len(), 1);
    assert_eq!(pv.pv(), vec![mv(52, 36)]);
    pv.clear(0);
    assert_eq!(pv.pv_len(), 0);
}

#[test]
fn pv_table_short_line_in_a_large_table() {
    let mut pv = PvTable::new(4);
    pv.store(mv(12, 28), 0);
    assert_eq!(pv.pv_len(), 1);
    assert_eq!(pv.pv(), vec![mv(12, 28)]);
    pv.store(mv(52, 36), 1);
    pv.store(mv(6, 21), 2);
    pv.store(mv(57, 42), 1);
    pv.store(mv(1, 18), 0);
    assert_eq!(pv.pv_len(), 3);
    assert_eq!(pv.pv(), vec![mv(1, 18), mv(57, 42), mv(6, 21)]);
    pv.apply_pv_move();
    assert_eq!(pv.pv(), vec![mv(57, 42), mv(6, 21)]);
}

#[test]
fn pv_table_single_ply() {
    let mut pv = PvTable::new(1);
    pv.store(mv(12, 28), 0);
    assert_eq!(pv.pv(), vec![mv(12, 28)]);
}

#[test]
fn weak_hash_map_mutable_access() {
    let mut map: WeakHashMap<u32> = WeakHashMap::new(4);
    let exact = match map.entry(1) {
        grob::hashmap::Entry::Empty(e) => e.insert(&mut map, 10),
        _ => panic!("slot should be empty"),
    };
    *exact.get_mut(&mut map) += 5;
    assert_eq!(*exact.get(&map), 15);
    *exact.into_mut(&mut map) = 20;
    match map.get(1) {
        KeyLookup::Exact(_, v) => assert_eq!(*v, 20),
        _ => panic!("key should be found"),
    }
}
