use pleco_engine::piece_move::BitMove;
use pleco_engine::root_moves::{RootMove, RootMoveList};
use pleco_engine::score::{INFINITE, NEG_INFINITE};
use pleco_engine::stable_sort::{permute, sort_order};
use pleco_engine::tables::{EvalCache, Material, PawnTable};
use pleco_engine::threadpool::{best_thread, ThreadResult};
use pleco_engine::time::{Limits, LimitsType, TimeManager, UCITimer};
use pleco_engine::tt::{Entry, NodeBound, TranspositionTable};
use pleco_engine::types::{PieceType, Player, SQ};

fn mv(k: u8) -> BitMove {
    BitMove::make(0, SQ(k), SQ(k + 8))
}

fn key(top: u64, bucket: u64) -> u64 {
    (top << 48) | bucket
}

#[test]
fn moves_pack_and_print() {
    let m = BitMove::make(0, SQ(12), SQ(28));
    assert_eq!(m.get_raw(), 28 * 64 + 12);
    assert_eq!(m.get_src(), SQ(12));
    assert_eq!(m.get_dest(), SQ(28));
    assert_eq!(m.stringify(), "e2e4");
    assert!(!m.is_capture() && !m.is_castle() && !m.is_promo() && !m.is_null());
    assert_eq!(m.is_double_push(), (false, 0));
    let push = BitMove::make(1, SQ(12), SQ(28));
    assert_eq!(push.is_double_push(), (true, 28));
    let promo = BitMove::make(11, SQ(52), SQ(60));
    assert_eq!(promo.stringify(), "e7e8q");
    assert!(promo.is_promo() && !promo.is_capture());
    let takes = BitMove::make(12, SQ(52), SQ(61));
    assert_eq!(takes.stringify(), "e7f8n");
    assert!(takes.is_promo() && takes.is_capture());
    assert!(BitMove::make(4, SQ(1), SQ(2)).is_capture());
    assert!(BitMove::make(5, SQ(1), SQ(2)).is_capture());
    assert!(BitMove::make(2, SQ(4), SQ(6)).is_castle());
    assert!(BitMove::make(3, SQ(4), SQ(2)).is_castle());
    assert!(BitMove::null().is_null());
    assert_eq!(BitMove::null().stringify(), "0000");
    assert_eq!(BitMove::new(0), BitMove::null());
    assert_eq!(BitMove::new(m.get_raw()), m);
}

#[test]
fn piece_values() {
    assert_eq!(PieceType::P.value(), 1);
    assert_eq!(PieceType::N.value(), 3);
    assert_eq!(PieceType::B.value(), 3);
    assert_eq!(PieceType::R.value(), 5);
    assert_eq!(PieceType::Q.value(), 8);
    assert_eq!(PieceType::K.value(), 0);
    assert_eq!(Player::White.other_player(), Player::Black);
}

#[test]
fn sort_order_is_stable() {
    let keys = vec![4, 1, 3, 1, 4, 0, 3];
    let order = sort_order(&keys);
    assert_eq!(order, vec![5, 1, 3, 2, 6, 0, 4]);
    let items = vec!['a', 'b', 'c', 'd', 'e', 'f', 'g'];
    assert_eq!(permute(&items, &order), vec!['f', 'b', 'd', 'c', 'g', 'a', 'e']);
    assert_eq!(sort_order(&Vec::new()), Vec::<usize>::new());
}

#[test]
fn root_moves_roll_back_and_sort() {
    let mut list = RootMoveList::new();
    assert!(list.is_empty());
    list.replace(&vec![mv(0), mv(1), mv(2), mv(3)]);
    assert_eq!(list.len(), 4);
    assert_eq!(list.first(), RootMove::new(mv(0)));
    assert_eq!(list.first().score, NEG_INFINITE);
    for (i, score) in [10, 30, 10, 30].iter().enumerate() {
        let mut r = list.get(i);
        r.score = *score;
        r.depth_reached = 3;
        list.set(i, r);
    }
    list.sort();
    assert_eq!(list.to_moves(), vec![mv(1), mv(3), mv(0), mv(2)]);
    list.rollback();
    for i in 0..4 {
        assert_eq!(list.get(i).score, NEG_INFINITE);
        assert_eq!(list.get(i).depth_reached, 3);
    }
    assert_eq!(list.get(0).prev_score, 30);
    assert_eq!(list.get(2).prev_score, 10);
    list.sort_by_key(|r| r.bit_move.get_raw() as i64);
    assert_eq!(list.to_moves(), vec![mv(0), mv(1), mv(2), mv(3)]);
    list.sort_by_keys(&vec![2, 2, 1, 0]);
    assert_eq!(list.to_moves(), vec![mv(3), mv(2), mv(0), mv(1)]);
}

#[test]
fn shuffle_keeps_the_moves() {
    let moves: Vec<BitMove> = (0..30).map(mv).collect();
    let mut list = RootMoveList::new();
    list.replace(&moves);
    let mut changed = false;
    for _ in 0..20 {
        list.shuffle();
        let mut now = list.to_moves();
        if now != moves {
            changed = true;
        }
        now.sort_by_key(|m| m.get_raw());
        assert_eq!(now, moves);
    }
    assert!(changed);
}

#[test]
fn table_size_is_a_power_of_two_within_the_budget() {
    let t = TranspositionTable::new(1);
    assert_eq!(t.num_clusters(), 32768);
    let t = TranspositionTable::new(3);
    assert_eq!(t.num_clusters(), 65536);
}

#[test]
fn table_probe_and_place() {
    let mut t = TranspositionTable::new(1);
    let zob = key(0xBEEF, 77);
    let (hit, slot) = t.probe(zob);
    assert!(!hit);
    assert_eq!(slot, 77 * 3);
    assert_eq!(t.entry(slot), Entry::empty());
    t.place(slot, zob, mv(5), 120, -30, 4, NodeBound::Exact);
    let (hit, again) = t.probe(zob);
    assert!(hit);
    assert_eq!(again, slot);
    let e = t.entry(slot);
    assert_eq!(e.partial_key, 0xBEEF);
    assert_eq!(e.best_move, mv(5));
    assert_eq!((e.score, e.eval, e.depth), (120, -30, 4));
    assert_eq!(e.node_type(), NodeBound::Exact);
    assert_eq!(e.time(), 0);
    let other = key(0xCAFE, 77);
    let (hit, next) = t.probe(other);
    assert!(!hit);
    assert_eq!(next, 77 * 3 + 1);
    t.new_search();
    let (hit, _) = t.probe(zob);
    assert!(hit);
    assert_eq!(t.entry(slot).time(), 1);
    assert_eq!(t.entry(slot).node_type(), NodeBound::Exact);
    t.prefetch(zob);
    t.clear();
    assert!(!t.probe(zob).0);
    assert_eq!(t.entry(slot), Entry::empty());
}

#[test]
fn table_replaces_the_entry_of_least_worth() {
    let mut t = TranspositionTable::new(1);
    let keys = [key(1, 9), key(2, 9), key(3, 9)];
    let depths = [6u8, 2, 4];
    for (k, d) in keys.iter().zip(depths.iter()) {
        let (hit, slot) = t.probe(*k);
        assert!(!hit);
        t.place(slot, *k, mv(1), 5, 5, *d, NodeBound::LowerBound);
    }
    let (hit, slot) = t.probe(key(4, 9));
    assert!(!hit);
    assert_eq!(slot, 9 * 3 + 1);
    t.place(slot, key(4, 9), mv(2), 7, 7, 4, NodeBound::Exact);
    let (hit, slot) = t.probe(key(5, 9));
    assert!(!hit);
    assert_eq!(slot, 9 * 3 + 2);
    t.new_search();
    t.new_search();
    assert!(t.probe(key(4, 9)).0);
    let (hit, slot) = t.probe(key(6, 9));
    assert!(!hit);
    assert_eq!(slot, 9 * 3 + 2);
    assert_eq!(t.entry(9 * 3).time_value(2), 2 * (6 - 16));
    assert_eq!(t.entry(9 * 3 + 1).time_value(2), 2 * 4 + 1);
}

#[test]
fn bounds_as_bits() {
    for b in [NodeBound::NoBound, NodeBound::LowerBound, NodeBound::UpperBound, NodeBound::Exact] {
        assert_eq!(NodeBound::from_bits(b.to_bits()), b);
        assert_eq!(NodeBound::from_bits(b.to_bits() + 4 * 17), b);
    }
    assert_eq!(NodeBound::Exact.to_bits(), 3);
}

#[test]
fn time_budget() {
    let mut tm = TimeManager::uninitialized();
    assert_eq!((tm.ideal_time(), tm.maximum_time()), (0, 0));
    let timer = UCITimer { time_msec: [60_000, 10_000], inc_msec: [1_000, 0], moves_to_go: 0 };
    tm.init(&timer, Player::White, 0);
    assert_eq!(tm.ideal_time(), 1_200 + 750);
    assert_eq!(tm.maximum_time(), 9_750);
    tm.init(&timer, Player::Black, 0);
    assert_eq!(tm.ideal_time(), 200);
    assert_eq!(tm.maximum_time(), 1_000);
    let timer = UCITimer { time_msec: [100, -5], inc_msec: [10_000, -5], moves_to_go: 10 };
    tm.init(&timer, Player::White, 30);
    assert_eq!(tm.ideal_time(), 10 + 7_500);
    assert_eq!(tm.maximum_time(), 80);
    tm.init(&timer, Player::Black, 30);
    assert_eq!((tm.ideal_time(), tm.maximum_time()), (0, 0));
    let timer = UCITimer { time_msec: [i64::MAX, 0], inc_msec: [i64::MAX, 0], moves_to_go: 1 };
    tm.init(&timer, Player::White, 0);
    assert!(tm.ideal_time() > 0 && tm.maximum_time() > 0);
    let mut last = (0, 0);
    for r in (0..200_000).step_by(777) {
        let timer = UCITimer { time_msec: [r, 0], inc_msec: [300, 0], moves_to_go: 7 };
        tm.init(&timer, Player::White, 0);
        assert!(tm.ideal_time() >= last.0 && tm.maximum_time() >= last.1);
        assert!(tm.ideal_time() >= 0 && tm.maximum_time() >= 0);
        last = (tm.ideal_time(), tm.maximum_time());
    }
}

#[test]
fn limits_by_kind() {
    assert_eq!(Limits::blank().limits_type, LimitsType::Infinite);
    let timer = UCITimer { time_msec: [1, 2], inc_msec: [3, 4], moves_to_go: 5 };
    let l = Limits { limits_type: LimitsType::Time(timer) };
    assert_eq!(l.use_time_management(), Some(timer));
    assert_eq!(l.use_movetime(), None);
    assert_eq!(l.use_depth(), None);
    let l = Limits { limits_type: LimitsType::MoveTime(500) };
    assert_eq!(l.use_movetime(), Some(500));
    assert_eq!(l.use_time_management(), None);
    let l = Limits { limits_type: LimitsType::Depth(6) };
    assert_eq!(l.use_depth(), Some(6));
}

#[test]
fn best_thread_needs_a_higher_score_at_no_lower_depth() {
    let r = |d: u16, s: i32| ThreadResult { depth_completed: d, best_move: mv(d as u8), score: s };
    assert_eq!(best_thread(&vec![r(5, 10)]), 0);
    assert_eq!(best_thread(&vec![r(5, 10), r(5, 10)]), 0);
    assert_eq!(best_thread(&vec![r(5, 10), r(4, 50)]), 0);
    assert_eq!(best_thread(&vec![r(5, 10), r(5, 11), r(6, 11)]), 1);
    assert_eq!(best_thread(&vec![r(5, 10), r(6, 12), r(5, 40), r(7, 13)]), 3);
    assert_eq!(best_thread(&vec![r(5, INFINITE - 1), r(9, NEG_INFINITE)]), 0);
}

#[test]
fn caches_keep_a_value_until_its_place_is_taken() {
    let mut cache = EvalCache::new(16);
    assert_eq!(cache.size(), 16);
    assert_eq!(cache.get(5), None);
    assert_eq!(cache.get(0), None);
    cache.put(5, -40);
    assert_eq!(cache.get(5), Some(-40));
    assert_eq!(cache.get(21), None);
    cache.put(21, 7);
    assert_eq!(cache.get(21), Some(7));
    assert_eq!(cache.get(5), None);
    cache.put(6, 9);
    assert_eq!(cache.get(21), Some(7));
    assert_eq!(cache.get(6), Some(9));
    cache.clear();
    assert_eq!(cache.get(21), None);
    assert_eq!(cache.get(6), None);
    assert_eq!(cache.size(), 16);
    let pawns = PawnTable::new(16384);
    let material = Material::new(8192);
    assert_eq!(pawns.cache.size(), 16384);
    assert_eq!(material.cache.size(), 8192);
}
