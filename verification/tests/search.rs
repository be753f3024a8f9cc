use std::cell::Cell;

use pleco_engine::bots::minimax;
use pleco_engine::consts::{CheckState, InCheck, NoCheck, NonPV, PVNode, MAX_PLY, PV};
use pleco_engine::deepening_model::{skip_size, start_ply};
use pleco_engine::game_tree::{Edge, GameTree};
use pleco_engine::piece_move::BitMove;
use pleco_engine::position::Position;
use pleco_engine::score::{DRAW, INFINITE, MATE, NEG_INFINITE};
use pleco_engine::search::{mvv_lva_sort, Searcher, ThreadStack};
use pleco_engine::search_model::{
    correct_bound, correct_bound_eq, futility_margin, is_futile, move_order_key, node_bound_for,
    reduced_depth, takes_tt_cutoff, value_without_move, wants_pv_search,
};
use pleco_engine::search_root::AspirationWindow;
use pleco_engine::threadpool::ThreadResult;
use pleco_engine::time::{Limits, LimitsType, SearchControl, UCITimer, Untimed};
use pleco_engine::tree_position::TreePosition;
use pleco_engine::tt::{Entry, NodeBound};
use pleco_engine::types::{PieceType, Player, SQ};
use rand::Rng;

fn mv(k: u8) -> BitMove {
    BitMove::make(0, SQ(k), SQ(k + 8))
}

fn edge(k: u8, child: usize) -> Edge {
    Edge { mv: mv(k), legal: true, child, mover: PieceType::N, victim: None }
}

fn full_tree(rng: &mut rand::rngs::ThreadRng, tree: &mut GameTree, depth: u32) -> usize {
    let fan = if depth == 0 { 0 } else { rng.gen_range(1..4) };
    let mut edges = Vec::new();
    for k in 0..fan {
        let child = full_tree(rng, tree, depth - 1);
        edges.push(edge(k as u8, child));
    }
    let mut eval = rng.gen_range(-900..900);
    if eval == 0 {
        eval = 1;
    }
    tree.add_node(eval, false, rng.gen_range(0..u64::MAX), edges)
}

fn textbook() -> TreePosition {
    let mut tree = GameTree::new();
    let mut mids = Vec::new();
    let mut key = 1u64 << 50;
    for evals in [[3, 12, 8], [2, 4, 6], [14, 5, 2]] {
        let mut kids = Vec::new();
        for (k, e) in evals.iter().enumerate() {
            key += 12345678901;
            let id = tree.add_node(*e, false, key, Vec::new());
            kids.push(edge(k as u8, id));
        }
        key += 12345678901;
        mids.push(tree.add_node(0, false, key, kids));
    }
    let edges = mids.iter().enumerate().map(|(k, c)| edge(k as u8, *c)).collect();
    let root = tree.add_node(0, false, key + 5, edges);
    TreePosition::new(tree, root, Player::White).unwrap()
}

fn depth(d: u16) -> Limits {
    Limits { limits_type: LimitsType::Depth(d) }
}

struct Script {
    stop_after: Cell<i64>,
    stopped: Cell<bool>,
    clock: Cell<i64>,
    step: i64,
    reports: Cell<u32>,
    best: Cell<u16>,
}

impl Script {
    fn new(stop_after: i64, step: i64) -> Script {
        Script {
            stop_after: Cell::new(stop_after),
            stopped: Cell::new(false),
            clock: Cell::new(0),
            step,
            reports: Cell::new(0),
            best: Cell::new(0),
        }
    }
}

impl SearchControl for Script {
    fn may_stop(&self) -> bool {
        true
    }

    fn stop(&self) -> bool {
        let left = self.stop_after.get();
        if left == 0 {
            self.stopped.set(true);
        } else if left > 0 {
            self.stop_after.set(left - 1);
        }
        self.stopped.get()
    }

    fn set_stop(&self, stop: bool) {
        self.stopped.set(stop);
    }

    fn elapsed(&self) -> i64 {
        self.clock.set(self.clock.get() + self.step);
        self.clock.get()
    }

    fn reduced_ideal(&self, ideal: i64, _stability: u32) -> i64 {
        ideal
    }

    fn report_start(&self, _id: usize) {
        self.reports.set(self.reports.get() + 1);
    }

    fn report_depth(&self, _depth: u16, _score: i32, _best: BitMove) {
        self.reports.set(self.reports.get() + 1);
    }

    fn report_pv(&self, _id: usize, _best: BitMove) {
        self.reports.set(self.reports.get() + 1);
    }

    fn report_bestmove(&self, best: BitMove) {
        self.best.set(best.get_raw());
    }
}

#[test]
fn node_kinds_are_fixed() {
    assert!(PV::is_pv());
    assert!(!NonPV::is_pv());
    assert!(InCheck::in_check());
    assert!(!NoCheck::in_check());
    assert_eq!(MAX_PLY, 126);
}

#[test]
fn node_decisions() {
    assert_eq!(futility_margin(4), 600);
    assert_eq!(futility_margin(0), 0);
    assert!(is_futile(false, 4, 700, 100));
    assert!(!is_futile(false, 4, 699, 100));
    assert!(!is_futile(true, 4, 700, 100));
    assert!(!is_futile(false, 3, 9000, 100));
    assert!(!is_futile(false, 7, 9000, 100));
    assert!(is_futile(false, 6, 9999, 100));
    assert!(!is_futile(false, 6, 10000, 100));
    assert!(correct_bound_eq(50, 50, NodeBound::LowerBound));
    assert!(correct_bound_eq(50, 50, NodeBound::Exact));
    assert!(!correct_bound_eq(50, 50, NodeBound::UpperBound));
    assert!(correct_bound_eq(49, 50, NodeBound::UpperBound));
    assert!(!correct_bound_eq(49, 50, NodeBound::NoBound));
    assert!(correct_bound(51, 50, NodeBound::LowerBound));
    assert!(correct_bound(50, 50, NodeBound::UpperBound));
    assert!(!correct_bound(50, 50, NodeBound::LowerBound));
    assert_eq!(reduced_depth(3, 2, 2, false, false), Some(1));
    assert_eq!(reduced_depth(3, 2, 2, true, false), Some(2));
    assert_eq!(reduced_depth(9, 5, 4, false, true), Some(8));
    assert_eq!(reduced_depth(2, 2, 2, false, false), None);
    assert_eq!(reduced_depth(3, 1, 2, false, false), None);
    assert_eq!(reduced_depth(3, 2, 1, false, false), None);
    assert!(wants_pv_search(true, 1, -500, 0, 10));
    assert!(wants_pv_search(true, 2, 5, 0, 10));
    assert!(!wants_pv_search(true, 2, 0, 0, 10));
    assert!(!wants_pv_search(true, 2, 10, 0, 10));
    assert!(!wants_pv_search(false, 1, 5, 0, 10));
    assert_eq!(node_bound_for(10, 10, true, true), NodeBound::LowerBound);
    assert_eq!(node_bound_for(9, 10, true, true), NodeBound::Exact);
    assert_eq!(node_bound_for(9, 10, true, false), NodeBound::UpperBound);
    assert_eq!(node_bound_for(9, 10, false, true), NodeBound::UpperBound);
    assert_eq!(value_without_move(true, 3), MATE - 3);
    assert_eq!(value_without_move(false, 3), DRAW);
    let mut e = Entry::empty();
    e.depth = 4;
    e.score = 77;
    e.time_node_bound = 1;
    assert!(takes_tt_cutoff(false, false, true, &e, 4, 70));
    assert!(!takes_tt_cutoff(false, false, true, &e, 5, 70));
    assert!(!takes_tt_cutoff(false, false, true, &e, 4, 80));
    assert!(!takes_tt_cutoff(true, false, true, &e, 4, 70));
    assert!(!takes_tt_cutoff(false, true, true, &e, 4, 70));
    assert!(!takes_tt_cutoff(false, false, false, &e, 4, 70));
}

#[test]
fn move_ordering_keys() {
    let quiet = mv(3);
    let capture = BitMove::make(4, SQ(3), SQ(11));
    let castle = BitMove::make(2, SQ(4), SQ(6));
    let double = BitMove::make(1, SQ(12), SQ(28));
    assert_eq!(move_order_key(Some(PieceType::P), Some(PieceType::Q), capture), 1 - 8);
    assert_eq!(move_order_key(Some(PieceType::Q), Some(PieceType::P), capture), 8 - 1);
    assert_eq!(move_order_key(Some(PieceType::K), None, castle), 1);
    assert_eq!(move_order_key(Some(PieceType::P), None, double), 2);
    assert_eq!(move_order_key(Some(PieceType::P), None, quiet), 3);
    assert_eq!(move_order_key(Some(PieceType::R), None, quiet), 4);
    assert_eq!(move_order_key(None, None, quiet), 4);
}

#[test]
fn moves_are_sorted_by_victim_and_attacker() {
    let mut tree = GameTree::new();
    let leaf = tree.add_node(5, false, 1, Vec::new());
    let qxp = Edge {
        mv: BitMove::make(4, SQ(3), SQ(11)),
        legal: true,
        child: leaf,
        mover: PieceType::Q,
        victim: Some(PieceType::P),
    };
    let pxq = Edge {
        mv: BitMove::make(4, SQ(9), SQ(18)),
        legal: true,
        child: leaf,
        mover: PieceType::P,
        victim: Some(PieceType::Q),
    };
    let knight = Edge { mv: mv(1), legal: true, child: leaf, mover: PieceType::N, victim: None };
    let pawn = Edge { mv: mv(8), legal: true, child: leaf, mover: PieceType::P, victim: None };
    let root = tree.add_node(0, false, 2, vec![knight, qxp, pawn, pxq]);
    let board = TreePosition::new(tree, root, Player::White).unwrap();
    assert_eq!(board.piece_at_sq(SQ(3)), Some(PieceType::Q));
    assert_eq!(board.piece_at_sq(SQ(40)), None);
    assert_eq!(board.captured_piece(pxq.mv), Some(PieceType::Q));
    let mut moves = board.generate_pseudolegal_moves();
    mvv_lva_sort(&mut moves, &board);
    assert_eq!(moves, vec![pxq.mv, pawn.mv, knight.mv, qxp.mv]);
    let mut worker = Searcher::new(0, board, Untimed {}, 1);
    worker.new_search(depth(1));
    worker.shuffle();
    assert_eq!(worker.root_moves.to_moves(), vec![pxq.mv, pawn.mv, knight.mv, qxp.mv]);
}

#[test]
fn dispersion_tables() {
    let skips = [1, 1, 2, 2, 2, 2, 3, 3, 3, 3, 3, 3, 4, 4, 4, 4, 4, 4, 4, 4];
    let starts = [0, 1, 0, 1, 2, 3, 0, 1, 2, 3, 4, 5, 0, 1, 2, 3, 4, 5, 6, 7];
    for id in 0..60 {
        assert_eq!(skip_size(id), skips[id % 20]);
        assert_eq!(start_ply(id), starts[id % 20]);
    }
}

#[test]
fn aspiration_windows() {
    let full = AspirationWindow::full();
    assert_eq!((full.alpha, full.beta), (NEG_INFINITE, INFINITE));
    assert_eq!(full.widen(123), (false, full));
    let w = AspirationWindow::around(100);
    assert_eq!((w.alpha, w.beta, w.delta), (82, 118, 18));
    let (failed, low) = w.widen(80);
    assert!(failed);
    assert_eq!((low.alpha, low.beta, low.delta), (62, 118, 27));
    let (failed, high) = low.widen(118);
    assert!(failed);
    assert_eq!((high.alpha, high.beta, high.delta), (62, 145, 38));
    assert_eq!(high.widen(100), (false, high));
    let edge = AspirationWindow::around(NEG_INFINITE);
    assert_eq!((edge.alpha, edge.beta), (NEG_INFINITE, NEG_INFINITE + 18));
    let top = AspirationWindow::around(INFINITE - 1);
    assert_eq!((top.alpha, top.beta), (INFINITE - 19, INFINITE));
    let (_, clamped) = top.widen(NEG_INFINITE + 1);
    assert_eq!(clamped.alpha, NEG_INFINITE);
}

#[test]
fn search_finds_the_textbook_move() {
    let mut worker = Searcher::new(0, textbook(), Untimed {}, 1);
    worker.new_search(depth(3));
    assert_eq!(worker.root_moves.len(), 3);
    let best = worker.main_thread_go();
    assert_eq!(best, mv(0));
    assert_eq!(worker.depth_completed, 2);
    assert_eq!(worker.root_moves.first().score, 3);
    assert_eq!(worker.root_moves.first().depth_reached, 2);
    assert_eq!(worker.previous_score, 3);
    assert!(!worker.cut_short);
    assert_eq!(worker.board.depth(), 0);
    assert_eq!(worker.result(), ThreadResult { depth_completed: 2, best_move: mv(0), score: 3 });
}

#[test]
fn root_search_value_on_textbook_tree() {
    let mut worker = Searcher::new(0, textbook(), Untimed {}, 1);
    worker.new_search(depth(3));
    let value = worker.search::<PV>(NEG_INFINITE, INFINITE, 2);
    assert_eq!(value, 3);
    assert_eq!(worker.root_moves.get(0).score, 3);
    assert_eq!(worker.root_moves.get(1).score, NEG_INFINITE);
    assert_eq!(worker.root_moves.get(2).score, NEG_INFINITE);
    assert_eq!(worker.search::<PV>(NEG_INFINITE, INFINITE, 0), 0);
    assert_eq!(worker.eval(), 0);
    assert_eq!(worker.pawns.cache.size(), 16384);
    assert_eq!(worker.material.cache.size(), 8192);
    worker.board.apply_move(mv(2));
    worker.board.apply_move(mv(0));
    assert_eq!(worker.eval(), 14);
    assert_eq!(worker.board.eval_low(), 14);
}

#[test]
fn search_stores_its_result() {
    let board = textbook();
    let root_key = board.zobrist();
    let mut worker = Searcher::new(0, board, Untimed {}, 1);
    worker.new_search(depth(3));
    assert_eq!(worker.search::<PV>(NEG_INFINITE, INFINITE, 2), 3);
    let (hit, slot) = worker.tt.probe(root_key);
    assert!(hit);
    let stored = worker.tt.entry(slot);
    assert_eq!(stored.score, 3);
    assert_eq!(stored.best_move, mv(0));
    assert_eq!(stored.depth, 2);
    assert_eq!(stored.node_type(), NodeBound::Exact);
    assert_eq!(stored.time(), 1);
    worker.root_moves.rollback();
    assert_eq!(worker.search::<PV>(10, 20, 2), 3);
    let stored = worker.tt.entry(slot);
    assert_eq!(stored.score, 3);
    assert_eq!(stored.node_type(), NodeBound::UpperBound);
    assert!(stored.best_move.is_null());
    worker.root_moves.rollback();
    assert_eq!(worker.search::<PV>(-10, 2, 2), 3);
    let stored = worker.tt.entry(slot);
    assert_eq!(stored.node_type(), NodeBound::LowerBound);
    assert_eq!(stored.best_move, mv(0));
}

#[test]
fn shallow_search_equals_minimax() {
    let mut rng = rand::thread_rng();
    for _ in 0..40 {
        let mut tree = GameTree::new();
        let root = full_tree(&mut rng, &mut tree, 4);
        let board = TreePosition::new(tree, root, Player::White).unwrap();
        let mut plain = board.shallow_clone();
        let expected = minimax(&mut plain, 2);
        let mut worker = Searcher::new(0, board, Untimed {}, 1);
        worker.new_search(depth(3));
        let best = worker.main_thread_go();
        assert_eq!(worker.root_moves.first().score, expected.score);
        assert_eq!(worker.previous_score, expected.score);
        plain.apply_move(best);
        assert_eq!(-minimax(&mut plain, 2).score, expected.score);
    }
}

#[test]
fn search_is_deterministic() {
    let mut rng = rand::thread_rng();
    for _ in 0..10 {
        let mut tree = GameTree::new();
        let root = full_tree(&mut rng, &mut tree, 7);
        let board = TreePosition::new(tree, root, Player::White).unwrap();
        let mut first = Searcher::new(0, board.shallow_clone(), Untimed {}, 1);
        let mut second = Searcher::new(0, board, Untimed {}, 1);
        first.new_search(depth(7));
        second.new_search(depth(7));
        assert_eq!(first.main_thread_go(), second.main_thread_go());
        assert_eq!(first.previous_score, second.previous_score);
        assert_eq!(first.depth_completed, 6);
        let a = first.root_moves.to_moves();
        assert_eq!(a, second.root_moves.to_moves());
        for i in 0..a.len() {
            assert_eq!(first.root_moves.get(i), second.root_moves.get(i));
        }
    }
}

#[test]
fn stalemate_has_no_move() {
    let mut tree = GameTree::new();
    let root = tree.add_node(40, false, 3, Vec::new());
    let board = TreePosition::new(tree, root, Player::White).unwrap();
    let mut worker = Searcher::new(0, board, Untimed {}, 1);
    worker.new_search(depth(4));
    assert!(worker.root_moves.is_empty());
    assert_eq!(worker.search::<PV>(NEG_INFINITE, INFINITE, 3), DRAW);
    let best = worker.main_thread_go();
    assert!(best.is_null());
    assert_eq!(best.stringify(), "0000");
}

#[test]
fn mate_is_seen() {
    let mut tree = GameTree::new();
    let mated = tree.add_node(10, true, 11 << 48, Vec::new());
    let quiet = tree.add_node(10, false, 12 << 48, Vec::new());
    let root = tree.add_node(0, false, 13 << 48, vec![edge(0, quiet), edge(1, mated)]);
    let board = TreePosition::new(tree, root, Player::White).unwrap();
    let mut worker = Searcher::new(0, board, Untimed {}, 1);
    worker.new_search(depth(3));
    let best = worker.main_thread_go();
    assert_eq!(best, mv(1));
    assert_eq!(worker.previous_score, -(MATE - 1));
}

#[test]
fn stopped_search_is_cut_short() {
    let control = Script::new(5, 0);
    let mut worker = Searcher::new(0, textbook(), control, 1);
    worker.new_search(depth(6));
    let best = worker.main_thread_go();
    assert!(worker.cut_short);
    assert!(worker.control.stopped.get());
    assert!(best == mv(0) || best == mv(1) || best == mv(2));
    assert_eq!(worker.control.best.get(), best.get_raw());
    let control = Script::new(0, 0);
    let mut worker = Searcher::new(0, textbook(), control, 1);
    worker.new_search(depth(6));
    worker.search_root();
    assert!(worker.cut_short);
    assert_eq!(worker.depth_completed, 0);
    assert_eq!(worker.control.reports.get(), 0);
    assert_eq!(worker.search::<PV>(NEG_INFINITE, INFINITE, 3), 0);
}

#[test]
fn the_clock_stops_the_search() {
    let timer = UCITimer { time_msec: [1000, 1000], inc_msec: [0, 0], moves_to_go: 0 };
    let control = Script::new(-1, 100);
    let mut worker = Searcher::new(0, textbook(), control, 1);
    worker.new_search(Limits { limits_type: LimitsType::Time(timer) });
    let best = worker.main_thread_go();
    assert_eq!(worker.time_man.ideal_time(), 20);
    assert_eq!(worker.time_man.maximum_time(), 100);
    assert!(worker.cut_short);
    assert!(worker.control.stopped.get());
    assert!(!best.is_null());
    let control = Script::new(-1, 100);
    let mut worker = Searcher::new(0, textbook(), control, 1);
    worker.new_search(Limits { limits_type: LimitsType::MoveTime(250) });
    worker.check_time();
    assert!(!worker.cut_short);
    worker.check_time();
    assert!(!worker.cut_short);
    worker.check_time();
    assert!(worker.cut_short);
    assert!(worker.stop());
    let control = Script::new(-1, 100);
    let mut helper = Searcher::new(3, textbook(), control, 1);
    helper.new_search(depth(2));
    assert!(!helper.main_thread());
    helper.search_root();
    assert_eq!(helper.depth_completed, 125);
    assert!(!helper.cut_short);
}

#[test]
fn a_clock_reading_is_held_against_the_limits() {
    let mut worker = Searcher::new(0, textbook(), Script::new(-1, 0), 1);
    worker.new_search(Limits { limits_type: LimitsType::MoveTime(250) });
    worker.note_time(249);
    assert!(!worker.cut_short && !worker.control.stopped.get());
    worker.note_time(-1);
    assert!(!worker.cut_short);
    worker.note_time(250);
    assert!(worker.cut_short && worker.control.stopped.get());
    worker.note_time(0);
    assert!(worker.cut_short);
    let timer = UCITimer { time_msec: [1000, 1000], inc_msec: [0, 0], moves_to_go: 0 };
    let mut worker = Searcher::new(0, textbook(), Script::new(-1, 0), 1);
    worker.new_search(Limits { limits_type: LimitsType::Time(timer) });
    worker.begin_go();
    assert_eq!(worker.time_man.maximum_time(), 100);
    worker.note_time(99);
    assert!(!worker.cut_short);
    worker.note_time(100);
    assert!(worker.cut_short && worker.control.stopped.get());
    let mut worker = Searcher::new(0, textbook(), Script::new(-1, 0), 1);
    worker.new_search(depth(3));
    worker.note_time(i64::MAX);
    assert!(!worker.cut_short && !worker.control.stopped.get());
}

#[test]
fn a_stop_once_seen_stays_seen() {
    let mut worker = Searcher::new(0, textbook(), Script::new(-1, 0), 1);
    worker.new_search(depth(3));
    assert!(!worker.note_stop(false));
    assert!(!worker.cut_short);
    assert!(!worker.stop());
    assert!(worker.note_stop(true));
    assert!(worker.cut_short);
    assert!(worker.note_stop(false));
    assert!(worker.stop());
    let mut quiet = Searcher::new(0, textbook(), Untimed {}, 1);
    quiet.new_search(depth(3));
    assert!(!quiet.stop());
    quiet.search_root();
    assert!(!quiet.cut_short);
    for i in 1..quiet.root_moves.len() {
        assert!(quiet.root_moves.get(i - 1).score >= quiet.root_moves.get(i).score);
    }
}

#[test]
fn a_stopped_search_leaves_the_root_moves_sorted() {
    for polls in 1..40 {
        let mut worker = Searcher::new(0, textbook(), Script::new(polls, 0), 1);
        worker.new_search(depth(6));
        worker.search_root();
        assert!(worker.cut_short);
        assert_eq!(worker.root_moves.len(), 3);
        for i in 1..3 {
            assert!(worker.root_moves.get(i - 1).score >= worker.root_moves.get(i).score);
        }
        let mut moves = worker.root_moves.to_moves();
        moves.sort_by_key(|m| m.get_raw());
        assert_eq!(moves, vec![mv(0), mv(1), mv(2)]);
    }
}

#[test]
fn the_best_worker_wins_under_a_depth_limit() {
    let mut worker = Searcher::new(0, textbook(), Untimed {}, 1);
    worker.new_search(depth(3));
    worker.begin_go();
    worker.search_root();
    let better = ThreadResult { depth_completed: 2, best_move: mv(2), score: 50 };
    let shallow = ThreadResult { depth_completed: 1, best_move: mv(1), score: 90 };
    assert_eq!(worker.finish_go(&vec![shallow, better]), mv(2));
    assert_eq!(worker.previous_score, 50);
    worker.limit = Limits::blank();
    assert_eq!(worker.finish_go(&vec![shallow, better]), mv(0));
    assert_eq!(worker.previous_score, 3);
    assert!(worker.use_stdout());
    worker.print_startup();
    assert_eq!(worker.root_moves().len(), 3);
    let _frame = ThreadStack::new(4);
}
