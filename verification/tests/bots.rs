use pleco_engine::bots::{
    alpha_beta_search, eval_board, minimax, AlphaBetaSearcher, BestMove, MiniMaxSearcher,
    RandomBot,
};
use pleco_engine::game_tree::{Edge, GameTree};
use pleco_engine::parallel::{
    jamboree, parallel_minimax, search_reply, JamboreeSearcher, ParallelMiniMaxSearcher,
};
use pleco_engine::piece_move::BitMove;
use pleco_engine::position::Position;
use pleco_engine::score::{DRAW, INFINITE, MATE, NEG_INFINITE};
use pleco_engine::tree_position::TreePosition;
use pleco_engine::types::{PieceType, Player, SQ};
use rand::Rng;

fn mv(k: u8) -> BitMove {
    BitMove::make(0, SQ(k), SQ(k + 8))
}

fn edge(k: u8, child: usize) -> Edge {
    Edge { mv: mv(k), legal: true, child, mover: PieceType::P, victim: None }
}

fn leaf(tree: &mut GameTree, eval: i32) -> usize {
    let key = tree.nodes.len() as u64;
    tree.add_node(eval, false, key, Vec::new())
}

fn inner(tree: &mut GameTree, children: &[usize]) -> usize {
    let mut edges = Vec::new();
    for (k, c) in children.iter().enumerate() {
        edges.push(edge(k as u8, *c));
    }
    let key = tree.nodes.len() as u64;
    tree.add_node(0, false, key, edges)
}

fn textbook() -> TreePosition {
    let mut tree = GameTree::new();
    let mut mids = Vec::new();
    for evals in [[3, 12, 8], [2, 4, 6], [14, 5, 2]] {
        let mut kids = Vec::new();
        for e in evals {
            kids.push(leaf(&mut tree, e));
        }
        mids.push(inner(&mut tree, &kids));
    }
    let root = inner(&mut tree, &mids);
    TreePosition::new(tree, root, Player::White).unwrap()
}

fn random_tree(rng: &mut rand::rngs::ThreadRng, tree: &mut GameTree, depth: u32) -> usize {
    let fan = if depth == 0 { 0 } else { rng.gen_range(0..4) };
    let mut edges = Vec::new();
    for k in 0..fan {
        let child = random_tree(rng, tree, depth - 1);
        edges.push(Edge {
            mv: mv(k as u8),
            legal: rng.gen_range(0..5) != 0,
            child,
            mover: PieceType::N,
            victim: None,
        });
    }
    let key = rng.gen_range(0..u64::MAX);
    let eval = rng.gen_range(-900..900);
    let check = rng.gen_range(0..4) == 0;
    tree.add_node(eval, check, key, edges)
}

fn random_board() -> TreePosition {
    let mut rng = rand::thread_rng();
    let mut tree = GameTree::new();
    let root = random_tree(&mut rng, &mut tree, 5);
    TreePosition::new(tree, root, Player::White).unwrap()
}

#[test]
fn all_bots_on_random_trees() {
    for _x in 0..3 {
        let board: TreePosition = random_board();
        RandomBot::best_move_depth(board.shallow_clone(), 4);
        MiniMaxSearcher::best_move_depth(board.shallow_clone(), 4);
        AlphaBetaSearcher::best_move_depth(board.shallow_clone(), 4);
        ParallelMiniMaxSearcher::best_move_depth(board.shallow_clone(), 4);
        JamboreeSearcher::best_move_depth(board.shallow_clone(), 4);
    }
}

#[test]
fn parallel_equals_serial_on_random_trees() {
    for _ in 0..50 {
        let mut board = random_board();
        for depth in 0..6 {
            let plain = minimax(&mut board, depth);
            assert_eq!(parallel_minimax(&mut board, depth), plain);
            let jam = jamboree(&mut board, NEG_INFINITE, INFINITE, depth);
            assert_eq!(jam.score, plain.score);
            assert_eq!(jam.best_move.is_none(), plain.best_move.is_none());
            if let Some(m) = jam.best_move {
                assert_eq!(search_reply(&board, m, false, 0, 0, depth), plain.score);
            }
            assert_eq!(board.depth(), 0);
        }
        assert_eq!(
            ParallelMiniMaxSearcher::best_move_depth(board.shallow_clone(), 4),
            MiniMaxSearcher::best_move_depth(board.shallow_clone(), 4)
        );
    }
}

#[test]
fn replies_are_searched_on_a_copy() {
    let board = textbook();
    assert_eq!(search_reply(&board, mv(0), false, 0, 0, 2), 3);
    assert_eq!(search_reply(&board, mv(1), false, 0, 0, 2), 2);
    assert_eq!(search_reply(&board, mv(2), true, NEG_INFINITE, INFINITE, 2), 2);
    assert_eq!(search_reply(&board, mv(1), true, 3, INFINITE, 2), 2);
    assert_eq!(board.depth(), 0);
    let copy = board.parallel_clone();
    assert_eq!(copy.zobrist(), board.zobrist());
    let mut walked = textbook();
    walked.apply_move(mv(2));
    let twin = walked.parallel_clone();
    assert_eq!(twin.depth(), 1);
    assert_eq!(twin.generate_moves(), walked.generate_moves());
    let rooted = walked.shallow_clone();
    assert_eq!(rooted.depth(), 0);
    assert_eq!(rooted.zobrist(), walked.zobrist());
    assert_eq!(rooted.turn(), Player::Black);
    assert_eq!(rooted.moves_played(), 1);
}

#[test]
fn minimax_on_textbook_tree() {
    let mut board = textbook();
    let best = minimax(&mut board, 2);
    assert_eq!(best, BestMove { best_move: Some(mv(0)), score: 3 });
    assert_eq!(board.depth(), 0);
    assert_eq!(minimax(&mut board, 1).score, 0);
    assert_eq!(minimax(&mut board, 0), BestMove { best_move: None, score: 0 });
}

#[test]
fn alpha_beta_on_textbook_tree() {
    let mut board = textbook();
    let best = alpha_beta_search(&mut board, NEG_INFINITE, INFINITE, 2);
    assert_eq!(best, BestMove { best_move: Some(mv(0)), score: 3 });
    assert_eq!(board.depth(), 0);
    let low = alpha_beta_search(&mut board, 6, 10, 2);
    assert_eq!(low, BestMove { best_move: Some(mv(2)), score: 5 });
    let high = alpha_beta_search(&mut board, -10, 2, 2);
    assert_eq!(high, BestMove { best_move: Some(mv(0)), score: 3 });
    board.apply_move(mv(1));
    let reply = alpha_beta_search(&mut board, -1, 10, 2);
    assert_eq!(reply, BestMove { best_move: Some(mv(0)), score: -2 });
    board.undo_move();
}

#[test]
fn alpha_beta_equals_minimax_on_random_trees() {
    for _ in 0..50 {
        let mut board = random_board();
        for depth in 0..6 {
            let plain = minimax(&mut board, depth);
            let pruned = alpha_beta_search(&mut board, NEG_INFINITE, INFINITE, depth);
            assert_eq!(plain.score, pruned.score);
            assert_eq!(plain.best_move.is_none(), pruned.best_move.is_none());
            let moves = board.generate_moves();
            assert_eq!(plain.best_move.is_none(), depth == 0 || moves.is_empty());
        }
    }
}

#[test]
fn negamax_symmetry_on_random_trees() {
    for _ in 0..50 {
        let mut board = random_board();
        let best = minimax(&mut board, 4);
        let moves = board.generate_moves();
        for m in moves.iter() {
            board.apply_move(*m);
            let reply = minimax(&mut board, 4);
            board.undo_move();
            assert!(best.score >= -reply.score);
            if Some(*m) == best.best_move {
                assert_eq!(best.score, -reply.score);
            }
        }
    }
}

#[test]
fn mate_and_stalemate_scores() {
    let mut tree = GameTree::new();
    let mated = tree.add_node(50, true, 1, Vec::new());
    let stale = tree.add_node(50, false, 2, Vec::new());
    let root = tree.add_node(0, false, 3, vec![edge(0, mated), edge(1, stale)]);
    let mut board = TreePosition::new(tree, root, Player::White).unwrap();
    let best = minimax(&mut board, 3);
    assert_eq!(best, BestMove { best_move: Some(mv(0)), score: -(MATE + 1) });
    board.apply_move(mv(1));
    assert_eq!(minimax(&mut board, 3), BestMove { best_move: None, score: DRAW });
    assert_eq!(MiniMaxSearcher::best_move_depth(board.shallow_clone(), 3), BitMove::null());
    assert_eq!(AlphaBetaSearcher::best_move_depth(board.shallow_clone(), 3), BitMove::null());
    assert_eq!(RandomBot::best_move_depth(board.shallow_clone(), 3), BitMove::null());
    board.undo_move();
    board.apply_move(mv(0));
    assert_eq!(minimax(&mut board, 3), BestMove { best_move: None, score: MATE + 1 });
    assert_eq!(eval_board(&board), BestMove { best_move: None, score: 50 });
}

#[test]
fn searchers_name_the_best_move() {
    let board = textbook();
    assert_eq!(MiniMaxSearcher::best_move_depth(board.shallow_clone(), 2), mv(0));
    assert_eq!(AlphaBetaSearcher::best_move_depth(board.shallow_clone(), 2), mv(0));
    let picked = RandomBot::best_move_depth(board.shallow_clone(), 2);
    assert!(picked == mv(0) || picked == mv(1) || picked == mv(2));
}

#[test]
fn illegal_moves_are_not_generated() {
    let mut tree = GameTree::new();
    let a = leaf(&mut tree, 10);
    let b = leaf(&mut tree, -700);
    let mut bad = edge(1, b);
    bad.legal = false;
    let root = tree.add_node(0, false, 9, vec![edge(0, a), bad]);
    let mut board = TreePosition::new(tree, root, Player::Black).unwrap();
    assert_eq!(board.generate_pseudolegal_moves(), vec![mv(0), mv(1)]);
    assert_eq!(board.generate_moves(), vec![mv(0)]);
    assert!(board.legal_move(mv(0)));
    assert!(!board.legal_move(mv(1)));
    assert_eq!(minimax(&mut board, 1), BestMove { best_move: Some(mv(0)), score: -10 });
}

#[test]
fn apply_then_undo_restores_the_board() {
    let mut board = textbook();
    let key = board.zobrist();
    let moves = board.generate_moves();
    board.apply_move(mv(1));
    assert_eq!(board.depth(), 1);
    assert_eq!(board.turn(), Player::Black);
    assert_eq!(board.moves_played(), 1);
    assert_ne!(board.zobrist(), key);
    board.undo_move();
    assert_eq!(board.depth(), 0);
    assert_eq!(board.zobrist(), key);
    assert_eq!(board.turn(), Player::White);
    assert_eq!(board.generate_moves(), moves);
}

#[test]
fn unsound_trees_are_refused() {
    let mut tree = GameTree::new();
    tree.add_node(0, false, 0, vec![edge(0, 7)]);
    assert!(TreePosition::new(tree, 0, Player::White).is_none());
    let mut tree = GameTree::new();
    tree.add_node(INFINITE, false, 0, Vec::new());
    assert!(TreePosition::new(tree, 0, Player::White).is_none());
    let mut tree = GameTree::new();
    tree.add_node(0, false, 0, Vec::new());
    assert!(TreePosition::new(tree, 1, Player::White).is_none());
    let mut tree = GameTree::new();
    let capture = Edge {
        mv: BitMove::make(4, SQ(1), SQ(2)),
        legal: true,
        child: 0,
        mover: PieceType::Q,
        victim: None,
    };
    tree.add_node(0, false, 0, vec![capture]);
    assert!(TreePosition::new(tree, 0, Player::White).is_none());
}
