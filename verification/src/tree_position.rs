//! A board that plays a game written down as a tree.

use std::sync::Arc;
use vstd::prelude::*;
use crate::game_tree::{
    find_move, find_src, lemma_tree_game_rebase, lemma_tree_game_wf, lemma_walk_in_range,
    tree_game, walk, Edge, GameTree,
};
use crate::piece_move::BitMove;
use crate::position::{Game, Position};
use crate::score::Value;
use crate::tables::{Material, PawnTable};
use crate::types::{PieceType, Player, SQ};

verus! {

/// `Arc::clone` of the standard library: a second handle to the same tree,
/// which is not copied.
#[verifier::external_body]
fn share(tree: &Arc<GameTree>) -> (copy: Arc<GameTree>)
    ensures
        copy == *tree,
{
    Arc::clone(tree)
}

fn find_edge(edges: &Vec<Edge>, m: BitMove) -> (r: Option<usize>)
    ensures
        match r {
            Some(j) => j < edges@.len() && find_move(edges@, m, 0) == j,
            None => find_move(edges@, m, 0) == -1,
        },
{
    let mut j: usize = 0;
    while j < edges.len()
        invariant
            j <= edges@.len(),
            find_move(edges@, m, j as int) == find_move(edges@, m, 0),
        decreases edges@.len() - j,
    {
        if edges[j].mv == m {
            return Some(j);
        }
        j += 1;
    }
    None
}

fn find_from(edges: &Vec<Edge>, sq: SQ) -> (r: Option<usize>)
    ensures
        match r {
            Some(j) => j < edges@.len() && find_src(edges@, sq, 0) == j,
            None => find_src(edges@, sq, 0) == -1,
        },
{
    let mut j: usize = 0;
    while j < edges.len()
        invariant
            j <= edges@.len(),
            find_src(edges@, sq, j as int) == find_src(edges@, sq, 0),
        decreases edges@.len() - j,
    {
        if edges[j].mv.get_src() == sq {
            return Some(j);
        }
        j += 1;
    }
    None
}

/// A board on a game tree: the tree, the node taken as root, and the path
/// walked from it.
pub struct TreePosition {
    tree: Arc<GameTree>,
    root: usize,
    turn: Player,
    played: u16,
    path: Vec<usize>,
    moves: Vec<BitMove>,
}

impl TreePosition {
    /// The tree that the board walks.
    closed spec fn tree_of(&self) -> GameTree {
        *self.tree
    }

    /// The node that the board stands on.
    closed spec fn current(&self) -> int {
        if self.path@.len() == 0 {
            self.root as int
        } else {
            self.path@.last() as int
        }
    }

    /// A board at node `root` of a tree, with `turn` to move. Returns
    /// nothing if the tree is unsound or has no such node.
    pub fn new(tree: GameTree, root: usize, turn: Player) -> (r: Option<TreePosition>)
        ensures
            r.is_some() <==> tree.wf() && root < tree.nodes@.len(),
            r matches Some(p) ==> p.wf() && p.line() == Seq::<BitMove>::empty() && p.game()
                == tree_game(tree, root as int, turn, 0),
    {
        if root < tree.nodes.len() && tree.is_valid() {
            Some(
                TreePosition {
                    tree: Arc::new(tree),
                    root,
                    turn,
                    played: 0,
                    path: Vec::new(),
                    moves: Vec::new(),
                },
            )
        } else {
            None
        }
    }

    fn node(&self) -> (n: usize)
        requires
            self.wf(),
        ensures
            n == self.current(),
            n < self.tree.nodes@.len(),
            walk(*self.tree, self.root as int, self.moves@) == Some(n as int),
    {
        proof {
            lemma_walk_in_range(self.tree_of(), self.root as int, self.moves@);
            if self.path@.len() > 0 {
                assert(self.moves@.take(self.path@.len() as int) =~= self.moves@);
            }
        }
        if self.path.len() == 0 {
            self.root
        } else {
            self.path[self.path.len() - 1]
        }
    }
}

impl Position for TreePosition {
    closed spec fn game(&self) -> Game {
        tree_game(*self.tree, self.root as int, self.turn, self.played)
    }

    closed spec fn line(&self) -> Seq<BitMove> {
        self.moves@
    }

    closed spec fn wf(&self) -> bool {
        &&& self.tree.wf()
        &&& self.root < self.tree.nodes@.len()
        &&& self.path@.len() == self.moves@.len()
        &&& self.moves@.len() <= u16::MAX
        &&& forall|k: int|
            0 <= k < self.path@.len() ==> walk(
                *self.tree,
                self.root as int,
                self.moves@.take(k + 1),
            ) == Some(#[trigger] self.path@[k] as int)
    }

    proof fn lemma_wf(&self) {
        lemma_tree_game_wf(self.tree_of(), self.root as int, self.turn, self.played);
    }

    fn depth(&self) -> (d: u16) {
        self.moves.len() as u16
    }

    fn moves_played(&self) -> (n: u16) {
        self.played.wrapping_add(self.moves.len() as u16)
    }

    fn turn(&self) -> (p: Player) {
        if self.moves.len() % 2 == 0 {
            self.turn
        } else {
            self.turn.other_player()
        }
    }

    fn zobrist(&self) -> (k: u64) {
        let n = self.node();
        self.tree.nodes[n].key
    }

    fn in_check(&self) -> (b: bool) {
        let n = self.node();
        self.tree.nodes[n].check
    }

    fn evaluate(&self, pawns: &mut PawnTable, material: &mut Material) -> (v: Value) {
        self.eval_low()
    }

    fn eval_low(&self) -> (v: Value) {
        let n = self.node();
        self.tree.nodes[n].eval
    }

    fn generate_moves(&self) -> (moves: Vec<BitMove>) {
        let n = self.node();
        let edges = &self.tree.nodes[n].edges;
        let ghost g = self.game();
        let ghost line = self.line();
        let ghost all = (g.pseudo)(line);
        let ghost pred = |m: BitMove| (g.legal)(line, m);
        let mut out: Vec<BitMove> = Vec::new();
        let mut j: usize = 0;
        proof {
            reveal(Seq::filter);
            assert(all.take(0).filter(pred) =~= Seq::<BitMove>::empty());
        }
        while j < edges.len()
            invariant
                j <= edges@.len(),
                self.wf(),
                n < self.tree.nodes@.len(),
                *edges == self.tree.nodes@[n as int].edges,
                walk(*self.tree, self.root as int, self.moves@) == Some(n as int),
                g == self.game(),
                line == self.line(),
                all == (g.pseudo)(line),
                all == edges@.map_values(|e: Edge| e.mv),
                pred == |m: BitMove| (g.legal)(line, m),
                out@ == all.take(j as int).filter(pred),
            decreases edges@.len() - j,
        {
            let m = edges[j].mv;
            proof {
                assert(all[j as int] == m);
                assert(all.contains(m));
                reveal(Seq::filter);
                assert(all.take(j + 1).drop_last() =~= all.take(j as int));
                assert(all.take(j + 1).last() == m);
            }
            if self.legal_move(m) {
                out.push(m);
            }
            j += 1;
        }
        proof {
            assert(all.take(j as int) =~= all);
        }
        out
    }

    fn generate_pseudolegal_moves(&self) -> (moves: Vec<BitMove>) {
        let n = self.node();
        let edges = &self.tree.nodes[n].edges;
        let mut out: Vec<BitMove> = Vec::new();
        let mut j: usize = 0;
        while j < edges.len()
            invariant
                j <= edges@.len(),
                out@ == edges@.map_values(|e: Edge| e.mv).take(j as int),
            decreases edges@.len() - j,
        {
            out.push(edges[j].mv);
            proof {
                let all = edges@.map_values(|e: Edge| e.mv);
                assert(all.take(j + 1) =~= all.take(j as int).push(all[j as int]));
            }
            j += 1;
        }
        proof {
            let all = edges@.map_values(|e: Edge| e.mv);
            assert(all.take(j as int) =~= all);
        }
        out
    }

    fn legal_move(&self, m: BitMove) -> (b: bool) {
        let n = self.node();
        let edges = &self.tree.nodes[n].edges;
        match find_edge(edges, m) {
            Some(j) => edges[j].legal,
            None => false,
        }
    }

    fn gives_check(&self, m: BitMove) -> (b: bool) {
        let n = self.node();
        let edges = &self.tree.nodes[n].edges;
        proof {
            assert(self.moves@.push(m).drop_last() =~= self.moves@);
            lemma_walk_in_range(self.tree_of(), self.root as int, self.moves@.push(m));
        }
        match find_edge(edges, m) {
            Some(j) => {
                let child = edges[j].child;
                self.tree.nodes[child].check
            },
            None => false,
        }
    }

    fn piece_at_sq(&self, sq: SQ) -> (p: Option<PieceType>) {
        let n = self.node();
        let edges = &self.tree.nodes[n].edges;
        match find_from(edges, sq) {
            Some(j) => Some(edges[j].mover),
            None => None,
        }
    }

    fn captured_piece(&self, m: BitMove) -> (p: Option<PieceType>) {
        let n = self.node();
        let edges = &self.tree.nodes[n].edges;
        match find_edge(edges, m) {
            Some(j) => edges[j].victim,
            None => None,
        }
    }

    fn apply_move(&mut self, m: BitMove) {
        let n = self.node();
        let found = find_edge(&self.tree.nodes[n].edges, m);
        let child = match found {
            Some(j) => self.tree.nodes[n].edges[j].child,
            None => n,
        };
        let ghost before = self.moves@;
        self.path.push(child);
        self.moves.push(m);
        proof {
            assert(before.push(m).drop_last() =~= before);
            assert(walk(*self.tree, self.root as int, before.push(m)) == Some(child as int));
            assert forall|k: int| 0 <= k < self.path@.len() implies walk(
                *self.tree,
                self.root as int,
                self.moves@.take(k + 1),
            ) == Some(#[trigger] self.path@[k] as int) by {
                if k < before.len() {
                    assert(self.moves@.take(k + 1) =~= before.take(k + 1));
                    assert(self.path@[k] == old(self).path@[k]);
                } else {
                    assert(self.moves@.take(k + 1) =~= before.push(m));
                }
            }
        }
    }

    fn apply_unknown_move(&mut self, m: BitMove, gives_check: bool) {
        self.apply_move(m);
    }

    fn undo_move(&mut self) {
        let ghost before = self.moves@;
        self.path.pop();
        self.moves.pop();
        proof {
            assert forall|k: int| 0 <= k < self.path@.len() implies walk(
                *self.tree,
                self.root as int,
                self.moves@.take(k + 1),
            ) == Some(#[trigger] self.path@[k] as int) by {
                assert(self.moves@.take(k + 1) =~= before.take(k + 1));
                assert(self.path@[k] == old(self).path@[k]);
            }
        }
    }

    fn parallel_clone(&self) -> (copy: TreePosition) {
        let mut path: Vec<usize> = Vec::new();
        let mut moves: Vec<BitMove> = Vec::new();
        let mut i: usize = 0;
        while i < self.moves.len()
            invariant
                i <= self.moves@.len(),
                self.path@.len() == self.moves@.len(),
                path@ == self.path@.take(i as int),
                moves@ == self.moves@.take(i as int),
            decreases self.moves@.len() - i,
        {
            path.push(self.path[i]);
            moves.push(self.moves[i]);
            proof {
                assert(self.path@.take(i + 1) =~= self.path@.take(i as int).push(self.path@[i as int]));
                assert(self.moves@.take(i + 1) =~= self.moves@.take(i as int).push(
                    self.moves@[i as int],
                ));
            }
            i += 1;
        }
        proof {
            assert(self.path@.take(i as int) =~= self.path@);
            assert(self.moves@.take(i as int) =~= self.moves@);
        }
        TreePosition {
            tree: share(&self.tree),
            root: self.root,
            turn: self.turn,
            played: self.played,
            path,
            moves,
        }
    }

    fn shallow_clone(&self) -> (copy: TreePosition) {
        let n = self.node();
        let copy = TreePosition {
            tree: share(&self.tree),
            root: n,
            turn: self.turn(),
            played: self.moves_played(),
            path: Vec::new(),
            moves: Vec::new(),
        };
        proof {
            lemma_tree_game_rebase(
                self.tree_of(),
                self.root as int,
                self.turn,
                self.played,
                self.moves@,
                n as int,
            );
        }
        copy
    }
}

} // verus!
