//! Games given move by move as an explicit tree, and a board that walks
//! such a tree. A searcher can be run on any game that is written down
//! this way.

use vstd::prelude::*;
use crate::piece_move::BitMove;
use crate::position::Game;
use crate::score::{finite, Value, INFINITE, NEG_INFINITE};
use crate::types::{PieceType, Player, SQ};

verus! {

/// A move out of a node.
#[derive(Clone, Copy, Debug)]
pub struct Edge {
    /// The move.
    pub mv: BitMove,
    /// Whether the move passes the legality test.
    pub legal: bool,
    /// The node that the move leads to.
    pub child: usize,
    /// The type of the piece that moves.
    pub mover: PieceType,
    /// The type of the piece taken, if any.
    pub victim: Option<PieceType>,
}

/// A position of the game.
#[derive(Debug)]
pub struct Node {
    /// Static evaluation for the side to move.
    pub eval: Value,
    /// Whether the side to move is in check.
    pub check: bool,
    /// Hash key of the position.
    pub key: u64,
    /// The pseudo-legal moves, in generation order. Where a move occurs
    /// twice the first occurrence counts.
    pub edges: Vec<Edge>,
}

/// A game as a collection of nodes; moves refer to nodes by index.
#[derive(Debug)]
pub struct GameTree {
    pub nodes: Vec<Node>,
}

/// The first edge from index `from` on that carries the move `m`, or -1.
pub open spec fn find_move(edges: Seq<Edge>, m: BitMove, from: int) -> int
    decreases edges.len() - from,
{
    if from < 0 || from >= edges.len() {
        -1
    } else if edges[from].mv == m {
        from
    } else {
        find_move(edges, m, from + 1)
    }
}

/// The first edge from index `from` on whose move starts on `sq`, or -1.
pub open spec fn find_src(edges: Seq<Edge>, sq: SQ, from: int) -> int
    decreases edges.len() - from,
{
    if from < 0 || from >= edges.len() {
        -1
    } else if edges[from].mv.src() == sq {
        from
    } else {
        find_src(edges, sq, from + 1)
    }
}

/// `find_move` returns an edge with the move, and the first one.
pub proof fn lemma_find_move(edges: Seq<Edge>, m: BitMove, from: int)
    requires
        0 <= from,
    ensures
        ({
            let j = find_move(edges, m, from);
            &&& j == -1 || (from <= j < edges.len() && edges[j].mv == m)
            &&& forall|k: int| from <= k < edges.len() && (#[trigger] edges[k]).mv == m ==> 0 <= j <= k
        }),
    decreases edges.len() - from,
{
    if from < edges.len() && edges[from].mv != m {
        lemma_find_move(edges, m, from + 1);
    }
}

/// `find_src` returns an edge that starts on the square, and the first one.
pub proof fn lemma_find_src(edges: Seq<Edge>, sq: SQ, from: int)
    requires
        0 <= from,
    ensures
        ({
            let j = find_src(edges, sq, from);
            &&& j == -1 || (from <= j < edges.len() && edges[j].mv.src() == sq)
            &&& forall|k: int|
                from <= k < edges.len() && (#[trigger] edges[k]).mv.src() == sq ==> 0 <= j <= k
        }),
    decreases edges.len() - from,
{
    if from < edges.len() && edges[from].mv.src() != sq {
        lemma_find_src(edges, sq, from + 1);
    }
}

/// The node that a move leads to from node `n`, if the move is found there
/// and is legal.
pub open spec fn step(tree: GameTree, n: int, m: BitMove) -> Option<int> {
    if 0 <= n < tree.nodes@.len() {
        let edges = tree.nodes@[n].edges@;
        let j = find_move(edges, m, 0);
        if j >= 0 && edges[j].legal {
            Some(edges[j].child as int)
        } else {
            None
        }
    } else {
        None
    }
}

/// The node that a line leads to from node `from`, if every move of the
/// line can be played.
pub open spec fn walk(tree: GameTree, from: int, line: Seq<BitMove>) -> Option<int>
    decreases line.len(),
{
    if line.len() == 0 {
        if 0 <= from < tree.nodes@.len() {
            Some(from)
        } else {
            None
        }
    } else {
        match walk(tree, from, line.drop_last()) {
            Some(n) => step(tree, n, line.last()),
            None => None,
        }
    }
}

/// The side to move after `plies` half-moves when `first` moved first.
pub open spec fn turn_after(first: Player, plies: int) -> Player {
    if plies % 2 == 0 {
        first
    } else {
        first.opponent()
    }
}

/// A move counter that started at `played` after `plies` more half-moves,
/// wrapping at sixteen bits.
pub open spec fn played_after(played: u16, plies: int) -> u16 {
    ((played + plies) % 65536) as u16
}

/// The game that a tree describes from node `root`, with `turn` to move
/// there and `played` half-moves made before. A line that cannot be played
/// leads to a dead position without moves.
pub open spec fn tree_game(tree: GameTree, root: int, turn: Player, played: u16) -> Game {
    Game {
        pseudo: |l: Seq<BitMove>|
            match walk(tree, root, l) {
                Some(n) => tree.nodes@[n].edges@.map_values(|e: Edge| e.mv),
                None => Seq::<BitMove>::empty(),
            },
        legal: |l: Seq<BitMove>, m: BitMove|
            match walk(tree, root, l) {
                Some(n) => {
                    let j = find_move(tree.nodes@[n].edges@, m, 0);
                    j >= 0 && tree.nodes@[n].edges@[j].legal
                },
                None => false,
            },
        check: |l: Seq<BitMove>|
            match walk(tree, root, l) {
                Some(n) => tree.nodes@[n].check,
                None => false,
            },
        eval: |l: Seq<BitMove>|
            match walk(tree, root, l) {
                Some(n) => tree.nodes@[n].eval as int,
                None => 0int,
            },
        key: |l: Seq<BitMove>|
            match walk(tree, root, l) {
                Some(n) => tree.nodes@[n].key,
                None => 0u64,
            },
        piece: |l: Seq<BitMove>, sq: SQ|
            match walk(tree, root, l) {
                Some(n) => {
                    let j = find_src(tree.nodes@[n].edges@, sq, 0);
                    if j >= 0 {
                        Some(tree.nodes@[n].edges@[j].mover)
                    } else {
                        None
                    }
                },
                None => None,
            },
        victim: |l: Seq<BitMove>, m: BitMove|
            match walk(tree, root, l) {
                Some(n) => {
                    let j = find_move(tree.nodes@[n].edges@, m, 0);
                    if j >= 0 {
                        tree.nodes@[n].edges@[j].victim
                    } else {
                        None
                    }
                },
                None => None,
            },
        turn: |l: Seq<BitMove>| turn_after(turn, l.len() as int),
        played: |l: Seq<BitMove>| played_after(played, l.len() as int),
    }
}

impl GameTree {
    /// An edge leads to a node of the tree, its move is not the null move,
    /// and a capture names its victim.
    pub open spec fn edge_ok(&self, e: Edge) -> bool {
        &&& e.child < self.nodes@.len()
        &&& !e.mv.null_move()
        &&& e.mv.capture() ==> e.victim.is_some()
    }

    /// A node has a finite evaluation and sound edges.
    pub open spec fn node_ok(&self, n: int) -> bool {
        &&& finite(self.nodes@[n].eval as int)
        &&& forall|j: int|
            0 <= j < self.nodes@[n].edges@.len() ==> self.edge_ok(
                #[trigger] self.nodes@[n].edges@[j],
            )
    }

    /// Every node is sound.
    pub open spec fn wf(&self) -> bool {
        forall|n: int| 0 <= n < self.nodes@.len() ==> #[trigger] self.node_ok(n)
    }

    /// A tree without nodes.
    pub fn new() -> (tree: GameTree)
        ensures
            tree.nodes@.len() == 0,
            tree.wf(),
    {
        GameTree { nodes: Vec::new() }
    }

    /// Adds a node and returns its index.
    pub fn add_node(&mut self, eval: Value, check: bool, key: u64, edges: Vec<Edge>) -> (id: usize)
        ensures
            id == old(self).nodes@.len(),
            final(self).nodes@ == old(self).nodes@.push(Node { eval, check, key, edges }),
    {
        let id = self.nodes.len();
        self.nodes.push(Node { eval, check, key, edges });
        id
    }

    /// Returns whether every node is sound.
    pub fn is_valid(&self) -> (ok: bool)
        ensures
            ok == self.wf(),
    {
        let mut n: usize = 0;
        while n < self.nodes.len()
            invariant
                n <= self.nodes@.len(),
                forall|k: int| 0 <= k < n ==> #[trigger] self.node_ok(k),
            decreases self.nodes@.len() - n,
        {
            let node = &self.nodes[n];
            if node.eval <= NEG_INFINITE || node.eval >= INFINITE {
                assert(!self.node_ok(n as int));
                return false;
            }
            let mut j: usize = 0;
            while j < node.edges.len()
                invariant
                    j <= node.edges@.len(),
                    n < self.nodes@.len(),
                    *node == self.nodes@[n as int],
                    forall|k: int| 0 <= k < j ==> self.edge_ok(#[trigger] node.edges@[k]),
                decreases node.edges@.len() - j,
            {
                let e = node.edges[j];
                if e.child >= self.nodes.len() || e.mv.is_null() || (e.mv.is_capture()
                    && e.victim.is_none()) {
                    assert(!self.edge_ok(node.edges@[j as int]));
                    assert(!self.node_ok(n as int));
                    return false;
                }
                j += 1;
            }
            assert(self.node_ok(n as int));
            n += 1;
        }
        true
    }
}

/// In a sound tree a line leads to a node of the tree or nowhere.
pub proof fn lemma_walk_in_range(tree: GameTree, from: int, line: Seq<BitMove>)
    requires
        tree.wf(),
    ensures
        walk(tree, from, line) matches Some(n) ==> 0 <= n < tree.nodes@.len(),
    decreases line.len(),
{
    if line.len() > 0 {
        lemma_walk_in_range(tree, from, line.drop_last());
        match walk(tree, from, line.drop_last()) {
            Some(n) => {
                let edges = tree.nodes@[n].edges@;
                lemma_find_move(edges, line.last(), 0);
                let j = find_move(edges, line.last(), 0);
                if j >= 0 {
                    assert(tree.node_ok(n));
                    assert(tree.edge_ok(edges[j]));
                }
            },
            None => {},
        }
    }
}

/// In a sound tree, walking a line in two parts leads where walking it at
/// once does.
pub proof fn lemma_walk_concat(tree: GameTree, from: int, prefix: Seq<BitMove>, rest: Seq<BitMove>)
    requires
        tree.wf(),
    ensures
        walk(tree, from, prefix + rest) == match walk(tree, from, prefix) {
            Some(n) => walk(tree, n, rest),
            None => None,
        },
    decreases rest.len(),
{
    if rest.len() == 0 {
        assert(prefix + rest =~= prefix);
        lemma_walk_in_range(tree, from, prefix);
    } else {
        assert((prefix + rest).drop_last() =~= prefix + rest.drop_last());
        assert((prefix + rest).last() == rest.last());
        lemma_walk_concat(tree, from, prefix, rest.drop_last());
    }
}

/// A sound tree describes a well-formed game from any node.
pub proof fn lemma_tree_game_wf(tree: GameTree, root: int, turn: Player, played: u16)
    requires
        tree.wf(),
    ensures
        tree_game(tree, root, turn, played).wf(),
{
    let g = tree_game(tree, root, turn, played);
    assert forall|line: Seq<BitMove>| finite(#[trigger] (g.eval)(line)) by {
        lemma_walk_in_range(tree, root, line);
        match walk(tree, root, line) {
            Some(n) => {
                assert(tree.node_ok(n));
            },
            None => {},
        }
    }
    assert forall|line: Seq<BitMove>, i: int| 0 <= i < (g.pseudo)(line).len() implies g.move_ok(
        line,
        #[trigger] (g.pseudo)(line)[i],
    ) by {
        lemma_walk_in_range(tree, root, line);
        let n = walk(tree, root, line).unwrap();
        let edges = tree.nodes@[n].edges@;
        let m = edges[i].mv;
        assert((g.pseudo)(line)[i] == m);
        lemma_find_src(edges, m.src(), 0);
        lemma_find_move(edges, m, 0);
        assert(tree.node_ok(n));
        let j = find_move(edges, m, 0);
        assert(tree.edge_ok(edges[j]));
    }
}

/// Seen from the node that a line leads to, the game of a tree is the game
/// from the root seen from the end of that line.
pub proof fn lemma_tree_game_rebase(
    tree: GameTree,
    root: int,
    turn: Player,
    played: u16,
    line: Seq<BitMove>,
    n: int,
)
    requires
        tree.wf(),
        walk(tree, root, line) == Some(n),
    ensures
        tree_game(
            tree,
            n,
            turn_after(turn, line.len() as int),
            played_after(played, line.len() as int),
        ) == tree_game(tree, root, turn, played).rebase(line),
{
    let here = tree_game(
        tree,
        n,
        turn_after(turn, line.len() as int),
        played_after(played, line.len() as int),
    );
    let there = tree_game(tree, root, turn, played).rebase(line);
    assert forall|l: Seq<BitMove>| #[trigger]
        walk(tree, root, line + l) == walk(tree, n, l) by {
        lemma_walk_concat(tree, root, line, l);
    }
    assert(here.pseudo =~= there.pseudo);
    assert(here.legal =~= there.legal);
    assert(here.check =~= there.check);
    assert(here.eval =~= there.eval);
    assert(here.key =~= there.key);
    assert(here.piece =~= there.piece);
    assert(here.victim =~= there.victim);
    assert(here.turn =~= there.turn);
    assert(here.played =~= there.played);
}

} // verus!
